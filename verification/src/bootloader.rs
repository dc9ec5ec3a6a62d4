//! The bootloader persona: an emulated NXP MCUBOOT/KBOOT USB-HID device
//! (VID 0x1FC9, PID 0x0022), as the QA40x re-enumerates after the register
//! 0x0F magic.
//!
//! Protocol:
//! * HID reports, 60 bytes: `[report id][0x00][len:2 LE][payload][zero pad]`.
//!   Report ids: 1 = command OUT, 2 = data OUT, 3 = response IN, 4 = data IN.
//! * `ReceiveSbFile` (tag 0x08, param0 = byte count) starts the transfer; the
//!   SB2.1 image follows in data reports (28 payload bytes each); the target
//!   answers with generic responses (tag 0xA0, status u32 LE) after the
//!   command and after the last byte.
//!
//! On a successful "flash" the persona validates the SB2.1 shape ("STMP" at
//! offset 0x14) and reports the image to the simulator, which decides the new
//! firmware version and "resets" back into the analyzer.

use crate::backend::{
    answer, step, DeviceSummary, InStep, InView, Moment, SetupPacket, Stall, UsbBackend, KIND_CLASS,
};
use crate::identity::{bootloader_identity, is_bootloader_identity, Identity};
use crate::sim::{event_views, images_fit, EventView, SimEvent};
use crate::wire::{
    get_le16, get_le32, le16, le16_at, le32, le32_at, lemma_le32_within, prefix, put, put_le16,
    put_le32, put_zeros, take_prefix, zeros,
};
use std::collections::VecDeque;
use vstd::prelude::*;

verus! {

/// Bytes of a HID report.
pub const REPORT_SIZE: usize = 60;

pub const REPORT_CMD_OUT: u8 = 1;

pub const REPORT_DATA_OUT: u8 = 2;

pub const REPORT_RESPONSE_IN: u8 = 3;

pub const CMD_RECEIVE_SB_FILE: u8 = 0x08;

pub const CMD_RESET: u8 = 0x0B;

pub const RESPONSE_GENERIC: u8 = 0xA0;

/// kStatus codes (KBOOT).
pub const STATUS_SUCCESS: u32 = 0;

pub const STATUS_ROM_LDR_SIGNATURE: u32 = 10101;

pub const STATUS_UNKNOWN_COMMAND: u32 = 10003;

/// HID class requests.
pub const HID_GET_REPORT: u8 = 0x01;

pub const HID_SET_REPORT: u8 = 0x09;

pub const HID_SET_IDLE: u8 = 0x0A;

pub const HID_SET_PROTOCOL: u8 = 0x0B;

/// Payload bytes of a data report.
pub const DATA_PAYLOAD: usize = 28;

/// A response-IN HID report around a KBOOT packet.
pub open spec fn response_report(packet: Seq<u8>) -> Seq<u8> {
    seq![REPORT_RESPONSE_IN, 0] + le16(packet.len() as u16) + packet + zeros(
        (REPORT_SIZE - 4 - packet.len()) as nat,
    )
}

/// A generic response packet: two params, the status and the command tag.
pub open spec fn generic_packet(status: u32, cmd_tag: u8) -> Seq<u8> {
    seq![RESPONSE_GENERIC, 0, 0, 2] + le32(status) + le32(cmd_tag as u32)
}

/// A framed generic response.
pub open spec fn generic_report(status: u32, cmd_tag: u8) -> Seq<u8> {
    response_report(generic_packet(status, cmd_tag))
}

/// Frames a KBOOT packet into a response-IN HID report.
fn frame_response(packet: &[u8]) -> (r: Vec<u8>)
    requires
        packet@.len() <= REPORT_SIZE - 4,
    ensures
        r@ == response_report(packet@),
{
    let mut r: Vec<u8> = Vec::new();
    r.push(REPORT_RESPONSE_IN);
    r.push(0);
    put_le16(&mut r, packet.len() as u16);
    put(&mut r, packet);
    put_zeros(&mut r, REPORT_SIZE - 4 - packet.len());
    assert(r@ =~= response_report(packet@));
    r
}

/// Generic response: tag 0xA0, two params (status, command tag).
fn generic_response(status: u32, cmd_tag: u8) -> (r: Vec<u8>)
    ensures
        r@ == generic_report(status, cmd_tag),
{
    let mut pkt: Vec<u8> = Vec::new();
    pkt.push(RESPONSE_GENERIC);
    pkt.push(0);
    pkt.push(0);
    pkt.push(2);
    put_le32(&mut pkt, status);
    put_le32(&mut pkt, cmd_tag as u32);
    assert(pkt@ =~= generic_packet(status, cmd_tag));
    frame_response(&pkt)
}

/// The payload of an OUT report: the bytes after its 4-byte framing, up to the
/// declared length.
pub open spec fn report_payload(data: Seq<u8>) -> Seq<u8> {
    prefix(data.skip(4), le16_at(data, 2) as int)
}

/// The image length a receive command announces: its first parameter, or 0
/// when it carries none.
pub open spec fn announced_length(pkt: Seq<u8>) -> nat {
    if pkt.len() >= 8 {
        le32_at(pkt, 4) as nat
    } else {
        0
    }
}

/// How many data reports an image of `expected` bytes takes, at least one.
pub open spec fn report_count(expected: nat) -> nat {
    if expected == 0 {
        1
    } else {
        (expected + DATA_PAYLOAD as nat - 1) as nat / DATA_PAYLOAD as nat
    }
}

/// The SB2.1 container shape: "STMP" at 0x14.
pub open spec fn looks_sb2(image: Seq<u8>) -> bool {
    &&& image.len() >= 0x18
    &&& image[0x14] == 0x53
    &&& image[0x15] == 0x54
    &&& image[0x16] == 0x4D
    &&& image[0x17] == 0x50
}

/// Where a firmware transfer stands.
pub enum PhaseView {
    Idle,
    Receiving { expected: nat, image: Seq<u8> },
    Done,
}

/// The contents of a [`Bootloader`], apart from its USB identity.
pub struct BootloaderView {
    pub phase: PhaseView,
    /// Queued response reports, oldest first.
    pub responses: Seq<Seq<u8>>,
    /// Data reports of the announced image, once one was announced.
    pub reports: Option<nat>,
    pub events: Seq<EventView>,
}

/// The state of a bootloader that has just booted.
pub open spec fn booted() -> BootloaderView {
    BootloaderView {
        phase: PhaseView::Idle,
        responses: Seq::empty(),
        reports: None,
        events: Seq::empty(),
    }
}

impl BootloaderView {
    /// Every queued response is a whole report, and images are no longer than
    /// a 32-bit length announces.
    pub open spec fn wf(self) -> bool {
        &&& forall|i: int|
            0 <= i < self.responses.len() ==> (#[trigger] self.responses[i]).len() == REPORT_SIZE
        &&& self.phase matches PhaseView::Receiving { expected, image } ==> expected <= u32::MAX
        &&& images_fit(self.events)
    }

    /// The state with one more response.
    pub open spec fn respond(self, status: u32, cmd_tag: u8) -> BootloaderView {
        BootloaderView {
            responses: self.responses.push(generic_report(status, cmd_tag)),
            ..self
        }
    }

    /// The state after a command packet.
    pub open spec fn after_command(self, pkt: Seq<u8>) -> BootloaderView {
        if pkt.len() < 4 {
            self
        } else if pkt[0] == CMD_RECEIVE_SB_FILE {
            let expected = announced_length(pkt);
            BootloaderView {
                phase: PhaseView::Receiving { expected, image: Seq::empty() },
                reports: Some(report_count(expected)),
                ..self
            }.respond(STATUS_SUCCESS, CMD_RECEIVE_SB_FILE)
        } else if pkt[0] == CMD_RESET {
            BootloaderView {
                events: self.events.push(EventView::BootloaderReset),
                ..self
            }.respond(STATUS_SUCCESS, CMD_RESET)
        } else {
            self.respond(STATUS_UNKNOWN_COMMAND, pkt[0])
        }
    }

    /// The state after a data payload: gathered until the announced length is
    /// there, then judged by the container shape. Outside of a transfer it is
    /// ignored.
    pub open spec fn after_data(self, payload: Seq<u8>) -> BootloaderView {
        match self.phase {
            PhaseView::Receiving { expected, image } => {
                let all = image + payload;
                let whole = all.take(expected as int);
                if all.len() < expected {
                    BootloaderView {
                        phase: PhaseView::Receiving { expected, image: all },
                        ..self
                    }
                } else if looks_sb2(whole) {
                    BootloaderView {
                        phase: PhaseView::Done,
                        events: self.events.push(EventView::FlashCompleted { image: whole }),
                        ..self
                    }.respond(STATUS_SUCCESS, CMD_RECEIVE_SB_FILE)
                } else {
                    BootloaderView { phase: PhaseView::Idle, ..self }.respond(
                        STATUS_ROM_LDR_SIGNATURE,
                        CMD_RECEIVE_SB_FILE,
                    )
                }
            },
            _ => self,
        }
    }

    /// The state after an OUT report.
    pub open spec fn after_report(self, data: Seq<u8>) -> BootloaderView {
        if data.len() < 4 {
            self
        } else if data[0] == REPORT_CMD_OUT {
            self.after_command(report_payload(data))
        } else if data[0] == REPORT_DATA_OUT {
            self.after_data(report_payload(data))
        } else {
            self
        }
    }

    /// The state without its oldest response, if there is one.
    pub open spec fn after_response(self) -> BootloaderView {
        if self.responses.len() > 0 {
            BootloaderView { responses: self.responses.skip(1), ..self }
        } else {
            self
        }
    }

    /// The answer to a HID class request. Requests whose data stage goes host to
    /// device are answered with nothing but their status.
    pub open spec fn class_answer(self, setup: SetupPacket) -> Result<Seq<u8>, Stall> {
        if setup.kind() != KIND_CLASS {
            Err(Stall)
        } else if setup.b_request == HID_SET_REPORT || setup.b_request == HID_SET_IDLE
            || setup.b_request == HID_SET_PROTOCOL {
            Ok(Seq::empty())
        } else if setup.b_request == HID_GET_REPORT {
            if !setup.device_to_host() {
                Ok(Seq::empty())
            } else if self.responses.len() > 0 {
                Ok(self.responses[0])
            } else {
                Ok(zeros(REPORT_SIZE as nat))
            }
        } else {
            Err(Stall)
        }
    }

    /// The state after a HID class request.
    pub open spec fn after_class(self, setup: SetupPacket, data_out: Seq<u8>) -> BootloaderView {
        if setup.kind() != KIND_CLASS {
            self
        } else if setup.b_request == HID_SET_REPORT {
            self.after_report(data_out)
        } else if setup.b_request == HID_GET_REPORT && setup.device_to_host() {
            self.after_response()
        } else {
            self
        }
    }

    /// What an IN transfer finds: the oldest response, cut to the asked length
    /// but never to nothing.
    pub open spec fn in_step(self, len: usize) -> InView {
        if self.responses.len() == 0 {
            InView::Pending
        } else {
            InView::Data(
                prefix(
                    self.responses[0],
                    if len < 1 {
                        1
                    } else {
                        len as int
                    },
                ),
            )
        }
    }
}

/// Where a firmware transfer stands.
#[derive(Debug)]
enum Phase {
    Idle,
    Receiving { expected: usize, image: Vec<u8> },
    Done,
}

/// The bytes of queued reports.
pub open spec fn report_views(reports: Seq<Vec<u8>>) -> Seq<Seq<u8>> {
    reports.map_values(|r: Vec<u8>| r@)
}

/// The bootloader persona.
#[derive(Debug)]
pub struct Bootloader {
    identity: Identity,
    phase: Phase,
    /// Queued IN reports (responses), already framed to 60 bytes.
    responses: VecDeque<Vec<u8>>,
    /// Data reports of the announced image, for the simulated flash-write time.
    reports: Option<usize>,
    /// Events for the simulator, oldest first.
    events: Vec<SimEvent>,
}

impl View for Bootloader {
    type V = BootloaderView;

    closed spec fn view(&self) -> BootloaderView {
        BootloaderView {
            phase: match self.phase {
                Phase::Idle => PhaseView::Idle,
                Phase::Receiving { expected, image } => PhaseView::Receiving {
                    expected: expected as nat,
                    image: image@,
                },
                Phase::Done => PhaseView::Done,
            },
            responses: report_views(self.responses@),
            reports: match self.reports {
                Some(n) => Some(n as nat),
                None => None,
            },
            events: event_views(self.events@),
        }
    }
}

impl Bootloader {
    /// What holds between transfers.
    pub open spec fn wf(self) -> bool {
        &&& self@.wf()
        &&& is_bootloader_identity(self.id())
    }

    /// The USB identity.
    pub closed spec fn id(self) -> Identity {
        self.identity
    }

    /// Boots the bootloader persona, idle.
    pub fn new() -> (b: Self)
        ensures
            b.wf(),
            b@ == booted(),
    {
        let b = Bootloader {
            identity: bootloader_identity(),
            phase: Phase::Idle,
            responses: VecDeque::new(),
            reports: None,
            events: Vec::new(),
        };
        assert(b@.responses =~= Seq::<Seq<u8>>::empty());
        assert(b@.events =~= Seq::<EventView>::empty());
        b
    }

    /// The data reports of the announced image, once one was announced: the
    /// simulated flash-write time is spread over them.
    pub fn announced_reports(&self) -> (n: Option<usize>)
        ensures
            match n {
                Some(k) => self@.reports == Some(k as nat),
                None => self@.reports is None,
            },
    {
        self.reports
    }

    /// Queues a generic response.
    fn queue_response(&mut self, status: u32, cmd_tag: u8)
        requires
            old(self).wf(),
        ensures
            final(self).wf(),
            final(self).id() == old(self).id(),
            final(self)@ == old(self)@.respond(status, cmd_tag),
    {
        let r = generic_response(status, cmd_tag);
        assert(r@.len() == REPORT_SIZE);
        self.responses.push_back(r);
        assert(self@.responses =~= old(self)@.responses.push(generic_report(status, cmd_tag)));
    }

    /// Handles one OUT report (from the interrupt OUT endpoint or a
    /// SET_REPORT).
    pub fn handle_report(&mut self, data: &[u8])
        requires
            old(self).wf(),
        ensures
            final(self).wf(),
            final(self).id() == old(self).id(),
            final(self)@ == old(self)@.after_report(data@),
    {
        if data.len() < 4 {
            return ;
        }
        let declared: usize = get_le16(data, 2) as usize;
        let end: usize = if declared < data.len() - 4 {
            4 + declared
        } else {
            data.len()
        };
        let payload = vstd::slice::slice_subrange(data, 4, end);
        assert(payload@ =~= report_payload(data@));
        match data[0] {
            REPORT_CMD_OUT => self.handle_command(payload),
            REPORT_DATA_OUT => self.handle_data(payload),
            _ => {},
        }
    }

    /// Handles a command packet.
    fn handle_command(&mut self, pkt: &[u8])
        requires
            old(self).wf(),
        ensures
            final(self).wf(),
            final(self).id() == old(self).id(),
            final(self)@ == old(self)@.after_command(pkt@),
    {
        if pkt.len() < 4 {
            return ;
        }
        match pkt[0] {
            CMD_RECEIVE_SB_FILE => {
                let expected: usize = if pkt.len() >= 8 {
                    get_le32(pkt, 4) as usize
                } else {
                    0
                };
                let count: usize = if expected == 0 {
                    1
                } else {
                    (expected - 1) / DATA_PAYLOAD + 1
                };
                self.reports = Some(count);
                self.phase = Phase::Receiving { expected, image: Vec::new() };
                self.queue_response(STATUS_SUCCESS, CMD_RECEIVE_SB_FILE);
            },
            CMD_RESET => {
                self.events.push(SimEvent::BootloaderReset);
                assert(self@.events =~= old(self)@.events.push(EventView::BootloaderReset));
                self.queue_response(STATUS_SUCCESS, CMD_RESET);
            },
            tag => self.queue_response(STATUS_UNKNOWN_COMMAND, tag),
        }
    }

    /// Handles the payload of a data report.
    fn handle_data(&mut self, payload: &[u8])
        requires
            old(self).wf(),
        ensures
            final(self).wf(),
            final(self).id() == old(self).id(),
            final(self)@ == old(self)@.after_data(payload@),
    {
        let mut phase = Phase::Idle;
        std::mem::swap(&mut phase, &mut self.phase);
        match phase {
            Phase::Receiving { expected, image } => {
                let mut image = image;
                put(&mut image, payload);
                let ghost all = image@;
                if image.len() < expected {
                    self.phase = Phase::Receiving { expected, image };
                    return ;
                }
                image.truncate(expected);
                assert(image@ =~= all.take(expected as int));
                if image.len() >= 0x18 && image[0x14] == 0x53 && image[0x15] == 0x54 && image[0x16]
                    == 0x4D && image[0x17] == 0x50 {
                    self.phase = Phase::Done;
                    let ghost whole = image@;
                    self.events.push(SimEvent::FlashCompleted { image });
                    assert(self@.events =~= old(self)@.events.push(
                        EventView::FlashCompleted { image: whole },
                    ));
                    self.queue_response(STATUS_SUCCESS, CMD_RECEIVE_SB_FILE);
                } else {
                    self.queue_response(STATUS_ROM_LDR_SIGNATURE, CMD_RECEIVE_SB_FILE);
                }
            },
            other => {
                self.phase = other;
            },
        }
    }

    /// Takes the oldest response.
    fn pop_response(&mut self) -> (r: Option<Vec<u8>>)
        requires
            old(self).wf(),
        ensures
            final(self).wf(),
            final(self).id() == old(self).id(),
            final(self)@ == old(self)@.after_response(),
            match r {
                Some(v) => old(self)@.responses.len() > 0 && v@ == old(self)@.responses[0],
                None => old(self)@.responses.len() == 0,
            },
    {
        let r = self.responses.pop_front();
        if r.is_some() {
            assert(self@.responses =~= old(self)@.responses.skip(1));
        }
        r
    }
}

/// Whether an OUT report carries image data, whose completion is paced by the
/// simulated flash-write time.
pub fn is_data_report(data: &[u8]) -> (b: bool)
    ensures
        b == (data@.len() > 0 && data@[0] == REPORT_DATA_OUT),
{
    data.len() > 0 && data[0] == REPORT_DATA_OUT
}

impl UsbBackend for Bootloader {
    open spec fn valid(&self) -> bool {
        self.wf()
    }

    open spec fn device(&self) -> Identity {
        self.id()
    }

    open spec fn pending_events(&self) -> Seq<EventView> {
        self@.events
    }

    fn summary(&self) -> (s: DeviceSummary) {
        self.identity.summary.clone()
    }

    /// Standard requests, then the HID class requests: SET_REPORT is the
    /// fallback path for OUT reports, GET_REPORT serves a queued response.
    fn control(&mut self, setup: SetupPacket, data_out: &[u8]) -> (r: Result<Vec<u8>, Stall>)
        ensures
            answer(r) == (match old(self).id().standard_answer(setup) {
                Some(a) => a,
                None => old(self)@.class_answer(setup),
            }),
            final(self)@ == (match old(self).id().standard_answer(setup) {
                Some(_) => old(self)@,
                None => old(self)@.after_class(setup, data_out@),
            }),
    {
        if let Some(handled) = self.identity.handle_standard(setup) {
            return handled;
        }
        if setup.request_kind() == KIND_CLASS {
            match setup.b_request {
                HID_SET_REPORT => {
                    self.handle_report(data_out);
                    let none: Vec<u8> = Vec::new();
                    return Ok(none);
                },
                HID_SET_IDLE | HID_SET_PROTOCOL => {
                    let none: Vec<u8> = Vec::new();
                    return Ok(none);
                },
                HID_GET_REPORT => {
                    if !setup.is_in() {
                        let none: Vec<u8> = Vec::new();
                        return Ok(none);
                    }
                    return match self.pop_response() {
                        Some(r) => Ok(r),
                        None => {
                            let mut r: Vec<u8> = Vec::new();
                            put_zeros(&mut r, REPORT_SIZE);
                            assert(r@ =~= zeros(REPORT_SIZE as nat));
                            Ok(r)
                        },
                    };
                },
                _ => {},
            }
        }
        Err(Stall)
    }

    /// Every OUT transfer is a report.
    fn out_transfer(&mut self, ep: u8, data: &[u8], m: &Moment) -> (r: Result<usize, Stall>)
        ensures
            r == Ok::<usize, Stall>(data@.len() as usize),
            final(self)@ == old(self)@.after_report(data@),
    {
        self.handle_report(data);
        Ok(data.len())
    }

    fn in_transfer(&mut self, ep: u8, len: usize) -> (r: Result<InStep, Stall>)
        ensures
            step(r) == Ok::<InView, Stall>(old(self)@.in_step(len)),
            final(self)@ == old(self)@.after_response(),
    {
        match self.pop_response() {
            Some(r) => {
                let n: usize = if len < 1 {
                    1
                } else {
                    len
                };
                Ok(InStep::Data(take_prefix(&r, n)))
            },
            None => Ok(InStep::Pending),
        }
    }

    fn take_events(&mut self) -> (events: Vec<SimEvent>)
        ensures
            final(self)@ == (BootloaderView { events: Seq::empty(), ..old(self)@ }),
    {
        let mut events: Vec<SimEvent> = Vec::new();
        std::mem::swap(&mut events, &mut self.events);
        assert(self@.events =~= Seq::<EventView>::empty());
        events
    }
}

/// An OUT report around a payload, with any padding behind it.
pub open spec fn out_report(id: u8, payload: Seq<u8>, pad: Seq<u8>) -> Seq<u8> {
    seq![id, 0] + le16(payload.len() as u16) + payload + pad
}

/// A report carries its payload whatever pads it.
pub proof fn lemma_out_report(b: BootloaderView, payload: Seq<u8>, pad: Seq<u8>)
    requires
        payload.len() <= u16::MAX,
    ensures
        b.after_report(out_report(REPORT_CMD_OUT, payload, pad)) == b.after_command(payload),
        b.after_report(out_report(REPORT_DATA_OUT, payload, pad)) == b.after_data(payload),
{
    lemma_payload(REPORT_CMD_OUT, payload, pad);
    lemma_payload(REPORT_DATA_OUT, payload, pad);
}

/// The payload of a framed report.
proof fn lemma_payload(id: u8, payload: Seq<u8>, pad: Seq<u8>)
    requires
        payload.len() <= u16::MAX,
    ensures
        out_report(id, payload, pad)[0] == id,
        out_report(id, payload, pad).len() >= 4,
        report_payload(out_report(id, payload, pad)) == payload,
{
    let data = out_report(id, payload, pad);
    let n = payload.len() as u16;
    assert(data[2] == le16(n)[0] && data[3] == le16(n)[1]);
    assert(le16_at(data, 2) == n);
    assert(data.skip(4) =~= payload + pad);
    assert(report_payload(data) =~= payload);
}

/// A generic response packet can be read back.
proof fn lemma_generic_packet(status: u32, cmd_tag: u8)
    ensures
        generic_packet(status, cmd_tag).len() == 12,
        generic_packet(status, cmd_tag)[0] == RESPONSE_GENERIC,
        le32_at(generic_packet(status, cmd_tag), 4) == status,
        le32_at(generic_packet(status, cmd_tag), 8) == cmd_tag,
{
    let packet = generic_packet(status, cmd_tag);
    assert(packet.subrange(4, 8) =~= le32(status));
    lemma_le32_within(packet, 4, status);
    assert(packet.subrange(8, 12) =~= le32(cmd_tag as u32));
    lemma_le32_within(packet, 8, cmd_tag as u32);
}

/// A response report is a whole report and carries its packet.
proof fn lemma_response_report(packet: Seq<u8>)
    requires
        packet.len() <= REPORT_SIZE - 4,
    ensures
        response_report(packet).len() == REPORT_SIZE,
        response_report(packet)[0] == REPORT_RESPONSE_IN,
        report_payload(response_report(packet)) == packet,
{
    let pad = zeros((REPORT_SIZE - 4 - packet.len()) as nat);
    lemma_payload(REPORT_RESPONSE_IN, packet, pad);
    assert(response_report(packet) =~= out_report(REPORT_RESPONSE_IN, packet, pad));
}

/// Every response is a whole report with the response id, and its payload is
/// the packet: tag, status and command tag can be read back.
pub proof fn lemma_generic_report(status: u32, cmd_tag: u8)
    ensures
        generic_report(status, cmd_tag).len() == REPORT_SIZE,
        generic_report(status, cmd_tag)[0] == REPORT_RESPONSE_IN,
        report_payload(generic_report(status, cmd_tag))[0] == RESPONSE_GENERIC,
        le32_at(report_payload(generic_report(status, cmd_tag)), 4) == status,
        le32_at(report_payload(generic_report(status, cmd_tag)), 8) == cmd_tag,
{
    lemma_generic_packet(status, cmd_tag);
    lemma_response_report(generic_packet(status, cmd_tag));
}

/// The bytes of a run of chunks.
pub open spec fn joined(chunks: Seq<Seq<u8>>) -> Seq<u8>
    decreases chunks.len(),
{
    if chunks.len() == 0 {
        Seq::empty()
    } else {
        joined(chunks.drop_last()) + chunks.last()
    }
}

impl BootloaderView {
    /// The state after a run of data payloads.
    pub open spec fn after_chunks(self, chunks: Seq<Seq<u8>>) -> BootloaderView
        decreases chunks.len(),
    {
        if chunks.len() == 0 {
            self
        } else {
            self.after_chunks(chunks.drop_last()).after_data(chunks.last())
        }
    }

    /// How a transfer of `image` ends: flashed and reported when it has the
    /// SB2.1 shape, rejected otherwise.
    pub open spec fn after_image(self, image: Seq<u8>) -> BootloaderView {
        if looks_sb2(image) {
            BootloaderView {
                phase: PhaseView::Done,
                events: self.events.push(EventView::FlashCompleted { image }),
                ..self
            }.respond(STATUS_SUCCESS, CMD_RECEIVE_SB_FILE)
        } else {
            BootloaderView { phase: PhaseView::Idle, ..self }.respond(
                STATUS_ROM_LDR_SIGNATURE,
                CMD_RECEIVE_SB_FILE,
            )
        }
    }
}

/// What payloads of a transfer leave: the state gathers them until there is one
/// and the announced length is there, and later payloads change nothing.
proof fn lemma_chunks(b: BootloaderView, chunks: Seq<Seq<u8>>, expected: nat)
    requires
        b.phase == (PhaseView::Receiving { expected, image: Seq::empty() }),
    ensures
        b.after_chunks(chunks) == (if chunks.len() > 0 && joined(chunks).len() >= expected {
            b.after_image(joined(chunks).take(expected as int))
        } else {
            BootloaderView {
                phase: PhaseView::Receiving { expected, image: joined(chunks) },
                ..b
            }
        }),
    decreases chunks.len(),
{
    if chunks.len() > 0 {
        let init = chunks.drop_last();
        lemma_chunks(b, init, expected);
        if init.len() > 0 && joined(init).len() >= expected {
            assert(joined(chunks).take(expected as int) =~= joined(init).take(expected as int));
        }
    }
}

/// Flashing an image: announcing a length and sending data reports, cut in any
/// way, hands the first bytes of that length to the simulator as the image,
/// once, and acknowledges it, when they have the SB2.1 shape. Any other image
/// is rejected with the signature status and no event, and the bootloader is
/// idle again. This holds for an announced length of 0 too, which the first
/// payload completes. Payloads before the completing one and after it queue
/// nothing: neither a response nor an event.
pub proof fn lemma_flash(b: BootloaderView, command: Seq<u8>, chunks: Seq<Seq<u8>>)
    requires
        command.len() >= 4,
        command[0] == CMD_RECEIVE_SB_FILE,
    ensures
        ({
            let announced = b.after_command(command);
            let done = announced.after_chunks(chunks);
            let sent = joined(chunks);
            let n = announced_length(command);
            let complete = chunks.len() > 0 && sent.len() >= n;
            let image = sent.take(n as int);
            let ack = generic_report(STATUS_SUCCESS, CMD_RECEIVE_SB_FILE);
            let nak = generic_report(STATUS_ROM_LDR_SIGNATURE, CMD_RECEIVE_SB_FILE);
            &&& announced.responses == b.responses.push(ack)
            &&& announced.events == b.events
            &&& !complete ==> {
                &&& done.responses == announced.responses
                &&& done.events == b.events
                &&& done.phase == (PhaseView::Receiving { expected: n, image: sent })
            }
            &&& complete && looks_sb2(image) ==> {
                &&& done.responses == announced.responses.push(ack)
                &&& done.events == b.events.push(EventView::FlashCompleted { image })
                &&& done.phase == PhaseView::Done
            }
            &&& complete && !looks_sb2(image) ==> {
                &&& done.responses == announced.responses.push(nak)
                &&& done.events == b.events
                &&& done.phase == PhaseView::Idle
            }
        }),
{
    lemma_chunks(b.after_command(command), chunks, announced_length(command));
}

/// Data that was not announced, or that follows a finished transfer, changes
/// nothing.
pub proof fn lemma_stray_data(b: BootloaderView, payload: Seq<u8>)
    requires
        !(b.phase is Receiving),
    ensures
        b.after_data(payload) == b,
{
}

/// A unit that completed or rejected a flash takes another image just as a
/// fresh one does: announcing starts over.
pub proof fn lemma_announce_restarts(b: BootloaderView, command: Seq<u8>)
    requires
        command.len() >= 4,
        command[0] == CMD_RECEIVE_SB_FILE,
    ensures
        b.after_command(command).phase == (PhaseView::Receiving {
            expected: announced_length(command),
            image: Seq::empty(),
        }),
        b.after_command(command).reports == Some(report_count(announced_length(command))),
{
}

impl BootloaderView {
    /// The state after `k` responses were read.
    pub open spec fn after_responses(self, k: nat) -> BootloaderView
        decreases k,
    {
        if k == 0 {
            self
        } else {
            self.after_responses((k - 1) as nat).after_response()
        }
    }
}

/// Responses are read in the order in which they were queued, each once, and
/// nothing is left after the last of them.
pub proof fn lemma_responses_in_order(b: BootloaderView, k: nat, len: usize)
    requires
        k <= b.responses.len(),
        0 < len,
    ensures
        b.after_responses(k).responses == b.responses.skip(k as int),
        b.after_responses(k).in_step(len) == (if k < b.responses.len() {
            InView::Data(prefix(b.responses[k as int], len as int))
        } else {
            InView::Pending
        }),
    decreases k,
{
    if k > 0 {
        lemma_responses_in_order(b, (k - 1) as nat, len);
    }
    assert(b.after_responses(k).responses =~= b.responses.skip(k as int));
}

} // verus!
