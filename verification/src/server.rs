//! USB/IP device side: the operation phase (device list and import) and the
//! URB phase (submit, unlink, completion).
//!
//! When a device "reboots" (bootloader entry, end of a fake flash) its
//! connection is dropped so the client sees a real unplug, and the next attach
//! enumerates the new persona.

use crate::backend::{answer, DeviceSummary, Moment, SetupPacket, Stall, SummaryView};
use crate::proto::{
    device_block_bytes, lemma_ret_submit, low32, op_header, op_header_bytes, ret_submit,
    ret_submit_bytes, ret_unlink, ret_unlink_bytes, usb_device_block, UrbHeader, DIR_IN, DIR_OUT,
    OP_REP_DEVLIST, OP_REP_IMPORT, OP_REQ_DEVLIST, OP_REQ_IMPORT, ST_ECONNRESET, ST_EPIPE, ST_OK,
    USBIP_CMD_SUBMIT, USBIP_CMD_UNLINK,
};
use crate::identity::Identity;
use crate::options::SimOptions;
use crate::persona::PersonaView;
use crate::sim::{SimView, Simulator};
use crate::text::{chars_of, same_text, string_of, texts};
use crate::wire::{be16_at, be32, be32_at, get_be16, prefix, put, put_be32, take_prefix, zeros};
use std::collections::HashSet;
use vstd::prelude::*;
use vstd::utf8::{decode_utf8, encode_utf8, valid_utf8};

verus! {

broadcast use vstd::std_specs::hash::group_hash_axioms;

/// The operation a client opens a connection with.
#[derive(Debug, Clone, Copy, PartialEq, Eq, Structural)]
pub enum OpRequest {
    /// List the exported devices.
    Devlist,
    /// Import a device; its 32-byte bus id field follows.
    Import,
    /// Anything else: the connection is closed.
    Unknown(u16),
}

/// The operation in an 8-byte operation header.
pub open spec fn operation(op: Seq<u8>) -> OpRequest {
    let code = be16_at(op, 2);
    if code == OP_REQ_DEVLIST {
        OpRequest::Devlist
    } else if code == OP_REQ_IMPORT {
        OpRequest::Import
    } else {
        OpRequest::Unknown(code)
    }
}

/// Decodes an operation header.
pub fn op_request(op: &[u8; 8]) -> (r: OpRequest)
    ensures
        r == operation(op@),
{
    match get_be16(op.as_slice(), 2) {
        OP_REQ_DEVLIST => OpRequest::Devlist,
        OP_REQ_IMPORT => OpRequest::Import,
        code => OpRequest::Unknown(code),
    }
}

/// What a device list shows of a unit.
#[derive(Debug)]
pub struct Exported {
    pub busid: String,
    pub summary: DeviceSummary,
    pub unplugged: bool,
}

/// The low byte of an interface count.
pub open spec fn count_field(n: nat) -> u8 {
    (n % 256) as u8
}

/// The bytes of an interface list.
pub open spec fn interface_list(interfaces: Seq<(u8, u8, u8)>) -> Seq<u8>
    decreases interfaces.len(),
{
    if interfaces.len() == 0 {
        Seq::empty()
    } else {
        let i = interfaces.last();
        interface_list(interfaces.drop_last()) + seq![i.0, i.1, i.2, 0]
    }
}

/// The device list entry of a unit; an unplugged one shows nothing, like an
/// empty port.
pub open spec fn entry_bytes(e: Exported) -> Seq<u8> {
    if e.unplugged {
        Seq::empty()
    } else {
        device_block_bytes(e.busid@, e.summary@, count_field(e.summary@.interfaces.len()))
            + interface_list(e.summary@.interfaces)
    }
}

/// The device list entries of some units.
pub open spec fn entries_bytes(devices: Seq<Exported>) -> Seq<u8>
    decreases devices.len(),
{
    if devices.len() == 0 {
        Seq::empty()
    } else {
        entries_bytes(devices.drop_last()) + entry_bytes(devices.last())
    }
}

/// How many of some units are plugged in.
pub open spec fn present(devices: Seq<Exported>) -> nat
    decreases devices.len(),
{
    if devices.len() == 0 {
        0
    } else if devices.last().unplugged {
        present(devices.drop_last())
    } else {
        present(devices.drop_last()) + 1
    }
}

/// The reply to a device list request.
pub open spec fn devlist_bytes(devices: Seq<Exported>) -> Seq<u8> {
    op_header_bytes(OP_REP_DEVLIST, 0) + be32(low32(present(devices)))
        + entries_bytes(devices)
}

/// Appends an interface list.
fn put_interfaces(out: &mut Vec<u8>, interfaces: &[(u8, u8, u8)])
    ensures
        final(out)@ == old(out)@ + interface_list(interfaces@),
{
    let ghost before = out@;
    let mut i: usize = 0;
    assert(out@ =~= before + interface_list(interfaces@.take(0)));
    while i < interfaces.len()
        invariant
            i <= interfaces@.len(),
            out@ == before + interface_list(interfaces@.take(i as int)),
        decreases interfaces@.len() - i,
    {
        let (class, subclass, protocol) = interfaces[i];
        let ghost so_far = out@;
        out.push(class);
        out.push(subclass);
        out.push(protocol);
        out.push(0);
        assert(interfaces@.take(i + 1).drop_last() =~= interfaces@.take(i as int));
        assert(out@ =~= before + interface_list(interfaces@.take(i + 1)));
        i += 1;
    }
    assert(interfaces@.take(i as int) =~= interfaces@);
}

/// The low byte of a count.
fn count_byte(n: usize) -> (b: u8)
    ensures
        b == count_field(n as nat),
{
    (n % 256) as u8
}

/// The reply to a device list request: every unit that is plugged in.
pub fn devlist_reply(devices: &[Exported]) -> (reply: Vec<u8>)
    ensures
        reply@ == devlist_bytes(devices@),
{
    let mut entries: Vec<u8> = Vec::new();
    let mut count: usize = 0;
    let mut i: usize = 0;
    while i < devices.len()
        invariant
            i <= devices@.len(),
            count <= i,
            count == present(devices@.take(i as int)),
            entries@ == entries_bytes(devices@.take(i as int)),
        decreases devices@.len() - i,
    {
        let e = &devices[i];
        let ghost so_far = entries@;
        assert(devices@.take(i + 1).drop_last() =~= devices@.take(i as int));
        if !e.unplugged {
            count += 1;
            let block = usb_device_block(
                e.busid.as_str(),
                &e.summary,
                count_byte(e.summary.interfaces.len()),
            );
            put(&mut entries, &block);
            put_interfaces(&mut entries, &e.summary.interfaces);
        }
        assert(entries@ =~= so_far + entry_bytes(devices@[i as int]));
        i += 1;
    }
    assert(devices@.take(i as int) =~= devices@);
    let mut reply = op_header(OP_REP_DEVLIST, 0);
    put_be32(&mut reply, (count as u64 % 0x1_0000_0000) as u32);
    put(&mut reply, &entries);
    assert(reply@ =~= devlist_bytes(devices@));
    reply
}

/// What `String::from_utf8_lossy` makes of bytes that are not UTF-8.
pub uninterp spec fn utf8_lossy(bytes: Seq<u8>) -> Seq<char>;

/// `String::from_utf8_lossy`: the text of valid UTF-8; a function of the bytes
/// alone otherwise, in which invalid sequences are replaced.
#[verifier::external_body]
fn from_utf8_lossy(bytes: &[u8]) -> (s: String)
    ensures
        s@ == (if valid_utf8(bytes@) {
            decode_utf8(bytes@)
        } else {
            utf8_lossy(bytes@)
        }),
{
    String::from_utf8_lossy(bytes).into_owned()
}

/// A text without its trailing NULs.
pub open spec fn without_nuls(s: Seq<char>) -> Seq<char>
    decreases s.len(),
{
    if s.len() > 0 && s.last() == '\0' {
        without_nuls(s.drop_last())
    } else {
        s
    }
}

/// The text of a field: its UTF-8, with invalid sequences replaced.
pub open spec fn field_text(bytes: Seq<u8>) -> Seq<char> {
    if valid_utf8(bytes) {
        decode_utf8(bytes)
    } else {
        utf8_lossy(bytes)
    }
}

/// Cuts the trailing NULs off a text.
pub fn trim_nuls(s: &str) -> (t: String)
    ensures
        t@ == without_nuls(s@),
{
    let mut chars = chars_of(s);
    while chars.len() > 0 && chars[chars.len() - 1] == '\0'
        invariant
            without_nuls(chars@) == without_nuls(s@),
        decreases chars@.len(),
    {
        let ghost before = chars@;
        let _ = chars.pop();
        assert(chars@ =~= before.drop_last());
    }
    string_of(&chars)
}

/// The bus id an import asks for: the text of its field up to the padding.
pub fn requested_busid(field: &[u8; 32]) -> (busid: String)
    ensures
        busid@ == without_nuls(field_text(field@)),
{
    let text = from_utf8_lossy(field.as_slice());
    trim_nuls(text.as_str())
}

/// The first of some bus ids that equals the requested one.
pub open spec fn first_match(busids: Seq<Seq<char>>, requested: Seq<char>) -> Option<int>
    decreases busids.len(),
{
    if busids.len() == 0 {
        None
    } else if first_match(busids.drop_last(), requested) is Some {
        first_match(busids.drop_last(), requested)
    } else if busids.last() == requested {
        Some(busids.len() - 1)
    } else {
        None
    }
}

/// The first exported unit with the requested bus id; `None` refuses the import.
pub fn find_device(busids: &[String], requested: &str) -> (r: Option<usize>)
    ensures
        match r {
            Some(i) => first_match(texts(busids@), requested@) == Some(i as int),
            None => first_match(texts(busids@), requested@) is None,
        },
        r matches Some(i) ==> i < busids@.len() && busids@[i as int]@ == requested@,
        r is None ==> forall|i: int|
            #![trigger busids@[i]]
            0 <= i < busids@.len() ==> busids@[i]@ != requested@,
{
    let ghost all = texts(busids@);
    let mut i: usize = 0;
    while i < busids.len()
        invariant
            i <= busids@.len(),
            all == texts(busids@),
            first_match(all.take(i as int), requested@) is None,
            forall|k: int| 0 <= k < i ==> (#[trigger] busids@[k])@ != requested@,
        decreases busids@.len() - i,
    {
        assert(all.take(i + 1).drop_last() =~= all.take(i as int));
        if same_text(busids[i].as_str(), requested) {
            proof {
                lemma_first_match_stays(all, requested@, i + 1);
            }
            return Some(i);
        }
        i += 1;
    }
    assert(all.take(i as int) =~= all);
    None
}

/// A match among the first units is the match among all of them.
proof fn lemma_first_match_stays(busids: Seq<Seq<char>>, requested: Seq<char>, k: int)
    requires
        0 <= k <= busids.len(),
        first_match(busids.take(k), requested) is Some,
    ensures
        first_match(busids, requested) == first_match(busids.take(k), requested),
    decreases busids.len(),
{
    if k < busids.len() {
        assert(busids.drop_last().take(k) =~= busids.take(k));
        lemma_first_match_stays(busids.drop_last(), requested, k);
    } else {
        assert(busids.take(k) =~= busids);
    }
}

/// The reply that refuses an import.
pub open spec fn refusal_bytes() -> Seq<u8> {
    op_header_bytes(OP_REP_IMPORT, 1)
}

/// The reply that refuses an import: unknown bus id, unplugged, or attached to
/// another client.
pub fn import_refused() -> (reply: Vec<u8>)
    ensures
        reply@ == refusal_bytes(),
{
    op_header(OP_REP_IMPORT, 1)
}

/// The reply that grants an import.
pub open spec fn grant_bytes(busid: Seq<char>, s: SummaryView) -> Seq<u8> {
    op_header_bytes(OP_REP_IMPORT, 0) + device_block_bytes(
        busid,
        s,
        count_field(s.interfaces.len()),
    )
}

/// Whether a unit in this state grants an import.
pub open spec fn importable(s: SimView) -> bool {
    !s.unplugged && s.grants_import()
}

/// A unit after a client asked for it: an unplugged one does not notice.
pub open spec fn after_attempt(s: SimView) -> SimView {
    if s.unplugged {
        s
    } else {
        s.after_import()
    }
}

impl Simulator {
    /// What a device list shows of this unit.
    pub fn exported(&self) -> (e: Exported)
        ensures
            e.busid@ == self.options().busid@,
            e.summary@ == self.id().summary@,
            e.unplugged == self@.unplugged,
    {
        Exported {
            busid: self.busid().to_string(),
            summary: self.summary(),
            unplugged: self.is_unplugged(),
        }
    }

    /// Answers an import of this unit, and attaches the client when it is
    /// granted: an unplugged unit is refused like an empty port, an attached
    /// one because a device is plugged into one host at a time.
    pub fn import(&mut self) -> (r: (bool, Vec<u8>))
        requires
            old(self).wf(),
        ensures
            final(self).wf(),
            final(self).same_unit(*old(self)),
            final(self).id() == old(self).id(),
            r.0 == importable(old(self)@),
            r.0 ==> r.1@ == grant_bytes(old(self).options().busid@, old(self).id().summary@),
            !r.0 ==> r.1@ == refusal_bytes(),
            final(self)@ == after_attempt(old(self)@),
    {
        if self.is_unplugged() {
            return (false, import_refused());
        }
        if !self.try_import() {
            return (false, import_refused());
        }
        let summary = self.summary();
        let mut reply = op_header(OP_REP_IMPORT, 0);
        let block = usb_device_block(self.busid(), &summary, count_byte(summary.interfaces.len()));
        put(&mut reply, &block);
        (true, reply)
    }
}

/// What a URB header asks for.
#[derive(Debug, Clone, Copy, PartialEq, Eq, Structural)]
pub enum UrbRequest {
    /// A control transfer on endpoint 0.
    Control { setup: SetupPacket },
    /// An OUT transfer.
    Out { ep: u8 },
    /// An IN transfer of at most `len` bytes.
    In { ep: u8, len: usize },
    /// Withdraw a URB.
    Unlink { victim: u32 },
    /// Not a URB command: the connection is closed.
    Unknown,
}

/// How many bytes of OUT data follow a header.
pub open spec fn out_length(h: UrbHeader) -> nat {
    if h.command == USBIP_CMD_SUBMIT && h.direction == DIR_OUT {
        h.length() as nat
    } else {
        0
    }
}

/// How many bytes of OUT data follow a header.
pub fn out_data_length(h: &UrbHeader) -> (n: usize)
    ensures
        n == out_length(*h),
{
    if h.command == USBIP_CMD_SUBMIT && h.direction == DIR_OUT {
        h.transfer_length()
    } else {
        0
    }
}

/// The request in a header.
pub open spec fn request(h: UrbHeader) -> UrbRequest {
    if h.command == USBIP_CMD_SUBMIT {
        if h.ep == 0 {
            UrbRequest::Control { setup: SetupPacket::of_bytes(h.rest@.subrange(20, 28)) }
        } else if h.direction == DIR_OUT {
            UrbRequest::Out { ep: (h.ep % 16) as u8 }
        } else {
            UrbRequest::In { ep: (0x80 + h.ep % 16) as u8, len: h.length() as usize }
        }
    } else if h.command == USBIP_CMD_UNLINK {
        UrbRequest::Unlink { victim: h.victim() }
    } else {
        UrbRequest::Unknown
    }
}

/// Decodes a URB header into the request it makes.
pub fn urb_request(h: &UrbHeader) -> (r: UrbRequest)
    ensures
        r == request(*h),
{
    match h.command {
        USBIP_CMD_SUBMIT => if h.ep == 0 {
            UrbRequest::Control { setup: SetupPacket::parse(&h.setup()) }
        } else if h.direction == DIR_OUT {
            UrbRequest::Out { ep: (h.ep % 16) as u8 }
        } else {
            UrbRequest::In { ep: (0x80 + h.ep % 16) as u8, len: h.transfer_length() }
        },
        USBIP_CMD_UNLINK => UrbRequest::Unlink { victim: h.unlink_seqnum() },
        _ => UrbRequest::Unknown,
    }
}

/// How much IN data a control transfer takes: what its setup packet asks for,
/// as far as the transfer has room.
pub open spec fn control_room(h: UrbHeader) -> int {
    let asked = SetupPacket::of_bytes(h.rest@.subrange(20, 28)).w_length as int;
    if asked < h.length() {
        asked
    } else {
        h.length() as int
    }
}

/// The reply to a control transfer: IN data cut to what was asked for, or the
/// accepted OUT length; a stall carries nothing.
pub open spec fn control_reply_bytes(
    h: UrbHeader,
    out_len: nat,
    result: Result<Seq<u8>, Stall>,
) -> Seq<u8> {
    match result {
        Ok(data) => if h.direction == DIR_IN {
            ret_submit_bytes(h.seqnum, ST_OK, Some(prefix(data, control_room(h))), 0)
        } else {
            ret_submit_bytes(h.seqnum, ST_OK, None, out_len)
        },
        Err(_) => if h.direction == DIR_IN {
            ret_submit_bytes(h.seqnum, ST_EPIPE, Some(Seq::empty()), 0)
        } else {
            ret_submit_bytes(h.seqnum, ST_EPIPE, None, 0)
        },
    }
}

/// Encodes the reply to a control transfer.
pub fn control_reply(h: &UrbHeader, out_len: usize, result: Result<Vec<u8>, Stall>) -> (pkt: Vec<
    u8,
>)
    ensures
        pkt@ == control_reply_bytes(*h, out_len as nat, answer(result)),
{
    match result {
        Ok(data) => if h.direction == DIR_IN {
            let asked: usize = SetupPacket::parse(&h.setup()).w_length as usize;
            let room: usize = if asked < h.transfer_length() {
                asked
            } else {
                h.transfer_length()
            };
            let cut = take_prefix(&data, room);
            ret_submit(h.seqnum, ST_OK, Some(cut.as_slice()), 0)
        } else {
            ret_submit(h.seqnum, ST_OK, None, out_len)
        },
        Err(_) => if h.direction == DIR_IN {
            let none: Vec<u8> = Vec::new();
            ret_submit(h.seqnum, ST_EPIPE, Some(none.as_slice()), 0)
        } else {
            ret_submit(h.seqnum, ST_EPIPE, None, 0)
        },
    }
}

/// Performs a control transfer on a unit and encodes its reply.
pub fn handle_control(sim: &mut Simulator, h: &UrbHeader, out_data: &[u8]) -> (pkt: Vec<u8>)
    requires
        old(sim).wf(),
    ensures
        final(sim).wf(),
        final(sim).same_unit(*old(sim)),
        final(sim).id() == old(sim).id(),
        ({
            let setup = SetupPacket::of_bytes(h.rest@.subrange(20, 28));
            let persona = old(sim)@.current;
            &&& pkt@ == control_reply_bytes(
                *h,
                out_data@.len(),
                persona.control_answer(old(sim).id(), setup),
            )
            &&& final(sim)@ == old(sim)@.transferred(
                persona.after_control(old(sim).id(), setup, out_data@),
            )
        }),
{
    let setup = SetupPacket::parse(&h.setup());
    let result = sim.control(setup, out_data);
    control_reply(h, out_data.len(), result)
}

/// The reply to an OUT transfer.
pub open spec fn out_reply_bytes(seqnum: u32, accepted: bool, out_len: nat) -> Seq<u8> {
    ret_submit_bytes(
        seqnum,
        if accepted {
            ST_OK
        } else {
            ST_EPIPE
        },
        None,
        out_len,
    )
}

/// Performs an OUT transfer on a unit and encodes its reply.
pub fn handle_out(sim: &mut Simulator, seqnum: u32, ep: u8, out_data: &[u8], m: &Moment) -> (pkt:
    Vec<u8>)
    requires
        old(sim).wf(),
    ensures
        final(sim).wf(),
        final(sim).same_unit(*old(sim)),
        final(sim).id() == old(sim).id(),
        pkt@ == out_reply_bytes(seqnum, old(sim)@.current.accepts(ep), out_data@.len()),
        final(sim)@ == old(sim)@.transferred(old(sim)@.current.after_out(ep, out_data@, *m)),
{
    let status: i32 = match sim.out_transfer(ep, out_data, m) {
        Ok(_) => ST_OK,
        Err(_) => ST_EPIPE,
    };
    ret_submit(seqnum, status, None, out_data.len())
}

/// The reply to a completed IN transfer: its data cut to the asked length.
pub open spec fn in_reply_bytes(seqnum: u32, len: nat, result: Result<Seq<u8>, Stall>) -> Seq<u8> {
    match result {
        Ok(data) => ret_submit_bytes(seqnum, ST_OK, Some(prefix(data, len as int)), 0),
        Err(_) => ret_submit_bytes(seqnum, ST_EPIPE, Some(Seq::empty()), 0),
    }
}

/// The bytes of a packet to send, if there is one.
pub open spec fn packet(r: Option<Vec<u8>>) -> Option<Seq<u8>> {
    match r {
        Some(pkt) => Some(pkt@),
        None => None,
    }
}

/// The reply that completing an IN transfer sends: none for one that is no
/// longer pending.
pub open spec fn completion(
    pending: Set<u32>,
    seqnum: u32,
    len: nat,
    result: Result<Seq<u8>, Stall>,
) -> Option<Seq<u8>> {
    if pending.contains(seqnum) {
        Some(in_reply_bytes(seqnum, len, result))
    } else {
        None
    }
}

/// The IN transfers of a connection that were submitted and neither completed
/// nor unlinked. Whoever takes a sequence number out of here replies for it.
#[derive(Debug)]
pub struct Pending {
    seqnums: HashSet<u32>,
}

impl View for Pending {
    type V = Set<u32>;

    closed spec fn view(&self) -> Set<u32> {
        self.seqnums@
    }
}

impl Pending {
    /// No transfer is pending.
    pub fn new() -> (p: Self)
        ensures
            p@ == Set::<u32>::empty(),
    {
        Pending { seqnums: HashSet::new() }
    }

    /// Notes a submitted IN transfer.
    pub fn submit(&mut self, seqnum: u32)
        ensures
            final(self)@ == old(self)@.insert(seqnum),
    {
        let _ = self.seqnums.insert(seqnum);
    }

    /// Whether a transfer is still pending.
    pub fn contains(&self, seqnum: u32) -> (b: bool)
        ensures
            b == self@.contains(seqnum),
    {
        self.seqnums.contains(&seqnum)
    }

    /// Completes an IN transfer: the reply, unless it was unlinked before.
    pub fn complete(&mut self, seqnum: u32, len: usize, result: Result<Vec<u8>, Stall>) -> (r:
        Option<Vec<u8>>)
        ensures
            final(self)@ == old(self)@.remove(seqnum),
            packet(r) == completion(old(self)@, seqnum, len as nat, answer(result)),
    {
        if self.seqnums.remove(&seqnum) {
            Some(
                match result {
                    Ok(data) => {
                        let cut = take_prefix(&data, len);
                        ret_submit(seqnum, ST_OK, Some(cut.as_slice()), 0)
                    },
                    Err(_) => {
                        let none: Vec<u8> = Vec::new();
                        ret_submit(seqnum, ST_EPIPE, Some(none.as_slice()), 0)
                    },
                },
            )
        } else {
            None
        }
    }

    /// Unlinks a transfer: whether it was still pending, and the reply. One that
    /// has already completed is reported with status 0.
    pub fn unlink(&mut self, seqnum: u32, victim: u32) -> (r: (bool, Vec<u8>))
        ensures
            final(self)@ == old(self)@.remove(victim),
            r.0 == old(self)@.contains(victim),
            r.1@ == unlink_reply_bytes(seqnum, old(self)@.contains(victim)),
    {
        if self.seqnums.remove(&victim) {
            (true, ret_unlink(seqnum, ST_ECONNRESET))
        } else {
            (false, ret_unlink(seqnum, ST_OK))
        }
    }
}

/// The reply to an unlink of a transfer that was pending or not.
pub open spec fn unlink_reply_bytes(seqnum: u32, was_pending: bool) -> Seq<u8> {
    ret_unlink_bytes(
        seqnum,
        if was_pending {
            ST_ECONNRESET
        } else {
            ST_OK
        },
    )
}

/// What a connection does with a URB.
#[derive(Debug)]
pub enum UrbAction {
    /// Send this reply.
    Reply(Vec<u8>),
    /// Hand the IN transfer to its endpoint's queue.
    Queue { seqnum: u32, ep: u8, len: usize },
    /// Send this reply, and cancel the victim if it was pending.
    Unlinked { victim: u32, was_pending: bool, reply: Vec<u8> },
    /// Close the connection.
    Close,
}

/// The contents of a [`UrbAction`].
pub enum UrbActionView {
    Reply(Seq<u8>),
    Queue { seqnum: u32, ep: u8, len: usize },
    Unlinked { victim: u32, was_pending: bool, reply: Seq<u8> },
    Close,
}

impl View for UrbAction {
    type V = UrbActionView;

    open spec fn view(&self) -> UrbActionView {
        match self {
            UrbAction::Reply(r) => UrbActionView::Reply(r@),
            UrbAction::Queue { seqnum, ep, len } => UrbActionView::Queue {
                seqnum: *seqnum,
                ep: *ep,
                len: *len,
            },
            UrbAction::Unlinked { victim, was_pending, reply } => UrbActionView::Unlinked {
                victim: *victim,
                was_pending: *was_pending,
                reply: reply@,
            },
            UrbAction::Close => UrbActionView::Close,
        }
    }
}

/// What a connection does with a URB, by the state of the unit and of its
/// pending transfers.
pub open spec fn urb_action(
    s: SimView,
    id: Identity,
    pending: Set<u32>,
    h: UrbHeader,
    out_data: Seq<u8>,
) -> UrbActionView {
    match request(h) {
        UrbRequest::Control { setup } => UrbActionView::Reply(
            control_reply_bytes(h, out_data.len(), s.current.control_answer(id, setup)),
        ),
        UrbRequest::Out { ep } => UrbActionView::Reply(
            out_reply_bytes(h.seqnum, s.current.accepts(ep), out_data.len()),
        ),
        UrbRequest::In { ep, len } => UrbActionView::Queue { seqnum: h.seqnum, ep, len },
        UrbRequest::Unlink { victim } => UrbActionView::Unlinked {
            victim,
            was_pending: pending.contains(victim),
            reply: unlink_reply_bytes(h.seqnum, pending.contains(victim)),
        },
        UrbRequest::Unknown => UrbActionView::Close,
    }
}

/// The unit after a URB: control and OUT transfers are performed at once.
pub open spec fn unit_after(
    s: SimView,
    id: Identity,
    h: UrbHeader,
    out_data: Seq<u8>,
    m: Moment,
) -> SimView {
    match request(h) {
        UrbRequest::Control { setup } => s.transferred(
            s.current.after_control(id, setup, out_data),
        ),
        UrbRequest::Out { ep } => s.transferred(s.current.after_out(ep, out_data, m)),
        _ => s,
    }
}

/// The pending transfers after a URB.
pub open spec fn pending_after(pending: Set<u32>, h: UrbHeader) -> Set<u32> {
    match request(h) {
        UrbRequest::In { .. } => pending.insert(h.seqnum),
        UrbRequest::Unlink { victim } => pending.remove(victim),
        _ => pending,
    }
}

/// Takes up one URB of a connection: performs control and OUT transfers, notes
/// IN transfers as pending, withdraws unlinked ones.
pub fn dispatch(
    sim: &mut Simulator,
    pending: &mut Pending,
    h: &UrbHeader,
    out_data: &[u8],
    m: &Moment,
) -> (a: UrbAction)
    requires
        old(sim).wf(),
    ensures
        final(sim).wf(),
        final(sim).same_unit(*old(sim)),
        final(sim).id() == old(sim).id(),
        a@ == urb_action(old(sim)@, old(sim).id(), old(pending)@, *h, out_data@),
        final(sim)@ == unit_after(old(sim)@, old(sim).id(), *h, out_data@, *m),
        final(pending)@ == pending_after(old(pending)@, *h),
{
    match urb_request(h) {
        UrbRequest::Control { .. } => UrbAction::Reply(handle_control(sim, h, out_data)),
        UrbRequest::Out { ep } => UrbAction::Reply(handle_out(sim, h.seqnum, ep, out_data, m)),
        UrbRequest::In { ep, len } => {
            pending.submit(h.seqnum);
            UrbAction::Queue { seqnum: h.seqnum, ep, len }
        },
        UrbRequest::Unlink { victim } => {
            let (was_pending, reply) = pending.unlink(h.seqnum, victim);
            UrbAction::Unlinked { victim, was_pending, reply }
        },
        UrbRequest::Unknown => UrbAction::Close,
    }
}

/// The encoding of a text and of one behind it.
proof fn lemma_encode_concat(a: Seq<char>, b: Seq<char>)
    ensures
        encode_utf8(a + b) == encode_utf8(a) + encode_utf8(b),
    decreases a.len(),
{
    if a.len() == 0 {
        assert(a + b =~= b);
        assert(encode_utf8(a) + encode_utf8(b) =~= encode_utf8(b));
    } else {
        lemma_encode_concat(a.drop_first(), b);
        assert((a + b).drop_first() =~= a.drop_first() + b);
        assert(encode_utf8(a + b) =~= encode_utf8(a) + encode_utf8(b));
    }
}

/// `n` NUL characters.
spec fn nuls(n: nat) -> Seq<char> {
    Seq::new(n, |i: int| '\0')
}

/// NUL characters are zero bytes.
proof fn lemma_encode_nuls(n: nat)
    ensures
        encode_utf8(nuls(n)) == zeros(n),
    decreases n,
{
    if n == 0 {
        assert(encode_utf8(nuls(n)) =~= zeros(n));
    } else {
        lemma_encode_nuls((n - 1) as nat);
        assert(nuls(n).drop_first() =~= nuls((n - 1) as nat));
        let one = vstd::utf8::encode_scalar(0);
        assert(vstd::utf8::leading_byte_width_1(0) == 0) by (bit_vector);
        assert(one =~= seq![0u8]);
        assert(encode_utf8(nuls(n)) =~= zeros(n));
    }
}

/// Trailing NULs are cut off down to a text that ends otherwise.
proof fn lemma_without_nuls(s: Seq<char>, n: nat)
    requires
        s.len() > 0 ==> s.last() != '\0',
    ensures
        without_nuls(s + nuls(n)) == s,
    decreases n,
{
    if n == 0 {
        assert(s + nuls(n) =~= s);
    } else {
        lemma_without_nuls(s, (n - 1) as nat);
        assert((s + nuls(n)).drop_last() =~= s + nuls((n - 1) as nat));
    }
}

/// A client that writes a bus id into the zero-padded import field asks for
/// exactly that bus id. (A bus id that ends in a NUL character cannot be told
/// from its padding.)
pub proof fn lemma_busid_field(busid: Seq<char>)
    requires
        encode_utf8(busid).len() <= 32,
        busid.len() > 0 ==> busid.last() != '\0',
    ensures
        without_nuls(
            field_text(encode_utf8(busid) + zeros((32 - encode_utf8(busid).len()) as nat)),
        ) == busid,
{
    let n = (32 - encode_utf8(busid).len()) as nat;
    lemma_encode_nuls(n);
    lemma_encode_concat(busid, nuls(n));
    vstd::utf8::encode_utf8_valid_utf8(busid + nuls(n));
    vstd::utf8::encode_utf8_decode_utf8(busid + nuls(n));
    lemma_without_nuls(busid, n);
}

/// Every submitted IN transfer gets exactly one completion. Completed first, it
/// is replied to; completing it again sends nothing, and unlinking it is
/// answered with status 0. Unlinked first, the unlink is answered with the
/// reset status, and completing it sends nothing. Either way other transfers
/// stay as they were.
pub proof fn lemma_one_completion(
    pending: Set<u32>,
    seqnum: u32,
    len: nat,
    result: Result<Seq<u8>, Stall>,
    again: Result<Seq<u8>, Stall>,
    unlink: u32,
)
    ensures
        ({
            let submitted = pending.insert(seqnum);
            let after = submitted.remove(seqnum);
            &&& completion(submitted, seqnum, len, result) == Some(
                in_reply_bytes(seqnum, len, result),
            )
            &&& unlink_reply_bytes(unlink, submitted.contains(seqnum)) == ret_unlink_bytes(
                unlink,
                ST_ECONNRESET,
            )
            &&& completion(after, seqnum, len, again) is None
            &&& unlink_reply_bytes(unlink, after.contains(seqnum)) == ret_unlink_bytes(
                unlink,
                ST_OK,
            )
            &&& forall|other: u32|
                other != seqnum ==> after.contains(other) == #[trigger] pending.contains(other)
        }),
{
}

/// No reply to an IN transfer carries more than was asked for, and its actual
/// length field counts what it carries.
pub proof fn lemma_in_reply_length(seqnum: u32, len: nat, result: Result<Seq<u8>, Stall>)
    requires
        len <= u32::MAX,
    ensures
        ({
            let pkt = in_reply_bytes(seqnum, len, result);
            &&& pkt.len() <= 48 + len
            &&& be32_at(pkt, 4) == seqnum
            &&& be32_at(pkt, 24) == pkt.len() - 48
        }),
{
    match result {
        Ok(data) => lemma_ret_submit(seqnum, ST_OK, Some(prefix(data, len as int)), 0),
        Err(_) => lemma_ret_submit(seqnum, ST_EPIPE, Some(Seq::empty()), 0),
    }
}

/// No reply to a control transfer carries more than its setup packet asks for,
/// nor more than the transfer has room for.
pub proof fn lemma_control_reply_fits(
    h: UrbHeader,
    out_len: nat,
    result: Result<Seq<u8>, Stall>,
)
    ensures
        ({
            let pkt = control_reply_bytes(h, out_len, result);
            &&& pkt.len() <= 48 + SetupPacket::of_bytes(h.rest@.subrange(20, 28)).w_length
            &&& pkt.len() <= 48 + h.length()
            &&& be32_at(pkt, 4) == h.seqnum
        }),
{
    match result {
        Ok(data) => {
            lemma_ret_submit(h.seqnum, ST_OK, Some(prefix(data, control_room(h))), 0);
            lemma_ret_submit(h.seqnum, ST_OK, None, out_len);
        },
        Err(_) => {
            lemma_ret_submit(h.seqnum, ST_EPIPE, Some(Seq::empty()), 0);
            lemma_ret_submit(h.seqnum, ST_EPIPE, None, 0);
        },
    }
}

/// An unplugged unit leaves no trace in the device list.
pub proof fn lemma_unplugged_hidden(devices: Seq<Exported>, e: Exported)
    requires
        e.unplugged,
    ensures
        devlist_bytes(devices.push(e)) == devlist_bytes(devices),
{
    assert(devices.push(e).drop_last() =~= devices);
    assert(entries_bytes(devices.push(e)) =~= entries_bytes(devices));
}

/// A plugged unit adds its block and interfaces to the end of the list and one
/// to the count.
pub proof fn lemma_plugged_listed(devices: Seq<Exported>, e: Exported)
    requires
        !e.unplugged,
    ensures
        present(devices.push(e)) == present(devices) + 1,
        entries_bytes(devices.push(e)) == entries_bytes(devices) + entry_bytes(e),
{
    assert(devices.push(e).drop_last() =~= devices);
}

/// A granted import shuts everybody else out until it is released; a unit in
/// its cable-out window grants none, and rebooting alone does not free it.
pub proof fn lemma_import_exclusive(s: SimView, opts: SimOptions, factory: Seq<u8>)
    ensures
        !importable(s.after_import()),
        !importable(s.after_import().advanced(opts, factory)),
        !s.unplugged ==> importable(s.after_import().after_release()),
        s.unplugged ==> !importable(s.after_release()),
{
}

/// What happens to a unit on the server.
pub enum UnitEvent {
    /// A client asks for it.
    Import,
    /// The client that has it is gone.
    Release,
    /// A step of the choreography.
    Step,
    /// A transfer that leaves the persona like this.
    Transfer(PersonaView),
}

/// A unit after some events.
pub open spec fn unit_run(
    s: SimView,
    opts: SimOptions,
    factory: Seq<u8>,
    events: Seq<UnitEvent>,
) -> SimView
    decreases events.len(),
{
    if events.len() == 0 {
        s
    } else {
        let before = unit_run(s, opts, factory, events.drop_last());
        match events.last() {
            UnitEvent::Import => after_attempt(before),
            UnitEvent::Release => before.after_release(),
            UnitEvent::Step => before.advanced(opts, factory),
            UnitEvent::Transfer(persona) => before.transferred(persona),
        }
    }
}

/// Whether the `i`-th event is an import that is granted.
pub open spec fn granted(
    s: SimView,
    opts: SimOptions,
    factory: Seq<u8>,
    events: Seq<UnitEvent>,
    i: int,
) -> bool {
    events[i] is Import && importable(unit_run(s, opts, factory, events.take(i)))
}

/// A unit stays taken from a granted import on, up to a release.
proof fn lemma_stays_taken(
    s: SimView,
    opts: SimOptions,
    factory: Seq<u8>,
    events: Seq<UnitEvent>,
    i: int,
    j: int,
)
    requires
        0 <= i < j <= events.len(),
        granted(s, opts, factory, events, i),
        forall|k: int| i < k < j ==> !(#[trigger] events[k] is Release),
    ensures
        unit_run(s, opts, factory, events.take(j)).imported,
    decreases j - i,
{
    assert(events.take(j).drop_last() =~= events.take(j - 1));
    assert(events.take(j).last() == events[j - 1]);
    if i < j - 1 {
        lemma_stays_taken(s, opts, factory, events, i, j - 1);
    }
}

/// A unit is plugged into one host at a time: between two imports that are
/// granted there is a release, whatever reboots, replugs and transfers happen
/// in between.
pub proof fn lemma_one_host_at_a_time(
    s: SimView,
    opts: SimOptions,
    factory: Seq<u8>,
    events: Seq<UnitEvent>,
    i: int,
    j: int,
)
    requires
        0 <= i < j < events.len(),
        granted(s, opts, factory, events, i),
        granted(s, opts, factory, events, j),
    ensures
        exists|k: int| i < k < j && #[trigger] events[k] is Release,
{
    if forall|k: int| i < k < j ==> !(#[trigger] events[k] is Release) {
        lemma_stays_taken(s, opts, factory, events, i, j);
    }
}

} // verus!
