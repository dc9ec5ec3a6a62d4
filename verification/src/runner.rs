//! FunctionFS lifecycle and endpoint pumps: what a Linux gadget host does with
//! each `ep0` event and how it serves each endpoint file.
//!
//! ```text
//!   ep1  (0x01 OUT)  host to device : register writes   -> out_transfer(1)
//!   ep2  (0x81 IN)   device to host : register replies  <- in_transfer(1)
//!   ep3  (0x02 OUT)  host to device : DAC audio         -> out_transfer(2)
//!   ep4  (0x82 IN)   device to host : ADC audio         <- in_transfer(2)
//! ```
//!
//! Standard USB control requests are answered by the kernel from the configfs
//! gadget attributes, so `ep0` only brings lifecycle events.

use crate::analyzer::EP_REGISTERS;
use vstd::prelude::*;

verus! {

/// FunctionFS event types (`usb_functionfs_event_type`).
pub const FUNCTIONFS_BIND: u8 = 0;

pub const FUNCTIONFS_UNBIND: u8 = 1;

pub const FUNCTIONFS_ENABLE: u8 = 2;

pub const FUNCTIONFS_DISABLE: u8 = 3;

pub const FUNCTIONFS_SETUP: u8 = 4;

pub const FUNCTIONFS_SUSPEND: u8 = 5;

pub const FUNCTIONFS_RESUME: u8 = 6;

/// `struct usb_functionfs_event` is 12 bytes: an 8-byte `usb_ctrlrequest`
/// union member, then `type` and 3 pad bytes.
pub const EVENT_SIZE: usize = 12;

/// Bytes of one USB audio buffer.
pub const AUDIO_BUFFER: usize = 16384;

/// Where the gadget lives.
#[derive(Debug)]
pub struct GadgetPaths {
    /// FunctionFS mount point (holds ep0, ep1, ...).
    pub ffs_dir: String,
    /// configfs gadget directory (holds the `UDC` file).
    pub gadget_dir: String,
    /// UDC device name to bind (the sole entry of /sys/class/udc, say).
    pub udc: String,
}

/// What an `ep0` event asks for.
#[derive(Debug, Clone, Copy, PartialEq, Eq, Structural)]
pub enum Ep0Action {
    /// A lifecycle event to note.
    Note,
    /// The host configured the device for the first time: start the pumps.
    StartPumps,
    /// A control request the kernel did not answer: stall it.
    Stall { bm_request_type: u8 },
    /// An event type that is not known.
    Unknown { event_type: u8 },
}

/// What one event asks for, with the pumps started or not.
pub open spec fn event_action(evt: Seq<u8>, started: bool) -> Ep0Action {
    let t = evt[8];
    if t == FUNCTIONFS_ENABLE {
        if started {
            Ep0Action::Note
        } else {
            Ep0Action::StartPumps
        }
    } else if t == FUNCTIONFS_SETUP {
        Ep0Action::Stall { bm_request_type: evt[0] }
    } else if t == FUNCTIONFS_BIND || t == FUNCTIONFS_UNBIND || t == FUNCTIONFS_DISABLE || t
        == FUNCTIONFS_SUSPEND || t == FUNCTIONFS_RESUME {
        Ep0Action::Note
    } else {
        Ep0Action::Unknown { event_type: t }
    }
}

/// Whether the pumps run after an event.
pub open spec fn pumps_after(evt: Seq<u8>, started: bool) -> bool {
    started || evt[8] == FUNCTIONFS_ENABLE
}

/// Whether the pumps run after the first `n` events of a read.
pub open spec fn pumps_after_all(buf: Seq<u8>, n: nat, started: bool) -> bool
    decreases n,
{
    if n == 0 {
        started
    } else {
        pumps_after(
            buf.subrange(12 * (n - 1), 12 * n as int),
            pumps_after_all(buf, (n - 1) as nat, started),
        )
    }
}

/// What the first `n` events of a read ask for, in order.
pub open spec fn event_actions(buf: Seq<u8>, n: nat, started: bool) -> Seq<Ep0Action>
    decreases n,
{
    if n == 0 {
        Seq::empty()
    } else {
        event_actions(buf, (n - 1) as nat, started).push(
            event_action(
                buf.subrange(12 * (n - 1), 12 * n as int),
                pumps_after_all(buf, (n - 1) as nat, started),
            ),
        )
    }
}

/// What one event asks for; notes that the pumps were started. Layout:
/// `[setup:8][type:1][pad:3]`.
pub fn handle_event(evt: &[u8], started: &mut bool) -> (a: Ep0Action)
    requires
        evt@.len() >= 9,
    ensures
        a == event_action(evt@, *old(started)),
        *final(started) == pumps_after(evt@, *old(started)),
{
    match evt[8] {
        FUNCTIONFS_ENABLE => {
            if *started {
                Ep0Action::Note
            } else {
                *started = true;
                Ep0Action::StartPumps
            }
        },
        FUNCTIONFS_SETUP => Ep0Action::Stall { bm_request_type: evt[0] },
        FUNCTIONFS_BIND | FUNCTIONFS_UNBIND | FUNCTIONFS_DISABLE | FUNCTIONFS_SUSPEND
        | FUNCTIONFS_RESUME => Ep0Action::Note,
        event_type => Ep0Action::Unknown { event_type },
    }
}

/// What the whole events of one `ep0` read ask for, in order; a trailing part
/// of an event is ignored.
pub fn handle_events(buf: &[u8], started: &mut bool) -> (actions: Vec<Ep0Action>)
    ensures
        actions@ == event_actions(buf@, buf@.len() / 12, *old(started)),
        *final(started) == pumps_after_all(buf@, buf@.len() / 12, *old(started)),
{
    let mut actions: Vec<Ep0Action> = Vec::new();
    let len: usize = buf.len();
    let n: usize = len / EVENT_SIZE;
    let mut k: usize = 0;
    let ghost first = *started;
    while k < n
        invariant
            k <= n,
            len == buf@.len(),
            n == len / 12,
            *started == pumps_after_all(buf@, k as nat, first),
            actions@ == event_actions(buf@, k as nat, first),
        decreases n - k,
    {
        let evt = vstd::slice::slice_subrange(buf, EVENT_SIZE * k, EVENT_SIZE * k + EVENT_SIZE);
        let mut now: bool = *started;
        let a = handle_event(evt, &mut now);
        *started = now;
        actions.push(a);
        k += 1;
    }
    actions
}

/// The pumps are started at most once over the life of a gadget, at the first
/// enable event.
pub proof fn lemma_pumps_start_once(buf: Seq<u8>, n: nat, started: bool, i: int, j: int)
    requires
        0 <= i < j < n,
    ensures
        event_actions(buf, n, started).len() == n,
        started ==> event_actions(buf, n, started)[j] != Ep0Action::StartPumps,
        event_actions(buf, n, started)[i] == Ep0Action::StartPumps ==> event_actions(
            buf,
            n,
            started,
        )[j] != Ep0Action::StartPumps,
    decreases n,
{
    lemma_actions_at(buf, n, started, i);
    lemma_actions_at(buf, n, started, j);
    lemma_pumps_stay(buf, (i + 1) as nat, j as nat, started);
    lemma_pumps_stay(buf, 0, j as nat, started);
}

/// The action of one event among many.
proof fn lemma_actions_at(buf: Seq<u8>, n: nat, started: bool, i: int)
    requires
        0 <= i < n,
    ensures
        event_actions(buf, n, started).len() == n,
        event_actions(buf, n, started)[i] == event_action(
            buf.subrange(12 * i, 12 * i + 12),
            pumps_after_all(buf, i as nat, started),
        ),
    decreases n,
{
    if n == 1 {
        assert(event_actions(buf, 0, started).len() == 0);
    } else if i < n - 1 {
        lemma_actions_at(buf, (n - 1) as nat, started, i);
    } else {
        lemma_actions_at(buf, (n - 1) as nat, started, 0);
    }
}

/// Pumps that run keep running.
proof fn lemma_pumps_stay(buf: Seq<u8>, a: nat, b: nat, started: bool)
    requires
        a <= b,
    ensures
        pumps_after_all(buf, a, started) ==> pumps_after_all(buf, b, started),
    decreases b,
{
    if a < b {
        lemma_pumps_stay(buf, a, (b - 1) as nat, started);
    }
}

/// One endpoint file and the way its transfers go.
#[derive(Debug, Clone, Copy)]
pub struct Pump {
    pub file: &'static str,
    pub address: u8,
    /// Device to host.
    pub is_in: bool,
}

/// The endpoint files, in descriptor order.
pub fn pump_map() -> (v: Vec<Pump>)
    ensures
        v@.len() == 4,
        v@[0].file@ == "ep1"@ && v@[0].address == 0x01 && !v@[0].is_in,
        v@[1].file@ == "ep2"@ && v@[1].address == 0x81 && v@[1].is_in,
        v@[2].file@ == "ep3"@ && v@[2].address == 0x02 && !v@[2].is_in,
        v@[3].file@ == "ep4"@ && v@[3].address == 0x82 && v@[3].is_in,
{
    let mut v: Vec<Pump> = Vec::new();
    v.push(Pump { file: "ep1", address: 0x01, is_in: false });
    v.push(Pump { file: "ep2", address: 0x81, is_in: true });
    v.push(Pump { file: "ep3", address: 0x02, is_in: false });
    v.push(Pump { file: "ep4", address: 0x82, is_in: true });
    v
}

/// How many bytes an IN pump asks the device for: 4 for a register reply, one
/// USB buffer for audio.
pub fn pump_request(address: u8) -> (n: usize)
    ensures
        n == (if address % 0x80 == EP_REGISTERS {
            4usize
        } else {
            AUDIO_BUFFER
        }),
{
    if address % 0x80 == EP_REGISTERS {
        4
    } else {
        AUDIO_BUFFER
    }
}

/// Which device controller to bind.
#[derive(Debug)]
pub enum UdcChoice {
    /// This one.
    Bind(String),
    /// The board shows none: it is not in USB device mode.
    Absent,
    /// It shows several: one must be named.
    Several,
}

/// The controller to bind: the named one, or the sole one the board shows.
pub fn select_udc(named: Option<String>, found: &[String]) -> (c: UdcChoice)
    ensures
        match named {
            Some(n) => c matches UdcChoice::Bind(u) && u@ == n@,
            None => if found@.len() == 0 {
                c is Absent
            } else if found@.len() == 1 {
                c matches UdcChoice::Bind(u) && u@ == found@[0]@
            } else {
                c is Several
            },
        },
{
    match named {
        Some(n) => UdcChoice::Bind(n),
        None => if found.len() == 0 {
            UdcChoice::Absent
        } else if found.len() == 1 {
            UdcChoice::Bind(found[0].clone())
        } else {
            UdcChoice::Several
        },
    }
}

} // verus!
