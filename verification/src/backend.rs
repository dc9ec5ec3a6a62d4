//! What a transport sees of a device: control requests, stalls and the static
//! summary used for enumeration.

use crate::identity::Identity;
use crate::sim::{event_views, EventView, SimEvent};
use crate::wire::{get_le16, le16_at};
use vstd::prelude::*;

verus! {

/// A control-transfer SETUP packet.
#[derive(Debug, Clone, Copy, PartialEq, Eq, Structural)]
pub struct SetupPacket {
    pub bm_request_type: u8,
    pub b_request: u8,
    pub w_value: u16,
    pub w_index: u16,
    pub w_length: u16,
}

/// Request kind of `bmRequestType` bits 6..5.
pub const KIND_STANDARD: u8 = 0;

/// Class-specific request.
pub const KIND_CLASS: u8 = 1;

impl SetupPacket {
    /// The packet that eight wire bytes hold (multi-byte fields little-endian).
    pub open spec fn of_bytes(bytes: Seq<u8>) -> SetupPacket {
        SetupPacket {
            bm_request_type: bytes[0],
            b_request: bytes[1],
            w_value: le16_at(bytes, 2),
            w_index: le16_at(bytes, 4),
            w_length: le16_at(bytes, 6),
        }
    }

    /// Decodes the eight setup bytes.
    pub fn parse(bytes: &[u8; 8]) -> (setup: Self)
        ensures
            setup == SetupPacket::of_bytes(bytes@),
    {
        let b = bytes.as_slice();
        SetupPacket {
            bm_request_type: b[0],
            b_request: b[1],
            w_value: get_le16(b, 2),
            w_index: get_le16(b, 4),
            w_length: get_le16(b, 6),
        }
    }

    /// Bit 7 of `bmRequestType`: the data stage goes device to host.
    pub open spec fn device_to_host(self) -> bool {
        self.bm_request_type >= 0x80
    }

    /// Bits 6..5 of `bmRequestType`.
    pub open spec fn kind(self) -> u8 {
        self.bm_request_type / 32 % 4
    }

    /// Whether the data stage goes device to host.
    pub fn is_in(&self) -> (b: bool)
        ensures
            b == self.device_to_host(),
    {
        self.bm_request_type >= 0x80
    }

    /// The request kind: standard, class or vendor.
    pub fn request_kind(&self) -> (k: u8)
        ensures
            k == self.kind(),
    {
        self.bm_request_type / 32 % 4
    }
}

/// The endpoint refuses the transfer (the host sees a STALL, -EPIPE).
#[derive(Debug, Clone, Copy, PartialEq, Eq, Structural)]
pub struct Stall;

/// USB speeds as encoded by USB/IP (`usb_device_speed` in the Linux kernel).
#[derive(Debug, Clone, Copy, PartialEq, Eq, Structural)]
pub enum UsbSpeed {
    Full,
    High,
}

impl UsbSpeed {
    /// The `usb_device_speed` number.
    pub open spec fn number(self) -> u32 {
        match self {
            UsbSpeed::Full => 2,
            UsbSpeed::High => 3,
        }
    }

    /// The `usb_device_speed` number.
    pub fn code(&self) -> (n: u32)
        ensures
            n == self.number(),
    {
        match self {
            UsbSpeed::Full => 2,
            UsbSpeed::High => 3,
        }
    }
}

/// Static identity of the current persona, for the transport's enumeration
/// (USB/IP devlist/import needs it outside of descriptor parsing).
#[derive(Debug)]
pub struct DeviceSummary {
    pub vid: u16,
    pub pid: u16,
    pub bcd_device: u16,
    pub device_class: u8,
    pub device_subclass: u8,
    pub device_protocol: u8,
    pub configuration_value: u8,
    pub num_configurations: u8,
    pub speed: UsbSpeed,
    /// (class, subclass, protocol) per interface.
    pub interfaces: Vec<(u8, u8, u8)>,
}

/// The contents of a [`DeviceSummary`].
pub struct SummaryView {
    pub vid: u16,
    pub pid: u16,
    pub bcd_device: u16,
    pub device_class: u8,
    pub device_subclass: u8,
    pub device_protocol: u8,
    pub configuration_value: u8,
    pub num_configurations: u8,
    pub speed: UsbSpeed,
    pub interfaces: Seq<(u8, u8, u8)>,
}

impl View for DeviceSummary {
    type V = SummaryView;

    open spec fn view(&self) -> SummaryView {
        SummaryView {
            vid: self.vid,
            pid: self.pid,
            bcd_device: self.bcd_device,
            device_class: self.device_class,
            device_subclass: self.device_subclass,
            device_protocol: self.device_protocol,
            configuration_value: self.configuration_value,
            num_configurations: self.num_configurations,
            speed: self.speed,
            interfaces: self.interfaces@,
        }
    }
}

impl Clone for DeviceSummary {
    fn clone(&self) -> (copy: Self)
        ensures
            copy@ == self@,
    {
        let mut interfaces: Vec<(u8, u8, u8)> = Vec::new();
        let mut i: usize = 0;
        while i < self.interfaces.len()
            invariant
                i <= self.interfaces@.len(),
                interfaces@ =~= self.interfaces@.take(i as int),
            decreases self.interfaces@.len() - i,
        {
            interfaces.push(self.interfaces[i]);
            i += 1;
        }
        assert(interfaces@ =~= self.interfaces@);
        DeviceSummary {
            vid: self.vid,
            pid: self.pid,
            bcd_device: self.bcd_device,
            device_class: self.device_class,
            device_subclass: self.device_subclass,
            device_protocol: self.device_protocol,
            configuration_value: self.configuration_value,
            num_configurations: self.num_configurations,
            speed: self.speed,
            interfaces,
        }
    }
}

/// Telemetry register values at one moment.
#[derive(Debug, Clone, Copy, PartialEq, Eq, Structural)]
pub struct Telemetry {
    pub usb_voltage: u32,
    pub usb_current: u32,
    pub iso_current: u32,
    pub temperature: u32,
}

/// What the outside world supplies with a transfer: the time, the sensor
/// readings and a fresh random seed.
#[derive(Debug, Clone, Copy, PartialEq, Eq, Structural)]
pub struct Moment {
    /// A monotonic clock, in nanoseconds.
    pub now: u64,
    pub telemetry: Telemetry,
    /// Seed of a noise sequence that starts now, unless one is configured.
    pub seed: u64,
}

/// What an IN transfer finds.
#[derive(Debug)]
pub enum InStep {
    /// The transfer completes with these bytes.
    Data(Vec<u8>),
    /// Nothing is queued yet.
    Pending,
    /// The transfer completes with an audio block of this many stereo frames.
    Audio(usize),
}

/// The contents of an [`InStep`].
pub enum InView {
    Data(Seq<u8>),
    Pending,
    Audio(usize),
}

impl View for InStep {
    type V = InView;

    open spec fn view(&self) -> InView {
        match self {
            InStep::Data(d) => InView::Data(d@),
            InStep::Pending => InView::Pending,
            InStep::Audio(n) => InView::Audio(*n),
        }
    }
}

/// What a control request is answered with: data bytes, or a stall.
pub open spec fn answer(r: Result<Vec<u8>, Stall>) -> Result<Seq<u8>, Stall> {
    match r {
        Ok(v) => Ok(v@),
        Err(s) => Err(s),
    }
}

/// The answer of a handler that may not be responsible for a request.
pub open spec fn handled(r: Option<Result<Vec<u8>, Stall>>) -> Option<Result<Seq<u8>, Stall>> {
    match r {
        Some(a) => Some(answer(a)),
        None => None,
    }
}

/// What an IN transfer is answered with: a step, or a stall.
pub open spec fn step(r: Result<InStep, Stall>) -> Result<InView, Stall> {
    match r {
        Ok(s) => Ok(s@),
        Err(s) => Err(s),
    }
}

/// The device side of one USB connection, as driven by a transport.
pub trait UsbBackend {
    /// What holds between transfers.
    spec fn valid(&self) -> bool;

    /// The identity the device enumerates with.
    spec fn device(&self) -> Identity;

    /// Events for the simulator that were not collected yet.
    spec fn pending_events(&self) -> Seq<EventView>;

    /// The static summary for enumeration.
    fn summary(&self) -> (s: DeviceSummary)
        ensures
            s@ == self.device().summary@,
    ;

    /// Handles one control transfer; `data_out` is the host's data stage.
    fn control(&mut self, setup: SetupPacket, data_out: &[u8]) -> (r: Result<Vec<u8>, Stall>)
        requires
            old(self).valid(),
        ensures
            final(self).valid(),
            final(self).device() == old(self).device(),
            old(self).device().standard_answer(setup) is Some ==> answer(r)
                == old(self).device().standard_answer(setup)->0,
    ;

    /// Takes the data of one OUT transfer; answers with the accepted length.
    fn out_transfer(&mut self, ep: u8, data: &[u8], m: &Moment) -> (r: Result<usize, Stall>)
        requires
            old(self).valid(),
        ensures
            final(self).valid(),
            final(self).device() == old(self).device(),
            r matches Ok(n) ==> n == data@.len(),
    ;

    /// What an IN transfer of at most `len` bytes finds now.
    fn in_transfer(&mut self, ep: u8, len: usize) -> (r: Result<InStep, Stall>)
        requires
            old(self).valid(),
        ensures
            final(self).valid(),
            final(self).device() == old(self).device(),
    ;

    /// Collects the events for the simulator, oldest first.
    fn take_events(&mut self) -> (events: Vec<SimEvent>)
        requires
            old(self).valid(),
        ensures
            final(self).valid(),
            final(self).device() == old(self).device(),
            event_views(events@) == old(self).pending_events(),
            final(self).pending_events() == Seq::<EventView>::empty(),
    ;
}

} // verus!
