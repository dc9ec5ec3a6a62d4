//! USB descriptors and the standard-request handling shared by both personas.

use crate::backend::{
    handled, DeviceSummary, SetupPacket, Stall, SummaryView, UsbSpeed, KIND_STANDARD,
};
use crate::text::{chars_of, texts};
use crate::wire::{
    le16, le16_at, le32, lemma_le16_within, prefix, put, put_le16, put_le32, put_zeros, take_prefix,
    zeros,
};
use vstd::prelude::*;

verus! {

/// Standard request codes.
pub const GET_STATUS: u8 = 0;

pub const CLEAR_FEATURE: u8 = 1;

pub const SET_FEATURE: u8 = 3;

pub const SET_ADDRESS: u8 = 5;

pub const GET_DESCRIPTOR: u8 = 6;

pub const GET_CONFIGURATION: u8 = 8;

pub const SET_CONFIGURATION: u8 = 9;

pub const GET_INTERFACE: u8 = 10;

pub const SET_INTERFACE: u8 = 11;

/// Descriptor types (wValue high byte).
pub const DT_DEVICE: u8 = 1;

pub const DT_CONFIGURATION: u8 = 2;

pub const DT_STRING: u8 = 3;

pub const DT_DEVICE_QUALIFIER: u8 = 6;

pub const DT_BOS: u8 = 0x0F;

pub const DT_HID_REPORT: u8 = 0x22;

/// Vendor request code Windows uses to fetch our MS OS 2.0 descriptor set
/// (announced in the BOS platform capability, any value works).
pub const MSOS20_VENDOR_CODE: u8 = 0x20;

/// wIndex of the MS OS 2.0 descriptor-set request.
pub const MSOS20_DESCRIPTOR_INDEX: u16 = 0x07;

/// Oldest Windows version the MS OS 2.0 descriptors apply to (8.1).
pub const WINDOWS_8_1: u32 = 0x0603_0000;

/// Microsoft OS 2.0 support: lets Windows bind WinUSB to the vendor interface
/// automatically (no Zadig/INF), like real hardware that ships MS OS
/// descriptors. Windows reads the BOS descriptor (requires bcdUSB >= 0x0201),
/// finds the platform capability, then issues a vendor control request to
/// fetch the descriptor set with the `WINUSB` compatible ID.
#[derive(Debug)]
pub struct MsOs20 {
    pub vendor_code: u8,
    pub bos: Vec<u8>,
    pub descriptor_set: Vec<u8>,
}

/// Static USB identity of a persona: descriptors and strings.
#[derive(Debug)]
pub struct Identity {
    pub summary: DeviceSummary,
    pub device_descriptor: Vec<u8>,
    pub config_descriptor: Vec<u8>,
    /// Index 0 is the manufacturer; string descriptor indices are 1-based.
    pub strings: Vec<String>,
    /// HID report descriptor (bootloader persona only).
    pub report_descriptor: Option<Vec<u8>>,
    /// MS OS 2.0 descriptors (analyzer persona: auto-binds WinUSB on Windows).
    pub msos20: Option<MsOs20>,
}

/// The UTF-16 code units of one character, little-endian.
pub open spec fn utf16_char(c: char) -> Seq<u8> {
    let v = c as u32;
    if v < 0x1_0000 {
        le16(v as u16)
    } else {
        le16((0xD800 + (v - 0x1_0000) / 0x400) as u16) + le16(
            (0xDC00 + (v - 0x1_0000) % 0x400) as u16,
        )
    }
}

/// A text in UTF-16, little-endian.
pub open spec fn utf16_of(s: Seq<char>) -> Seq<u8>
    decreases s.len(),
{
    if s.len() == 0 {
        Seq::empty()
    } else {
        utf16_of(s.drop_last()) + utf16_char(s.last())
    }
}

/// Every ASCII character takes two bytes of UTF-16.
pub proof fn lemma_utf16_ascii_len(s: Seq<char>)
    requires
        forall|i: int| 0 <= i < s.len() ==> (#[trigger] s[i] as u32) < 0x80,
    ensures
        utf16_of(s).len() == 2 * s.len(),
    decreases s.len(),
{
    if s.len() > 0 {
        assert((s[s.len() - 1] as u32) < 0x80);
        lemma_utf16_ascii_len(s.drop_last());
    }
}

/// Appends a text in UTF-16, little-endian.
fn put_utf16(out: &mut Vec<u8>, s: &str)
    ensures
        final(out)@ == old(out)@ + utf16_of(s@),
{
    let chars = chars_of(s);
    let ghost before = out@;
    let mut i: usize = 0;
    assert(out@ =~= before + utf16_of(chars@.take(0)));
    while i < chars.len()
        invariant
            i <= chars@.len(),
            out@ == before + utf16_of(chars@.take(i as int)),
        decreases chars@.len() - i,
    {
        let v: u32 = chars[i] as u32;
        let ghost start = out@;
        if v < 0x1_0000 {
            put_le16(out, v as u16);
        } else {
            put_le16(out, (0xD800 + (v - 0x1_0000) / 0x400) as u16);
            put_le16(out, (0xDC00 + (v - 0x1_0000) % 0x400) as u16);
        }
        assert(out@ =~= start + utf16_char(chars@[i as int]));
        assert(chars@.take(i + 1).drop_last() =~= chars@.take(i as int));
        assert(out@ =~= before + utf16_of(chars@.take(i + 1)));
        i += 1;
    }
    assert(chars@.take(chars@.len() as int) =~= s@);
}

impl Identity {
    /// The descriptor of string `index`: the language list at 0, then the
    /// strings in order. The length byte keeps the low 8 bits.
    pub open spec fn string_bytes(self, index: u8) -> Option<Seq<u8>> {
        if index == 0 {
            Some(seq![4, DT_STRING, 0x09, 0x04])
        } else if index <= self.strings@.len() {
            let units = utf16_of(self.strings@[index - 1]@);
            Some(seq![((2 + units.len()) % 256) as u8, DT_STRING] + units)
        } else {
            None
        }
    }

    /// The device-qualifier descriptor, copied from the device descriptor.
    pub open spec fn qualifier_bytes(self) -> Seq<u8> {
        let d = self.device_descriptor@;
        seq![10, DT_DEVICE_QUALIFIER, d[2], d[3], d[4], d[5], d[6], d[7], 1, 0]
    }

    /// The descriptor of type `dtype` and index `index`, if there is one.
    pub open spec fn descriptor(self, dtype: u8, index: u8) -> Option<Seq<u8>> {
        if dtype == DT_DEVICE {
            Some(self.device_descriptor@)
        } else if dtype == DT_CONFIGURATION {
            Some(self.config_descriptor@)
        } else if dtype == DT_STRING {
            self.string_bytes(index)
        } else if dtype == DT_BOS {
            match self.msos20 {
                Some(ms) => Some(ms.bos@),
                None => None,
            }
        } else if dtype == DT_DEVICE_QUALIFIER && self.summary.speed == UsbSpeed::High {
            Some(self.qualifier_bytes())
        } else if dtype == DT_HID_REPORT {
            match self.report_descriptor {
                Some(d) => Some(d@),
                None => None,
            }
        } else {
            None
        }
    }

    /// Whether `setup` asks for the device qualifier of a high-speed device.
    pub open spec fn asks_qualifier(self, setup: SetupPacket) -> bool {
        &&& setup.kind() == KIND_STANDARD
        &&& setup.b_request == GET_DESCRIPTOR
        &&& setup.device_to_host()
        &&& setup.w_value / 256 == DT_DEVICE_QUALIFIER
        &&& self.summary.speed == UsbSpeed::High
    }

    /// The answer to a standard request; `None` where the persona decides.
    pub open spec fn standard_answer(self, setup: SetupPacket) -> Option<Result<Seq<u8>, Stall>> {
        let req = setup.b_request;
        let sized = |data: Seq<u8>| Some(Ok::<Seq<u8>, Stall>(prefix(data, setup.w_length as int)));
        if setup.kind() != KIND_STANDARD {
            None
        } else if req == GET_DESCRIPTOR && setup.device_to_host() {
            match self.descriptor((setup.w_value / 256) as u8, (setup.w_value % 256) as u8) {
                Some(d) => sized(d),
                None => Some(Err(Stall)),
            }
        } else if req == GET_STATUS && setup.device_to_host() {
            sized(seq![0, 0])
        } else if req == GET_CONFIGURATION && setup.device_to_host() {
            sized(seq![self.summary.configuration_value])
        } else if req == GET_INTERFACE && setup.device_to_host() {
            sized(seq![0])
        } else if req == SET_CONFIGURATION || req == SET_INTERFACE || req == SET_ADDRESS || req
            == CLEAR_FEATURE || req == SET_FEATURE {
            Some(Ok(Seq::empty()))
        } else {
            None
        }
    }

    /// Handles the standard (and HID-descriptor) control requests every persona
    /// answers the same way. Returns `None` if the request is not one of them
    /// (the persona-specific handler takes over). Endpoint-halt features are
    /// accepted as no-ops: the host clears halts on all endpoints at connect.
    pub fn handle_standard(&self, setup: SetupPacket) -> (r: Option<Result<Vec<u8>, Stall>>)
        requires
            self.asks_qualifier(setup) ==> self.device_descriptor@.len() >= 8,
        ensures
            handled(r) == self.standard_answer(setup),
    {
        if setup.request_kind() != KIND_STANDARD {
            return None;
        }
        let n: usize = setup.w_length as usize;
        let req: u8 = setup.b_request;
        if req == GET_DESCRIPTOR && setup.is_in() {
            let dtype: u8 = (setup.w_value / 256) as u8;
            let index: u8 = (setup.w_value % 256) as u8;
            if dtype == DT_DEVICE {
                Some(Ok(take_prefix(&self.device_descriptor, n)))
            } else if dtype == DT_CONFIGURATION {
                Some(Ok(take_prefix(&self.config_descriptor, n)))
            } else if dtype == DT_STRING {
                match self.string_descriptor(index) {
                    Some(d) => Some(Ok(take_prefix(&d, n))),
                    None => Some(Err(Stall)),
                }
            } else if dtype == DT_BOS {
                match &self.msos20 {
                    Some(ms) => Some(Ok(take_prefix(&ms.bos, n))),
                    None => Some(Err(Stall)),
                }
            } else if dtype == DT_DEVICE_QUALIFIER {
                if self.summary.speed == UsbSpeed::High {
                    let d = self.device_qualifier();
                    Some(Ok(take_prefix(&d, n)))
                } else {
                    Some(Err(Stall))
                }
            } else if dtype == DT_HID_REPORT {
                match &self.report_descriptor {
                    Some(d) => Some(Ok(take_prefix(d, n))),
                    None => Some(Err(Stall)),
                }
            } else {
                Some(Err(Stall))
            }
        } else if req == GET_STATUS && setup.is_in() {
            let d: Vec<u8> = vec![0, 0];
            assert(d@ =~= seq![0u8, 0u8]);
            Some(Ok(take_prefix(&d, n)))
        } else if req == GET_CONFIGURATION && setup.is_in() {
            let d: Vec<u8> = vec![self.summary.configuration_value];
            assert(d@ =~= seq![self.summary.configuration_value]);
            Some(Ok(take_prefix(&d, n)))
        } else if req == GET_INTERFACE && setup.is_in() {
            let d: Vec<u8> = vec![0];
            assert(d@ =~= seq![0u8]);
            Some(Ok(take_prefix(&d, n)))
        } else if req == SET_CONFIGURATION || req == SET_INTERFACE || req == SET_ADDRESS || req
            == CLEAR_FEATURE || req == SET_FEATURE {
            Some(Ok(Vec::new()))
        } else {
            None
        }
    }

    /// The descriptor of string `index`.
    fn string_descriptor(&self, index: u8) -> (r: Option<Vec<u8>>)
        ensures
            match r {
                Some(d) => self.string_bytes(index) == Some(d@),
                None => self.string_bytes(index) is None,
            },
    {
        if index == 0 {
            // Supported language: US English.
            let d: Vec<u8> = vec![4, DT_STRING, 0x09, 0x04];
            assert(d@ =~= seq![4, DT_STRING, 0x09, 0x04]);
            return Some(d);
        }
        let at: usize = index as usize - 1;
        if at >= self.strings.len() {
            return None;
        }
        let mut units: Vec<u8> = Vec::new();
        put_utf16(&mut units, self.strings[at].as_str());
        let mut d: Vec<u8> = Vec::new();
        d.push(((units.len() % 256 + 2) % 256) as u8);
        d.push(DT_STRING);
        put(&mut d, &units);
        assert(units@ =~= utf16_of(self.strings@[at as int]@));
        assert(d@ =~= seq![((2 + units@.len()) % 256) as u8, DT_STRING] + units@);
        Some(d)
    }

    /// The answer to the MS OS 2.0 vendor request; `None` for anything else.
    pub open spec fn vendor_answer(self, setup: SetupPacket) -> Option<Result<Seq<u8>, Stall>> {
        match self.msos20 {
            Some(ms) => if setup.bm_request_type == 0xC0 && setup.b_request == ms.vendor_code
                && setup.w_index == MSOS20_DESCRIPTOR_INDEX {
                Some(Ok(prefix(ms.descriptor_set@, setup.w_length as int)))
            } else {
                None
            },
            None => None,
        }
    }

    /// Handles the MS OS 2.0 vendor request (descriptor-set fetch). Returns
    /// `None` for anything else.
    pub fn handle_vendor(&self, setup: SetupPacket) -> (r: Option<Result<Vec<u8>, Stall>>)
        ensures
            handled(r) == self.vendor_answer(setup),
    {
        match &self.msos20 {
            // Vendor request, device-to-host, device recipient.
            Some(ms) => if setup.bm_request_type == 0xC0 && setup.b_request == ms.vendor_code
                && setup.w_index == MSOS20_DESCRIPTOR_INDEX {
                Some(Ok(take_prefix(&ms.descriptor_set, setup.w_length as usize)))
            } else {
                None
            },
            None => None,
        }
    }

    /// The device-qualifier descriptor.
    fn device_qualifier(&self) -> (q: Vec<u8>)
        requires
            self.device_descriptor@.len() >= 8,
        ensures
            q@ == self.qualifier_bytes(),
    {
        let d = &self.device_descriptor;
        let q: Vec<u8> = vec![10, DT_DEVICE_QUALIFIER, d[2], d[3], d[4], d[5], d[6], d[7], 1, 0];
        assert(q@ =~= self.qualifier_bytes());
        q
    }
}

/// An 18-byte device descriptor. Manufacturer, product and serial strings have
/// indices 1 to 3, as far as `n_strings` goes.
pub open spec fn device_descriptor_bytes(
    bcd_usb: u16,
    class: (u8, u8, u8),
    vid: u16,
    pid: u16,
    bcd_device: u16,
    n_strings: u8,
) -> Seq<u8> {
    let index = |i: u8| if n_strings >= i { i } else { 0u8 };
    seq![18, DT_DEVICE] + le16(bcd_usb) + seq![class.0, class.1, class.2, 64] + le16(vid) + le16(pid)
        + le16(bcd_device) + seq![index(1), index(2), index(3), 1]
}

/// Builds a device descriptor with a 64-byte control endpoint and one
/// configuration.
fn device_descriptor(
    bcd_usb: u16,
    class: (u8, u8, u8),
    vid: u16,
    pid: u16,
    bcd_device: u16,
    n_strings: u8,
) -> (d: Vec<u8>)
    ensures
        d@ == device_descriptor_bytes(bcd_usb, class, vid, pid, bcd_device, n_strings),
        d@.len() == 18,
{
    let mut d: Vec<u8> = vec![18, DT_DEVICE];
    put_le16(&mut d, bcd_usb);
    d.push(class.0);
    d.push(class.1);
    d.push(class.2);
    d.push(64);
    put_le16(&mut d, vid);
    put_le16(&mut d, pid);
    put_le16(&mut d, bcd_device);
    d.push(if n_strings >= 1 { 1 } else { 0 });
    d.push(if n_strings >= 2 { 2 } else { 0 });
    d.push(if n_strings >= 3 { 3 } else { 0 });
    d.push(1);
    assert(d@ =~= device_descriptor_bytes(bcd_usb, class, vid, pid, bcd_device, n_strings));
    d
}

/// A 7-byte endpoint descriptor.
pub open spec fn endpoint_bytes(addr: u8, attributes: u8, max_packet: u16, interval: u8) -> Seq<u8> {
    seq![7, 5, addr, attributes] + le16(max_packet) + seq![interval]
}

/// Builds an endpoint descriptor.
pub fn endpoint_descriptor(addr: u8, attributes: u8, max_packet: u16, interval: u8) -> (d: [u8; 7])
    ensures
        d@ == endpoint_bytes(addr, attributes, max_packet, interval),
{
    let d: [u8; 7] = [
        7,
        5,
        addr,
        attributes,
        (max_packet % 256) as u8,
        (max_packet / 256) as u8,
        interval,
    ];
    assert(d@ =~= endpoint_bytes(addr, attributes, max_packet, interval));
    d
}

/// A 9-byte descriptor of interface 0, alternate setting 0, without a name.
pub open spec fn interface_bytes(class: (u8, u8, u8), num_endpoints: u8) -> Seq<u8> {
    seq![9, 4, 0, 0, num_endpoints, class.0, class.1, class.2, 0]
}

/// Builds an interface descriptor.
pub fn interface_descriptor(class: (u8, u8, u8), num_endpoints: u8) -> (d: [u8; 9])
    ensures
        d@ == interface_bytes(class, num_endpoints),
{
    let d: [u8; 9] = [9, 4, 0, 0, num_endpoints, class.0, class.1, class.2, 0];
    assert(d@ =~= interface_bytes(class, num_endpoints));
    d
}

/// A bus-powered configuration of one interface, drawing `half_ma` times 2 mA:
/// the header, with the length of everything, then `body`.
pub open spec fn configuration_bytes(half_ma: u8, body: Seq<u8>) -> Seq<u8> {
    seq![9, DT_CONFIGURATION] + le16((9 + body.len()) as u16) + seq![1, 1, 0, 0x80, half_ma] + body
}

/// Puts the configuration header in front of `body`.
fn configuration(half_ma: u8, body: &[u8]) -> (d: Vec<u8>)
    requires
        body@.len() <= 1000,
    ensures
        d@ == configuration_bytes(half_ma, body@),
{
    let mut d: Vec<u8> = vec![9, DT_CONFIGURATION];
    put_le16(&mut d, 9 + body.len() as u16);
    d.push(1);
    d.push(1);
    d.push(0);
    d.push(0x80);
    d.push(half_ma);
    put(&mut d, body);
    assert(d@ =~= configuration_bytes(half_ma, body@));
    d
}

/// Name of the registry property that carries the interface GUID.
pub open spec fn guid_property() -> Seq<char> {
    "DeviceInterfaceGUIDs"@
}

/// Interface GUID advertised through the MS OS 2.0 `DeviceInterfaceGUIDs`
/// registry property (fixed, so the virtual device is stable across runs).
pub open spec fn device_interface_guid() -> Seq<char> {
    "{D696BFEB-1734-417D-8A04-86D091193D30}"@
}

/// A NUL-terminated text in UTF-16, little-endian.
pub open spec fn utf16z(s: Seq<char>) -> Seq<u8> {
    utf16_of(s) + seq![0, 0]
}

/// A NUL-terminated text in UTF-16, little-endian.
fn utf16le(s: &str) -> (out: Vec<u8>)
    ensures
        out@ == utf16z(s@),
{
    let mut out: Vec<u8> = Vec::new();
    put_utf16(&mut out, s);
    out.push(0);
    out.push(0);
    assert(out@ =~= utf16z(s@));
    out
}

/// Feature descriptor: compatible ID `WINUSB`, no sub-compatible ID.
pub open spec fn compatible_id_bytes() -> Seq<u8> {
    le16(20) + le16(3) + seq![0x57, 0x49, 0x4E, 0x55, 0x53, 0x42, 0, 0] + zeros(8)
}

/// Feature descriptor: a REG_MULTI_SZ registry property of one string.
pub open spec fn registry_property_bytes(name: Seq<u8>, data: Seq<u8>) -> Seq<u8> {
    le16((10 + name.len() + data.len()) as u16) + le16(4) + le16(7) + le16(name.len() as u16) + name
        + le16(data.len() as u16) + data
}

/// The value of the `DeviceInterfaceGUIDs` property: one string, then the NUL
/// that ends the list.
pub open spec fn guid_list_bytes() -> Seq<u8> {
    utf16z(device_interface_guid()) + seq![0, 0]
}

/// The two feature descriptors of the set.
pub open spec fn msos20_features() -> Seq<u8> {
    compatible_id_bytes() + registry_property_bytes(utf16z(guid_property()), guid_list_bytes())
}

/// The MS OS 2.0 descriptor set: a header with the total length, then the
/// features.
pub open spec fn msos20_set_bytes() -> Seq<u8> {
    le16(10) + le16(0) + le32(WINDOWS_8_1) + le16((10 + msos20_features().len()) as u16)
        + msos20_features()
}

/// The BOS descriptor with the MS OS 2.0 platform capability
/// {D8DD60DF-4589-4CC7-9CD2-659D9E648A9F}, announcing a set of `set_len` bytes.
pub open spec fn bos_bytes(vendor_code: u8, set_len: u16) -> Seq<u8> {
    seq![5, DT_BOS] + le16(33) + seq![1, 28, 0x10, 0x05, 0] + seq![
        0xDF,
        0x60,
        0xDD,
        0xD8,
        0x89,
        0x45,
        0xC7,
        0x4C,
        0x9C,
        0xD2,
        0x65,
        0x9D,
        0x9E,
        0x64,
        0x8A,
        0x9F,
    ] + le32(WINDOWS_8_1) + le16(set_len) + seq![vendor_code, 0]
}

/// Lengths of the pieces of the descriptor set.
proof fn lemma_msos20_lengths()
    ensures
        utf16z(guid_property()).len() == 42,
        guid_list_bytes().len() == 80,
        msos20_features().len() == 152,
        msos20_set_bytes().len() == 162,
{
    reveal_strlit("DeviceInterfaceGUIDs");
    reveal_strlit("{D696BFEB-1734-417D-8A04-86D091193D30}");
    lemma_utf16_ascii_len(guid_property());
    lemma_utf16_ascii_len(device_interface_guid());
}

/// Builds the BOS descriptor and the MS OS 2.0 descriptor set that make Windows
/// bind WinUSB automatically (compatible ID `WINUSB` and a DeviceInterfaceGUIDs
/// registry property, the layout libusb/WinUSB documentation recommends).
fn msos20(vendor_code: u8) -> (ms: MsOs20)
    ensures
        ms.vendor_code == vendor_code,
        ms.descriptor_set@ == msos20_set_bytes(),
        ms.bos@ == bos_bytes(vendor_code, msos20_set_bytes().len() as u16),
{
    proof {
        lemma_msos20_lengths();
    }
    // Compatible ID, for the whole non-composite device.
    let mut features: Vec<u8> = Vec::new();
    put_le16(&mut features, 20);
    put_le16(&mut features, 3);
    let compatible: [u8; 8] = [0x57, 0x49, 0x4E, 0x55, 0x53, 0x42, 0, 0];
    assert(compatible@ =~= seq![0x57u8, 0x49, 0x4E, 0x55, 0x53, 0x42, 0, 0]);
    put(&mut features, &compatible);
    put_zeros(&mut features, 8);
    assert(features@ =~= compatible_id_bytes());

    // Registry property DeviceInterfaceGUIDs.
    let name = utf16le("DeviceInterfaceGUIDs");
    let mut data = utf16le("{D696BFEB-1734-417D-8A04-86D091193D30}");
    data.push(0);
    data.push(0);
    assert(data@ =~= guid_list_bytes());
    put_le16(&mut features, (10 + name.len() + data.len()) as u16);
    put_le16(&mut features, 4);
    put_le16(&mut features, 7);
    put_le16(&mut features, name.len() as u16);
    put(&mut features, &name);
    put_le16(&mut features, data.len() as u16);
    put(&mut features, &data);
    assert(features@ =~= msos20_features());

    let total: u16 = 10 + features.len() as u16;
    let mut set: Vec<u8> = Vec::new();
    put_le16(&mut set, 10);
    put_le16(&mut set, 0);
    put_le32(&mut set, WINDOWS_8_1);
    put_le16(&mut set, total);
    put(&mut set, &features);
    assert(set@ =~= msos20_set_bytes());

    let mut bos: Vec<u8> = vec![5, DT_BOS];
    put_le16(&mut bos, 33);
    let capability: [u8; 21] = [
        1,
        28,
        0x10,
        0x05,
        0,
        0xDF,
        0x60,
        0xDD,
        0xD8,
        0x89,
        0x45,
        0xC7,
        0x4C,
        0x9C,
        0xD2,
        0x65,
        0x9D,
        0x9E,
        0x64,
        0x8A,
        0x9F,
    ];
    put(&mut bos, &capability);
    put_le32(&mut bos, WINDOWS_8_1);
    put_le16(&mut bos, total);
    bos.push(vendor_code);
    bos.push(0);
    assert(bos@ =~= bos_bytes(vendor_code, total));
    MsOs20 { vendor_code, bos, descriptor_set: set }
}

/// What the analyzer persona's identity holds.
pub open spec fn is_analyzer_identity(
    id: Identity,
    vid: u16,
    pid: u16,
    product: Seq<char>,
    serial: Seq<char>,
) -> bool {
    &&& id.summary@ == (SummaryView {
        vid,
        pid,
        bcd_device: 0x0100,
        device_class: 0,
        device_subclass: 0,
        device_protocol: 0,
        configuration_value: 1,
        num_configurations: 1,
        speed: UsbSpeed::High,
        interfaces: seq![(0xff, 0, 0)],
    })
    &&& id.device_descriptor@ == device_descriptor_bytes(0x0201, (0, 0, 0), vid, pid, 0x0100, 3)
    &&& id.config_descriptor@ == configuration_bytes(
        250,
        interface_bytes((0xff, 0, 0), 4) + endpoint_bytes(0x01, 2, 512, 0) + endpoint_bytes(
            0x81,
            2,
            512,
            0,
        ) + endpoint_bytes(0x02, 2, 512, 0) + endpoint_bytes(0x82, 2, 512, 0),
    )
    &&& texts(id.strings@) == seq!["QuantAsylum"@, product, serial]
    &&& id.report_descriptor is None
    &&& id.msos20 is Some
    &&& id.msos20->0.vendor_code == MSOS20_VENDOR_CODE
    &&& id.msos20->0.descriptor_set@ == msos20_set_bytes()
    &&& id.msos20->0.bos@ == bos_bytes(MSOS20_VENDOR_CODE, msos20_set_bytes().len() as u16)
}

/// Analyzer persona: vendor-specific interface with the four bulk endpoints
/// the QA40x exposes (0x01/0x81 register bus, 0x02/0x82 audio stream). bcdUSB
/// 0x0201 is BOS-capable, so Windows fetches the MS OS 2.0 descriptors and
/// binds WinUSB without an INF.
pub fn analyzer_identity(vid: u16, pid: u16, product: &str, serial: &str) -> (id: Identity)
    ensures
        is_analyzer_identity(id, vid, pid, product@, serial@),
{
    let mut body: Vec<u8> = Vec::new();
    put(&mut body, &interface_descriptor((0xff, 0, 0), 4));
    put(&mut body, &endpoint_descriptor(0x01, 2, 512, 0));
    put(&mut body, &endpoint_descriptor(0x81, 2, 512, 0));
    put(&mut body, &endpoint_descriptor(0x02, 2, 512, 0));
    put(&mut body, &endpoint_descriptor(0x82, 2, 512, 0));
    let config = configuration(250, &body);
    assert(body@ =~= interface_bytes((0xff, 0, 0), 4) + endpoint_bytes(0x01, 2, 512, 0)
        + endpoint_bytes(0x81, 2, 512, 0) + endpoint_bytes(0x02, 2, 512, 0) + endpoint_bytes(
        0x82,
        2,
        512,
        0,
    ));
    let interfaces: Vec<(u8, u8, u8)> = vec![(0xff, 0, 0)];
    assert(interfaces@ =~= seq![(0xffu8, 0u8, 0u8)]);
    let strings: Vec<String> = vec![
        "QuantAsylum".to_string(),
        product.to_string(),
        serial.to_string(),
    ];
    assert(texts(strings@) =~= seq!["QuantAsylum"@, product@, serial@]);
    Identity {
        summary: DeviceSummary {
            vid,
            pid,
            bcd_device: 0x0100,
            device_class: 0,
            device_subclass: 0,
            device_protocol: 0,
            configuration_value: 1,
            num_configurations: 1,
            speed: UsbSpeed::High,
            interfaces,
        },
        device_descriptor: device_descriptor(0x0201, (0, 0, 0), vid, pid, 0x0100, 3),
        config_descriptor: config,
        strings,
        report_descriptor: None,
        msos20: Some(msos20(MSOS20_VENDOR_CODE)),
    }
}

/// One numbered report of 59 bytes; `tag` tells input from output.
pub open spec fn hid_report_bytes(id: u8, tag: u8) -> Seq<u8> {
    seq![
        0x85,
        id,
        0x09,
        id,
        0x15,
        0x00,
        0x26,
        0xff,
        0x00,
        0x75,
        0x08,
        0x95,
        59,
        tag,
        0x02,
    ]
}

/// HID item tag of an input report.
pub const HID_INPUT: u8 = 0x81;

/// HID item tag of an output report.
pub const HID_OUTPUT: u8 = 0x91;

/// The KBOOT report descriptor: a vendor-defined collection of four reports.
pub open spec fn kboot_report_bytes() -> Seq<u8> {
    seq![0x06, 0x00, 0xff, 0x09, 0x01, 0xa1, 0x01] + hid_report_bytes(1, HID_OUTPUT)
        + hid_report_bytes(2, HID_OUTPUT) + hid_report_bytes(3, HID_INPUT) + hid_report_bytes(
        4,
        HID_INPUT,
    ) + seq![0xc0]
}

/// Appends one numbered report.
fn put_hid_report(out: &mut Vec<u8>, id: u8, tag: u8)
    ensures
        final(out)@ == old(out)@ + hid_report_bytes(id, tag),
{
    let r: [u8; 15] = [
        0x85,
        id,
        0x09,
        id,
        0x15,
        0x00,
        0x26,
        0xff,
        0x00,
        0x75,
        0x08,
        0x95,
        59,
        tag,
        0x02,
    ];
    assert(r@ =~= hid_report_bytes(id, tag));
    put(out, &r);
}

/// KBOOT HID report descriptor: vendor-defined usage page with the four
/// numbered reports the NXP bootloader uses (1 = command OUT, 2 = data OUT,
/// 3 = response IN, 4 = data IN), 59 payload bytes each (60-byte reports
/// including the report id).
fn kboot_report_descriptor() -> (d: Vec<u8>)
    ensures
        d@ == kboot_report_bytes(),
{
    let mut d: Vec<u8> = vec![0x06, 0x00, 0xff, 0x09, 0x01, 0xa1, 0x01];
    put_hid_report(&mut d, 1, HID_OUTPUT);
    put_hid_report(&mut d, 2, HID_OUTPUT);
    put_hid_report(&mut d, 3, HID_INPUT);
    put_hid_report(&mut d, 4, HID_INPUT);
    d.push(0xc0);
    assert(d@ =~= kboot_report_bytes());
    d
}

/// HID 1.11 descriptor announcing one report descriptor of `len` bytes.
pub open spec fn hid_bytes(len: u16) -> Seq<u8> {
    seq![9, 0x21, 0x11, 0x01, 0, 1, DT_HID_REPORT] + le16(len)
}

/// What the bootloader persona's identity holds.
pub open spec fn is_bootloader_identity(id: Identity) -> bool {
    &&& id.summary@ == (SummaryView {
        vid: 0x1FC9,
        pid: 0x0022,
        bcd_device: 0x0100,
        device_class: 0,
        device_subclass: 0,
        device_protocol: 0,
        configuration_value: 1,
        num_configurations: 1,
        speed: UsbSpeed::Full,
        interfaces: seq![(3, 0, 0)],
    })
    &&& id.device_descriptor@ == device_descriptor_bytes(
        0x0200,
        (0, 0, 0),
        0x1FC9,
        0x0022,
        0x0100,
        2,
    )
    &&& id.config_descriptor@ == configuration_bytes(
        50,
        interface_bytes((3, 0, 0), 2) + hid_bytes(kboot_report_bytes().len() as u16)
            + endpoint_bytes(0x81, 3, 64, 1) + endpoint_bytes(0x01, 3, 64, 1),
    )
    &&& texts(id.strings@) == seq!["NXP Semiconductor Inc."@, "USB COMPOSITE DEVICE"@]
    &&& id.report_descriptor is Some
    &&& id.report_descriptor->0@ == kboot_report_bytes()
    &&& id.msos20 is None
}

/// Bootloader persona: the NXP MCUBOOT/KBOOT HID device (0x1FC9:0x0022) the
/// QA40x re-enumerates as after the register-0x0F magic. HID binds by class on
/// every OS, so it needs no MS OS descriptors.
pub fn bootloader_identity() -> (id: Identity)
    ensures
        is_bootloader_identity(id),
{
    let report_desc = kboot_report_descriptor();
    let mut body: Vec<u8> = Vec::new();
    put(&mut body, &interface_descriptor((3, 0, 0), 2));
    let hid: [u8; 7] = [9, 0x21, 0x11, 0x01, 0, 1, DT_HID_REPORT];
    put(&mut body, &hid);
    put_le16(&mut body, report_desc.len() as u16);
    put(&mut body, &endpoint_descriptor(0x81, 3, 64, 1));
    put(&mut body, &endpoint_descriptor(0x01, 3, 64, 1));
    assert(body@ =~= interface_bytes((3, 0, 0), 2) + hid_bytes(kboot_report_bytes().len() as u16)
        + endpoint_bytes(0x81, 3, 64, 1) + endpoint_bytes(0x01, 3, 64, 1));
    let config = configuration(50, &body);
    let interfaces: Vec<(u8, u8, u8)> = vec![(3, 0, 0)];
    assert(interfaces@ =~= seq![(3u8, 0u8, 0u8)]);
    let strings: Vec<String> = vec![
        "NXP Semiconductor Inc.".to_string(),
        "USB COMPOSITE DEVICE".to_string(),
    ];
    assert(texts(strings@) =~= seq!["NXP Semiconductor Inc."@, "USB COMPOSITE DEVICE"@]);
    Identity {
        summary: DeviceSummary {
            vid: 0x1FC9,
            pid: 0x0022,
            bcd_device: 0x0100,
            device_class: 0,
            device_subclass: 0,
            device_protocol: 0,
            configuration_value: 1,
            num_configurations: 1,
            speed: UsbSpeed::Full,
            interfaces,
        },
        device_descriptor: device_descriptor(0x0200, (0, 0, 0), 0x1FC9, 0x0022, 0x0100, 2),
        config_descriptor: config,
        strings,
        report_descriptor: Some(report_desc),
        msos20: None,
    }
}

/// A configuration descriptor announces its own length.
pub proof fn lemma_configuration_length(half_ma: u8, body: Seq<u8>)
    requires
        9 + body.len() <= u16::MAX,
    ensures
        le16_at(configuration_bytes(half_ma, body), 2) == configuration_bytes(half_ma, body).len(),
{
    let d = configuration_bytes(half_ma, body);
    assert(d.subrange(2, 4) =~= le16((9 + body.len()) as u16));
    lemma_le16_within(d, 2, (9 + body.len()) as u16);
}

/// What the BOS descriptor announces.
proof fn lemma_bos(vendor_code: u8, set_len: u16)
    ensures
        bos_bytes(vendor_code, set_len).len() == 33,
        bos_bytes(vendor_code, set_len)[1] == DT_BOS,
        le16_at(bos_bytes(vendor_code, set_len), 29) == set_len,
        bos_bytes(vendor_code, set_len)[31] == vendor_code,
{
    let bos = bos_bytes(vendor_code, set_len);
    assert(bos.subrange(29, 31) =~= le16(set_len));
    lemma_le16_within(bos, 29, set_len);
}

/// The chain Windows walks to bind WinUSB to the analyzer: the device is
/// BOS-capable; the BOS descriptor, asked for in full, announces the vendor
/// code and the length of the descriptor set; the vendor request with that
/// code and length returns the whole set, which carries the `WINUSB`
/// compatible id.
pub proof fn lemma_msos20_chain(
    id: Identity,
    vid: u16,
    pid: u16,
    product: Seq<char>,
    serial: Seq<char>,
    ask_bos: SetupPacket,
    ask_set: SetupPacket,
)
    requires
        is_analyzer_identity(id, vid, pid, product, serial),
        ask_bos.bm_request_type == 0x80,
        ask_bos.b_request == GET_DESCRIPTOR,
        ask_bos.w_value == 0x0F00,
        ask_bos.w_length >= 33,
        ask_set.bm_request_type == 0xC0,
        ask_set.w_index == MSOS20_DESCRIPTOR_INDEX,
    ensures
        le16_at(id.device_descriptor@, 2) == 0x0201,
        ({
            let bos = id.msos20->0.bos@;
            let set = msos20_set_bytes();
            &&& id.standard_answer(ask_bos) == Some(Ok::<Seq<u8>, Stall>(bos))
            &&& bos.len() == 33
            &&& bos[1] == DT_BOS
            &&& ask_set.b_request == bos[31] && ask_set.w_length == le16_at(bos, 29) ==> {
                &&& id.standard_answer(ask_set) is None
                &&& id.vendor_answer(ask_set) == Some(Ok::<Seq<u8>, Stall>(set))
            }
            &&& le16_at(bos, 29) == set.len()
            &&& set.subrange(14, 20) == seq![0x57u8, 0x49, 0x4E, 0x55, 0x53, 0x42]
        }),
{
    let d = id.device_descriptor@;
    assert(d.subrange(2, 4) =~= le16(0x0201));
    lemma_le16_within(d, 2, 0x0201);
    lemma_msos20_lengths();
    lemma_bos(MSOS20_VENDOR_CODE, msos20_set_bytes().len() as u16);
    let set = msos20_set_bytes();
    assert(set.subrange(14, 20) =~= seq![0x57u8, 0x49, 0x4E, 0x55, 0x53, 0x42]);
}

} // verus!
