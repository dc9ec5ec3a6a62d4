//! USB/IP wire protocol (device side), protocol version 0x0111.
//!
//! Reference: Linux `Documentation/usb/usbip_protocol.rst` and
//! `drivers/usb/usbip/`. All header fields are big-endian.

use crate::backend::{DeviceSummary, SummaryView};
use crate::wire::{
    be16, be16_at, be32, be32_at, get_be32, lemma_be16_within, lemma_be32_within, prefix, put,
    put_be16, put_be32, put_zeros, take_prefix, to_word, word, zeros,
};
use vstd::prelude::*;
use vstd::string::StringExecFns;
use vstd::utf8::encode_utf8;

verus! {

pub const USBIP_VERSION: u16 = 0x0111;

pub const OP_REQ_DEVLIST: u16 = 0x8005;

pub const OP_REP_DEVLIST: u16 = 0x0005;

pub const OP_REQ_IMPORT: u16 = 0x8003;

pub const OP_REP_IMPORT: u16 = 0x0003;

pub const USBIP_CMD_SUBMIT: u32 = 0x0000_0001;

pub const USBIP_CMD_UNLINK: u32 = 0x0000_0002;

pub const USBIP_RET_SUBMIT: u32 = 0x0000_0003;

pub const USBIP_RET_UNLINK: u32 = 0x0000_0004;

pub const DIR_OUT: u32 = 0;

pub const DIR_IN: u32 = 1;

/// URB completion status codes (Linux errno, negated).
pub const ST_OK: i32 = 0;

/// Endpoint stall.
pub const ST_EPIPE: i32 = -32;

/// Unlinked.
pub const ST_ECONNRESET: i32 = -104;

pub const BUS_NUM: u32 = 1;

pub const DEV_NUM: u32 = 2;

/// Bytes of a URB header.
pub const URB_HEADER_LEN: usize = 48;

/// Bytes of a device block.
pub const DEVICE_BLOCK_LEN: usize = 312;

/// The fixed 48-byte URB header shared by CMD/RET SUBMIT/UNLINK.
#[derive(Debug, Clone, Copy, Default)]
pub struct UrbHeader {
    pub command: u32,
    pub seqnum: u32,
    pub devid: u32,
    pub direction: u32,
    pub ep: u32,
    /// The 28 command-specific bytes after the 20-byte basic header.
    pub rest: [u8; 28],
}

impl UrbHeader {
    /// Whether the header is what 48 wire bytes hold.
    pub open spec fn is_parsed(self, buf: Seq<u8>) -> bool {
        &&& self.command == be32_at(buf, 0)
        &&& self.seqnum == be32_at(buf, 4)
        &&& self.devid == be32_at(buf, 8)
        &&& self.direction == be32_at(buf, 12)
        &&& self.ep == be32_at(buf, 16)
        &&& self.rest@ == buf.subrange(20, 48)
    }

    /// Decodes the header bytes.
    pub fn parse(buf: &[u8; 48]) -> (h: Self)
        ensures
            h.is_parsed(buf@),
    {
        let b = buf.as_slice();
        let mut rest: [u8; 28] = [0;28];
        let mut i: usize = 0;
        while i < 28
            invariant
                i <= 28,
                rest@.len() == 28,
                b@ == buf@,
                forall|k: int| 0 <= k < i ==> rest@[k] == buf@[20 + k],
            decreases 28 - i,
        {
            rest[i] = b[20 + i];
            i += 1;
        }
        assert(rest@ =~= buf@.subrange(20, 48));
        UrbHeader {
            command: get_be32(b, 0),
            seqnum: get_be32(b, 4),
            devid: get_be32(b, 8),
            direction: get_be32(b, 12),
            ep: get_be32(b, 16),
            rest,
        }
    }

    /// The command-specific word at `index` (0..=6).
    pub fn u32_rest(&self, index: usize) -> (v: u32)
        requires
            index < 7,
        ensures
            v == be32_at(self.rest@, 4 * index as int),
    {
        get_be32(self.rest.as_slice(), index * 4)
    }

    /// CMD_SUBMIT: transfer_buffer_length.
    pub open spec fn length(self) -> u32 {
        be32_at(self.rest@, 4)
    }

    /// CMD_SUBMIT: transfer_buffer_length.
    pub fn transfer_length(&self) -> (n: usize)
        ensures
            n == self.length(),
    {
        self.u32_rest(1) as usize
    }

    /// CMD_SUBMIT: the 8 setup bytes.
    pub fn setup(&self) -> (s: [u8; 8])
        ensures
            s@ == self.rest@.subrange(20, 28),
    {
        let s: [u8; 8] = [
            self.rest[20],
            self.rest[21],
            self.rest[22],
            self.rest[23],
            self.rest[24],
            self.rest[25],
            self.rest[26],
            self.rest[27],
        ];
        assert(s@ =~= self.rest@.subrange(20, 28));
        s
    }

    /// CMD_UNLINK: seqnum of the URB to unlink.
    pub open spec fn victim(self) -> u32 {
        be32_at(self.rest@, 0)
    }

    /// CMD_UNLINK: seqnum of the URB to unlink.
    pub fn unlink_seqnum(&self) -> (n: u32)
        ensures
            n == self.victim(),
    {
        self.u32_rest(0)
    }
}

/// The bytes of a RET_SUBMIT header.
pub open spec fn ret_submit_header(seqnum: u32, status: i32, actual: u32) -> Seq<u8> {
    be32(USBIP_RET_SUBMIT) + be32(seqnum) + zeros(12) + be32(word(status)) + be32(actual)
        + zeros(20)
}

/// The low 32 bits of a length.
pub open spec fn low32(n: nat) -> u32 {
    (n % 0x1_0000_0000) as u32
}

/// The bytes of a RET_SUBMIT: header, then the IN payload if there is one. The
/// actual length is the payload's, or the accepted OUT length.
pub open spec fn ret_submit_bytes(
    seqnum: u32,
    status: i32,
    data: Option<Seq<u8>>,
    out_actual: nat,
) -> Seq<u8> {
    match data {
        Some(d) => ret_submit_header(seqnum, status, low32(d.len())) + d,
        None => ret_submit_header(seqnum, status, low32(out_actual)),
    }
}

/// Encodes a RET_SUBMIT (header and optional IN payload). Lengths keep their
/// low 32 bits on the wire.
pub fn ret_submit(seqnum: u32, status: i32, data: Option<&[u8]>, out_actual: usize) -> (buf: Vec<
    u8,
>)
    ensures
        buf@ == ret_submit_bytes(
            seqnum,
            status,
            match data {
                Some(d) => Some(d@),
                None => None,
            },
            out_actual as nat,
        ),
{
    let len: usize = match data {
        Some(d) => d.len(),
        None => out_actual,
    };
    let actual: u32 = (len as u64 % 0x1_0000_0000) as u32;
    let mut buf: Vec<u8> = Vec::new();
    put_be32(&mut buf, USBIP_RET_SUBMIT);
    put_be32(&mut buf, seqnum);
    // devid, direction, ep
    put_zeros(&mut buf, 12);
    put_be32(&mut buf, to_word(status));
    put_be32(&mut buf, actual);
    // start_frame, number_of_packets (non-iso), error_count, padding
    put_zeros(&mut buf, 20);
    assert(buf@ =~= ret_submit_header(seqnum, status, actual));
    if let Some(d) = data {
        put(&mut buf, d);
    }
    buf
}

/// The bytes of a RET_UNLINK.
pub open spec fn ret_unlink_bytes(seqnum: u32, status: i32) -> Seq<u8> {
    be32(USBIP_RET_UNLINK) + be32(seqnum) + zeros(12) + be32(word(status)) + zeros(24)
}

/// Encodes a RET_UNLINK.
pub fn ret_unlink(seqnum: u32, status: i32) -> (buf: Vec<u8>)
    ensures
        buf@ == ret_unlink_bytes(seqnum, status),
{
    let mut buf: Vec<u8> = Vec::new();
    put_be32(&mut buf, USBIP_RET_UNLINK);
    put_be32(&mut buf, seqnum);
    put_zeros(&mut buf, 12);
    put_be32(&mut buf, to_word(status));
    put_zeros(&mut buf, 24);
    assert(buf@ =~= ret_unlink_bytes(seqnum, status));
    buf
}

/// A text in a field of `n` bytes: cut so that a zero byte follows it, and
/// padded with zeros.
pub open spec fn text_field(bytes: Seq<u8>, n: nat) -> Seq<u8> {
    let cut = prefix(bytes, n - 1);
    cut + zeros((n - cut.len()) as nat)
}

/// Appends a text field.
fn put_text_field(out: &mut Vec<u8>, bytes: &[u8], n: usize)
    requires
        n > 0,
    ensures
        final(out)@ == old(out)@ + text_field(bytes@, n as nat),
{
    let ghost before = out@;
    let cut = take_prefix(bytes, n - 1);
    put(out, &cut);
    put_zeros(out, n - cut.len());
    assert(out@ =~= before + text_field(bytes@, n as nat));
}

/// The sysfs path shown for a bus id.
pub open spec fn device_path(busid: Seq<char>) -> Seq<char> {
    "/sys/devices/virtual/usbip/"@ + busid
}

/// The bytes of a `usbip_usb_device` block.
pub open spec fn device_block_bytes(busid: Seq<char>, s: SummaryView, interfaces: u8) -> Seq<u8> {
    text_field(encode_utf8(device_path(busid)), 256) + text_field(encode_utf8(busid), 32) + be32(
        BUS_NUM,
    ) + be32(DEV_NUM) + be32(s.speed.number()) + be16(s.vid) + be16(s.pid) + be16(s.bcd_device)
        + seq![
        s.device_class,
        s.device_subclass,
        s.device_protocol,
        s.configuration_value,
        s.num_configurations,
        interfaces,
    ]
}

/// The 312-byte `usbip_usb_device` block used by OP_REP_DEVLIST / OP_REP_IMPORT.
pub fn usb_device_block(busid: &str, summary: &DeviceSummary, n_interfaces_field: u8) -> (buf: Vec<
    u8,
>)
    ensures
        buf@ == device_block_bytes(busid@, summary@, n_interfaces_field),
        buf@.len() == DEVICE_BLOCK_LEN,
{
    let mut path = String::new();
    path.append("/sys/devices/virtual/usbip/");
    path.append(busid);
    assert(path@ =~= device_path(busid@));
    let mut buf: Vec<u8> = Vec::new();
    put_text_field(&mut buf, path.as_str().as_bytes(), 256);
    put_text_field(&mut buf, busid.as_bytes(), 32);
    put_be32(&mut buf, BUS_NUM);
    put_be32(&mut buf, DEV_NUM);
    put_be32(&mut buf, summary.speed.code());
    put_be16(&mut buf, summary.vid);
    put_be16(&mut buf, summary.pid);
    put_be16(&mut buf, summary.bcd_device);
    buf.push(summary.device_class);
    buf.push(summary.device_subclass);
    buf.push(summary.device_protocol);
    buf.push(summary.configuration_value);
    buf.push(summary.num_configurations);
    buf.push(n_interfaces_field);
    assert(buf@ =~= device_block_bytes(busid@, summary@, n_interfaces_field));
    buf
}

/// The bytes of an operation header.
pub open spec fn op_header_bytes(code: u16, status: u32) -> Seq<u8> {
    be16(USBIP_VERSION) + be16(code) + be32(status)
}

/// Encodes an operation header.
pub fn op_header(code: u16, status: u32) -> (buf: Vec<u8>)
    ensures
        buf@ == op_header_bytes(code, status),
{
    let mut buf: Vec<u8> = Vec::new();
    put_be16(&mut buf, USBIP_VERSION);
    put_be16(&mut buf, code);
    put_be32(&mut buf, status);
    assert(buf@ =~= op_header_bytes(code, status));
    buf
}

/// devid as sent in the CMD headers of importing clients.
pub fn devid() -> (d: u32)
    ensures
        d == BUS_NUM * 0x1_0000 + DEV_NUM,
{
    BUS_NUM * 0x1_0000 + DEV_NUM
}

/// A client finds the fields of a RET_SUBMIT where the protocol puts them, and
/// the payload right behind the 48 header bytes.
pub proof fn lemma_ret_submit(seqnum: u32, status: i32, data: Option<Seq<u8>>, out_actual: nat)
    ensures
        ({
            let buf = ret_submit_bytes(seqnum, status, data, out_actual);
            let payload = match data {
                Some(d) => d,
                None => Seq::empty(),
            };
            &&& be32_at(buf, 0) == USBIP_RET_SUBMIT
            &&& be32_at(buf, 4) == seqnum
            &&& be32_at(buf, 20) == word(status)
            &&& be32_at(buf, 24) == low32(
                match data {
                    Some(d) => d.len(),
                    None => out_actual,
                },
            )
            &&& buf.len() == URB_HEADER_LEN + payload.len()
            &&& buf.skip(URB_HEADER_LEN as int) == payload
        }),
{
    let buf = ret_submit_bytes(seqnum, status, data, out_actual);
    let (payload, actual) = match data {
        Some(d) => (d, low32(d.len())),
        None => (Seq::empty(), low32(out_actual)),
    };
    let header = ret_submit_header(seqnum, status, actual);
    assert(buf =~= header + payload);
    assert(buf.subrange(0, 4) =~= be32(USBIP_RET_SUBMIT));
    lemma_be32_within(buf, 0, USBIP_RET_SUBMIT);
    assert(buf.subrange(4, 8) =~= be32(seqnum));
    lemma_be32_within(buf, 4, seqnum);
    assert(buf.subrange(20, 24) =~= be32(word(status)));
    lemma_be32_within(buf, 20, word(status));
    assert(buf.subrange(24, 28) =~= be32(actual));
    lemma_be32_within(buf, 24, actual);
    assert(buf.skip(48) =~= payload);
}

/// A client finds the fields of a RET_UNLINK where the protocol puts them.
pub proof fn lemma_ret_unlink(seqnum: u32, status: i32)
    ensures
        ({
            let buf = ret_unlink_bytes(seqnum, status);
            &&& be32_at(buf, 0) == USBIP_RET_UNLINK
            &&& be32_at(buf, 4) == seqnum
            &&& be32_at(buf, 20) == word(status)
            &&& buf.len() == URB_HEADER_LEN
        }),
{
    let buf = ret_unlink_bytes(seqnum, status);
    assert(buf.subrange(0, 4) =~= be32(USBIP_RET_UNLINK));
    lemma_be32_within(buf, 0, USBIP_RET_UNLINK);
    assert(buf.subrange(4, 8) =~= be32(seqnum));
    lemma_be32_within(buf, 4, seqnum);
    assert(buf.subrange(20, 24) =~= be32(word(status)));
    lemma_be32_within(buf, 20, word(status));
}

/// A client finds the ids of a device block where the protocol puts them: the
/// bus id field at 256, the vendor and product ids at 300 and 302.
pub proof fn lemma_device_block(busid: Seq<char>, s: SummaryView, interfaces: u8)
    ensures
        ({
            let buf = device_block_bytes(busid, s, interfaces);
            &&& buf.len() == DEVICE_BLOCK_LEN
            &&& buf.subrange(256, 288) == text_field(encode_utf8(busid), 32)
            &&& be16_at(buf, 300) == s.vid
            &&& be16_at(buf, 302) == s.pid
            &&& buf[311] == interfaces
        }),
{
    let buf = device_block_bytes(busid, s, interfaces);
    let path = text_field(encode_utf8(device_path(busid)), 256);
    let bus = text_field(encode_utf8(busid), 32);
    assert(path.len() == 256 && bus.len() == 32);
    assert(buf.subrange(256, 288) =~= bus);
    assert(buf.subrange(300, 302) =~= be16(s.vid));
    lemma_be16_within(buf, 300, s.vid);
    assert(buf.subrange(302, 304) =~= be16(s.pid));
    lemma_be16_within(buf, 302, s.pid);
}

/// The bytes of a CMD_SUBMIT header, as a client sends it.
pub open spec fn cmd_submit_header(
    seqnum: u32,
    dev: u32,
    direction: u32,
    ep: u32,
    flags: u32,
    length: u32,
    setup: Seq<u8>,
) -> Seq<u8> {
    be32(USBIP_CMD_SUBMIT) + be32(seqnum) + be32(dev) + be32(direction) + be32(ep) + be32(flags)
        + be32(length) + zeros(12) + setup
}

/// Parsing a client's CMD_SUBMIT header gives its fields back.
pub proof fn lemma_parse_submit(
    h: UrbHeader,
    seqnum: u32,
    dev: u32,
    direction: u32,
    ep: u32,
    flags: u32,
    length: u32,
    setup: Seq<u8>,
)
    requires
        setup.len() == 8,
        h.is_parsed(cmd_submit_header(seqnum, dev, direction, ep, flags, length, setup)),
    ensures
        h.command == USBIP_CMD_SUBMIT,
        h.seqnum == seqnum,
        h.devid == dev,
        h.direction == direction,
        h.ep == ep,
        h.length() == length,
        h.rest@.subrange(20, 28) == setup,
{
    let buf = cmd_submit_header(seqnum, dev, direction, ep, flags, length, setup);
    assert(buf.subrange(0, 4) =~= be32(USBIP_CMD_SUBMIT));
    lemma_be32_within(buf, 0, USBIP_CMD_SUBMIT);
    assert(buf.subrange(4, 8) =~= be32(seqnum));
    lemma_be32_within(buf, 4, seqnum);
    assert(buf.subrange(8, 12) =~= be32(dev));
    lemma_be32_within(buf, 8, dev);
    assert(buf.subrange(12, 16) =~= be32(direction));
    lemma_be32_within(buf, 12, direction);
    assert(buf.subrange(16, 20) =~= be32(ep));
    lemma_be32_within(buf, 16, ep);
    assert(h.rest@.subrange(4, 8) =~= be32(length));
    lemma_be32_within(h.rest@, 4, length);
    assert(h.rest@.subrange(20, 28) =~= setup);
}

} // verus!
