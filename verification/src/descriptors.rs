//! FunctionFS descriptor and strings blobs (V2 format).
//!
//! FunctionFS expects the userspace daemon to write, to `ep0`, a descriptor
//! blob and a strings blob describing the function's interface(s) and
//! endpoints: everything the config descriptor holds *except* the 9-byte
//! configuration header (device/config/string descriptors and enumeration are
//! handled by the kernel composite core from the configfs gadget attributes).

use crate::identity::{endpoint_bytes, endpoint_descriptor, interface_bytes, interface_descriptor};
use crate::proto::low32;
use crate::wire::{le32, le32_at, lemma_le32_within, put, put_le32};
use vstd::prelude::*;

verus! {

/// `FUNCTIONFS_DESCRIPTORS_MAGIC_V2`
pub const DESCRIPTORS_MAGIC_V2: u32 = 2;

/// `FUNCTIONFS_STRINGS_MAGIC`
pub const STRINGS_MAGIC: u32 = 2;

/// `functionfs_flags`: full-speed and high-speed descriptors are present.
pub const HAS_FS_AND_HS_DESC: u32 = 3;

/// USB transfer-type bits for `bmAttributes`.
pub const XFER_BULK: u8 = 0x02;

pub const XFER_INTERRUPT: u8 = 0x03;

/// One endpoint of the function. Full-speed and high-speed advertise
/// different max packet sizes (bulk is 64 at FS but 512 at HS); interrupt
/// endpoints keep 64 at both.
#[derive(Debug, Clone, Copy, PartialEq, Eq, Structural)]
pub struct Endpoint {
    pub address: u8,
    pub attributes: u8,
    pub fs_max_packet: u16,
    pub hs_max_packet: u16,
    pub interval: u8,
}

impl Endpoint {
    /// A bulk endpoint.
    pub open spec fn bulk_at(address: u8) -> Endpoint {
        Endpoint {
            address,
            attributes: XFER_BULK,
            fs_max_packet: 64,
            hs_max_packet: 512,
            interval: 0,
        }
    }

    /// A bulk endpoint.
    pub fn bulk(address: u8) -> (e: Self)
        ensures
            e == Endpoint::bulk_at(address),
    {
        Endpoint {
            address,
            attributes: XFER_BULK,
            fs_max_packet: 64,
            hs_max_packet: 512,
            interval: 0,
        }
    }

    /// An interrupt endpoint.
    pub fn interrupt(address: u8, interval: u8) -> (e: Self)
        ensures
            e == (Endpoint {
                address,
                attributes: XFER_INTERRUPT,
                fs_max_packet: 64,
                hs_max_packet: 64,
                interval,
            }),
    {
        Endpoint {
            address,
            attributes: XFER_INTERRUPT,
            fs_max_packet: 64,
            hs_max_packet: 64,
            interval,
        }
    }

    /// The endpoint descriptor at a speed.
    pub open spec fn bytes(self, high_speed: bool) -> Seq<u8> {
        endpoint_bytes(
            self.address,
            self.attributes,
            if high_speed {
                self.hs_max_packet
            } else {
                self.fs_max_packet
            },
            self.interval,
        )
    }
}

/// The analyzer persona's four bulk endpoints: register bus (0x01/0x81) and
/// audio stream (0x02/0x82).
pub fn analyzer_endpoints() -> (v: Vec<Endpoint>)
    ensures
        v@ == seq![
            Endpoint::bulk_at(0x01),
            Endpoint::bulk_at(0x81),
            Endpoint::bulk_at(0x02),
            Endpoint::bulk_at(0x82),
        ],
{
    let v: Vec<Endpoint> = vec![
        Endpoint::bulk(0x01),
        Endpoint::bulk(0x81),
        Endpoint::bulk(0x02),
        Endpoint::bulk(0x82),
    ];
    assert(v@ =~= seq![
        Endpoint::bulk_at(0x01),
        Endpoint::bulk_at(0x81),
        Endpoint::bulk_at(0x02),
        Endpoint::bulk_at(0x82),
    ]);
    v
}

/// The endpoint descriptors at a speed.
pub open spec fn endpoints_bytes(endpoints: Seq<Endpoint>, high_speed: bool) -> Seq<u8>
    decreases endpoints.len(),
{
    if endpoints.len() == 0 {
        Seq::empty()
    } else {
        endpoints_bytes(endpoints.drop_last(), high_speed) + endpoints.last().bytes(high_speed)
    }
}

/// One alternate-speed descriptor set: interface, optional class descriptor
/// (such as HID) and endpoints at the given speed's max packet size.
pub open spec fn speed_bytes(
    class: (u8, u8, u8),
    class_descriptor: Seq<u8>,
    endpoints: Seq<Endpoint>,
    high_speed: bool,
) -> Seq<u8> {
    interface_bytes(class, (endpoints.len() % 256) as u8) + class_descriptor + endpoints_bytes(
        endpoints,
        high_speed,
    )
}

/// The number of descriptors of a set: interface, class descriptor (none or
/// one) and endpoints.
pub open spec fn speed_count(class_descriptor: Seq<u8>, endpoints: Seq<Endpoint>) -> u32 {
    ((if class_descriptor.len() > 0 {
        2int
    } else {
        1
    }) + endpoints.len()) as u32
}

/// One alternate-speed descriptor set, with its descriptor count. The
/// descriptors of one function are few: the count fits 32 bits.
fn speed_descriptors(
    class: (u8, u8, u8),
    class_descriptor: &[u8],
    endpoints: &[Endpoint],
    high_speed: bool,
) -> (r: (u32, Vec<u8>))
    requires
        endpoints@.len() + 2 <= u32::MAX,
    ensures
        r.0 == speed_count(class_descriptor@, endpoints@),
        r.1@ == speed_bytes(class, class_descriptor@, endpoints@, high_speed),
{
    let mut out: Vec<u8> = Vec::new();
    put(&mut out, &interface_descriptor(class, (endpoints.len() % 256) as u8));
    put(&mut out, class_descriptor);
    let ghost head = out@;
    assert(head =~= interface_bytes(class, (endpoints@.len() % 256) as u8) + class_descriptor@);
    let mut i: usize = 0;
    assert(out@ =~= head + endpoints_bytes(endpoints@.take(0), high_speed));
    while i < endpoints.len()
        invariant
            i <= endpoints@.len(),
            out@ == head + endpoints_bytes(endpoints@.take(i as int), high_speed),
        decreases endpoints@.len() - i,
    {
        let ep = endpoints[i];
        let mp: u16 = if high_speed {
            ep.hs_max_packet
        } else {
            ep.fs_max_packet
        };
        put(&mut out, &endpoint_descriptor(ep.address, ep.attributes, mp, ep.interval));
        assert(endpoints@.take(i + 1).drop_last() =~= endpoints@.take(i as int));
        assert(out@ =~= head + endpoints_bytes(endpoints@.take(i + 1), high_speed));
        i += 1;
    }
    assert(endpoints@.take(i as int) =~= endpoints@);
    let count: u32 = if class_descriptor.len() > 0 {
        2
    } else {
        1
    };
    (count + endpoints.len() as u32, out)
}

/// The FunctionFS V2 descriptor blob.
pub open spec fn descriptors_bytes(
    class: (u8, u8, u8),
    class_descriptor: Seq<u8>,
    endpoints: Seq<Endpoint>,
) -> Seq<u8> {
    let count = le32(speed_count(class_descriptor, endpoints));
    let body = count + count + speed_bytes(class, class_descriptor, endpoints, false) + speed_bytes(
        class,
        class_descriptor,
        endpoints,
        true,
    );
    le32(DESCRIPTORS_MAGIC_V2) + le32(low32(12 + body.len())) + le32(HAS_FS_AND_HS_DESC) + body
}

/// The length of the descriptor blob.
pub open spec fn descriptors_len(class_descriptor: Seq<u8>, endpoints: Seq<Endpoint>) -> nat {
    20 + 2 * (9 + class_descriptor.len() + 7 * endpoints.len())
}

/// Each endpoint takes seven bytes.
proof fn lemma_endpoints_len(endpoints: Seq<Endpoint>, high_speed: bool)
    ensures
        endpoints_bytes(endpoints, high_speed).len() == 7 * endpoints.len(),
    decreases endpoints.len(),
{
    if endpoints.len() > 0 {
        lemma_endpoints_len(endpoints.drop_last(), high_speed);
    }
}

/// Builds the FunctionFS V2 descriptor blob for a single interface with the
/// given endpoints (and optional interface-class descriptor such as a HID
/// descriptor placed between the interface and its endpoints). Its length
/// field keeps the low 32 bits.
pub fn build_descriptors(
    class: (u8, u8, u8),
    class_descriptor: &[u8],
    endpoints: &[Endpoint],
) -> (blob: Vec<u8>)
    requires
        endpoints@.len() + 2 <= u32::MAX,
    ensures
        blob@ == descriptors_bytes(class, class_descriptor@, endpoints@),
        blob@.len() == descriptors_len(class_descriptor@, endpoints@),
{
    proof {
        lemma_endpoints_len(endpoints@, false);
        lemma_endpoints_len(endpoints@, true);
    }
    let (fs_count, fs) = speed_descriptors(class, class_descriptor, endpoints, false);
    let (hs_count, hs) = speed_descriptors(class, class_descriptor, endpoints, true);
    let mut body: Vec<u8> = Vec::new();
    put_le32(&mut body, fs_count);
    put_le32(&mut body, hs_count);
    put(&mut body, &fs);
    put(&mut body, &hs);
    let total: u32 = ((body.len() as u64).wrapping_add(12) % 0x1_0000_0000) as u32;
    let mut blob: Vec<u8> = Vec::new();
    put_le32(&mut blob, DESCRIPTORS_MAGIC_V2);
    put_le32(&mut blob, total);
    put_le32(&mut blob, HAS_FS_AND_HS_DESC);
    put(&mut blob, &body);
    assert(blob@ =~= descriptors_bytes(class, class_descriptor@, endpoints@));
    blob
}

/// Builds the (empty) FunctionFS strings blob: the analyzer's interface has no
/// string, and the device-level manufacturer/product/serial strings come from
/// the configfs gadget, so no per-function strings are needed.
pub fn build_strings() -> (blob: Vec<u8>)
    ensures
        blob@ == le32(STRINGS_MAGIC) + le32(16) + le32(0) + le32(0),
        blob@.len() == 16,
{
    let mut blob: Vec<u8> = Vec::new();
    put_le32(&mut blob, STRINGS_MAGIC);
    put_le32(&mut blob, 16);
    // str_count, lang_count
    put_le32(&mut blob, 0);
    put_le32(&mut blob, 0);
    assert(blob@ =~= le32(STRINGS_MAGIC) + le32(16) + le32(0) + le32(0));
    blob
}

/// The blob announces its own length, and both speeds announce the number of
/// descriptors they hold.
pub proof fn lemma_descriptors_header(
    class: (u8, u8, u8),
    class_descriptor: Seq<u8>,
    endpoints: Seq<Endpoint>,
)
    requires
        descriptors_len(class_descriptor, endpoints) <= u32::MAX,
    ensures
        ({
            let blob = descriptors_bytes(class, class_descriptor, endpoints);
            &&& le32_at(blob, 0) == DESCRIPTORS_MAGIC_V2
            &&& le32_at(blob, 4) == blob.len()
            &&& le32_at(blob, 8) == HAS_FS_AND_HS_DESC
            &&& le32_at(blob, 12) == speed_count(class_descriptor, endpoints)
            &&& le32_at(blob, 16) == speed_count(class_descriptor, endpoints)
            &&& blob.len() == descriptors_len(class_descriptor, endpoints)
        }),
{
    lemma_endpoints_len(endpoints, false);
    lemma_endpoints_len(endpoints, true);
    let blob = descriptors_bytes(class, class_descriptor, endpoints);
    let count = speed_count(class_descriptor, endpoints);
    assert(blob.subrange(0, 4) =~= le32(DESCRIPTORS_MAGIC_V2));
    lemma_le32_within(blob, 0, DESCRIPTORS_MAGIC_V2);
    assert(blob.subrange(4, 8) =~= le32(blob.len() as u32));
    lemma_le32_within(blob, 4, blob.len() as u32);
    assert(blob.subrange(8, 12) =~= le32(HAS_FS_AND_HS_DESC));
    lemma_le32_within(blob, 8, HAS_FS_AND_HS_DESC);
    assert(blob.subrange(12, 16) =~= le32(count));
    lemma_le32_within(blob, 12, count);
    assert(blob.subrange(16, 20) =~= le32(count));
    lemma_le32_within(blob, 16, count);
}

} // verus!
