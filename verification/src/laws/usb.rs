//! USB enumeration: setup packets, descriptors, strings and standard requests.

use crate::backend::{DeviceSummary, SetupPacket, Stall, UsbSpeed};
use crate::identity::{
    analyzer_identity, bootloader_identity, endpoint_descriptor, interface_descriptor, utf16_char,
    utf16_of, Identity,
};
use crate::sim::Simulator;
use crate::text::texts;
use vstd::prelude::*;

verus! {

/// The eight bytes of a setup packet: two bytes, then three 16-bit numbers, low
/// byte first. Bit 7 of the first byte is the direction, bits 6 and 5 the kind.
pub proof fn law_setup_packet(bytes: &[u8; 8], s: SetupPacket, inward: bool, kind: u8)
    requires
        call_ensures(SetupPacket::parse, (bytes,), s),
        call_ensures(SetupPacket::is_in, (&s,), inward),
        call_ensures(SetupPacket::request_kind, (&s,), kind),
    ensures
        s.bm_request_type == bytes@[0],
        s.b_request == bytes@[1],
        s.w_value == bytes@[2] + 256 * bytes@[3],
        s.w_index == bytes@[4] + 256 * bytes@[5],
        s.w_length == bytes@[6] + 256 * bytes@[7],
        bytes@[0] == (if inward {
            128int
        } else {
            0
        }) + 32 * kind + bytes@[0] % 32,
        kind < 4,
{
}

/// A speed has its number in the Linux kernel, and a copied summary stays what
/// it was.
pub proof fn law_summary(speed: UsbSpeed, n: u32, a: &DeviceSummary, b: DeviceSummary)
    requires
        call_ensures(UsbSpeed::code, (&speed,), n),
        call_ensures(DeviceSummary::clone, (a,), b),
    ensures
        n == (if speed is Full {
            2u32
        } else {
            3
        }),
        b@ == a@,
{
}

/// How many 16-bit units the first `i` characters of a text take.
pub open spec fn unit_at(t: Seq<char>, i: int) -> int
    decreases i,
{
    if i <= 0 {
        0
    } else {
        unit_at(t, i - 1) + if (t[i - 1] as u32) < 0x1_0000 {
            1int
        } else {
            2
        }
    }
}

/// The 16-bit unit number `k` of some bytes, low byte first.
pub open spec fn unit(d: Seq<u8>, k: int) -> int {
    d[2 * k] + 256 * d[2 * k + 1]
}

/// Whether a decoder that reads UTF-16 from unit `k` on finds this character.
pub open spec fn reads_char(d: Seq<u8>, k: int, c: char) -> bool {
    if (c as u32) < 0x1_0000 {
        unit(d, k) == c as u32
    } else {
        &&& 0xD800 <= unit(d, k) < 0xDC00
        &&& 0xDC00 <= unit(d, k + 1) < 0xE000
        &&& 0x1_0000 + (unit(d, k) - 0xD800) * 0x400 + (unit(d, k + 1) - 0xDC00) == c as u32
    }
}

/// Whether some bytes are exactly a text in UTF-16, low bytes first.
pub open spec fn reads_text(d: Seq<u8>, t: Seq<char>) -> bool {
    &&& d.len() == 2 * unit_at(t, t.len() as int)
    &&& forall|i: int| 0 <= i < t.len() ==> #[trigger] reads_char(d, unit_at(t, i), t[i])
}

/// Units of a text do not depend on what follows.
proof fn lemma_unit_at_prefix(t: Seq<char>, i: int)
    requires
        0 <= i < t.len(),
    ensures
        unit_at(t.drop_last(), i) == unit_at(t, i),
        unit_at(t, i) >= 0,
    decreases i,
{
    if i > 0 {
        lemma_unit_at_prefix(t, i - 1);
    }
}

/// Units add up.
proof fn lemma_unit_at_order(t: Seq<char>, i: int, j: int)
    requires
        0 <= i < j <= t.len(),
    ensures
        0 <= unit_at(t, i),
        unit_at(t, j) >= unit_at(t, i) + if (t[i] as u32) < 0x1_0000 {
            1int
        } else {
            2
        },
    decreases j,
{
    if i < j - 1 {
        lemma_unit_at_order(t, i, j - 1);
    } else if i > 0 {
        lemma_unit_at_order(t, i - 1, i);
    }
}

/// The highest character.
proof fn lemma_char_range(c: char)
    ensures
        c as u32 <= 0x10_FFFF,
{
}

/// What the encoder writes, a decoder reads.
proof fn lemma_reads_text(t: Seq<char>)
    ensures
        reads_text(utf16_of(t), t),
    decreases t.len(),
{
    if t.len() > 0 {
        let (front, d) = (t.drop_last(), utf16_of(t));
        let before = utf16_of(front);
        let n = t.len() as int;
        lemma_reads_text(front);
        lemma_unit_at_prefix(t, n - 1);
        let end = utf16_char(t.last());
        assert(d =~= before + end);
        let v = t.last() as u32;
        lemma_char_range(t.last());
        assert(reads_char(d, unit_at(t, n - 1), t[n - 1])) by {
            let k = unit_at(t, n - 1);
            assert(before.len() == 2 * k);
            assert(d[2 * k] == end[0] && d[2 * k + 1] == end[1]);
            if v >= 0x1_0000 {
                assert(d[2 * (k + 1)] == end[2] && d[2 * (k + 1) + 1] == end[3]);
            }
        }
        assert forall|i: int| 0 <= i < t.len() implies #[trigger] reads_char(
            d,
            unit_at(t, i),
            t[i],
        ) by {
            if i < n - 1 {
                lemma_unit_at_prefix(t, i);
                lemma_unit_at_order(t, i, n - 1);
                let k = unit_at(t, i);
                assert(reads_char(before, unit_at(front, i), front[i]));
                assert(d[2 * k] == before[2 * k] && d[2 * k + 1] == before[2 * k + 1]);
                if (t[i] as u32) >= 0x1_0000 {
                    assert(d[2 * (k + 1)] == before[2 * (k + 1)]);
                    assert(d[2 * (k + 1) + 1] == before[2 * (k + 1) + 1]);
                }
            }
        }
    }
}

/// Whether some bytes are the string descriptor of a text: its length in one
/// byte, the type, then the text in UTF-16.
pub open spec fn string_of_text(d: Seq<u8>, t: Seq<char>) -> bool {
    &&& d.len() == 2 + 2 * unit_at(t, t.len() as int)
    &&& d[0] == d.len() % 256
    &&& d[1] == 3
    &&& reads_text(d.skip(2), t)
}

/// The whole answer of an identity to a request, however long it is.
pub open spec fn answers(r: Option<Result<Vec<u8>, Stall>>, d: Seq<u8>) -> bool {
    r matches Some(Ok(v)) && v@ == d
}

/// A device-to-host request for a descriptor with room for `d`.
pub open spec fn asks(setup: SetupPacket, dtype: int, index: int, d: Seq<u8>) -> bool {
    &&& 128 <= setup.bm_request_type < 160
    &&& setup.b_request == 6
    &&& setup.w_value == 256 * dtype + index
    &&& d.len() <= setup.w_length
}

/// The string descriptors of an identity: index 0 lists US English, the n-th
/// string has index n, and any other index stalls.
pub proof fn law_strings(id: &Identity, setup: SetupPacket, r: Option<Result<Vec<u8>, Stall>>)
    requires
        call_ensures(Identity::handle_standard, (id, setup), r),
        128 <= setup.bm_request_type < 160,
        setup.b_request == 6,
        setup.w_value / 256 == 3,
    ensures
        ({
            let index = setup.w_value % 256;
            if index == 0 {
                setup.w_length >= 4 ==> answers(r, seq![4u8, 3u8, 9u8, 4u8])
            } else if index > id.strings@.len() {
                r matches Some(Err(_))
            } else {
                let text = id.strings@[index - 1]@;
                &&& r matches Some(Ok(d))
                &&& setup.w_length >= 2 + 2 * unit_at(text, text.len() as int) ==> string_of_text(
                    d@,
                    text,
                )
            }
        }),
{
    let index = setup.w_value % 256;
    if 0 < index <= id.strings@.len() {
        let text = id.strings@[index - 1]@;
        lemma_reads_text(text);
        let full = seq![((2 + utf16_of(text).len()) % 256) as u8, 3u8] + utf16_of(text);
        assert(full.skip(2) =~= utf16_of(text));
        assert(id.string_bytes(index as u8) == Some(full));
        if setup.w_length >= full.len() {
            assert(r->0->Ok_0@ =~= full);
        }
    } else if index == 0 && setup.w_length >= 4 {
        assert(r->0->Ok_0@ =~= seq![4u8, 3u8, 9u8, 4u8]);
    }
}

/// The analyzer's strings are found at the indices its device descriptor names:
/// byte 14 the manufacturer, byte 15 the product, byte 16 the serial number.
pub proof fn law_analyzer_strings(
    vid: u16,
    pid: u16,
    product: &str,
    serial: &str,
    id: Identity,
    setup: SetupPacket,
    r: Option<Result<Vec<u8>, Stall>>,
    at: int,
)
    requires
        call_ensures(analyzer_identity, (vid, pid, product, serial), id),
        call_ensures(Identity::handle_standard, (&id, setup), r),
        14 <= at <= 16,
        128 <= setup.bm_request_type < 160,
        setup.b_request == 6,
        setup.w_value == 0x300 + id.device_descriptor@[at],
    ensures
        ({
            let text = if at == 14 {
                "QuantAsylum"@
            } else if at == 15 {
                product@
            } else {
                serial@
            };
            &&& r matches Some(Ok(d))
            &&& setup.w_length >= 2 + 2 * unit_at(text, text.len() as int) ==> string_of_text(
                d@,
                text,
            )
        }),
{
    law_strings(&id, setup, r);
    let all = texts(id.strings@);
    assert(all.len() == 3);
    assert(all[0] == id.strings@[0]@ && all[1] == id.strings@[1]@ && all[2] == id.strings@[2]@);
}

/// The bootloader's strings are found at the indices its device descriptor
/// names; it has no serial number.
pub proof fn law_bootloader_strings(
    id: Identity,
    setup: SetupPacket,
    r: Option<Result<Vec<u8>, Stall>>,
    at: int,
)
    requires
        call_ensures(bootloader_identity, (), id),
        call_ensures(Identity::handle_standard, (&id, setup), r),
        14 <= at <= 15,
        128 <= setup.bm_request_type < 160,
        setup.b_request == 6,
        setup.w_value == 0x300 + id.device_descriptor@[at],
    ensures
        id.device_descriptor@[16] == 0,
        ({
            let text = if at == 14 {
                "NXP Semiconductor Inc."@
            } else {
                "USB COMPOSITE DEVICE"@
            };
            &&& r matches Some(Ok(d))
            &&& setup.w_length >= 2 + 2 * unit_at(text, text.len() as int) ==> string_of_text(
                d@,
                text,
            )
        }),
{
    law_strings(&id, setup, r);
    let all = texts(id.strings@);
    assert(all.len() == 2);
    assert(all[0] == id.strings@[0]@ && all[1] == id.strings@[1]@);
}

/// A string of one-unit characters takes two bytes for each.
pub proof fn law_short_strings(t: Seq<char>)
    requires
        forall|i: int| 0 <= i < t.len() ==> (#[trigger] t[i] as u32) < 0x1_0000,
    ensures
        unit_at(t, t.len() as int) == t.len(),
{
    lemma_short_prefix(t, t.len() as int);
}

/// The first characters of such a string.
proof fn lemma_short_prefix(t: Seq<char>, i: int)
    requires
        forall|i: int| 0 <= i < t.len() ==> (#[trigger] t[i] as u32) < 0x1_0000,
        0 <= i <= t.len(),
    ensures
        unit_at(t, i) == i,
    decreases i,
{
    if i > 0 {
        lemma_short_prefix(t, i - 1);
        assert((t[i - 1] as u32) < 0x1_0000);
    }
}

/// A shorter request gets the beginning of what a longer one gets.
pub proof fn law_short_requests(
    id: &Identity,
    short: SetupPacket,
    long: SetupPacket,
    a: Option<Result<Vec<u8>, Stall>>,
    b: Option<Result<Vec<u8>, Stall>>,
    v: Option<Result<Vec<u8>, Stall>>,
    w: Option<Result<Vec<u8>, Stall>>,
)
    requires
        call_ensures(Identity::handle_standard, (id, short), a),
        call_ensures(Identity::handle_standard, (id, long), b),
        call_ensures(Identity::handle_vendor, (id, short), v),
        call_ensures(Identity::handle_vendor, (id, long), w),
        short == (SetupPacket { w_length: short.w_length, ..long }),
        short.w_length <= long.w_length,
    ensures
        match (a, b) {
            (Some(Ok(x)), Some(Ok(y))) => {
                &&& x@.is_prefix_of(y@)
                &&& x@.len() == short.w_length || x@ == y@
                &&& x@.len() <= short.w_length
            },
            _ => (a is None && b is None) || (a matches Some(Err(_)) && b matches Some(Err(_))),
        },
        match (v, w) {
            (Some(Ok(x)), Some(Ok(y))) => {
                &&& x@.is_prefix_of(y@)
                &&& x@.len() == short.w_length || x@ == y@
                &&& x@.len() <= short.w_length
            },
            _ => v is None && w is None,
        },
{
}

/// Which descriptor a request gets: 1 the device, 2 the configuration, 15 the
/// BOS, 6 the qualifier of a high-speed device, 34 the report descriptor; what
/// is not there, and any other type but strings, stalls.
pub proof fn law_descriptors(
    id: &Identity,
    setup: SetupPacket,
    r: Option<Result<Vec<u8>, Stall>>,
    d: Seq<u8>,
)
    requires
        call_ensures(Identity::handle_standard, (id, setup), r),
        128 <= setup.bm_request_type < 160,
        setup.b_request == 6,
        id.device_descriptor@.len() >= 8,
    ensures
        ({
            let dtype = setup.w_value / 256;
            let index = setup.w_value % 256;
            let dev = id.device_descriptor@;
            let qualifier = seq![10u8, 6u8, dev[2], dev[3], dev[4], dev[5], dev[6], dev[7], 1u8, 0u8];
            &&& asks(setup, 1, index as int, dev) ==> answers(r, dev)
            &&& asks(setup, 2, index as int, id.config_descriptor@) ==> answers(
                r,
                id.config_descriptor@,
            )
            &&& dtype == 15 ==> match id.msos20 {
                Some(ms) => asks(setup, 15, index as int, ms.bos@) ==> answers(r, ms.bos@),
                None => r matches Some(Err(_)),
            }
            &&& dtype == 6 ==> if id.summary.speed is High {
                asks(setup, 6, index as int, qualifier) ==> answers(r, qualifier)
            } else {
                r matches Some(Err(_))
            }
            &&& dtype == 34 ==> match id.report_descriptor {
                Some(rd) => asks(setup, 34, index as int, rd@) ==> answers(r, rd@),
                None => r matches Some(Err(_)),
            }
            &&& dtype != 1 && dtype != 2 && dtype != 3 && dtype != 6 && dtype != 15 && dtype != 34
                ==> (r matches Some(Err(_)))
        }),
{
    let dev = id.device_descriptor@;
    let qualifier = seq![10u8, 6u8, dev[2], dev[3], dev[4], dev[5], dev[6], dev[7], 1u8, 0u8];
    assert(id.qualifier_bytes() =~= qualifier);
    if let Some(Ok(v)) = r {
        if dev.len() <= setup.w_length {
            assert(crate::wire::prefix(dev, setup.w_length as int) =~= dev);
        }
        let c = id.config_descriptor@;
        if c.len() <= setup.w_length {
            assert(crate::wire::prefix(c, setup.w_length as int) =~= c);
        }
        if setup.w_length >= 10 {
            assert(crate::wire::prefix(qualifier, setup.w_length as int) =~= qualifier);
        }
        if let Some(ms) = id.msos20 {
            if ms.bos@.len() <= setup.w_length {
                assert(crate::wire::prefix(ms.bos@, setup.w_length as int) =~= ms.bos@);
            }
        }
        if let Some(rd) = id.report_descriptor {
            if rd@.len() <= setup.w_length {
                assert(crate::wire::prefix(rd@, setup.w_length as int) =~= rd@);
            }
        }
    }
}

/// The other standard requests: 0 reads a zero status, 8 the configuration
/// value, 10 alternate setting 0; 1, 3, 5, 9 and 11 are accepted. Everything
/// else, and every request of another kind, is left to the persona.
pub proof fn law_standard_requests(
    id: &Identity,
    setup: SetupPacket,
    r: Option<Result<Vec<u8>, Stall>>,
)
    requires
        call_ensures(Identity::handle_standard, (id, setup), r),
    ensures
        ({
            let q = setup.b_request;
            let inward = setup.bm_request_type >= 128;
            let standard = setup.bm_request_type % 128 < 32;
            &&& !standard ==> r is None
            &&& standard && inward && q == 0 && setup.w_length >= 2 ==> answers(r, seq![0u8, 0u8])
            &&& standard && inward && q == 8 && setup.w_length >= 1 ==> answers(
                r,
                seq![id.summary.configuration_value],
            )
            &&& standard && inward && q == 10 && setup.w_length >= 1 ==> answers(r, seq![0u8])
            &&& standard && (q == 1 || q == 3 || q == 5 || q == 9 || q == 11) ==> answers(
                r,
                Seq::empty(),
            )
            &&& standard && !inward && (q == 0 || q == 6 || q == 8 || q == 10) ==> r is None
            &&& standard && (q == 2 || q == 4 || q == 7 || q > 11) ==> r is None
        }),
{
    if let Some(Ok(v)) = r {
        let q = setup.b_request;
        if setup.bm_request_type >= 128 && q == 0 && setup.w_length >= 2 {
            assert(v@ =~= seq![0u8, 0u8]);
        }
        if setup.bm_request_type >= 128 && q == 8 && setup.w_length >= 1 {
            assert(v@ =~= seq![id.summary.configuration_value]);
        }
        if setup.bm_request_type >= 128 && q == 10 && setup.w_length >= 1 {
            assert(v@ =~= seq![0u8]);
        }
    }
}

/// The vendor request of type 0xC0 with the announced code and index 7 fetches
/// the descriptor set; nothing else is a vendor request.
pub proof fn law_vendor_requests(
    id: &Identity,
    setup: SetupPacket,
    r: Option<Result<Vec<u8>, Stall>>,
)
    requires
        call_ensures(Identity::handle_vendor, (id, setup), r),
    ensures
        match id.msos20 {
            Some(ms) if setup.bm_request_type == 0xC0 && setup.b_request == ms.vendor_code
                && setup.w_index == 7 => {
                &&& r matches Some(Ok(_))
                &&& setup.w_length >= ms.descriptor_set@.len() ==> answers(r, ms.descriptor_set@)
            },
            _ => r is None,
        },
{
    if let Some(ms) = id.msos20 {
        let set = ms.descriptor_set@;
        if setup.w_length >= set.len() {
            assert(crate::wire::prefix(set, setup.w_length as int) =~= set);
        }
    }
}

/// Endpoint and interface descriptors.
pub proof fn law_small_descriptors(
    addr: u8,
    attributes: u8,
    max_packet: u16,
    interval: u8,
    e: [u8; 7],
    class: (u8, u8, u8),
    n: u8,
    i: [u8; 9],
)
    requires
        call_ensures(endpoint_descriptor, (addr, attributes, max_packet, interval), e),
        call_ensures(interface_descriptor, (class, n), i),
    ensures
        e@[0] == 7 && e@[1] == 5 && e@[2] == addr && e@[3] == attributes && e@[6] == interval,
        e@[4] + 256 * e@[5] == max_packet,
        i@ == seq![9u8, 4u8, 0u8, 0u8, n, class.0, class.1, class.2, 0u8],
{
}

/// What the analyzer announces: USB 2.1, its ids, one vendor interface with
/// bulk endpoints 0x01, 0x81, 0x02 and 0x82 of 512 bytes, 500 mA.
pub proof fn law_analyzer_descriptors(
    vid: u16,
    pid: u16,
    product: &str,
    serial: &str,
    id: Identity,
)
    requires
        call_ensures(analyzer_identity, (vid, pid, product, serial), id),
    ensures
        ({
            let d = id.device_descriptor@;
            &&& d.len() == 18
            &&& d.take(8) == seq![18u8, 1, 1, 2, 0, 0, 0, 64]
            &&& d[8] + 256 * d[9] == vid
            &&& d[10] + 256 * d[11] == pid
            &&& d.skip(12) == seq![0u8, 1, 1, 2, 3, 1]
        }),
        id.config_descriptor@ == seq![
            9u8, 2, 46, 0, 1, 1, 0, 0x80, 250,
            9, 4, 0, 0, 4, 0xff, 0, 0, 0,
            7, 5, 0x01, 2, 0, 2, 0,
            7, 5, 0x81, 2, 0, 2, 0,
            7, 5, 0x02, 2, 0, 2, 0,
            7, 5, 0x82, 2, 0, 2, 0,
        ],
        id.summary.vid == vid,
        id.summary.pid == pid,
        id.summary.bcd_device == 0x100,
        id.summary.device_class == 0,
        id.summary.device_subclass == 0,
        id.summary.device_protocol == 0,
        id.summary.configuration_value == 1,
        id.summary.num_configurations == 1,
        id.summary.speed is High,
        id.summary.interfaces@ == seq![(255u8, 0u8, 0u8)],
        id.report_descriptor is None,
{
    let d = id.device_descriptor@;
    assert(d.take(8) =~= seq![18u8, 1, 1, 2, 0, 0, 0, 64]);
    assert(d.skip(12) =~= seq![0u8, 1, 1, 2, 3, 1]);
    assert(id.config_descriptor@ =~= seq![
        9u8, 2, 46, 0, 1, 1, 0, 0x80, 250,
        9, 4, 0, 0, 4, 0xff, 0, 0, 0,
        7, 5, 0x01, 2, 0, 2, 0,
        7, 5, 0x81, 2, 0, 2, 0,
        7, 5, 0x02, 2, 0, 2, 0,
        7, 5, 0x82, 2, 0, 2, 0,
    ]);
}

/// How Windows finds its driver: the BOS descriptor announces vendor code 0x20
/// and a set of 162 bytes for Windows 8.1 and later, which holds the compatible
/// id WINUSB and the interface GUID as a registry property.
pub proof fn law_analyzer_driver(
    vid: u16,
    pid: u16,
    product: &str,
    serial: &str,
    id: Identity,
)
    requires
        call_ensures(analyzer_identity, (vid, pid, product, serial), id),
    ensures
        id.msos20 is Some,
        id.msos20->0.vendor_code == 0x20,
        id.msos20->0.bos@ == seq![
            5u8, 15, 33, 0, 1, 28, 16, 5, 0, 0xDF, 0x60, 0xDD, 0xD8, 0x89, 0x45, 0xC7, 0x4C, 0x9C,
            0xD2, 0x65, 0x9D, 0x9E, 0x64, 0x8A, 0x9F, 0, 0, 3, 6, 162, 0, 0x20, 0,
        ],
        ({
            let set = id.msos20->0.descriptor_set@;
            &&& set.len() == 162
            &&& set.take(10) == seq![10u8, 0, 0, 0, 0, 0, 3, 6, 162, 0]
            &&& set.subrange(10, 30) == seq![
                20u8, 0, 3, 0, 0x57, 0x49, 0x4E, 0x55, 0x53, 0x42, 0, 0, 0, 0, 0, 0, 0, 0, 0, 0,
            ]
            &&& set.subrange(30, 38) == seq![132u8, 0, 4, 0, 7, 0, 42, 0]
            &&& reads_text(set.subrange(38, 78), "DeviceInterfaceGUIDs"@)
            &&& set.subrange(78, 82) == seq![0u8, 0, 80, 0]
            &&& reads_text(set.subrange(82, 158), "{D696BFEB-1734-417D-8A04-86D091193D30}"@)
            &&& set.subrange(158, 162) == seq![0u8, 0, 0, 0]
        }),
{
    let name = "DeviceInterfaceGUIDs"@;
    let guid = "{D696BFEB-1734-417D-8A04-86D091193D30}"@;
    reveal_strlit("DeviceInterfaceGUIDs");
    reveal_strlit("{D696BFEB-1734-417D-8A04-86D091193D30}");
    crate::identity::lemma_utf16_ascii_len(name);
    crate::identity::lemma_utf16_ascii_len(guid);
    lemma_reads_text(name);
    lemma_reads_text(guid);
    let set = id.msos20->0.descriptor_set@;
    assert(set.len() == 162);
    assert(id.msos20->0.bos@ =~= seq![
        5u8, 15, 33, 0, 1, 28, 16, 5, 0, 0xDF, 0x60, 0xDD, 0xD8, 0x89, 0x45, 0xC7, 0x4C, 0x9C,
        0xD2, 0x65, 0x9D, 0x9E, 0x64, 0x8A, 0x9F, 0, 0, 3, 6, 162, 0, 0x20, 0,
    ]);
    assert(set.take(10) =~= seq![10u8, 0, 0, 0, 0, 0, 3, 6, 162, 0]);
    assert(set.subrange(10, 30) =~= seq![
        20u8, 0, 3, 0, 0x57, 0x49, 0x4E, 0x55, 0x53, 0x42, 0, 0, 0, 0, 0, 0, 0, 0, 0, 0,
    ]);
    assert(set.subrange(30, 38) =~= seq![132u8, 0, 4, 0, 7, 0, 42, 0]);
    assert(set.subrange(38, 78) =~= utf16_of(name));
    assert(set.subrange(78, 82) =~= seq![0u8, 0, 80, 0]);
    assert(set.subrange(82, 158) =~= utf16_of(guid));
    assert(set.subrange(158, 162) =~= seq![0u8, 0, 0, 0]);
}

/// What the bootloader announces: the NXP ids, one HID interface with interrupt
/// endpoints 0x81 and 0x01 of 64 bytes, 100 mA, and four numbered reports of
/// 59 bytes, two out and two in.
pub proof fn law_bootloader_descriptors(id: Identity)
    requires
        call_ensures(bootloader_identity, (), id),
    ensures
        id.device_descriptor@ == seq![
            18u8, 1, 0, 2, 0, 0, 0, 64, 0xC9, 0x1F, 0x22, 0, 0, 1, 1, 2, 0, 1,
        ],
        id.config_descriptor@ == seq![
            9u8, 2, 41, 0, 1, 1, 0, 0x80, 50,
            9, 4, 0, 0, 2, 3, 0, 0, 0,
            9, 0x21, 0x11, 1, 0, 1, 0x22, 68, 0,
            7, 5, 0x81, 3, 64, 0, 1,
            7, 5, 0x01, 3, 64, 0, 1,
        ],
        id.report_descriptor is Some,
        id.report_descriptor->0@ == seq![
            6u8, 0, 0xff, 9, 1, 0xa1, 1,
            0x85, 1, 9, 1, 0x15, 0, 0x26, 0xff, 0, 0x75, 8, 0x95, 59, 0x91, 2,
            0x85, 2, 9, 2, 0x15, 0, 0x26, 0xff, 0, 0x75, 8, 0x95, 59, 0x91, 2,
            0x85, 3, 9, 3, 0x15, 0, 0x26, 0xff, 0, 0x75, 8, 0x95, 59, 0x81, 2,
            0x85, 4, 9, 4, 0x15, 0, 0x26, 0xff, 0, 0x75, 8, 0x95, 59, 0x81, 2,
            0xc0,
        ],
        id.msos20 is None,
        id.summary.vid == 0x1FC9,
        id.summary.pid == 0x22,
        id.summary.bcd_device == 0x100,
        id.summary.device_class == 0,
        id.summary.device_subclass == 0,
        id.summary.device_protocol == 0,
        id.summary.configuration_value == 1,
        id.summary.num_configurations == 1,
        id.summary.speed is Full,
        id.summary.interfaces@ == seq![(3u8, 0u8, 0u8)],
{
    assert(id.device_descriptor@ =~= seq![
        18u8, 1, 0, 2, 0, 0, 0, 64, 0xC9, 0x1F, 0x22, 0, 0, 1, 1, 2, 0, 1,
    ]);
    assert(id.report_descriptor->0@ =~= seq![
        6u8, 0, 0xff, 9, 1, 0xa1, 1,
        0x85, 1, 9, 1, 0x15, 0, 0x26, 0xff, 0, 0x75, 8, 0x95, 59, 0x91, 2,
        0x85, 2, 9, 2, 0x15, 0, 0x26, 0xff, 0, 0x75, 8, 0x95, 59, 0x91, 2,
        0x85, 3, 9, 3, 0x15, 0, 0x26, 0xff, 0, 0x75, 8, 0x95, 59, 0x81, 2,
        0x85, 4, 9, 4, 0x15, 0, 0x26, 0xff, 0, 0x75, 8, 0x95, 59, 0x81, 2,
        0xc0,
    ]);
    assert(id.config_descriptor@ =~= seq![
        9u8, 2, 41, 0, 1, 1, 0, 0x80, 50,
        9, 4, 0, 0, 2, 3, 0, 0, 0,
        9, 0x21, 0x11, 1, 0, 1, 0x22, 68, 0,
        7, 5, 0x81, 3, 64, 0, 1,
        7, 5, 0x01, 3, 64, 0, 1,
    ]);
}

/// A unit answers what its persona's identity answers, the analyzer what its
/// vendor requests fetch as well. Whatever is asked, the analyzer stays as it
/// is.
pub proof fn law_unit_control(
    sim: &mut Simulator,
    setup: SetupPacket,
    data: &[u8],
    r: Result<Vec<u8>, Stall>,
    id: &Identity,
    standard: Option<Result<Vec<u8>, Stall>>,
    vendor: Option<Result<Vec<u8>, Stall>>,
)
    requires
        old(sim).wf(),
        call_ensures(Simulator::control, (sim, setup, data), r),
        *id == old(sim).id(),
        call_ensures(Identity::handle_standard, (id, setup), standard),
        call_ensures(Identity::handle_vendor, (id, setup), vendor),
    ensures
        standard is Some ==> {
            &&& (r is Ok) == (standard->0 is Ok)
            &&& r is Ok ==> r->Ok_0@ == standard->0->Ok_0@
            &&& final(sim)@ == old(sim)@
        },
        standard is None && old(sim)@.current is Analyzer ==> {
            &&& (r is Ok) == (vendor is Some)
            &&& r is Ok ==> vendor->0 is Ok && r->Ok_0@ == vendor->0->Ok_0@
            &&& final(sim)@ == old(sim)@
        },
{
    let s = old(sim)@;
    let e = s.current.events();
    assert(e =~= Seq::empty());
    assert(s.events + e =~= s.events);
}

/// The strings of a unit that shows the analyzer are the maker's name, the
/// product of its model and its serial number.
pub proof fn law_unit_strings(
    sim: &mut Simulator,
    setup: SetupPacket,
    data: &[u8],
    r: Result<Vec<u8>, Stall>,
    product: String,
    index: int,
)
    requires
        old(sim).wf(),
        old(sim)@.current is Analyzer,
        call_ensures(Simulator::control, (sim, setup, data), r),
        call_ensures(crate::options::Model::product_string, (&old(sim).options().model,), product),
        1 <= index <= 3,
        128 <= setup.bm_request_type < 160,
        setup.b_request == 6,
        setup.w_value == 0x300 + index,
    ensures
        ({
            let text = if index == 1 {
                "QuantAsylum"@
            } else if index == 2 {
                product@
            } else {
                old(sim).options().serial@
            };
            &&& r matches Ok(d)
            &&& setup.w_length >= 2 + 2 * unit_at(text, text.len() as int) ==> string_of_text(
                d@,
                text,
            )
        }),
{
    let id = old(sim).id();
    let all = texts(id.strings@);
    assert(all.len() == 3);
    assert(all[0] == id.strings@[0]@ && all[1] == id.strings@[1]@ && all[2] == id.strings@[2]@);
    let text = id.strings@[index - 1]@;
    lemma_reads_text(text);
    let full = seq![((2 + utf16_of(text).len()) % 256) as u8, 3u8] + utf16_of(text);
    assert(full.skip(2) =~= utf16_of(text));
    assert(id.string_bytes(index as u8) == Some(full));
    if setup.w_length >= full.len() {
        assert(r->Ok_0@ =~= full);
    }
}

} // verus!
