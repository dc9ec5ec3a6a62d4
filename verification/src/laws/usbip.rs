//! USB/IP: what clients read and write.

use crate::backend::{DeviceSummary, Moment, SetupPacket, Stall};
use crate::proto::{
    devid, device_block_bytes, op_header, ret_submit, ret_unlink, text_field, usb_device_block,
    UrbHeader,
};
use crate::server::{
    control_reply, devlist_reply, dispatch, entries_bytes, entry_bytes, find_device,
    handle_control, handle_out, import_refused, interface_list, op_request, out_data_length,
    present, requested_busid, trim_nuls, urb_request, utf8_lossy, without_nuls, Exported,
    OpRequest, Pending, UrbAction, UrbRequest,
};
use crate::sim::{SimView, Simulator};
use crate::text::texts;
use vstd::prelude::*;
use vstd::utf8::{decode_utf8, encode_utf8, valid_utf8};

verus! {

/// The 32-bit number at offset `i`, high byte first.
pub open spec fn number_at(s: Seq<u8>, i: int) -> int {
    16777216 * s[i] + 65536 * s[i + 1] + 256 * s[i + 2] + s[i + 3]
}

/// Whether an operation reply starts with this code and status: protocol
/// version 1.11, then the code, then the status.
pub open spec fn starts_reply(s: Seq<u8>, code: u8, status: u8) -> bool {
    &&& s.len() >= 8
    &&& s[0] == 1 && s[1] == 0x11
    &&& s[2] == 0 && s[3] == code
    &&& s[4] == 0 && s[5] == 0 && s[6] == 0 && s[7] == status
}

/// Whether the `n` bytes at offset `i` hold a text, cut so that a zero byte
/// follows, and zeros behind it.
pub open spec fn holds_text(s: Seq<u8>, i: int, n: int, text: Seq<u8>) -> bool {
    forall|j: int|
        i <= j < i + n ==> #[trigger] s[j] == (if j - i < n - 1 && j - i < text.len() {
            text[j - i]
        } else {
            0
        })
}

/// Whether the 312 bytes at offset `i` describe a device.
pub open spec fn describes(
    s: Seq<u8>,
    i: int,
    busid: Seq<char>,
    d: DeviceSummary,
    interfaces: int,
) -> bool {
    &&& s.len() >= i + 312
    &&& holds_text(s, i, 256, encode_utf8("/sys/devices/virtual/usbip/"@ + busid))
    &&& holds_text(s, i + 256, 32, encode_utf8(busid))
    &&& number_at(s, i + 288) == 1
    &&& number_at(s, i + 292) == 2
    &&& number_at(s, i + 296) == (if d.speed is High {
        3int
    } else {
        2
    })
    &&& 256 * s[i + 300] + s[i + 301] == d.vid
    &&& 256 * s[i + 302] + s[i + 303] == d.pid
    &&& 256 * s[i + 304] + s[i + 305] == d.bcd_device
    &&& s[i + 306] == d.device_class
    &&& s[i + 307] == d.device_subclass
    &&& s[i + 308] == d.device_protocol
    &&& s[i + 309] == d.configuration_value
    &&& s[i + 310] == d.num_configurations
    &&& s[i + 311] == interfaces
}

/// Whether the entry at offset `i` shows a unit: its device, then four bytes
/// for each of its interfaces.
#[verifier::opaque]
pub open spec fn shows(s: Seq<u8>, i: int, e: Exported) -> bool {
    let n = e.summary.interfaces@.len();
    &&& s.len() >= i + 312 + 4 * n
    &&& describes(s, i, e.busid@, e.summary, n as int % 256)
    &&& forall|j: int|
        0 <= j < n ==> {
            let c = #[trigger] e.summary.interfaces@[j];
            let at = i + 312 + 4 * j;
            s[at] == c.0 && s[at + 1] == c.1 && s[at + 2] == c.2 && s[at + 3] == 0
        }
}

/// Where the `k`-th entry starts: behind the header and the entries before it.
pub open spec fn entry_start(shown: Seq<Exported>, k: int) -> int
    decreases k,
{
    if k <= 0 {
        12
    } else {
        entry_start(shown, k - 1) + 312 + 4 * shown[k - 1].summary.interfaces@.len()
    }
}

/// The bytes of a device block.
proof fn lemma_describes(s: Seq<u8>, i: int, busid: Seq<char>, d: DeviceSummary, n: u8)
    requires
        0 <= i,
        i + 312 <= s.len(),
        s.subrange(i, i + 312) == device_block_bytes(busid, d@, n),
    ensures
        describes(s, i, busid, d, n as int),
{
    let b = device_block_bytes(busid, d@, n);
    let path = encode_utf8("/sys/devices/virtual/usbip/"@ + busid);
    let bus = encode_utf8(busid);
    assert(b.len() == 312);
    assert forall|j: int| i <= j < i + 312 implies #[trigger] s[j] == b[j - i] by {
        assert(s.subrange(i, i + 312)[j - i] == s[j]);
    }
    assert forall|j: int| 0 <= j < 256 implies #[trigger] b[j] == text_field(path, 256)[j] by {}
    assert forall|j: int| 256 <= j < 288 implies #[trigger] b[j] == text_field(bus, 32)[j - 256] by {}
    let w = d@.speed.number();
    assert(b[299] == (w % 256) as u8);
}

/// The bytes of an interface list.
proof fn lemma_interface_list(l: Seq<(u8, u8, u8)>)
    ensures
        interface_list(l).len() == 4 * l.len(),
        forall|j: int|
            0 <= j < l.len() ==> {
                let c = #[trigger] l[j];
                let s = interface_list(l);
                s[4 * j] == c.0 && s[4 * j + 1] == c.1 && s[4 * j + 2] == c.2 && s[4 * j + 3] == 0
            },
    decreases l.len(),
{
    if l.len() > 0 {
        let front = l.drop_last();
        lemma_interface_list(front);
        assert forall|j: int| 0 <= j < l.len() implies {
            let c = #[trigger] l[j];
            let s = interface_list(l);
            s[4 * j] == c.0 && s[4 * j + 1] == c.1 && s[4 * j + 2] == c.2 && s[4 * j + 3] == 0
        } by {
            if j < l.len() - 1 {
                assert(front[j] == l[j]);
            }
        }
    }
}

/// What stands at an offset does not depend on what is put around it.
proof fn lemma_shows_within(a: Seq<u8>, s: Seq<u8>, b: Seq<u8>, i: int, e: Exported)
    requires
        shows(s, i, e),
        0 <= i,
    ensures
        shows(a + s + b, a.len() + i, e),
{
    reveal(shows);
    let t = a + s + b;
    let k = a.len() as int;
    assert forall|j: int| i <= j < s.len() implies #[trigger] t[k + j] == s[j] by {}
    let path = encode_utf8("/sys/devices/virtual/usbip/"@ + e.busid@);
    assert forall|j: int| k + i <= j < k + i + 312 implies #[trigger] t[j] == s[j - k] by {}
    assert(holds_text(t, k + i, 256, path));
    assert(holds_text(t, k + i + 256, 32, encode_utf8(e.busid@)));
    assert forall|j: int| 0 <= j < e.summary.interfaces@.len() implies {
        let c = #[trigger] e.summary.interfaces@[j];
        let at = k + i + 312 + 4 * j;
        t[at] == c.0 && t[at + 1] == c.1 && t[at + 2] == c.2 && t[at + 3] == 0
    } by {
        let at = i + 312 + 4 * j;
        assert(t[k + at] == s[at] && t[k + (at + 1)] == s[at + 1] && t[k + (at + 2)] == s[at + 2]
            && t[k + (at + 3)] == s[at + 3]);
    }
}

/// The entry of one unit.
proof fn lemma_entry(e: Exported)
    requires
        !e.unplugged,
    ensures
        shows(entry_bytes(e), 0, e),
        entry_bytes(e).len() == 312 + 4 * e.summary.interfaces@.len(),
{
    reveal(shows);
    let n = e.summary.interfaces@.len();
    let s = entry_bytes(e);
    let block = device_block_bytes(e.busid@, e.summary@, (n % 256) as u8);
    let list = interface_list(e.summary.interfaces@);
    lemma_interface_list(e.summary.interfaces@);
    assert(block.len() == 312);
    assert(s.subrange(0, 312) =~= block);
    lemma_describes(s, 0, e.busid@, e.summary, (n % 256) as u8);
    assert forall|j: int| 0 <= j < n implies {
        let c = #[trigger] e.summary.interfaces@[j];
        let at = 312 + 4 * j;
        s[at] == c.0 && s[at + 1] == c.1 && s[at + 2] == c.2 && s[at + 3] == 0
    } by {
        let at = 312 + 4 * j;
        assert(s[at] == list[4 * j] && s[at + 1] == list[4 * j + 1] && s[at + 2] == list[4 * j + 2]
            && s[at + 3] == list[4 * j + 3]);
    }
}

/// Where an entry starts does not depend on what follows.
proof fn lemma_entry_start(shown: Seq<Exported>, e: Exported, k: int)
    requires
        0 <= k <= shown.len(),
    ensures
        entry_start(shown.push(e), k) == entry_start(shown, k),
        entry_start(shown, k) >= 12,
    decreases k,
{
    if k > 0 {
        lemma_entry_start(shown, e, k - 1);
    }
}

/// The units that are plugged in.
pub open spec fn plugged(devices: Seq<Exported>) -> Seq<Exported> {
    devices.filter(|e: Exported| !e.unplugged)
}

/// How many entries a device list has, and how long they are.
proof fn lemma_entry_count(devices: Seq<Exported>)
    ensures
        present(devices) == plugged(devices).len(),
        plugged(devices).len() <= devices.len(),
        12 + entries_bytes(devices).len() == entry_start(
            plugged(devices),
            plugged(devices).len() as int,
        ),
    decreases devices.len(),
{
    reveal(Seq::filter);
    if devices.len() > 0 {
        let before = plugged(devices.drop_last());
        let e = devices.last();
        lemma_entry_count(devices.drop_last());
        if e.unplugged {
            assert(plugged(devices) =~= before);
        } else {
            assert(plugged(devices) =~= before.push(e));
            lemma_entry(e);
            lemma_entry_start(before, e, before.len() as int);
        }
    }
}

/// The entries of a device list.
proof fn lemma_entries(devices: Seq<Exported>, k: int)
    requires
        0 <= k < plugged(devices).len(),
    ensures
        shows(entries_bytes(devices), entry_start(plugged(devices), k) - 12, plugged(devices)[k]),
        entry_start(plugged(devices), k) >= 12,
    decreases devices.len(),
{
    reveal(Seq::filter);
    if devices.len() > 0 {
        let shown = plugged(devices);
        let s = entries_bytes(devices);
        let front = devices.drop_last();
        let before = plugged(front);
        let head = entries_bytes(front);
        let e = devices.last();
        if e.unplugged {
            assert(shown =~= before);
            assert(s =~= head);
            lemma_entries(front, k);
        } else {
            assert(shown =~= before.push(e));
            let tail = entry_bytes(e);
            lemma_entry_start(before, e, k);
            if k < before.len() {
                lemma_entries(front, k);
                lemma_shows_within(
                    Seq::empty(),
                    head,
                    tail,
                    entry_start(before, k) - 12,
                    before[k],
                );
                assert(Seq::<u8>::empty() + head + tail =~= s);
            } else {
                lemma_entry_count(front);
                lemma_entry(e);
                lemma_shows_within(head, tail, Seq::empty(), 0, e);
                assert(head + tail + Seq::<u8>::empty() =~= s);
            }
        }
    }
}

/// The device list: the number at offset 8 counts the units that are plugged
/// in, and a client that reads that many entries, each 312 bytes and four for
/// every interface, finds those units in order and ends with the reply.
pub proof fn law_devlist(devices: &[Exported], reply: Vec<u8>, k: int)
    requires
        call_ensures(devlist_reply, (devices,), reply),
        devices@.len() < 0x1_0000_0000,
        0 <= k < plugged(devices@).len(),
    ensures
        starts_reply(reply@, 5, 0),
        number_at(reply@, 8) == plugged(devices@).len(),
        shows(reply@, entry_start(plugged(devices@), k), plugged(devices@)[k]),
        reply@.len() == entry_start(plugged(devices@), plugged(devices@).len() as int),
{
    let shown = plugged(devices@);
    lemma_entries(devices@, k);
    lemma_head(devices, reply);
    let s = entries_bytes(devices@);
    let head = reply@.take(12);
    lemma_shows_within(head, s, Seq::empty(), entry_start(shown, k) - 12, shown[k]);
    assert(head + s + Seq::<u8>::empty() =~= reply@);
}

/// The bytes of an operation header.
proof fn lemma_op_header(code: u16, status: u32)
    requires
        code < 256,
        status < 256,
    ensures
        crate::proto::op_header_bytes(code, status) == seq![
            1u8,
            0x11,
            0,
            code as u8,
            0,
            0,
            0,
            status as u8,
        ],
{
    assert(crate::proto::op_header_bytes(code, status) =~= seq![
        1u8,
        0x11,
        0,
        code as u8,
        0,
        0,
        0,
        status as u8,
    ]);
}

/// A header, a number and some more bytes.
proof fn lemma_counted(head: Seq<u8>, n: u32, s: Seq<u8>)
    requires
        head.len() == 8,
    ensures
        ({
            let t = head + crate::wire::be32(n) + s;
            &&& t.len() == 12 + s.len()
            &&& t.take(8) == head
            &&& number_at(t, 8) == n
            &&& t.skip(12) == s
        }),
{
    let w = crate::wire::be32(n);
    let t = head + w + s;
    lemma_number(n);
    assert(t.take(8) =~= head);
    assert(t[8] == w[0] && t[9] == w[1] && t[10] == w[2] && t[11] == w[3]);
    assert(t.skip(12) =~= s);
}

/// The head of a device list.
proof fn lemma_head(devices: &[Exported], reply: Vec<u8>)
    requires
        call_ensures(devlist_reply, (devices,), reply),
        devices@.len() < 0x1_0000_0000,
    ensures
        starts_reply(reply@, 5, 0),
        number_at(reply@, 8) == plugged(devices@).len(),
        reply@.len() == 12 + entries_bytes(devices@).len(),
        reply@.skip(12) == entries_bytes(devices@),
        reply@.len() == entry_start(plugged(devices@), plugged(devices@).len() as int),
{
    lemma_entry_count(devices@);
    let n = plugged(devices@).len() as u32;
    let s = entries_bytes(devices@);
    let head = crate::proto::op_header_bytes(5, 0);
    lemma_op_header(5, 0);
    lemma_counted(head, n, s);
    assert(reply@ == head + crate::wire::be32(n) + s);
    assert forall|i: int| 0 <= i < 8 implies reply@[i] == #[trigger] head[i] by {
        assert(reply@.take(8)[i] == reply@[i]);
    }
}

/// A list without plugged units is a header and a zero.
pub proof fn law_empty_devlist(devices: &[Exported], reply: Vec<u8>)
    requires
        call_ensures(devlist_reply, (devices,), reply),
        forall|i: int| 0 <= i < devices@.len() ==> (#[trigger] devices@[i]).unplugged,
        devices@.len() < 0x1_0000_0000,
    ensures
        starts_reply(reply@, 5, 0),
        number_at(reply@, 8) == 0,
        reply@.len() == 12,
{
    lemma_head(devices, reply);
    lemma_none_plugged(devices@);
}

/// Nothing is plugged in.
proof fn lemma_none_plugged(devices: Seq<Exported>)
    requires
        forall|i: int| 0 <= i < devices.len() ==> (#[trigger] devices[i]).unplugged,
    ensures
        plugged(devices).len() == 0,
    decreases devices.len(),
{
    reveal(Seq::filter);
    if devices.len() > 0 {
        assert(devices[devices.len() - 1].unplugged);
        assert forall|i: int| 0 <= i < devices.drop_last().len() implies (
        #[trigger] devices.drop_last()[i]).unplugged by {
            assert(devices[i].unplugged);
        }
        lemma_none_plugged(devices.drop_last());
    }
}

/// The operations of a client: 0x8005 asks for the list, 0x8003 imports.
pub proof fn law_operations(op: &[u8; 8], r: OpRequest)
    requires
        call_ensures(op_request, (op,), r),
    ensures
        ({
            let code = 256 * op@[2] + op@[3];
            &&& (r is Devlist) == (code == 0x8005)
            &&& (r is Import) == (code == 0x8003)
            &&& r matches OpRequest::Unknown(c) ==> c == code
        }),
{
}

/// Operation headers, device blocks and the device number.
pub proof fn law_blocks(
    code: u16,
    status: u32,
    header: Vec<u8>,
    busid: &str,
    summary: &DeviceSummary,
    n: u8,
    block: Vec<u8>,
    id: u32,
)
    requires
        call_ensures(op_header, (code, status), header),
        call_ensures(usb_device_block, (busid, summary, n), block),
        call_ensures(devid, (), id),
    ensures
        header@.len() == 8,
        header@[0] == 1 && header@[1] == 0x11,
        256 * header@[2] + header@[3] == code,
        number_at(header@, 4) == status,
        block@.len() == 312,
        describes(block@, 0, busid@, *summary, n as int),
        id == 0x1_0002,
{
    assert(block@.subrange(0, 312) =~= block@);
    lemma_describes(block@, 0, busid@, *summary, n);
}

/// An import of a unit is granted exactly when it is plugged in and nobody
/// holds it; the grant describes the unit, a refusal is eight bytes.
pub proof fn law_import(
    sim: &mut Simulator,
    r: (bool, Vec<u8>),
    summary: DeviceSummary,
    refusal: Vec<u8>,
    e: Exported,
)
    requires
        old(sim).wf(),
        call_ensures(Simulator::import, (sim,), r),
        call_ensures(Simulator::summary, (old(sim),), summary),
        call_ensures(Simulator::exported, (old(sim),), e),
        call_ensures(import_refused, (), refusal),
    ensures
        r.0 == (!old(sim)@.unplugged && !old(sim)@.imported),
        r.0 ==> {
            &&& starts_reply(r.1@, 3, 0)
            &&& r.1@.len() == 320
            &&& describes(
                r.1@,
                8,
                old(sim).options().busid@,
                summary,
                summary.interfaces@.len() as int % 256,
            )
        },
        !r.0 ==> starts_reply(r.1@, 3, 1) && r.1@.len() == 8,
        starts_reply(refusal@, 3, 1) && refusal@.len() == 8,
        final(sim)@ == (SimView {
            imported: old(sim)@.imported || !old(sim)@.unplugged,
            ..old(sim)@
        }),
        e.busid@ == old(sim).options().busid@,
        e.summary@ == summary@,
        e.unplugged == old(sim)@.unplugged,
{
    if r.0 {
        let n = (summary.interfaces@.len() % 256) as u8;
        let block = device_block_bytes(old(sim).options().busid@, summary@, n);
        assert(block.len() == 312);
        assert(r.1@.subrange(8, 320) =~= block);
        lemma_describes(r.1@, 8, old(sim).options().busid@, summary, n);
    }
}

/// One attach at a time: trying takes the unit, releasing frees it.
pub proof fn law_attach(sim: &mut Simulator, granted: bool, other: &mut Simulator)
    requires
        old(sim).wf(),
        old(other).wf(),
        call_ensures(Simulator::try_import, (sim,), granted),
        call_ensures(Simulator::release_import, (other,), ()),
    ensures
        granted == !old(sim)@.imported,
        final(sim)@ == (SimView { imported: true, ..old(sim)@ }),
        final(other)@ == (SimView { imported: false, ..old(other)@ }),
{
}

/// Cutting NULs off: nothing but NULs is cut, and none is left at the end.
pub proof fn law_trim_nuls(s: &str, t: String, i: int)
    requires
        call_ensures(trim_nuls, (s,), t),
    ensures
        t@.is_prefix_of(s@),
        t@.len() <= i < s@.len() ==> s@[i] == '\0',
        t@.len() > 0 ==> t@.last() != '\0',
{
    lemma_trimmed(s@, i);
}

/// The same, of the text.
proof fn lemma_trimmed(s: Seq<char>, i: int)
    ensures
        without_nuls(s).is_prefix_of(s),
        without_nuls(s).len() <= i < s.len() ==> s[i] == '\0',
        without_nuls(s).len() > 0 ==> without_nuls(s).last() != '\0',
    decreases s.len(),
{
    if s.len() > 0 && s.last() == '\0' {
        lemma_trimmed(s.drop_last(), i);
    }
}

/// A client that writes a bus id into the padded field asks for that bus id.
pub proof fn law_requested_busid(field: &[u8; 32], r: String, busid: Seq<char>, i: int)
    requires
        call_ensures(requested_busid, (field,), r),
        encode_utf8(busid).len() <= 32,
        busid.len() > 0 ==> busid.last() != '\0',
        field@.take(encode_utf8(busid).len() as int) == encode_utf8(busid),
        forall|i: int| encode_utf8(busid).len() <= i < 32 ==> #[trigger] field@[i] == 0,
    ensures
        r@ == busid,
{
    let text = encode_utf8(busid);
    assert(field@ =~= text + crate::wire::zeros((32 - text.len()) as nat)) by {
        assert forall|j: int| 0 <= j < text.len() implies field@[j] == text[j] by {
            assert(field@.take(text.len() as int)[j] == field@[j]);
        }
    }
    crate::server::lemma_busid_field(busid);
}

/// The bus id of any field is its text without the NULs at the end, bytes that
/// are no UTF-8 replaced as the standard library replaces them.
pub proof fn law_any_busid(field: &[u8; 32], r: String, text: &str, t: String)
    requires
        call_ensures(requested_busid, (field,), r),
        text@ == (if valid_utf8(field@) {
            decode_utf8(field@)
        } else {
            utf8_lossy(field@)
        }),
        call_ensures(trim_nuls, (text,), t),
    ensures
        r@ == t@,
{
}

/// The unit that is found is the first with the requested bus id.
pub proof fn law_find_device(busids: &[String], requested: &str, r: Option<usize>, j: int)
    requires
        call_ensures(find_device, (busids, requested), r),
        0 <= j < busids@.len(),
    ensures
        r matches Some(i) ==> i < busids@.len() && busids@[i as int]@ == requested@ && (j < i
            ==> busids@[j]@ != requested@),
        r is None ==> busids@[j]@ != requested@,
{
    if let Some(i) = r {
        if j < i {
            lemma_first(texts(busids@), requested@, j);
            assert(texts(busids@)[j] == busids@[j]@);
        }
    }
}

/// Nothing before the first match matches.
proof fn lemma_first(busids: Seq<Seq<char>>, requested: Seq<char>, j: int)
    requires
        0 <= j < busids.len(),
    ensures
        crate::server::first_match(busids, requested) matches Some(i) ==> 0 <= i < busids.len()
            && (j < i ==> busids[j] != requested),
        crate::server::first_match(busids, requested) is None ==> busids[j] != requested,
    decreases busids.len(),
{
    if j < busids.len() - 1 {
        lemma_first(busids.drop_last(), requested, j);
    } else if busids.len() > 1 {
        lemma_first(busids.drop_last(), requested, j - 1);
    }
}

/// The 48 bytes of a URB header: five numbers, then 28 bytes of the command.
pub proof fn law_parse(buf: &[u8; 48], h: UrbHeader, i: int)
    requires
        call_ensures(UrbHeader::parse, (buf,), h),
        0 <= i < 28,
    ensures
        h.command == number_at(buf@, 0),
        h.seqnum == number_at(buf@, 4),
        h.devid == number_at(buf@, 8),
        h.direction == number_at(buf@, 12),
        h.ep == number_at(buf@, 16),
        h.rest@[i] == buf@[20 + i],
{
    assert(h.rest@[i] == buf@.subrange(20, 48)[i]);
}

/// What the 28 bytes hold: seven numbers, of which the second is the transfer
/// length and the first the URB to unlink; the last eight bytes are the setup
/// packet.
pub proof fn law_header_fields(
    h: &UrbHeader,
    index: usize,
    w: u32,
    len: usize,
    setup: [u8; 8],
    victim: u32,
    out: usize,
    i: int,
)
    requires
        index < 7,
        0 <= i < 8,
        call_ensures(UrbHeader::u32_rest, (h, index), w),
        call_ensures(UrbHeader::transfer_length, (h,), len),
        call_ensures(UrbHeader::setup, (h,), setup),
        call_ensures(UrbHeader::unlink_seqnum, (h,), victim),
        call_ensures(out_data_length, (h,), out),
    ensures
        w == number_at(h.rest@, 4 * index),
        len == number_at(h.rest@, 4),
        setup@[i] == h.rest@[20 + i],
        victim == number_at(h.rest@, 0),
        out == (if h.command == 1 && h.direction == 0 {
            number_at(h.rest@, 4)
        } else {
            0
        }),
{
    assert(setup@[i] == h.rest@.subrange(20, 28)[i]);
}

/// A completion: number 3, the sequence number, the status in two's complement,
/// the actual length, zeros in between, and the data behind 48 bytes.
pub open spec fn completes(s: Seq<u8>, seqnum: u32, status: int, actual: int, data: Seq<u8>) -> bool {
    &&& s.len() == 48 + data.len()
    &&& number_at(s, 0) == 3
    &&& number_at(s, 4) == seqnum
    &&& forall|i: int| 8 <= i < 20 ==> #[trigger] s[i] == 0
    &&& number_at(s, 20) == (if status < 0 {
        0x1_0000_0000 + status
    } else {
        status
    })
    &&& number_at(s, 24) == actual
    &&& forall|i: int| 28 <= i < 48 ==> #[trigger] s[i] == 0
    &&& s.skip(48) == data
}

/// The answer to an unlink: number 4, the sequence number and the status.
pub open spec fn unlinks(s: Seq<u8>, seqnum: u32, status: int) -> bool {
    &&& s.len() == 48
    &&& number_at(s, 0) == 4
    &&& number_at(s, 4) == seqnum
    &&& forall|i: int| 8 <= i < 20 ==> #[trigger] s[i] == 0
    &&& number_at(s, 20) == (if status < 0 {
        0x1_0000_0000 + status
    } else {
        status
    })
    &&& forall|i: int| 24 <= i < 48 ==> #[trigger] s[i] == 0
}

/// A number and its four bytes.
proof fn lemma_number(v: u32)
    ensures
        number_at(crate::wire::be32(v), 0) == v,
{
    let n = v as int;
    assert(n / 0x100_0000 * 16777216 + n / 0x1_0000 % 256 * 65536 + n / 0x100 % 256 * 256 + n % 256
        == n);
}

/// The bytes of a completion.
proof fn lemma_completes(seqnum: u32, status: i32, data: Option<Seq<u8>>, out: nat)
    ensures
        completes(
            crate::proto::ret_submit_bytes(seqnum, status, data, out),
            seqnum,
            status as int,
            match data {
                Some(d) => d.len() as int % 0x1_0000_0000,
                None => out as int % 0x1_0000_0000,
            },
            match data {
                Some(d) => d,
                None => Seq::empty(),
            },
        ),
{
    let s = crate::proto::ret_submit_bytes(seqnum, status, data, out);
    let payload = match data {
        Some(d) => d,
        None => Seq::empty(),
    };
    let actual = match data {
        Some(d) => crate::proto::low32(d.len()),
        None => crate::proto::low32(out),
    };
    lemma_number(3);
    lemma_number(seqnum);
    lemma_number(crate::wire::word(status));
    lemma_number(actual);
    let head = crate::proto::ret_submit_header(seqnum, status, actual);
    assert(head.len() == 48);
    assert(s =~= head + payload);
    assert(s.skip(48) =~= payload);
    assert(number_at(s, 0) == number_at(crate::wire::be32(3), 0));
    assert(number_at(s, 4) == number_at(crate::wire::be32(seqnum), 0));
    assert(number_at(s, 20) == number_at(crate::wire::be32(crate::wire::word(status)), 0));
    assert(number_at(s, 24) == number_at(crate::wire::be32(actual), 0));
}

/// The bytes of the answer to an unlink.
proof fn lemma_unlinks(seqnum: u32, status: i32)
    ensures
        unlinks(crate::proto::ret_unlink_bytes(seqnum, status), seqnum, status as int),
{
    let s = crate::proto::ret_unlink_bytes(seqnum, status);
    lemma_number(4);
    lemma_number(seqnum);
    lemma_number(crate::wire::word(status));
    assert(number_at(s, 0) == number_at(crate::wire::be32(4), 0));
    assert(number_at(s, 4) == number_at(crate::wire::be32(seqnum), 0));
    assert(number_at(s, 20) == number_at(crate::wire::be32(crate::wire::word(status)), 0));
}

/// Completions and unlink answers, byte for byte.
pub proof fn law_replies(
    seqnum: u32,
    status: i32,
    data: &[u8],
    out: usize,
    with: Vec<u8>,
    without: Vec<u8>,
    unlinked: Vec<u8>,
)
    requires
        call_ensures(ret_submit, (seqnum, status, Some(data), out), with),
        call_ensures(ret_submit, (seqnum, status, None, out), without),
        call_ensures(ret_unlink, (seqnum, status), unlinked),
    ensures
        completes(with@, seqnum, status as int, data@.len() as int % 0x1_0000_0000, data@),
        completes(without@, seqnum, status as int, out as int % 0x1_0000_0000, Seq::empty()),
        unlinks(unlinked@, seqnum, status as int),
{
    lemma_completes(seqnum, status, Some(data@), out as nat);
    lemma_completes(seqnum, status, None, out as nat);
    lemma_unlinks(seqnum, status);
}

/// What a header asks for: command 1 submits, on endpoint 0 a control transfer,
/// else OUT with direction 0 and IN otherwise; command 2 unlinks.
pub proof fn law_urb_request(h: &UrbHeader, r: UrbRequest)
    requires
        call_ensures(urb_request, (h,), r),
    ensures
        h.command == 1 && h.ep == 0 ==> {
            &&& r matches UrbRequest::Control { setup }
            &&& setup.bm_request_type == h.rest@[20]
            &&& setup.b_request == h.rest@[21]
            &&& setup.w_value == h.rest@[22] + 256 * h.rest@[23]
            &&& setup.w_index == h.rest@[24] + 256 * h.rest@[25]
            &&& setup.w_length == h.rest@[26] + 256 * h.rest@[27]
        },
        h.command == 1 && h.ep != 0 && h.direction == 0 ==> {
            &&& r matches UrbRequest::Out { ep }
            &&& ep == h.ep % 16
        },
        h.command == 1 && h.ep != 0 && h.direction != 0 ==> {
            &&& r matches UrbRequest::In { ep, len }
            &&& ep == 128 + h.ep % 16
            &&& len == number_at(h.rest@, 4)
        },
        h.command == 2 ==> {
            &&& r matches UrbRequest::Unlink { victim }
            &&& victim == number_at(h.rest@, 0)
        },
        h.command != 1 && h.command != 2 ==> r is Unknown,
{
    let s = h.rest@.subrange(20, 28);
    assert(s[0] == h.rest@[20] && s[1] == h.rest@[21] && s[2] == h.rest@[22] && s[3] == h.rest@[23]
        && s[4] == h.rest@[24] && s[5] == h.rest@[25] && s[6] == h.rest@[26] && s[7]
        == h.rest@[27]);
}

/// The smaller of two numbers.
pub open spec fn least(a: int, b: int) -> int {
    if a < b {
        a
    } else {
        b
    }
}

/// The reply to a control transfer. Data to the host is cut to the length in
/// the setup packet and to the room of the transfer; the other way the accepted
/// length is reported. A stall has status -32 and carries nothing.
pub proof fn law_control_reply(
    h: &UrbHeader,
    out: usize,
    result: Result<Vec<u8>, Stall>,
    pkt: Vec<u8>,
)
    requires
        call_ensures(control_reply, (h, out, result), pkt),
    ensures
        ({
            let asked = h.rest@[26] + 256 * h.rest@[27];
            let room = least(asked, number_at(h.rest@, 4));
            match result {
                Ok(data) => if h.direction == 1 {
                    let n = least(data@.len() as int, room);
                    completes(pkt@, h.seqnum, 0, n, data@.take(n))
                } else {
                    completes(pkt@, h.seqnum, 0, out as int % 0x1_0000_0000, Seq::empty())
                },
                Err(_) => completes(pkt@, h.seqnum, -32, 0, Seq::empty()),
            }
        }),
{
    let s = h.rest@.subrange(20, 28);
    assert(s[6] == h.rest@[26] && s[7] == h.rest@[27]);
    let asked = h.rest@[26] + 256 * h.rest@[27];
    let room = least(asked, number_at(h.rest@, 4));
    if let Ok(data) = result {
        let n = least(data@.len() as int, room);
        assert(crate::wire::prefix(data@, room) =~= data@.take(n));
        lemma_completes(h.seqnum, 0, Some(data@.take(n)), 0);
        lemma_completes(h.seqnum, 0, None, out as nat);
    }
    lemma_completes(h.seqnum, -32i32, Some(Seq::empty()), 0);
    lemma_completes(h.seqnum, -32i32, None, 0);
}

/// Control and OUT transfers over USB/IP do to a unit what they do to it
/// directly, and reply with what it answered.
pub proof fn law_transfers(
    sim: &mut Simulator,
    h: &UrbHeader,
    data: &[u8],
    pkt: Vec<u8>,
    direct: &mut Simulator,
    bytes: &[u8; 8],
    setup: SetupPacket,
    result: Result<Vec<u8>, Stall>,
    reply: Vec<u8>,
    out: &mut Simulator,
    seqnum: u32,
    ep: u8,
    m: &Moment,
    sent: Vec<u8>,
    taken: &mut Simulator,
    accepted: Result<usize, Stall>,
)
    requires
        old(sim).wf(),
        old(out).wf(),
        *old(direct) == *old(sim),
        *old(taken) == *old(out),
        call_ensures(handle_control, (sim, h, data), pkt),
        call_ensures(UrbHeader::setup, (h,), *bytes),
        call_ensures(SetupPacket::parse, (bytes,), setup),
        call_ensures(Simulator::control, (direct, setup, data), result),
        call_ensures(control_reply, (h, data@.len() as usize, result), reply),
        call_ensures(handle_out, (out, seqnum, ep, data, m), sent),
        call_ensures(Simulator::out_transfer, (taken, ep, data, m), accepted),
        data@.len() <= usize::MAX,
    ensures
        pkt@ == reply@,
        final(sim)@ == final(direct)@,
        completes(
            sent@,
            seqnum,
            if accepted is Ok {
                0
            } else {
                -32
            },
            data@.len() as int % 0x1_0000_0000,
            Seq::empty(),
        ),
        final(out)@ == final(taken)@,
{
    lemma_completes(seqnum, 0, None, data@.len());
    lemma_completes(seqnum, -32i32, None, data@.len());
}

/// What a connection does with a URB: control and OUT transfers are performed
/// and answered at once, an IN transfer becomes pending and is queued, an
/// unlinked one stops being pending; anything else closes the connection and
/// changes nothing.
pub proof fn law_dispatch(
    sim: &mut Simulator,
    pending: &mut Pending,
    h: &UrbHeader,
    data: &[u8],
    m: &Moment,
    a: UrbAction,
    r: UrbRequest,
    control: &mut Simulator,
    control_pkt: Vec<u8>,
    out: &mut Simulator,
    ep: u8,
    out_pkt: Vec<u8>,
)
    requires
        old(sim).wf(),
        *old(control) == *old(sim),
        *old(out) == *old(sim),
        call_ensures(dispatch, (sim, pending, h, data, m), a),
        call_ensures(urb_request, (h,), r),
        call_ensures(handle_control, (control, h, data), control_pkt),
        r matches UrbRequest::Out { ep: e } ==> e == ep,
        call_ensures(handle_out, (out, h.seqnum, ep, data, m), out_pkt),
    ensures
        match r {
            UrbRequest::Control { .. } => {
                &&& a matches UrbAction::Reply(pkt)
                &&& pkt@ == control_pkt@
                &&& final(sim)@ == final(control)@
                &&& final(pending)@ == old(pending)@
            },
            UrbRequest::Out { .. } => {
                &&& a matches UrbAction::Reply(pkt)
                &&& pkt@ == out_pkt@
                &&& final(sim)@ == final(out)@
                &&& final(pending)@ == old(pending)@
            },
            UrbRequest::In { ep: e, len: n } => {
                &&& a matches UrbAction::Queue { seqnum, ep: q, len }
                &&& seqnum == h.seqnum && q == e && len == n
                &&& final(sim)@ == old(sim)@
                &&& final(pending)@ == old(pending)@.insert(h.seqnum)
            },
            UrbRequest::Unlink { victim: v } => {
                &&& a matches UrbAction::Unlinked { victim, was_pending, reply }
                &&& victim == v
                &&& was_pending == old(pending)@.contains(v)
                &&& unlinks(reply@, h.seqnum, if was_pending {
                    -104
                } else {
                    0
                })
                &&& final(sim)@ == old(sim)@
                &&& final(pending)@ == old(pending)@.remove(v)
            },
            UrbRequest::Unknown => {
                &&& a is Close
                &&& final(sim)@ == old(sim)@
                &&& final(pending)@ == old(pending)@
            },
        },
{
    lemma_unlinks(h.seqnum, -104i32);
    lemma_unlinks(h.seqnum, 0);
}

/// Pending transfers: none at first; a submitted one is pending until it is
/// completed, which replies with the data cut to the asked length or a stall,
/// or unlinked, which is told with status -104. A transfer that is not pending
/// is completed without a reply and unlinked with status 0.
pub proof fn law_pending(
    empty: Pending,
    p: &mut Pending,
    seqnum: u32,
    q: &Pending,
    there: bool,
    c: &mut Pending,
    len: usize,
    result: Result<Vec<u8>, Stall>,
    reply: Option<Vec<u8>>,
    u: &mut Pending,
    victim: u32,
    unlinked: (bool, Vec<u8>),
    other: u32,
)
    requires
        call_ensures(Pending::new, (), empty),
        call_ensures(Pending::submit, (p, seqnum), ()),
        call_ensures(Pending::contains, (q, seqnum), there),
        call_ensures(Pending::complete, (c, seqnum, len, result), reply),
        call_ensures(Pending::unlink, (u, seqnum, victim), unlinked),
    ensures
        !empty@.contains(other),
        final(p)@.contains(other) == (old(p)@.contains(other) || other == seqnum),
        there == q@.contains(seqnum),
        final(c)@.contains(other) == (old(c)@.contains(other) && other != seqnum),
        (reply is Some) == old(c)@.contains(seqnum),
        reply matches Some(pkt) ==> match result {
            Ok(data) => {
                let n = least(data@.len() as int, len as int);
                completes(pkt@, seqnum, 0, n % 0x1_0000_0000, data@.take(n))
            },
            Err(_) => completes(pkt@, seqnum, -32, 0, Seq::empty()),
        },
        final(u)@.contains(other) == (old(u)@.contains(other) && other != victim),
        unlinked.0 == old(u)@.contains(victim),
        unlinks(unlinked.1@, seqnum, if unlinked.0 {
            -104
        } else {
            0
        }),
{
    lemma_unlinks(seqnum, -104i32);
    lemma_unlinks(seqnum, 0);
    lemma_completes(seqnum, -32i32, Some(Seq::empty()), 0);
    if let Ok(data) = result {
        let n = least(data@.len() as int, len as int);
        assert(crate::wire::prefix(data@, len as int) =~= data@.take(n));
        lemma_completes(seqnum, 0, Some(data@.take(n)), 0);
    }
}

} // verus!
