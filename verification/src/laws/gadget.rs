//! The Linux gadget: endpoint-zero events, endpoint files, descriptor blobs.

use crate::descriptors::{
    analyzer_endpoints, build_descriptors, build_strings, endpoints_bytes, speed_bytes, Endpoint,
};
use crate::laws::page::word_at;
use crate::runner::{
    event_actions, handle_event, handle_events, pump_map, pump_request, pumps_after_all,
    select_udc, Ep0Action, Pump, UdcChoice,
};
use vstd::prelude::*;

verus! {

/// What an event asks for: type 2 starts the pumps, the first time; type 4 is
/// stalled; 0, 1, 3, 5 and 6 are noted, others are not known.
pub proof fn law_event(evt: &[u8], started: &mut bool, a: Ep0Action)
    requires
        evt@.len() >= 9,
        call_ensures(handle_event, (evt, started), a),
    ensures
        *final(started) == (*old(started) || evt@[8] == 2),
        evt@[8] == 2 ==> a == (if *old(started) {
            Ep0Action::Note
        } else {
            Ep0Action::StartPumps
        }),
        evt@[8] == 4 ==> a == (Ep0Action::Stall { bm_request_type: evt@[0] }),
        evt@[8] == 0 || evt@[8] == 1 || evt@[8] == 3 || evt@[8] == 5 || evt@[8] == 6 ==> a
            == Ep0Action::Note,
        evt@[8] > 6 ==> a == (Ep0Action::Unknown { event_type: evt@[8] }),
{
}

/// Whether one of the first `n` events starts the pumps.
pub open spec fn enabled_within(buf: Seq<u8>, n: int) -> bool {
    exists|j: int| 0 <= j < n && #[trigger] buf[12 * j + 8] == 2
}

/// Pumps run once an event has started them.
proof fn lemma_pumps(buf: Seq<u8>, n: nat, started: bool)
    requires
        12 * n <= buf.len(),
    ensures
        pumps_after_all(buf, n, started) == (started || enabled_within(buf, n as int)),
    decreases n,
{
    if n > 0 {
        let k = n - 1;
        lemma_pumps(buf, k as nat, started);
        let evt = buf.subrange(12 * k, 12 * n as int);
        assert(evt[8] == buf[12 * k + 8]);
        if enabled_within(buf, k) {
            let j = choose|j: int| 0 <= j < k && #[trigger] buf[12 * j + 8] == 2;
            assert(buf[12 * j + 8] == 2);
        }
    }
}

/// The action of one event among many.
proof fn lemma_action(buf: Seq<u8>, n: nat, started: bool, i: int)
    requires
        0 <= i < n,
    ensures
        event_actions(buf, n, started).len() == n,
        event_actions(buf, n, started)[i] == crate::runner::event_action(
            buf.subrange(12 * i, 12 * i + 12),
            pumps_after_all(buf, i as nat, started),
        ),
    decreases n,
{
    if n == 1 {
        assert(event_actions(buf, 0, started).len() == 0);
    } else if i < n - 1 {
        lemma_action(buf, (n - 1) as nat, started, i);
    } else {
        lemma_action(buf, (n - 1) as nat, started, 0);
    }
}

/// One read holds an event in every 12 bytes; they are handled one after the
/// other, and a part of an event at the end is ignored.
pub proof fn law_events(
    buf: &[u8],
    started: &mut bool,
    actions: Vec<Ep0Action>,
    i: int,
    evt: &[u8],
    flag: &mut bool,
    a: Ep0Action,
)
    requires
        call_ensures(handle_events, (buf, started), actions),
        0 <= i < buf@.len() as int / 12,
        evt@ == buf@.subrange(12 * i, 12 * i + 12),
        *old(flag) == (*old(started) || enabled_within(buf@, i)),
        call_ensures(handle_event, (evt, flag), a),
    ensures
        actions@.len() == buf@.len() as int / 12,
        actions@[i] == a,
        *final(started) == (*old(started) || enabled_within(buf@, buf@.len() as int / 12)),
{
    lemma_pumps(buf@, buf@.len() / 12, *old(started));
    lemma_pumps(buf@, i as nat, *old(started));
    lemma_action(buf@, buf@.len() / 12, *old(started), i);
}

/// The endpoint files in order: registers out and in, audio out and in. A
/// register reply is 4 bytes, audio is asked for in buffers of 16384.
pub proof fn law_pumps(v: Vec<Pump>, address: u8, n: usize)
    requires
        call_ensures(pump_map, (), v),
        call_ensures(pump_request, (address,), n),
    ensures
        v@.len() == 4,
        v@[0].file@ == "ep1"@ && v@[1].file@ == "ep2"@ && v@[2].file@ == "ep3"@ && v@[3].file@
            == "ep4"@,
        v@[0].address == 1 && v@[1].address == 129 && v@[2].address == 2 && v@[3].address == 130,
        !v@[0].is_in && v@[1].is_in && !v@[2].is_in && v@[3].is_in,
        n == (if address == 1 || address == 129 {
            4usize
        } else {
            16384
        }),
{
}

/// The controller that is bound: the named one, otherwise the only one.
pub proof fn law_udc(named: Option<String>, found: &[String], c: UdcChoice)
    requires
        call_ensures(select_udc, (named, found), c),
    ensures
        named matches Some(n) ==> (c matches UdcChoice::Bind(u) && u@ == n@),
        named is None && found@.len() == 0 ==> c is Absent,
        named is None && found@.len() == 1 ==> (c matches UdcChoice::Bind(u) && u@
            == found@[0]@),
        named is None && found@.len() > 1 ==> c is Several,
{
}

/// Endpoints: bulk ones hold 64 bytes at full and 512 at high speed, interrupt
/// ones 64 at both. The analyzer has four bulk ones.
pub proof fn law_endpoints(
    address: u8,
    interval: u8,
    b: Endpoint,
    i: Endpoint,
    v: Vec<Endpoint>,
    k: int,
)
    requires
        call_ensures(Endpoint::bulk, (address,), b),
        call_ensures(Endpoint::interrupt, (address, interval), i),
        call_ensures(analyzer_endpoints, (), v),
        0 <= k < v@.len(),
    ensures
        b.address == address && b.attributes == 2 && b.fs_max_packet == 64 && b.hs_max_packet == 512
            && b.interval == 0,
        i.address == address && i.attributes == 3 && i.fs_max_packet == 64 && i.hs_max_packet == 64
            && i.interval == interval,
        v@.len() == 4,
        v@[k].address == (if k == 0 {
            1u8
        } else if k == 1 {
            129
        } else if k == 2 {
            2
        } else {
            130
        }),
        v@[k].attributes == 2 && v@[k].fs_max_packet == 64 && v@[k].hs_max_packet == 512
            && v@[k].interval == 0,
{
}

/// Whether an endpoint descriptor stands at an offset.
pub open spec fn endpoint_at(s: Seq<u8>, i: int, e: Endpoint, packet: u16) -> bool {
    &&& s[i] == 7 && s[i + 1] == 5
    &&& s[i + 2] == e.address
    &&& s[i + 3] == e.attributes
    &&& s[i + 4] + 256 * s[i + 5] == packet
    &&& s[i + 6] == e.interval
}

/// Seven bytes for each endpoint.
proof fn lemma_endpoints_len(l: Seq<Endpoint>, high: bool)
    ensures
        endpoints_bytes(l, high).len() == 7 * l.len(),
    decreases l.len(),
{
    if l.len() > 0 {
        lemma_endpoints_len(l.drop_last(), high);
    }
}

/// The bytes of one endpoint among several.
proof fn lemma_endpoint(l: Seq<Endpoint>, high: bool, k: int)
    requires
        0 <= k < l.len(),
    ensures
        endpoint_at(
            endpoints_bytes(l, high),
            7 * k,
            l[k],
            if high {
                l[k].hs_max_packet
            } else {
                l[k].fs_max_packet
            },
        ),
    decreases l.len(),
{
    let front = l.drop_last();
    let (s, t) = (endpoints_bytes(l, high), endpoints_bytes(front, high));
    lemma_endpoints_len(l, high);
    lemma_endpoints_len(front, high);
    if k < l.len() - 1 {
        lemma_endpoint(front, high, k);
        assert forall|j: int| 0 <= j < t.len() implies #[trigger] s[j] == t[j] by {}
        assert(s[7 * k] == t[7 * k] && s[7 * k + 1] == t[7 * k + 1] && s[7 * k + 2] == t[7 * k + 2]
            && s[7 * k + 3] == t[7 * k + 3] && s[7 * k + 4] == t[7 * k + 4] && s[7 * k + 5]
            == t[7 * k + 5] && s[7 * k + 6] == t[7 * k + 6]);
    } else {
        let d = l.last().bytes(high);
        assert forall|j: int| 0 <= j < 7 implies #[trigger] d[j] == s[7 * k + j] by {}
        assert(d[0] == s[7 * k] && d[1] == s[7 * k + 1] && d[2] == s[7 * k + 2] && d[3] == s[7 * k
            + 3] && d[4] == s[7 * k + 4] && d[5] == s[7 * k + 5] && d[6] == s[7 * k + 6]);
    }
}

/// The descriptors of a function at one speed.
pub open spec fn function_at(
    s: Seq<u8>,
    i: int,
    class: (u8, u8, u8),
    extra: Seq<u8>,
    endpoints: Seq<Endpoint>,
    high: bool,
    k: int,
) -> bool {
    &&& s.subrange(i, i + 9) == seq![
        9u8,
        4,
        0,
        0,
        (endpoints.len() % 256) as u8,
        class.0,
        class.1,
        class.2,
        0,
    ]
    &&& s.subrange(i + 9, i + 9 + extra.len()) == extra
    &&& 0 <= k < endpoints.len() ==> endpoint_at(
        s,
        i + 9 + extra.len() + 7 * k,
        endpoints[k],
        if high {
            endpoints[k].hs_max_packet
        } else {
            endpoints[k].fs_max_packet
        },
    )
}

/// The bytes of a function at one speed.
proof fn lemma_function(
    s: Seq<u8>,
    i: int,
    class: (u8, u8, u8),
    extra: Seq<u8>,
    endpoints: Seq<Endpoint>,
    high: bool,
    k: int,
)
    requires
        0 <= i,
        s.len() >= i + 9 + extra.len() + 7 * endpoints.len(),
        s.subrange(i, i + 9 + extra.len() + 7 * endpoints.len()) == speed_bytes(
            class,
            extra,
            endpoints,
            high,
        ),
    ensures
        function_at(s, i, class, extra, endpoints, high, k),
{
    let t = speed_bytes(class, extra, endpoints, high);
    let e = endpoints_bytes(endpoints, high);
    lemma_endpoints_len(endpoints, high);
    assert forall|j: int| i <= j < i + t.len() implies #[trigger] s[j] == t[j - i] by {
        assert(s.subrange(i, i + t.len())[j - i] == s[j]);
    }
    assert(s.subrange(i, i + 9) =~= seq![
        9u8,
        4,
        0,
        0,
        (endpoints.len() % 256) as u8,
        class.0,
        class.1,
        class.2,
        0,
    ]);
    assert(s.subrange(i + 9, i + 9 + extra.len()) =~= extra);
    if 0 <= k < endpoints.len() {
        lemma_endpoint(endpoints, high, k);
        let at = i + 9 + extra.len() + 7 * k;
        assert forall|j: int| 0 <= j < 7 implies #[trigger] s[at + j] == e[7 * k + j] by {}
        assert(s[at] == s[at + 0] && s[at + 0] == e[7 * k + 0]);
        assert(s[at + 1] == e[7 * k + 1] && s[at + 2] == e[7 * k + 2] && s[at + 3] == e[7 * k + 3]
            && s[at + 4] == e[7 * k + 4] && s[at + 5] == e[7 * k + 5] && s[at + 6] == e[7 * k + 6]);
    }
}

/// A number at an offset.
proof fn lemma_word_within(s: Seq<u8>, i: int, v: u32)
    requires
        0 <= i,
        i + 4 <= s.len(),
        s.subrange(i, i + 4) == crate::wire::le32(v),
    ensures
        word_at(s, i) == v,
{
    let w = crate::wire::le32(v);
    assert(s[i] == s.subrange(i, i + 4)[0] && s[i + 1] == s.subrange(i, i + 4)[1] && s[i + 2]
        == s.subrange(i, i + 4)[2] && s[i + 3] == s.subrange(i, i + 4)[3]);
    let n = v as int;
    assert(n % 256 + 256 * (n / 0x100 % 256) + 65536 * (n / 0x1_0000 % 256) + 16777216 * (n
        / 0x100_0000) == n);
}

/// The descriptor blob: magic 2, its own length, flags 3, the number of
/// descriptors at full and at high speed, then both sets.
pub proof fn law_descriptor_blob(
    class: (u8, u8, u8),
    extra: &[u8],
    endpoints: &[Endpoint],
    blob: Vec<u8>,
    k: int,
)
    requires
        call_ensures(build_descriptors, (class, extra, endpoints), blob),
        38 + 2 * extra@.len() + 14 * endpoints@.len() < 0x1_0000_0000,
    ensures
        ({
            let set = 9 + extra@.len() as int + 7 * endpoints@.len();
            let n = endpoints@.len() + if extra@.len() > 0 {
                2int
            } else {
                1
            };
            &&& blob@.len() == 20 + 2 * set
            &&& word_at(blob@, 0) == 2
            &&& word_at(blob@, 4) == blob@.len()
            &&& word_at(blob@, 8) == 3
            &&& word_at(blob@, 12) == n
            &&& word_at(blob@, 16) == n
            &&& function_at(blob@, 20, class, extra@, endpoints@, false, k)
            &&& function_at(blob@, 20 + set, class, extra@, endpoints@, true, k)
        }),
{
    let s = blob@;
    lemma_endpoints_len(endpoints@, false);
    lemma_endpoints_len(endpoints@, true);
    let set = 9 + extra@.len() as int + 7 * endpoints@.len();
    let count = crate::descriptors::speed_count(extra@, endpoints@);
    let fs = speed_bytes(class, extra@, endpoints@, false);
    let hs = speed_bytes(class, extra@, endpoints@, true);
    assert(fs.len() == set && hs.len() == set);
    assert(s.subrange(0, 4) =~= crate::wire::le32(2));
    assert(s.subrange(4, 8) =~= crate::wire::le32(s.len() as u32));
    assert(s.subrange(8, 12) =~= crate::wire::le32(3));
    assert(s.subrange(12, 16) =~= crate::wire::le32(count));
    assert(s.subrange(16, 20) =~= crate::wire::le32(count));
    assert(s.subrange(20, 20 + set) =~= fs);
    assert(s.subrange(20 + set, 20 + 2 * set) =~= hs);
    lemma_word_within(s, 0, 2);
    lemma_word_within(s, 4, s.len() as u32);
    lemma_word_within(s, 8, 3);
    lemma_word_within(s, 12, count);
    lemma_word_within(s, 16, count);
    lemma_function(s, 20, class, extra@, endpoints@, false, k);
    lemma_function(s, 20 + set, class, extra@, endpoints@, true, k);
}

/// The strings blob: magic 2, 16 bytes, no string and no language.
pub proof fn law_strings_blob(blob: Vec<u8>)
    requires
        call_ensures(build_strings, (), blob),
    ensures
        blob@ == seq![2u8, 0, 0, 0, 16, 0, 0, 0, 0, 0, 0, 0, 0, 0, 0, 0],
{
    assert(blob@ =~= seq![2u8, 0, 0, 0, 16, 0, 0, 0, 0, 0, 0, 0, 0, 0, 0, 0]);
}

} // verus!
