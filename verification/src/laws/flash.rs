//! The bootloader: commands, images and responses.

use crate::backend::{InStep, Moment, SetupPacket, Stall, UsbBackend};
use crate::bootloader::{
    is_data_report, joined, lemma_flash, Bootloader, BootloaderView, PhaseView,
};
use crate::identity::Identity;
use crate::sim::{EventView, SimEvent};
use vstd::prelude::*;

verus! {

/// A 60-byte response report with its status and the tag of its command, low
/// bytes first.
pub open spec fn is_response(r: Seq<u8>, status: int, tag: int) -> bool {
    &&& r.len() == 60
    &&& r[0] == 3 && r[1] == 0 && r[2] == 12 && r[3] == 0
    &&& r[4] == 0xA0 && r[5] == 0 && r[6] == 0 && r[7] == 2
    &&& r[8] + 256 * r[9] + 65536 * r[10] + 16777216 * r[11] == status
    &&& r[12] == tag && r[13] == 0 && r[14] == 0 && r[15] == 0
    &&& forall|i: int| 16 <= i < 60 ==> #[trigger] r[i] == 0
}

/// Whether `p` is what an OUT report carries: the bytes behind its first four,
/// as many as its third and fourth byte declare or as there are.
pub open spec fn carries(data: Seq<u8>, p: Seq<u8>) -> bool {
    let declared = data[2] + 256 * data[3];
    let n = if declared < data.len() - 4 { declared } else { data.len() - 4 };
    p == data.subrange(4, 4 + n)
}

/// The one response that was added.
pub open spec fn answered(o: BootloaderView, n: BootloaderView, status: int, tag: int) -> bool {
    &&& n.responses.len() == o.responses.len() + 1
    &&& n.responses.take(o.responses.len() as int) == o.responses
    &&& is_response(n.responses.last(), status, tag)
}

/// The bytes of a generic response.
proof fn lemma_response_bytes(status: u32, tag: u8)
    ensures
        is_response(crate::bootloader::generic_report(status, tag), status as int, tag as int),
{
    let r = crate::bootloader::generic_report(status, tag);
    assert(r[8] == (status % 256) as u8);
    assert(r[9] == (status / 0x100 % 256) as u8);
    assert(r[10] == (status / 0x1_0000 % 256) as u8);
    assert(r[11] == (status / 0x100_0000) as u8);
    let v = status as int;
    assert(v % 256 + 256 * (v / 0x100 % 256) + 65536 * (v / 0x1_0000 % 256) + 16777216 * (v
        / 0x100_0000) == v);
    assert(r[12] == (tag as u32 % 256) as u8);
    assert(r[13] == (tag as u32 / 0x100 % 256) as u8);
    assert(r[14] == (tag as u32 / 0x1_0000 % 256) as u8);
    assert(r[15] == (tag as u32 / 0x100_0000) as u8);
}

/// What a command does: 8 announces an image, whose length is the 32-bit number
/// behind the four bytes of the command's head, low byte first; 11 asks for a
/// reset; any other tag is unknown. Each gets one response. Short packets are
/// ignored.
pub proof fn law_command(b: &mut Bootloader, data: &[u8], p: Seq<u8>)
    requires
        call_ensures(Bootloader::handle_report, (b, data), ()),
        data@.len() >= 4,
        data@[0] == 1,
        carries(data@, p),
    ensures
        ({
            let (o, n) = (old(b)@, final(b)@);
            let length = p[4] + 256 * p[5] + 65536 * p[6] + 16777216 * p[7];
            &&& p.len() < 4 ==> n == o
            &&& p.len() >= 4 && p[0] == 8 ==> {
                &&& n.phase matches PhaseView::Receiving { expected, image }
                &&& expected == (if p.len() >= 8 { length } else { 0 })
                &&& image.len() == 0
                &&& n.reports matches Some(k)
                &&& 28 * k >= expected && k >= 1 && (k == 1 || 28 * (k - 1) < expected)
                &&& n.events == o.events
                &&& answered(o, n, 0, 8)
            }
            &&& p.len() >= 4 && p[0] == 11 ==> {
                &&& n.phase == o.phase && n.reports == o.reports
                &&& n.events == o.events.push(EventView::BootloaderReset)
                &&& answered(o, n, 0, 11)
            }
            &&& p.len() >= 4 && p[0] != 8 && p[0] != 11 ==> {
                &&& n.phase == o.phase && n.reports == o.reports && n.events == o.events
                &&& answered(o, n, 10003, p[0] as int)
            }
        }),
{
    let (o, n) = (old(b)@, final(b)@);
    assert(crate::bootloader::report_payload(data@) =~= p);
    if p.len() >= 4 {
        lemma_response_bytes(0, 8);
        lemma_response_bytes(0, 11);
        lemma_response_bytes(10003, p[0]);
        assert(n.responses.take(o.responses.len() as int) =~= o.responses);
    }
}

/// What data does while an image is received: it is gathered until as many
/// bytes as were announced are there, and what runs over is cut off. An image
/// with "STMP" at offset 20 is handed over and acknowledged, any other one is
/// refused with status 10101. Before that, and outside a transfer, data gets
/// no response and no event.
pub proof fn law_data(b: &mut Bootloader, data: &[u8], p: Seq<u8>)
    requires
        call_ensures(Bootloader::handle_report, (b, data), ()),
        data@.len() >= 4,
        data@[0] == 2,
        carries(data@, p),
    ensures
        ({
            let (o, n) = (old(b)@, final(b)@);
            match o.phase {
                PhaseView::Receiving { expected, image } => {
                    let all = image + p;
                    let whole = all.take(expected as int);
                    if all.len() < expected {
                        n == (BootloaderView {
                            phase: PhaseView::Receiving { expected, image: all },
                            ..o
                        })
                    } else if whole.len() >= 24 && whole.subrange(20, 24) == seq![
                        83u8,
                        84u8,
                        77u8,
                        80u8,
                    ] {
                        &&& n.phase == PhaseView::Done
                        &&& n.events == o.events.push(EventView::FlashCompleted { image: whole })
                        &&& n.reports == o.reports
                        &&& answered(o, n, 0, 8)
                    } else {
                        &&& n.phase == PhaseView::Idle
                        &&& n.events == o.events
                        &&& n.reports == o.reports
                        &&& answered(o, n, 10101, 8)
                    }
                },
                _ => n == o,
            }
        }),
{
    let (o, n) = (old(b)@, final(b)@);
    assert(crate::bootloader::report_payload(data@) =~= p);
    lemma_response_bytes(0, 8);
    lemma_response_bytes(10101, 8);
    if let PhaseView::Receiving { expected, image } = o.phase {
        let whole = (image + p).take(expected as int);
        if (image + p).len() >= expected {
            assert(n.responses.take(o.responses.len() as int) =~= o.responses);
            if whole.len() >= 24 {
                let sig = whole.subrange(20, 24);
                assert(sig[0] == whole[20] && sig[1] == whole[21] && sig[2] == whole[22] && sig[3]
                    == whole[23]);
                if crate::bootloader::looks_sb2(whole) {
                    assert(sig =~= seq![83u8, 84u8, 77u8, 80u8]);
                }
            }
        }
    }
}

/// Reports that are too short or have another number do nothing.
pub proof fn law_other_reports(b: &mut Bootloader, data: &[u8], d: bool)
    requires
        call_ensures(Bootloader::handle_report, (b, data), ()),
        call_ensures(is_data_report, (data,), d),
    ensures
        data@.len() < 4 ==> final(b)@ == old(b)@,
        data@.len() >= 4 && data@[0] != 1 && data@[0] != 2 ==> final(b)@ == old(b)@,
        d == (data@.len() >= 1 && data@[0] == 2),
{
}

/// A bootloader after some reports.
pub open spec fn after_reports(b: BootloaderView, reports: Seq<Seq<u8>>) -> BootloaderView
    decreases reports.len(),
{
    if reports.len() == 0 {
        b
    } else {
        after_reports(b, reports.drop_last()).after_report(reports.last())
    }
}

/// A data report around a payload, padded in any way.
pub open spec fn data_report(report: Seq<u8>, payload: Seq<u8>) -> bool {
    &&& payload.len() < 65536
    &&& report.len() >= 4 + payload.len()
    &&& report[0] == 2
    &&& report[2] + 256 * report[3] == payload.len()
    &&& report.subrange(4, 4 + payload.len() as int) == payload
}

/// Data reports around some payloads.
pub open spec fn data_reports(reports: Seq<Seq<u8>>, payloads: Seq<Seq<u8>>) -> bool {
    &&& reports.len() == payloads.len()
    &&& forall|i: int| 0 <= i < reports.len() ==> #[trigger] data_report(reports[i], payloads[i])
}

/// Data reports bring their payloads.
proof fn lemma_data_reports(b: BootloaderView, reports: Seq<Seq<u8>>, payloads: Seq<Seq<u8>>)
    requires
        data_reports(reports, payloads),
    ensures
        after_reports(b, reports) == b.after_chunks(payloads),
    decreases reports.len(),
{
    if reports.len() > 0 {
        let k = reports.len() - 1;
        let (r, p) = (reports.drop_last(), payloads.drop_last());
        assert forall|i: int| 0 <= i < r.len() implies #[trigger] data_report(r[i], p[i]) by {
            assert(data_report(reports[i], payloads[i]));
        }
        lemma_data_reports(b, r, p);
        let last = reports[k];
        assert(data_report(last, payloads[k]));
        assert(last == reports.last() && payloads[k] == payloads.last());
        assert(crate::bootloader::report_payload(last) =~= payloads[k]);
    }
}

/// A firmware update: whatever the image, if it is at least 24 bytes with
/// "STMP" at offset 20, announcing its length and sending it in data reports,
/// cut and padded in any way, ends with that very image handed over once and
/// acknowledged. Before the last report there is no response but the one to
/// the announcement, and no event.
pub proof fn law_flash_round_trip(
    b: &mut Bootloader,
    data: &[u8],
    image: Seq<u8>,
    payloads: Seq<Seq<u8>>,
    reports: Seq<Seq<u8>>,
    k: int,
)
    requires
        call_ensures(Bootloader::handle_report, (b, data), ()),
        24 <= image.len() < 0x1_0000_0000,
        image.subrange(20, 24) == seq![83u8, 84u8, 77u8, 80u8],
        joined(payloads) == image,
        data_reports(reports, payloads),
        data@.len() >= 12,
        data@[0] == 1 && data@[2] + 256 * data@[3] >= 8,
        data@[4] == 8,
        data@[8] + 256 * data@[9] + 65536 * data@[10] + 16777216 * data@[11] == image.len(),
        0 <= k < payloads.len(),
    ensures
        ({
            let done = after_reports(final(b)@, reports);
            let part = after_reports(final(b)@, reports.take(k));
            &&& done.events == old(b)@.events.push(EventView::FlashCompleted { image })
            &&& done.responses.len() == old(b)@.responses.len() + 2
            &&& done.responses.take(old(b)@.responses.len() as int) == old(b)@.responses
            &&& is_response(done.responses[old(b)@.responses.len() as int], 0, 8)
            &&& is_response(done.responses.last(), 0, 8)
            &&& joined(payloads.take(k)).len() < image.len() ==> part.events == old(b)@.events
                && part.responses.len() == old(b)@.responses.len() + 1
        }),
{
    let declared = data@[2] + 256 * data@[3];
    let p = data@.subrange(
        4,
        4 + if declared < data@.len() - 4 { declared } else { data@.len() - 4 },
    );
    assert(carries(data@, p));
    assert(p[0] == data@[4] && p[4] == data@[8] && p[5] == data@[9] && p[6] == data@[10] && p[7]
        == data@[11]);
    law_command(b, data, p);
    assert(crate::bootloader::report_payload(data@) =~= p);
    let o = old(b)@;
    lemma_flash(o, p, payloads);
    lemma_data_reports(o.after_command(p), reports, payloads);
    let some = payloads.take(k);
    let early = reports.take(k);
    assert forall|i: int| 0 <= i < k implies #[trigger] data_report(early[i], some[i]) by {
        assert(data_report(reports[i], payloads[i]));
    }
    assert(data_reports(early, some));
    lemma_flash(o, p, some);
    lemma_data_reports(o.after_command(p), reports.take(k), some);
    assert(joined(payloads).take(image.len() as int) =~= image);
    let sig = image.subrange(20, 24);
    assert(sig[0] == image[20] && sig[1] == image[21] && sig[2] == image[22] && sig[3]
        == image[23]);
    lemma_response_bytes(0, 8);
    let done = after_reports(final(b)@, reports);
    assert(done.responses.take(o.responses.len() as int) =~= o.responses);
}

/// Responses come back oldest first, from the IN endpoint cut to the length
/// that was asked for, at least one byte; without one the transfer waits. Every
/// OUT transfer is a report.
pub proof fn law_bootloader_transfers(
    b: &mut Bootloader,
    ep: u8,
    len: usize,
    r: Result<InStep, Stall>,
    c: &mut Bootloader,
    data: &[u8],
    m: &Moment,
    s: Result<usize, Stall>,
    d: &mut Bootloader,
)
    requires
        call_ensures(<Bootloader as UsbBackend>::in_transfer, (b, ep, len), r),
        call_ensures(<Bootloader as UsbBackend>::out_transfer, (c, ep, data, m), s),
        call_ensures(Bootloader::handle_report, (d, data), ()),
        *old(d) == *old(c),
    ensures
        ({
            let before = old(b)@.responses;
            if before.len() == 0 {
                (r matches Ok(InStep::Pending)) && final(b)@ == old(b)@
            } else {
                let n = if len == 0 { 1 } else { len as int };
                &&& r matches Ok(InStep::Data(x))
                &&& x@.len() == (if n < before[0].len() { n } else { before[0].len() as int })
                &&& forall|i: int| 0 <= i < x@.len() ==> #[trigger] x@[i] == before[0][i]
                &&& final(b)@ == (BootloaderView { responses: before.skip(1), ..old(b)@ })
            }
        }),
        s == Ok::<usize, Stall>(data@.len() as usize),
        final(c)@ == final(d)@,
{
}

/// The class requests of the HID interface, besides the standard ones: 9 sets
/// a report as an OUT transfer does, 10 and 11 are accepted, 1 fetches the
/// oldest response, or 60 zero bytes, when the data goes to the host.
/// Everything else stalls.
pub proof fn law_hid_requests(
    b: &mut Bootloader,
    setup: SetupPacket,
    data: &[u8],
    r: Result<Vec<u8>, Stall>,
    d: &mut Bootloader,
)
    requires
        call_ensures(<Bootloader as UsbBackend>::control, (b, setup, data), r),
        call_ensures(Bootloader::handle_report, (d, data), ()),
        *old(d) == *old(b),
        setup.bm_request_type % 128 >= 32,
    ensures
        ({
            let class = 32 <= setup.bm_request_type % 128 < 64;
            let inward = setup.bm_request_type >= 128;
            let (q, o) = (setup.b_request, old(b)@);
            &&& class && q == 9 ==> r is Ok && r->Ok_0@.len() == 0 && final(b)@ == final(d)@
            &&& class && (q == 10 || q == 11) ==> r is Ok && r->Ok_0@.len() == 0 && final(b)@ == o
            &&& class && q == 1 && !inward ==> r is Ok && r->Ok_0@.len() == 0 && final(b)@ == o
            &&& class && q == 1 && inward && o.responses.len() > 0 ==> {
                &&& r is Ok && r->Ok_0@ == o.responses[0]
                &&& final(b)@ == (BootloaderView { responses: o.responses.skip(1), ..o })
            }
            &&& class && q == 1 && inward && o.responses.len() == 0 ==> {
                &&& r is Ok && r->Ok_0@.len() == 60
                &&& forall|i: int| 0 <= i < 60 ==> #[trigger] r->Ok_0@[i] == 0
                &&& final(b)@ == o
            }
            &&& !class || (q != 1 && q != 9 && q != 10 && q != 11) ==> r is Err && final(b)@ == o
        }),
{
}

/// A bootloader boots idle; collecting events takes all of them, in order.
pub proof fn law_boot(
    b: Bootloader,
    c: &mut Bootloader,
    events: Vec<SimEvent>,
    n: Option<usize>,
    d: &Bootloader,
    k: Option<usize>,
    i: int,
)
    requires
        call_ensures(Bootloader::new, (), b),
        call_ensures(<Bootloader as UsbBackend>::take_events, (c,), events),
        call_ensures(Bootloader::announced_reports, (&b,), n),
        call_ensures(Bootloader::announced_reports, (d,), k),
    ensures
        b@.phase == PhaseView::Idle,
        b@.responses.len() == 0,
        b@.events.len() == 0,
        n is None,
        (k is Some) == (d@.reports is Some),
        k matches Some(x) ==> d@.reports->0 == x,
        events@.len() == old(c)@.events.len(),
        0 <= i < events@.len() ==> events@[i]@ == old(c)@.events[i],
        final(c)@ == (BootloaderView { events: Seq::empty(), ..old(c)@ }),
{
    let views = crate::sim::event_views(events@);
    assert(views.len() == events@.len());
    if 0 <= i < events@.len() {
        assert(views[i] == events@[i]@);
    }
}

/// Standard requests are answered as by every device, and those that are not
/// known stall; neither changes the bootloader.
pub proof fn law_bootloader_standard(
    b: &mut Bootloader,
    setup: SetupPacket,
    data: &[u8],
    r: Result<Vec<u8>, Stall>,
    id: &Identity,
    s: Option<Result<Vec<u8>, Stall>>,
)
    requires
        call_ensures(<Bootloader as UsbBackend>::control, (b, setup, data), r),
        *id == old(b).device(),
        call_ensures(Identity::handle_standard, (id, setup), s),
        setup.bm_request_type % 128 < 32,
    ensures
        final(b)@ == old(b)@,
        s is None ==> r is Err,
        s matches Some(a) ==> {
            &&& (r is Ok) == (a is Ok)
            &&& r is Ok ==> r->Ok_0@ == a->Ok_0@
        },
{
}

} // verus!
