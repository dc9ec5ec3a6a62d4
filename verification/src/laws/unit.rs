//! Units: how they boot, reboot and take transfers.

use crate::analyzer::{Analyzer, AnalyzerView};
use crate::backend::{DeviceSummary, InStep, Moment, SetupPacket, Stall, UsbBackend};
use crate::bootloader::{Bootloader, BootloaderView};
use crate::options::SimOptions;
use crate::persona::{Persona, PersonaView};
use crate::registry::{sha256_hex, FirmwareRegistry};
use crate::sim::{saved_file_name, EventView, SimAction, SimEvent, SimView, Simulator, Stage};
use vstd::prelude::*;

verus! {

/// A unit boots with the configured firmware version, nobody attached, nothing
/// pending and generation 0; as a fresh bootloader where the options say so,
/// otherwise as a fresh analyzer.
pub proof fn law_unit_boot(
    opts: SimOptions,
    factory: [u8; 512],
    s: Simulator,
    b: Bootloader,
    a: Analyzer,
    generation: u64,
    version: u32,
    unplugged: bool,
    ready: bool,
    busid: &str,
    o: &SimOptions,
)
    requires
        call_ensures(Simulator::new, (opts, factory), s),
        call_ensures(Bootloader::new, (), b),
        call_ensures(Analyzer::new, (&opts, opts.fw_version, &factory), a),
        call_ensures(Simulator::generation, (&s,), generation),
        call_ensures(Simulator::fw_version, (&s,), version),
        call_ensures(Simulator::is_unplugged, (&s,), unplugged),
        call_ensures(Simulator::can_advance, (&s,), ready),
        call_ensures(Simulator::busid, (&s,), busid),
        call_ensures(Simulator::opts, (&s,), o),
    ensures
        s@.current == (if opts.boot_bootloader {
            PersonaView::Bootloader(b@)
        } else {
            PersonaView::Analyzer(a@)
        }),
        s@.fw_version == opts.fw_version && version == opts.fw_version,
        s@.flash_count == 0,
        s@.generation == 0 && generation == 0,
        s@.events.len() == 0,
        s@.stage == Stage::Idle,
        !s@.imported,
        !s@.unplugged && !unplugged,
        ready,
        busid@ == opts.busid@,
        *o == opts,
{
}

/// The next generation.
pub open spec fn next_generation(g: u64) -> int {
    (g + 1) % 0x1_0000_0000_0000_0000
}

/// Waiting for an event changes nothing and asks for nothing.
pub proof fn law_await(sim: &mut Simulator, action: SimAction)
    requires
        old(sim).wf(),
        call_ensures(Simulator::advance, (sim,), action),
        old(sim)@.stage == Stage::Idle,
        old(sim)@.events.len() == 0,
    ensures
        final(sim)@ == old(sim)@,
        action is AwaitEvent,
{
}

/// Entering the bootloader: 200 ms later the unit has rebooted as a fresh
/// bootloader, with everything else as it was.
pub proof fn law_enter_bootloader(
    sim: &mut Simulator,
    action: SimAction,
    then: &mut Simulator,
    second: SimAction,
    b: Bootloader,
)
    requires
        old(sim).wf(),
        call_ensures(Simulator::advance, (sim,), action),
        *old(then) == *final(sim),
        call_ensures(Simulator::advance, (then,), second),
        call_ensures(Bootloader::new, (), b),
        old(sim)@.stage == Stage::Idle,
        old(sim)@.events.len() > 0,
        old(sim)@.events[0] is EnterBootloader,
    ensures
        action matches SimAction::Sleep { millis } && millis == 200,
        final(sim)@.current == old(sim)@.current,
        final(sim)@.generation == old(sim)@.generation,
        second is Proceed,
        ({
            let (o, n) = (old(sim)@, final(then)@);
            &&& n.current == PersonaView::Bootloader(b@)
            &&& n.generation == next_generation(o.generation)
            &&& n.events == o.events.skip(1)
            &&& n.stage == Stage::Idle
            &&& n.fw_version == o.fw_version
            &&& n.flash_count == o.flash_count
            &&& n.imported == o.imported
            &&& n.unplugged == o.unplugged
        }),
{
}

/// A reset command: 300 ms later the unit has rebooted as a fresh analyzer with
/// the same firmware.
pub proof fn law_reset(
    sim: &mut Simulator,
    action: SimAction,
    then: &mut Simulator,
    second: SimAction,
    factory: &[u8; 512],
    a: Analyzer,
)
    requires
        old(sim).wf(),
        call_ensures(Simulator::advance, (sim,), action),
        *old(then) == *final(sim),
        call_ensures(Simulator::advance, (then,), second),
        factory@ == old(sim).factory_page(),
        call_ensures(Analyzer::new, (&old(sim).options(), old(sim)@.fw_version, factory), a),
        old(sim)@.stage == Stage::Idle,
        old(sim)@.events.len() > 0,
        old(sim)@.events[0] is BootloaderReset,
    ensures
        action matches SimAction::Sleep { millis } && millis == 300,
        final(sim)@.current == old(sim)@.current,
        final(sim)@.generation == old(sim)@.generation,
        second is Proceed,
        ({
            let (o, n) = (old(sim)@, final(then)@);
            &&& n.current == PersonaView::Analyzer(a@)
            &&& n.generation == next_generation(o.generation)
            &&& n.events == o.events.skip(1)
            &&& n.stage == Stage::Idle
            &&& n.fw_version == o.fw_version
            &&& n.flash_count == o.flash_count
            &&& n.imported == o.imported
            &&& n.unplugged == o.unplugged
        }),
{
}

/// A completed flash: the image is handed out to be saved where a directory is
/// configured, under its number and digest. For 2000 ms the unit stays as it
/// was, then it is unplugged for 2000 ms, rebooted as a fresh analyzer with the
/// version of the image or, failing that, the one it had; then it is plugged in
/// again.
pub proof fn law_flash(
    sim: &mut Simulator,
    action: SimAction,
    then: &mut Simulator,
    second: SimAction,
    back: &mut Simulator,
    third: SimAction,
    image: &[u8],
    found: Option<u32>,
    n: u64,
    name: String,
    factory: &[u8; 512],
    version: u32,
    a: Analyzer,
)
    requires
        old(sim).wf(),
        old(sim)@.stage == Stage::Idle,
        old(sim)@.events.len() > 0,
        old(sim)@.events[0] == (EventView::FlashCompleted { image: image@ }),
        old(sim)@.flash_count < u32::MAX,
        call_ensures(Simulator::advance, (sim,), action),
        *old(then) == *final(sim),
        call_ensures(Simulator::advance, (then,), second),
        *old(back) == *final(then),
        call_ensures(Simulator::advance, (back,), third),
        call_ensures(Simulator::resolve_flashed_version, (old(sim), image), found),
        n == old(sim)@.flash_count + 1,
        call_ensures(saved_file_name, (n, image), name),
        version == (match found {
            Some(v) => v,
            None => old(sim)@.fw_version,
        }),
        factory@ == old(sim).factory_page(),
        call_ensures(Analyzer::new, (&old(sim).options(), version, factory), a),
    ensures
        match old(sim).options().save_firmware {
            Some(dir) => {
                &&& action matches SimAction::SaveThenSleep { saved, millis }
                &&& millis == 2000
                &&& saved.dir@ == dir@
                &&& saved.name@ == name@
                &&& saved.image@ == image@
            },
            None => action matches SimAction::Sleep { millis } && millis == 2000,
        },
        ({
            let (o, settling, out, n) = (old(sim)@, final(sim)@, final(then)@, final(back)@);
            &&& settling.current == o.current
            &&& settling.generation == o.generation
            &&& !settling.unplugged
            &&& settling.flash_count == o.flash_count + 1
            &&& out.unplugged
            &&& out.generation == next_generation(o.generation)
            &&& out.imported == o.imported
            &&& n.current == PersonaView::Analyzer(a@)
            &&& n.fw_version == version
            &&& n.generation == next_generation(o.generation)
            &&& n.events == o.events.skip(1)
            &&& n.stage == Stage::Idle
            &&& n.flash_count == o.flash_count + 1
            &&& n.imported == o.imported
            &&& !n.unplugged
        }),
        second matches SimAction::Sleep { millis } && millis == 2000,
        third is Proceed,
{
}

/// The version of an image: what the registry knows of it, otherwise the
/// configured one.
pub proof fn law_flashed_version(
    sim: &Simulator,
    image: &[u8],
    v: Option<u32>,
    registry: &FirmwareRegistry,
    known: Option<u32>,
)
    requires
        image@.len() < 0x2000_0000_0000_0000,
        call_ensures(Simulator::resolve_flashed_version, (sim, image), v),
        call_ensures(FirmwareRegistry::version_of, (registry, image), known),
        sim.options().registry matches Some(r) ==> r == *registry,
    ensures
        v == (if sim.options().registry is Some && known is Some {
            known
        } else {
            sim.options().post_flash_version
        }),
{
}

/// The name of a saved image: its number, and the first eight digits of its
/// digest.
pub proof fn law_saved_name(n: u64, image: &[u8], name: String, digits: Seq<char>, sha: String)
    requires
        image@.len() < 0x2000_0000_0000_0000,
        call_ensures(saved_file_name, (n, image), name),
        call_ensures(sha256_hex, (image,), sha),
        crate::laws::text::numeral(digits, n as int),
    ensures
        name@ == "qa40x-flash-"@ + digits + "-"@ + sha@.take(8) + ".sb"@,
{
    crate::laws::text::lemma_decimal(n as nat);
    crate::laws::text::law_numerals(digits, crate::text::decimal(n as nat), n as int);
}

/// A transfer to a unit is a transfer to its persona; the events of the persona
/// go to the end of the unit's.
pub proof fn law_unit_out(
    sim: &mut Simulator,
    ep: u8,
    data: &[u8],
    m: &Moment,
    r: Result<usize, Stall>,
    a: &mut Analyzer,
    ra: Result<usize, Stall>,
    b: &mut Bootloader,
    rb: Result<usize, Stall>,
)
    requires
        old(sim).wf(),
        call_ensures(Simulator::out_transfer, (sim, ep, data, m), r),
        call_ensures(<Analyzer as UsbBackend>::out_transfer, (a, ep, data, m), ra),
        call_ensures(<Bootloader as UsbBackend>::out_transfer, (b, ep, data, m), rb),
    ensures
        old(sim)@.current == PersonaView::Analyzer(old(a)@) ==> {
            &&& r == ra
            &&& final(sim)@ == (SimView {
                current: PersonaView::Analyzer(
                    AnalyzerView { events: Seq::empty(), ..final(a)@ },
                ),
                events: old(sim)@.events + final(a)@.events,
                ..old(sim)@
            })
        },
        old(sim)@.current == PersonaView::Bootloader(old(b)@) ==> {
            &&& r == rb
            &&& final(sim)@ == (SimView {
                current: PersonaView::Bootloader(
                    BootloaderView { events: Seq::empty(), ..final(b)@ },
                ),
                events: old(sim)@.events + final(b)@.events,
                ..old(sim)@
            })
        },
{
}

/// The same for what a unit sends.
pub proof fn law_unit_in(
    sim: &mut Simulator,
    ep: u8,
    len: usize,
    r: Result<InStep, Stall>,
    a: &mut Analyzer,
    ra: Result<InStep, Stall>,
    b: &mut Bootloader,
    rb: Result<InStep, Stall>,
)
    requires
        old(sim).wf(),
        call_ensures(Simulator::in_transfer, (sim, ep, len), r),
        call_ensures(<Analyzer as UsbBackend>::in_transfer, (a, ep, len), ra),
        call_ensures(<Bootloader as UsbBackend>::in_transfer, (b, ep, len), rb),
    ensures
        old(sim)@.current == PersonaView::Analyzer(old(a)@) ==> {
            &&& (r is Ok) == (ra is Ok)
            &&& r is Ok ==> r->Ok_0@ == ra->Ok_0@
            &&& final(sim)@.current == PersonaView::Analyzer(
                AnalyzerView { events: Seq::empty(), ..final(a)@ },
            )
            &&& final(sim)@.events == old(sim)@.events + final(a)@.events
        },
        old(sim)@.current == PersonaView::Bootloader(old(b)@) ==> {
            &&& r is Ok && rb is Ok
            &&& r->Ok_0@ == rb->Ok_0@
            &&& final(sim)@.current == PersonaView::Bootloader(
                BootloaderView { events: Seq::empty(), ..final(b)@ },
            )
            &&& final(sim)@.events == old(sim)@.events + final(b)@.events
        },
{
}

/// Two transfers of a unit at once: the second sees what the first left, and
/// its events come behind.
pub proof fn law_events_in_order(
    sim: &mut Simulator,
    ep: u8,
    data: &[u8],
    m: &Moment,
    r: Result<usize, Stall>,
)
    requires
        old(sim).wf(),
        call_ensures(Simulator::out_transfer, (sim, ep, data, m), r),
    ensures
        old(sim)@.events.is_prefix_of(final(sim)@.events),
        final(sim)@.stage == old(sim)@.stage,
        final(sim)@.generation == old(sim)@.generation,
        final(sim)@.fw_version == old(sim)@.fw_version,
        final(sim)@.flash_count == old(sim)@.flash_count,
        final(sim)@.imported == old(sim)@.imported,
        final(sim)@.unplugged == old(sim)@.unplugged,
{
}

/// A control request to a unit is one to its persona.
pub proof fn law_unit_requests(
    sim: &mut Simulator,
    setup: SetupPacket,
    data: &[u8],
    r: Result<Vec<u8>, Stall>,
    a: &mut Analyzer,
    ra: Result<Vec<u8>, Stall>,
    b: &mut Bootloader,
    rb: Result<Vec<u8>, Stall>,
)
    requires
        old(sim).wf(),
        call_ensures(Simulator::control, (sim, setup, data), r),
        call_ensures(<Analyzer as UsbBackend>::control, (a, setup, data), ra),
        call_ensures(<Bootloader as UsbBackend>::control, (b, setup, data), rb),
    ensures
        old(sim)@.current == PersonaView::Analyzer(old(a)@) && old(a).device() == old(sim).id() ==> {
            &&& (r is Ok) == (ra is Ok)
            &&& r is Ok ==> r->Ok_0@ == ra->Ok_0@
            &&& final(sim)@ == old(sim)@
        },
        old(sim)@.current == PersonaView::Bootloader(old(b)@) && old(b).device() == old(sim).id()
            ==> {
            &&& (r is Ok) == (rb is Ok)
            &&& r is Ok ==> r->Ok_0@ == rb->Ok_0@
            &&& final(sim)@ == (SimView {
                current: PersonaView::Bootloader(
                    BootloaderView { events: Seq::empty(), ..final(b)@ },
                ),
                events: old(sim)@.events + final(b)@.events,
                ..old(sim)@
            })
        },
{
    let e = old(sim)@.current.events();
    assert(e =~= Seq::empty());
    assert(old(sim)@.events + e =~= old(sim)@.events);
}

/// What a unit shows on the bus: its configured ids as an analyzer, those of
/// the maker's bootloader otherwise.
pub proof fn law_unit_summary(sim: &Simulator, s: DeviceSummary, p: &Persona)
    requires
        sim.wf(),
        call_ensures(Simulator::summary, (sim,), s),
        call_ensures(Simulator::current, (sim,), p),
    ensures
        sim@.current is Analyzer ==> {
            &&& s.vid == sim.options().vid
            &&& s.pid == sim.options().pid
            &&& s.speed is High
            &&& s.interfaces@ == seq![(255u8, 0u8, 0u8)]
        },
        sim@.current is Bootloader ==> {
            &&& s.vid == 0x1FC9
            &&& s.pid == 0x22
            &&& s.speed is Full
            &&& s.interfaces@ == seq![(3u8, 0u8, 0u8)]
        },
        s.bcd_device == 0x100,
        s.device_class == 0 && s.device_subclass == 0 && s.device_protocol == 0,
        s.configuration_value == 1 && s.num_configurations == 1,
        p@ == sim@.current,
{
}

/// Collecting the analyzer's events takes all of them, in order.
pub proof fn law_analyzer_events(a: &mut Analyzer, events: Vec<SimEvent>, i: int)
    requires
        call_ensures(<Analyzer as UsbBackend>::take_events, (a,), events),
        0 <= i < events@.len(),
    ensures
        events@.len() == old(a)@.events.len(),
        events@[i]@ == old(a)@.events[i],
        final(a)@ == (AnalyzerView { events: Seq::empty(), ..old(a)@ }),
{
    let views = crate::sim::event_views(events@);
    assert(views.len() == events@.len());
    assert(views[i] == events@[i]@);
}

/// Whether the next step can be taken: a flash that would be too many cannot.
pub proof fn law_can_advance(sim: &Simulator, b: bool)
    requires
        call_ensures(Simulator::can_advance, (sim,), b),
    ensures
        b == !(sim@.flash_count == 0xFFFF_FFFF && sim@.stage == Stage::Idle && sim@.events.len() > 0
            && sim@.events[0] is FlashCompleted),
{
}

/// The analyzer of a unit can be reached exactly while the unit shows it, and is
/// the one it shows.
pub proof fn law_unit_analyzer(sim: &mut Simulator, a: Option<&mut Analyzer>)
    requires
        old(sim).wf(),
        call_ensures(Simulator::analyzer, (sim,), a),
    ensures
        (a is Some) == (old(sim)@.current is Analyzer),
        a is None ==> final(sim)@ == old(sim)@,
        a matches Some(p) ==> old(sim)@.current == PersonaView::Analyzer(p@) && final(sim)@ == (
        SimView { current: PersonaView::Analyzer(final(p)@), ..old(sim)@ }),
{
}

/// What a unit tells of itself at any time.
pub proof fn law_unit_state(
    sim: &Simulator,
    generation: u64,
    version: u32,
    unplugged: bool,
    busid: &str,
    o: &SimOptions,
)
    requires
        call_ensures(Simulator::generation, (sim,), generation),
        call_ensures(Simulator::fw_version, (sim,), version),
        call_ensures(Simulator::is_unplugged, (sim,), unplugged),
        call_ensures(Simulator::busid, (sim,), busid),
        call_ensures(Simulator::opts, (sim,), o),
    ensures
        generation == sim@.generation,
        version == sim@.fw_version,
        unplugged == sim@.unplugged,
        *o == sim.options(),
        busid@ == o.busid@,
{
}

} // verus!
