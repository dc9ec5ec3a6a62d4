//! The simulator: owns the current persona (analyzer or bootloader), the
//! state that survives "reboots" (firmware version), and the persona-switch
//! choreography of a fake firmware update:
//!
//! ```text
//! analyzer --0x0F magic--> [detach] bootloader --ReceiveSbFile ok--> [detach] analyzer (new fw)
//! ```
//!
//! Transports watch the generation: when it changes, the device they were
//! serving is gone (the unit "rebooted") and the connection must be dropped so
//! the host sees an unplug, exactly like real hardware.

use crate::analyzer::{
    bus_frames, has_pair, lemma_bootloader_unlock, lemma_transfer_is_frames, powered_on, Analyzer,
    AnalyzerView, FIRMWARE_VERSION,
};
use crate::backend::{answer, step, DeviceSummary, InStep, Moment, SetupPacket, Stall, UsbBackend};
use crate::bootloader::{
    booted, lemma_out_report, looks_sb2, out_report, Bootloader, BootloaderView, PhaseView,
    REPORT_DATA_OUT,
};
use crate::identity::{is_analyzer_identity, is_bootloader_identity, Identity};
use crate::options::SimOptions;
use crate::persona::{Persona, PersonaView};
use crate::registry::{sha256_hex, sha256_of};
use crate::text::{chars_of, decimal, hex_of, push_decimal};
use std::collections::VecDeque;
use vstd::prelude::*;
use vstd::string::StringExecFns;

verus! {

/// Events emitted by the personas.
#[derive(Debug)]
pub enum SimEvent {
    /// Analyzer received the 0x0F two-magic sequence.
    EnterBootloader,
    /// Bootloader accepted a full SB2.1 image.
    FlashCompleted { image: Vec<u8> },
    /// Bootloader received a Reset command (no flash).
    BootloaderReset,
}

/// The contents of a [`SimEvent`].
pub enum EventView {
    EnterBootloader,
    FlashCompleted { image: Seq<u8> },
    BootloaderReset,
}

impl View for SimEvent {
    type V = EventView;

    open spec fn view(&self) -> EventView {
        match self {
            SimEvent::EnterBootloader => EventView::EnterBootloader,
            SimEvent::FlashCompleted { image } => EventView::FlashCompleted { image: image@ },
            SimEvent::BootloaderReset => EventView::BootloaderReset,
        }
    }
}

/// Every image in a list of events fits its 32-bit announced length.
pub open spec fn images_fit(events: Seq<EventView>) -> bool {
    forall|i: int| 0 <= i < events.len() ==> image_fits(#[trigger] events[i])
}

/// The image of an event, if any, fits its 32-bit announced length.
pub open spec fn image_fits(e: EventView) -> bool {
    e matches EventView::FlashCompleted { image } ==> image.len() <= u32::MAX
}

/// The contents of a list of events.
pub open spec fn event_views(events: Seq<SimEvent>) -> Seq<EventView> {
    events.map_values(|e: SimEvent| e@)
}

/// Milliseconds between the second magic and the detach: the transport gets a
/// beat to flush its reply.
pub const DETACH_MS: u64 = 200;

/// Milliseconds a flashed unit settles, for the host to read the final
/// response, before the cable is pulled.
pub const SETTLE_MS: u64 = 2000;

/// Milliseconds the cable stays out.
pub const UNPLUGGED_MS: u64 = 2000;

/// Milliseconds between a reset command and the reboot.
pub const RESET_MS: u64 = 300;

/// Where the choreography stands.
#[derive(Debug, Clone, Copy, PartialEq, Eq, Structural)]
pub enum Stage {
    /// Waiting for an event.
    Idle,
    /// About to detach into the bootloader.
    Detaching,
    /// Flashed, about to be unplugged.
    Settling,
    /// The cable is out.
    Unplugged,
    /// About to reboot into the analyzer.
    Resetting,
}

/// An image to write to disk.
#[derive(Debug)]
pub struct SavedImage {
    pub dir: String,
    pub name: String,
    pub image: Vec<u8>,
}

/// What the simulator's driver does next.
#[derive(Debug)]
pub enum SimAction {
    /// Wait until an event arrives.
    AwaitEvent,
    /// Go on at once.
    Proceed,
    /// Go on after this many milliseconds.
    Sleep { millis: u64 },
    /// Save a flashed image (best effort), then go on after this many
    /// milliseconds.
    SaveThenSleep { saved: SavedImage, millis: u64 },
}

/// The contents of a [`SimAction`].
pub enum ActionView {
    AwaitEvent,
    Proceed,
    Sleep { millis: u64 },
    SaveThenSleep { dir: Seq<char>, name: Seq<char>, image: Seq<u8>, millis: u64 },
}

impl View for SimAction {
    type V = ActionView;

    open spec fn view(&self) -> ActionView {
        match self {
            SimAction::AwaitEvent => ActionView::AwaitEvent,
            SimAction::Proceed => ActionView::Proceed,
            SimAction::Sleep { millis } => ActionView::Sleep { millis: *millis },
            SimAction::SaveThenSleep { saved, millis } => ActionView::SaveThenSleep {
                dir: saved.dir@,
                name: saved.name@,
                image: saved.image@,
                millis: *millis,
            },
        }
    }
}

/// The file name of the `n`-th flashed image.
pub open spec fn saved_name(n: nat, image: Seq<u8>) -> Seq<char> {
    "qa40x-flash-"@ + decimal(n) + "-"@ + hex_of(sha256_of(image)).take(8) + ".sb"@
}

/// The firmware version an image brings: by registry lookup of its sha256
/// first, then the configured fallback; `None` keeps the version.
pub open spec fn flashed_version(opts: SimOptions, image: Seq<u8>) -> Option<u32> {
    let sha = hex_of(sha256_of(image));
    match opts.registry {
        Some(r) => if r@.contains_key(sha) {
            Some(r@[sha])
        } else {
            opts.post_flash_version
        },
        None => opts.post_flash_version,
    }
}

/// The contents of a [`Simulator`], apart from its options.
pub struct SimView {
    pub fw_version: u32,
    /// Number of completed fake flashes.
    pub flash_count: u32,
    pub current: PersonaView,
    pub generation: u64,
    /// Events of the personas that were not handled yet, oldest first.
    pub events: Seq<EventView>,
    pub stage: Stage,
    pub imported: bool,
    pub unplugged: bool,
}

impl SimView {
    /// The state after the unit rebooted into a persona.
    pub open spec fn rebooted(self, persona: PersonaView) -> SimView {
        SimView {
            current: persona,
            generation: if self.generation == u64::MAX {
                0
            } else {
                (self.generation + 1) as u64
            },
            ..self
        }
    }

    /// The analyzer persona as it boots now.
    pub open spec fn analyzer(self, opts: SimOptions, factory: Seq<u8>) -> PersonaView {
        PersonaView::Analyzer(powered_on(opts, self.fw_version, factory))
    }

    /// Whether the next step is the flash of an image.
    pub open spec fn flash_next(self) -> bool {
        self.stage == Stage::Idle && self.events.len() > 0 && self.events[0] is FlashCompleted
    }

    /// Whether the next step can be taken: a flash has to be counted.
    pub open spec fn can_advance(self) -> bool {
        self.flash_next() ==> self.flash_count < u32::MAX
    }

    /// The state after the first pending event was taken up.
    pub open spec fn taken(self, opts: SimOptions) -> SimView {
        let rest = SimView { events: self.events.skip(1), ..self };
        match self.events[0] {
            EventView::EnterBootloader => SimView { stage: Stage::Detaching, ..rest },
            EventView::FlashCompleted { image } => SimView {
                fw_version: match flashed_version(opts, image) {
                    Some(v) => v,
                    None => self.fw_version,
                },
                flash_count: (self.flash_count + 1) as u32,
                stage: Stage::Settling,
                ..rest
            },
            EventView::BootloaderReset => SimView { stage: Stage::Resetting, ..rest },
        }
    }

    /// What taking up the first pending event asks for.
    pub open spec fn taking(self, opts: SimOptions) -> ActionView {
        match self.events[0] {
            EventView::EnterBootloader => ActionView::Sleep { millis: DETACH_MS },
            EventView::FlashCompleted { image } => match opts.save_firmware {
                Some(dir) => ActionView::SaveThenSleep {
                    dir: dir@,
                    name: saved_name((self.flash_count + 1) as nat, image),
                    image,
                    millis: SETTLE_MS,
                },
                None => ActionView::Sleep { millis: SETTLE_MS },
            },
            EventView::BootloaderReset => ActionView::Sleep { millis: RESET_MS },
        }
    }

    /// The state after one step of the choreography.
    pub open spec fn advanced(self, opts: SimOptions, factory: Seq<u8>) -> SimView {
        match self.stage {
            Stage::Idle => if self.events.len() > 0 {
                self.taken(opts)
            } else {
                self
            },
            Stage::Detaching => SimView { stage: Stage::Idle, ..self }.rebooted(
                PersonaView::Bootloader(booted()),
            ),
            Stage::Settling => SimView { stage: Stage::Unplugged, unplugged: true, ..self }.rebooted(
                self.analyzer(opts, factory),
            ),
            Stage::Unplugged => SimView { stage: Stage::Idle, unplugged: false, ..self },
            Stage::Resetting => SimView { stage: Stage::Idle, ..self }.rebooted(
                self.analyzer(opts, factory),
            ),
        }
    }

    /// What that step asks for.
    pub open spec fn action(self, opts: SimOptions) -> ActionView {
        match self.stage {
            Stage::Idle => if self.events.len() > 0 {
                self.taking(opts)
            } else {
                ActionView::AwaitEvent
            },
            Stage::Settling => ActionView::Sleep { millis: UNPLUGGED_MS },
            _ => ActionView::Proceed,
        }
    }

    /// Whether an import is granted: nobody else holds the device.
    pub open spec fn grants_import(self) -> bool {
        !self.imported
    }

    /// The state after an import was tried.
    pub open spec fn after_import(self) -> SimView {
        SimView { imported: true, ..self }
    }

    /// The state after the device was released.
    pub open spec fn after_release(self) -> SimView {
        SimView { imported: false, ..self }
    }

    /// The state after a transfer left the persona in `persona`: its events are
    /// queued.
    pub open spec fn transferred(self, persona: PersonaView) -> SimView {
        SimView {
            current: persona.collected(),
            events: self.events + persona.events(),
            ..self
        }
    }
}

/// A simulated unit.
#[derive(Debug)]
pub struct Simulator {
    opts: SimOptions,
    /// Calibration page of a unit without a custom one.
    factory: [u8; 512],
    fw_version: u32,
    /// Number of completed fake flashes.
    flash_count: u32,
    current: Persona,
    generation: u64,
    events: VecDeque<SimEvent>,
    stage: Stage,
    imported: bool,
    /// Simulated "cable out" window: while true, imports are refused as if no
    /// device were plugged in.
    unplugged: bool,
}

impl View for Simulator {
    type V = SimView;

    closed spec fn view(&self) -> SimView {
        SimView {
            fw_version: self.fw_version,
            flash_count: self.flash_count,
            current: self.current@,
            generation: self.generation,
            events: event_views(self.events@),
            stage: self.stage,
            imported: self.imported,
            unplugged: self.unplugged,
        }
    }
}

impl Simulator {
    /// The unit's options.
    pub closed spec fn options(self) -> SimOptions {
        self.opts
    }

    /// The calibration page of a unit without a custom one.
    pub closed spec fn factory_page(self) -> Seq<u8> {
        self.factory@
    }

    /// The identity of the current persona.
    pub closed spec fn id(self) -> Identity {
        self.current.device()
    }

    /// What holds inside the current persona.
    pub closed spec fn persona_valid(self) -> bool {
        self.current.valid()
    }

    /// What holds between calls: the identity belongs to the current persona,
    /// the persona's events have been collected, and the unit is unplugged in
    /// the cable-out stage and in no other.
    pub open spec fn wf(self) -> bool {
        &&& self.persona_valid()
        &&& self@.current.events().len() == 0
        &&& images_fit(self@.events)
        &&& self@.unplugged == (self@.stage == Stage::Unplugged)
        &&& match self@.current {
            PersonaView::Analyzer(_) => is_analyzer_identity(
                self.id(),
                self.options().vid,
                self.options().pid,
                self.options().model.product(),
                self.options().serial@,
            ),
            PersonaView::Bootloader(_) => is_bootloader_identity(self.id()),
        }
    }

    /// Whether only what a transfer changes has changed.
    pub open spec fn same_unit(self, other: Simulator) -> bool {
        &&& self.options() == other.options()
        &&& self.factory_page() == other.factory_page()
    }

    /// Boots a unit. One whose last flash failed boots stuck in the bootloader;
    /// otherwise it boots into the analyzer. `factory` is the calibration page
    /// served without a custom one.
    pub fn new(opts: SimOptions, factory: [u8; 512]) -> (s: Self)
        ensures
            s.wf(),
            s.options() == opts,
            s.factory_page() == factory@,
            s@ == (SimView {
                fw_version: opts.fw_version,
                flash_count: 0,
                current: if opts.boot_bootloader {
                    PersonaView::Bootloader(booted())
                } else {
                    PersonaView::Analyzer(powered_on(opts, opts.fw_version, factory@))
                },
                generation: 0,
                events: Seq::empty(),
                stage: Stage::Idle,
                imported: false,
                unplugged: false,
            }),
    {
        let current = if opts.boot_bootloader {
            Persona::Bootloader(Bootloader::new())
        } else {
            Persona::Analyzer(Analyzer::new(&opts, opts.fw_version, &factory))
        };
        let s = Simulator {
            fw_version: opts.fw_version,
            opts,
            factory,
            flash_count: 0,
            current,
            generation: 0,
            events: VecDeque::new(),
            stage: Stage::Idle,
            imported: false,
            unplugged: false,
        };
        assert(s@.events =~= Seq::<EventView>::empty());
        s
    }

    /// The USB/IP bus id this device is exported under.
    pub fn busid(&self) -> (b: &str)
        ensures
            b@ == self.options().busid@,
    {
        self.opts.busid.as_str()
    }

    /// The unit's options.
    pub fn opts(&self) -> (o: &SimOptions)
        ensures
            *o == self.options(),
    {
        &self.opts
    }

    /// The currently attached persona.
    pub fn current(&self) -> (p: &Persona)
        requires
            self.wf(),
        ensures
            p@ == self@.current,
            p.device() == self.id(),
            p.valid(),
    {
        &self.current
    }

    /// The reboot count. When it changes, the device a transport was serving is
    /// gone.
    pub fn generation(&self) -> (g: u64)
        ensures
            g == self@.generation,
    {
        self.generation
    }

    /// Current firmware version (register 0x10 of the analyzer persona).
    pub fn fw_version(&self) -> (v: u32)
        ensures
            v == self@.fw_version,
    {
        self.fw_version
    }

    /// Whether the device is in a simulated "unplugged" window (the user-replug
    /// pause after a firmware flash). Imports must be refused.
    pub fn is_unplugged(&self) -> (b: bool)
        ensures
            b == self@.unplugged,
    {
        self.unplugged
    }

    /// Whether the next step can be taken.
    pub fn can_advance(&self) -> (b: bool)
        ensures
            b == self@.can_advance(),
    {
        if self.flash_count < u32::MAX {
            return true;
        }
        match self.stage {
            Stage::Idle => {
                if self.events.len() == 0 {
                    return true;
                }
                assert(self@.events[0] == self.events@[0]@);
                match &self.events[0] {
                    SimEvent::FlashCompleted { .. } => false,
                    _ => true,
                }
            },
            _ => true,
        }
    }

    /// Exclusive-attach guard: a USB device can only be plugged into one host.
    /// Returns false if some connection already imported the device.
    pub fn try_import(&mut self) -> (b: bool)
        requires
            old(self).wf(),
        ensures
            final(self).wf(),
            final(self).same_unit(*old(self)),
            final(self).id() == old(self).id(),
            b == old(self)@.grants_import(),
            final(self)@ == old(self)@.after_import(),
    {
        let taken = self.imported;
        self.imported = true;
        !taken
    }

    /// Frees the device for the next import.
    pub fn release_import(&mut self)
        requires
            old(self).wf(),
        ensures
            final(self).wf(),
            final(self).same_unit(*old(self)),
            final(self).id() == old(self).id(),
            final(self)@ == old(self)@.after_release(),
    {
        self.imported = false;
    }

    /// The static summary of the current persona.
    pub fn summary(&self) -> (s: DeviceSummary)
        ensures
            s@ == self.id().summary@,
    {
        self.current.summary()
    }

    /// Queues the events of the current persona.
    fn collect(&mut self)
        requires
            old(self).current.valid(),
            images_fit(event_views(old(self).events@)),
        ensures
            final(self).current.valid(),
            final(self).current@.events().len() == 0,
            images_fit(event_views(final(self).events@)),
            final(self).same_unit(*old(self)),
            final(self).id() == old(self).id(),
            final(self)@ == old(self)@.transferred(old(self)@.current),
    {
        let mut taken = self.current.take_events();
        let ghost all = taken@;
        let ghost before = self.events@;
        let mut rest: VecDeque<SimEvent> = VecDeque::new();
        while taken.len() > 0
            invariant
                taken@ + rest@ =~= all,
            decreases taken@.len(),
        {
            match taken.pop() {
                Some(e) => {
                    rest.push_front(e);
                },
                None => {},
            }
        }
        assert(rest@ =~= all);
        self.events.append(&mut rest);
        assert(event_views(before + all) =~= event_views(before) + event_views(all));
    }

    /// Handles one control transfer.
    pub fn control(&mut self, setup: SetupPacket, data_out: &[u8]) -> (r: Result<Vec<u8>, Stall>)
        requires
            old(self).wf(),
        ensures
            final(self).wf(),
            final(self).same_unit(*old(self)),
            final(self).id() == old(self).id(),
            answer(r) == old(self)@.current.control_answer(old(self).id(), setup),
            final(self)@ == old(self)@.transferred(
                old(self)@.current.after_control(old(self).id(), setup, data_out@),
            ),
    {
        let r = self.current.control(setup, data_out);
        self.collect();
        r
    }

    /// Takes the data of one OUT transfer.
    pub fn out_transfer(&mut self, ep: u8, data: &[u8], m: &Moment) -> (r: Result<usize, Stall>)
        requires
            old(self).wf(),
        ensures
            final(self).wf(),
            final(self).same_unit(*old(self)),
            final(self).id() == old(self).id(),
            r == (if old(self)@.current.accepts(ep) {
                Ok(data@.len() as usize)
            } else {
                Err(Stall)
            }),
            final(self)@ == old(self)@.transferred(
                old(self)@.current.after_out(ep, data@, *m),
            ),
    {
        let r = self.current.out_transfer(ep, data, m);
        self.collect();
        r
    }

    /// What an IN transfer of at most `len` bytes finds now.
    pub fn in_transfer(&mut self, ep: u8, len: usize) -> (r: Result<InStep, Stall>)
        requires
            old(self).wf(),
        ensures
            final(self).wf(),
            final(self).same_unit(*old(self)),
            final(self).id() == old(self).id(),
            step(r) == old(self)@.current.in_step(ep, len),
            final(self)@ == old(self)@.transferred(old(self)@.current.after_in(ep)),
    {
        let r = self.current.in_transfer(ep, len);
        self.collect();
        r
    }

    /// The analyzer persona, while it is the current one, for audio blocks.
    pub fn analyzer(&mut self) -> (a: Option<&mut Analyzer>)
        requires
            old(self).wf(),
        ensures
            match a {
                Some(p) => {
                    &&& old(self)@.current == PersonaView::Analyzer(p@)
                    &&& p.wf()
                    &&& p.id() == old(self).id()
                    &&& final(self).same_unit(*old(self))
                    &&& final(self).id() == final(p).id()
                    &&& final(self)@ == (SimView {
                        current: PersonaView::Analyzer(final(p)@),
                        ..old(self)@
                    })
                    &&& final(p).wf() && final(p).id() == p.id() && final(p)@.events == p@.events
                        ==> final(self).wf()
                },
                None => !(old(self)@.current is Analyzer) && *final(self) == *old(self),
            },
    {
        match &mut self.current {
            Persona::Analyzer(a) => Some(a),
            Persona::Bootloader(_) => None,
        }
    }
}

/// The file name of the `n`-th flashed image.
pub fn saved_file_name(n: u64, image: &[u8]) -> (name: String)
    requires
        image@.len() < 0x2000_0000_0000_0000,
    ensures
        name@ == saved_name(n as nat, image@),
{
    let sha = sha256_hex(image);
    let digits = chars_of(sha.as_str());
    let mut name = String::new();
    name.append("qa40x-flash-");
    push_decimal(&mut name, n);
    name.append("-");
    let ghost start = name@;
    let mut i: usize = 0;
    while i < 8
        invariant
            i <= 8,
            digits@.len() == 64,
            name@ =~= start + digits@.take(i as int),
        decreases 8 - i,
    {
        name.push(digits[i]);
        i += 1;
    }
    name.append(".sb");
    assert(name@ =~= saved_name(n as nat, image@));
    name
}

impl Simulator {
    /// Decides the post-flash firmware version: registry lookup by image sha256
    /// first, then the configured fallback.
    pub fn resolve_flashed_version(&self, image: &[u8]) -> (v: Option<u32>)
        requires
            image@.len() < 0x2000_0000_0000_0000,
        ensures
            v == flashed_version(self.options(), image@),
    {
        if let Some(registry) = &self.opts.registry {
            if let Some(v) = registry.version_of(image) {
                return Some(v);
            }
        }
        self.opts.post_flash_version
    }

    /// Reboots into a persona.
    fn switch(&mut self, persona: Persona)
        ensures
            final(self).current == persona,
            final(self).events == old(self).events,
            final(self).same_unit(*old(self)),
            final(self).opts == old(self).opts,
            final(self)@ == old(self)@.rebooted(persona@),
    {
        self.current = persona;
        self.generation = self.generation.wrapping_add(1);
    }

    /// The next step of the choreography: takes up the oldest event, or goes on
    /// after the wait that the last step asked for. After a flash the unit
    /// settles, is unplugged and plugged back in, as a user would.
    pub fn advance(&mut self) -> (action: SimAction)
        requires
            old(self).wf(),
            old(self)@.can_advance(),
        ensures
            final(self).wf(),
            final(self).same_unit(*old(self)),
            final(self)@ == old(self)@.advanced(old(self).options(), old(self).factory_page()),
            action@ == old(self)@.action(old(self).options()),
    {
        match self.stage {
            Stage::Idle => match self.events.pop_front() {
                Some(event) => {
                    assert(event_views(self.events@) =~= old(self)@.events.skip(1));
                    assert(image_fits(old(self)@.events[0]));
                    assert(images_fit(event_views(self.events@))) by {
                        assert forall|i: int| 0 <= i < self.events@.len() implies image_fits(
                            #[trigger] event_views(self.events@)[i],
                        ) by {
                            assert(image_fits(old(self)@.events[i + 1]));
                        }
                    }
                    match event {
                        SimEvent::EnterBootloader => {
                            self.stage = Stage::Detaching;
                            SimAction::Sleep { millis: DETACH_MS }
                        },
                        SimEvent::FlashCompleted { image } => {
                            let name = saved_file_name(self.flash_count as u64 + 1, &image);
                            if let Some(v) = self.resolve_flashed_version(&image) {
                                self.fw_version = v;
                            }
                            self.flash_count = self.flash_count + 1;
                            self.stage = Stage::Settling;
                            match &self.opts.save_firmware {
                                Some(dir) => SimAction::SaveThenSleep {
                                    saved: SavedImage { dir: dir.clone(), name, image },
                                    millis: SETTLE_MS,
                                },
                                None => SimAction::Sleep { millis: SETTLE_MS },
                            }
                        },
                        SimEvent::BootloaderReset => {
                            self.stage = Stage::Resetting;
                            SimAction::Sleep { millis: RESET_MS }
                        },
                    }
                },
                None => SimAction::AwaitEvent,
            },
            Stage::Detaching => {
                self.stage = Stage::Idle;
                self.switch(Persona::Bootloader(Bootloader::new()));
                SimAction::Proceed
            },
            Stage::Settling => {
                self.stage = Stage::Unplugged;
                self.unplugged = true;
                let a = Analyzer::new(&self.opts, self.fw_version, &self.factory);
                self.switch(Persona::Analyzer(a));
                SimAction::Sleep { millis: UNPLUGGED_MS }
            },
            Stage::Unplugged => {
                self.stage = Stage::Idle;
                self.unplugged = false;
                SimAction::Proceed
            },
            Stage::Resetting => {
                self.stage = Stage::Idle;
                let a = Analyzer::new(&self.opts, self.fw_version, &self.factory);
                self.switch(Persona::Analyzer(a));
                SimAction::Proceed
            },
        }
    }
}

/// A device is attached to one host at a time: once an import was granted no
/// other is, until the device is released.
pub proof fn lemma_exclusive_attach(s: SimView)
    ensures
        !s.after_import().grants_import(),
        s.after_import().after_import() == s.after_import(),
        s.after_import().after_release().grants_import(),
{
}

/// The device a transport serves stays the same exactly as long as the
/// generation does: a step of the choreography either leaves the persona and
/// the generation alone, or reboots and moves the generation on.
pub proof fn lemma_generation(s: SimView, opts: SimOptions, factory: Seq<u8>)
    ensures
        s.advanced(opts, factory).generation == s.generation ==> s.advanced(opts, factory).current
            == s.current,
        (s.advanced(opts, factory).generation != s.generation) == (s.stage == Stage::Detaching
            || s.stage == Stage::Settling || s.stage == Stage::Resetting),
        s.advanced(opts, factory).imported == s.imported,
{
}

/// Entering the bootloader: after the magic the unit detaches once the wait is
/// over, and comes back as a freshly booted bootloader with the same firmware
/// version.
pub proof fn lemma_bootloader_entry(s: SimView, opts: SimOptions, factory: Seq<u8>)
    requires
        s.stage == Stage::Idle,
        s.events.len() > 0,
        s.events[0] == EventView::EnterBootloader,
    ensures
        ({
            let waiting = s.advanced(opts, factory);
            let back = waiting.advanced(opts, factory);
            &&& s.action(opts) == (ActionView::Sleep { millis: DETACH_MS })
            &&& waiting.current == s.current
            &&& back.current == PersonaView::Bootloader(booted())
            &&& back.generation != s.generation
            &&& back.fw_version == s.fw_version
            &&& back.stage == Stage::Idle
            &&& back.events == s.events.skip(1)
        }),
{
}

/// A completed flash: the unit settles in the bootloader, is unplugged for a
/// while, and comes back as an analyzer whose register 0x10 reads the version
/// that the image was resolved to, or the former one when it was not.
pub proof fn lemma_flash_lifecycle(
    s: SimView,
    opts: SimOptions,
    factory: Seq<u8>,
    image: Seq<u8>,
    m: Moment,
)
    requires
        s.stage == Stage::Idle,
        !s.unplugged,
        s.events.len() > 0,
        s.events[0] == (EventView::FlashCompleted { image }),
        s.flash_count < u32::MAX,
    ensures
        ({
            let settling = s.advanced(opts, factory);
            let unplugged = settling.advanced(opts, factory);
            let replugged = unplugged.advanced(opts, factory);
            let version = match flashed_version(opts, image) {
                Some(v) => v,
                None => s.fw_version,
            };
            &&& settling.current == s.current
            &&& !settling.unplugged
            &&& settling.flash_count == s.flash_count + 1
            &&& unplugged.unplugged
            &&& unplugged.generation != s.generation
            &&& settling.action(opts) == (ActionView::Sleep { millis: UNPLUGGED_MS })
            &&& !replugged.unplugged
            &&& replugged.stage == Stage::Idle
            &&& replugged.generation == unplugged.generation
            &&& replugged.fw_version == version
            &&& replugged.current matches PersonaView::Analyzer(a)
            &&& a == powered_on(opts, version, factory)
            &&& a.value(FIRMWARE_VERSION, m) == version
        }),
{
}

/// A reset command reboots into the analyzer without touching the version.
pub proof fn lemma_reset_lifecycle(s: SimView, opts: SimOptions, factory: Seq<u8>)
    requires
        s.stage == Stage::Idle,
        s.events.len() > 0,
        s.events[0] == EventView::BootloaderReset,
    ensures
        ({
            let back = s.advanced(opts, factory).advanced(opts, factory);
            &&& s.action(opts) == (ActionView::Sleep { millis: RESET_MS })
            &&& back.current == PersonaView::Analyzer(powered_on(opts, s.fw_version, factory))
            &&& back.fw_version == s.fw_version
            &&& back.generation != s.generation
            &&& back.stage == Stage::Idle
        }),
{
}

/// A register transfer queues a bootloader entry exactly when it completes the
/// first pair of magics, also where the first of them came in an earlier
/// transfer. Otherwise it queues nothing.
pub proof fn lemma_magic_transfer(s: SimView, a: AnalyzerView, data: Seq<u8>, m: Moment)
    requires
        s.current == PersonaView::Analyzer(a),
        a.wf(),
        a.events.len() == 0,
    ensures
        ({
            let frames = bus_frames(data, data.len() / 5, m);
            s.transferred(s.current.after_out(0x01, data, m)).events == (if !a.rebooting
                && has_pair(a.unlock_values(frames)) {
                s.events.push(EventView::EnterBootloader)
            } else {
                s.events
            })
        }),
{
    let n = data.len() / 5;
    let frames = bus_frames(data, n, m);
    lemma_transfer_is_frames(a, data, n, m);
    lemma_bootloader_unlock(a, frames);
    let sent = a.after_bus(frames).events;
    if !a.rebooting && has_pair(a.unlock_values(frames)) {
        assert(sent =~= seq![EventView::EnterBootloader]);
        assert(s.events + sent =~= s.events.push(EventView::EnterBootloader));
    } else {
        assert(s.events + sent =~= s.events);
    }
}

/// The data report that completes an announced SB2.1 image queues exactly one
/// flash of that image; until then, and for any other image, nothing is queued.
pub proof fn lemma_flash_transfer(
    s: SimView,
    b: BootloaderView,
    ep: u8,
    payload: Seq<u8>,
    pad: Seq<u8>,
    expected: nat,
    received: Seq<u8>,
    m: Moment,
)
    requires
        s.current == PersonaView::Bootloader(b),
        b.events.len() == 0,
        b.phase == (PhaseView::Receiving { expected, image: received }),
        payload.len() <= u16::MAX,
    ensures
        ({
            let all = received + payload;
            let image = all.take(expected as int);
            let after = s.transferred(
                s.current.after_out(ep, out_report(REPORT_DATA_OUT, payload, pad), m),
            );
            after.events == (if all.len() >= expected && looks_sb2(image) {
                s.events.push(EventView::FlashCompleted { image })
            } else {
                s.events
            })
        }),
{
    lemma_out_report(b, payload, pad);
    let image = (received + payload).take(expected as int);
    let after = b.after_data(payload);
    if (received + payload).len() >= expected && looks_sb2(image) {
        assert(after.events =~= seq![EventView::FlashCompleted { image }]);
        assert(s.events + after.events =~= s.events.push(EventView::FlashCompleted { image }));
    } else {
        assert(s.events + after.events =~= s.events);
    }
}

} // verus!
