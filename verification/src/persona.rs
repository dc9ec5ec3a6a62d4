//! The persona a unit currently shows on the bus: analyzer or bootloader.

use crate::analyzer::{Analyzer, AnalyzerView, EP_AUDIO, EP_REGISTERS};
use crate::backend::{
    answer, step, DeviceSummary, InStep, InView, Moment, SetupPacket, Stall, UsbBackend,
};
use crate::bootloader::{Bootloader, BootloaderView};
use crate::identity::Identity;
use crate::sim::{event_views, images_fit, EventView, SimEvent};
use vstd::prelude::*;

verus! {

/// What a unit shows on the bus.
#[derive(Debug)]
pub enum Persona {
    Analyzer(Analyzer),
    Bootloader(Bootloader),
}

/// The contents of a [`Persona`], apart from its USB identity.
pub enum PersonaView {
    Analyzer(AnalyzerView),
    Bootloader(BootloaderView),
}

impl View for Persona {
    type V = PersonaView;

    open spec fn view(&self) -> PersonaView {
        match self {
            Persona::Analyzer(a) => PersonaView::Analyzer(a@),
            Persona::Bootloader(b) => PersonaView::Bootloader(b@),
        }
    }
}

impl PersonaView {
    /// The events that were not collected yet.
    pub open spec fn events(self) -> Seq<EventView> {
        match self {
            PersonaView::Analyzer(a) => a.events,
            PersonaView::Bootloader(b) => b.events,
        }
    }

    /// The state with the events collected.
    pub open spec fn collected(self) -> PersonaView {
        match self {
            PersonaView::Analyzer(a) => PersonaView::Analyzer(
                AnalyzerView { events: Seq::empty(), ..a },
            ),
            PersonaView::Bootloader(b) => PersonaView::Bootloader(
                BootloaderView { events: Seq::empty(), ..b },
            ),
        }
    }

    /// The answer to a control request no standard answer covers.
    pub open spec fn own_answer(self, id: Identity, setup: SetupPacket) -> Result<Seq<u8>, Stall> {
        match self {
            PersonaView::Analyzer(_) => match id.vendor_answer(setup) {
                Some(a) => a,
                None => Err(Stall),
            },
            PersonaView::Bootloader(b) => b.class_answer(setup),
        }
    }

    /// The answer to a control request.
    pub open spec fn control_answer(self, id: Identity, setup: SetupPacket) -> Result<
        Seq<u8>,
        Stall,
    > {
        match id.standard_answer(setup) {
            Some(a) => a,
            None => self.own_answer(id, setup),
        }
    }

    /// The state after a control request.
    pub open spec fn after_control(
        self,
        id: Identity,
        setup: SetupPacket,
        data_out: Seq<u8>,
    ) -> PersonaView {
        match self {
            PersonaView::Analyzer(a) => PersonaView::Analyzer(a),
            PersonaView::Bootloader(b) => PersonaView::Bootloader(
                match id.standard_answer(setup) {
                    Some(_) => b,
                    None => b.after_class(setup, data_out),
                },
            ),
        }
    }

    /// Whether an OUT transfer is accepted.
    pub open spec fn accepts(self, ep: u8) -> bool {
        self is Bootloader || ep % 0x80 == EP_REGISTERS || ep % 0x80 == EP_AUDIO
    }

    /// The state after an OUT transfer.
    pub open spec fn after_out(self, ep: u8, data: Seq<u8>, m: Moment) -> PersonaView {
        match self {
            PersonaView::Analyzer(a) => PersonaView::Analyzer(a.after_out(ep % 0x80, data, m)),
            PersonaView::Bootloader(b) => PersonaView::Bootloader(b.after_report(data)),
        }
    }

    /// What an IN transfer finds.
    pub open spec fn in_step(self, ep: u8, len: usize) -> Result<InView, Stall> {
        match self {
            PersonaView::Analyzer(a) => a.in_step(ep % 0x80, len),
            PersonaView::Bootloader(b) => Ok(b.in_step(len)),
        }
    }

    /// The state after that IN transfer.
    pub open spec fn after_in(self, ep: u8) -> PersonaView {
        match self {
            PersonaView::Analyzer(a) => PersonaView::Analyzer(a.after_in(ep % 0x80)),
            PersonaView::Bootloader(b) => PersonaView::Bootloader(b.after_response()),
        }
    }
}

impl UsbBackend for Persona {
    open spec fn valid(&self) -> bool {
        match self {
            Persona::Analyzer(a) => a.wf(),
            Persona::Bootloader(b) => b.wf(),
        }
    }

    open spec fn device(&self) -> Identity {
        match self {
            Persona::Analyzer(a) => a.id(),
            Persona::Bootloader(b) => b.id(),
        }
    }

    open spec fn pending_events(&self) -> Seq<EventView> {
        self@.events()
    }

    fn summary(&self) -> (s: DeviceSummary) {
        match self {
            Persona::Analyzer(a) => a.summary(),
            Persona::Bootloader(b) => b.summary(),
        }
    }

    fn control(&mut self, setup: SetupPacket, data_out: &[u8]) -> (r: Result<Vec<u8>, Stall>)
        ensures
            answer(r) == old(self)@.control_answer(old(self).device(), setup),
            final(self)@ == old(self)@.after_control(old(self).device(), setup, data_out@),
    {
        match self {
            Persona::Analyzer(a) => a.control(setup, data_out),
            Persona::Bootloader(b) => b.control(setup, data_out),
        }
    }

    fn out_transfer(&mut self, ep: u8, data: &[u8], m: &Moment) -> (r: Result<usize, Stall>)
        ensures
            r == (if old(self)@.accepts(ep) {
                Ok(data@.len() as usize)
            } else {
                Err(Stall)
            }),
            final(self)@ == old(self)@.after_out(ep, data@, *m),
    {
        match self {
            Persona::Analyzer(a) => a.out_transfer(ep, data, m),
            Persona::Bootloader(b) => b.out_transfer(ep, data, m),
        }
    }

    fn in_transfer(&mut self, ep: u8, len: usize) -> (r: Result<InStep, Stall>)
        ensures
            step(r) == old(self)@.in_step(ep, len),
            final(self)@ == old(self)@.after_in(ep),
    {
        match self {
            Persona::Analyzer(a) => a.in_transfer(ep, len),
            Persona::Bootloader(b) => b.in_transfer(ep, len),
        }
    }

    fn take_events(&mut self) -> (events: Vec<SimEvent>)
        ensures
            images_fit(event_views(events@)),
            final(self)@ == old(self)@.collected(),
    {
        match self {
            Persona::Analyzer(a) => a.take_events(),
            Persona::Bootloader(b) => b.take_events(),
        }
    }
}

/// Requests whose data stage goes host to device are answered with nothing
/// but their status, and take no response off the bootloader's queue.
pub proof fn lemma_out_control_is_empty(
    p: PersonaView,
    id: Identity,
    setup: SetupPacket,
    data_out: Seq<u8>,
)
    requires
        !setup.device_to_host(),
    ensures
        p.control_answer(id, setup) matches Ok(data) ==> data.len() == 0,
        p matches PersonaView::Bootloader(b) ==> {
            &&& p.after_control(id, setup, data_out) matches PersonaView::Bootloader(after)
            &&& b.responses.is_prefix_of(after.responses)
        },
{
    if let PersonaView::Bootloader(b) = p {
        let after = b.after_report(data_out);
        assert(b.responses.is_prefix_of(after.responses));
        assert(b.responses.is_prefix_of(b.responses));
    }
}

} // verus!
