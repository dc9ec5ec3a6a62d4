//! The IN transfers of one endpoint: one in hand at a time, in the order of
//! their submission, without those that were unlinked.

use crate::backend::{answer, Stall};
use crate::server::{completion, in_reply_bytes, packet, Pending};
use std::collections::VecDeque;
use vstd::prelude::*;

verus! {

/// A blocking IN transfer handed to its endpoint's queue.
#[derive(Debug, Clone, Copy)]
pub struct InJob {
    pub seqnum: u32,
    pub ep: u8,
    pub len: usize,
}

/// The contents of an [`InQueue`].
pub struct InQueueView {
    /// The transfer in hand.
    pub active: Option<InJob>,
    /// Those behind it, oldest first.
    pub waiting: Seq<InJob>,
}

/// An endpoint that nothing was submitted to.
pub open spec fn idle_queue() -> InQueueView {
    InQueueView { active: None, waiting: Seq::empty() }
}

/// How many jobs stand before the first one that is still pending.
pub open spec fn withdrawn_first(jobs: Seq<InJob>, pending: Set<u32>) -> nat
    decreases jobs.len(),
{
    if jobs.len() == 0 || pending.contains(jobs[0].seqnum) {
        0
    } else {
        1 + withdrawn_first(jobs.drop_first(), pending)
    }
}

impl InQueueView {
    /// The queue with a job behind the others.
    pub open spec fn pushed(self, job: InJob) -> InQueueView {
        InQueueView { waiting: self.waiting.push(job), ..self }
    }

    /// The queue after the oldest pending job was taken in hand, if none was in
    /// hand yet. Jobs before it were unlinked and are gone.
    pub open spec fn started(self, pending: Set<u32>) -> InQueueView {
        let k = withdrawn_first(self.waiting, pending) as int;
        if self.active is Some {
            self
        } else if k < self.waiting.len() {
            InQueueView { active: Some(self.waiting[k]), waiting: self.waiting.skip(k + 1) }
        } else {
            idle_queue()
        }
    }

    /// The queue with nothing in hand.
    pub open spec fn finished(self) -> InQueueView {
        InQueueView { active: None, ..self }
    }

    /// What finishing the transfer in hand with this result sends.
    pub open spec fn reply(self, pending: Set<u32>, result: Result<Seq<u8>, Stall>) -> Option<
        Seq<u8>,
    > {
        match self.active {
            Some(job) => completion(pending, job.seqnum, job.len as nat, result),
            None => None,
        }
    }

    /// The pending transfers after the one in hand has finished.
    pub open spec fn settled(self, pending: Set<u32>) -> Set<u32> {
        match self.active {
            Some(job) => pending.remove(job.seqnum),
            None => pending,
        }
    }

    /// What is in hand and behind it.
    pub open spec fn all(self) -> Seq<InJob> {
        match self.active {
            Some(job) => seq![job] + self.waiting,
            None => self.waiting,
        }
    }
}

/// The queue of one IN endpoint of a connection. It keeps completions in the
/// order of submission while an unlink can withdraw any of them.
#[derive(Debug)]
pub struct InQueue {
    active: Option<InJob>,
    waiting: VecDeque<InJob>,
}

impl View for InQueue {
    type V = InQueueView;

    closed spec fn view(&self) -> InQueueView {
        InQueueView { active: self.active, waiting: self.waiting@ }
    }
}

impl InQueue {
    /// An endpoint that nothing was submitted to.
    pub fn new() -> (q: Self)
        ensures
            q@ == idle_queue(),
    {
        InQueue { active: None, waiting: VecDeque::new() }
    }

    /// Queues a submitted transfer.
    pub fn push(&mut self, job: InJob)
        ensures
            final(self)@ == old(self)@.pushed(job),
    {
        self.waiting.push_back(job);
    }

    /// Takes the oldest transfer that is still pending in hand, if none is in
    /// hand yet.
    pub fn start(&mut self, pending: &Pending) -> (job: Option<InJob>)
        ensures
            final(self)@ == old(self)@.started(pending@),
            job == (if old(self)@.active is None {
                final(self)@.active
            } else {
                None
            }),
    {
        if self.active.is_some() {
            return None;
        }
        let ghost before = self.waiting@;
        let ghost mut k: int = 0;
        while self.waiting.len() > 0
            invariant
                0 <= k <= before.len(),
                self.active is None,
                self.waiting@ == before.skip(k),
                withdrawn_first(before, pending@) == k + withdrawn_first(
                    before.skip(k),
                    pending@,
                ),
                old(self)@.active is None,
                before == old(self)@.waiting,
            decreases self.waiting@.len(),
        {
            if let Some(job) = self.waiting.pop_front() {
                assert(before.skip(k).drop_first() =~= before.skip(k + 1));
                if pending.contains(job.seqnum) {
                    self.active = Some(job);
                    return Some(job);
                }
                proof {
                    k = k + 1;
                }
            }
        }
        assert(self.waiting@ =~= Seq::<InJob>::empty());
        None
    }

    /// Finishes the transfer in hand: its reply, unless it was unlinked.
    pub fn finish(&mut self, pending: &mut Pending, result: Result<Vec<u8>, Stall>) -> (r: Option<
        Vec<u8>,
    >)
        ensures
            final(self)@ == old(self)@.finished(),
            final(pending)@ == old(self)@.settled(old(pending)@),
            packet(r) == old(self)@.reply(old(pending)@, answer(result)),
    {
        match self.active {
            Some(job) => {
                self.active = None;
                pending.complete(job.seqnum, job.len, result)
            },
            None => None,
        }
    }

    /// Lets go of the transfer in hand, which was unlinked: nothing is sent.
    pub fn cancel(&mut self)
        ensures
            final(self)@ == old(self)@.finished(),
    {
        self.active = None;
    }
}

/// What happens to the IN transfers of an endpoint.
pub enum InEvent {
    /// A transfer is submitted to it.
    Submit(InJob),
    /// The worker looks for the next transfer.
    Start,
    /// The transfer in hand comes back from the device.
    Finish(Result<Seq<u8>, Stall>),
    /// The worker lets go of the transfer in hand.
    Cancel,
    /// The client unlinks a transfer, of this endpoint or another.
    Unlink(u32),
    /// A transfer of another endpoint becomes pending or is completed.
    Elsewhere { seqnum: u32, submitted: bool },
}

/// A connection as one of its IN endpoints sees it. Transfers are told apart by
/// their place among those submitted to the endpoint.
pub struct InRun {
    /// The transfers submitted to the endpoint, oldest first.
    pub jobs: Seq<InJob>,
    pub queue: InQueueView,
    pub pending: Set<u32>,
    /// The packets the endpoint has sent, which transfer each is the reply to,
    /// and with what the device answered that transfer.
    pub sent: Seq<Seq<u8>>,
    pub answered: Seq<int>,
    pub results: Seq<Result<Seq<u8>, Stall>>,
    /// The transfers whose unlink found them in the queue and pending.
    pub unlinked: Set<int>,
}

impl InRun {
    /// The place of the oldest transfer that is still in the queue.
    pub open spec fn front(self) -> int {
        self.jobs.len() - self.queue.all().len()
    }

    /// Whether a transfer is in the queue.
    pub open spec fn queued(self, p: int) -> bool {
        self.front() <= p < self.jobs.len()
    }

    /// Whether a transfer is in the queue and pending.
    pub open spec fn due(self, p: int) -> bool {
        self.queued(p) && self.pending.contains(self.jobs[p].seqnum)
    }

    /// Whether a transfer in the queue carries this sequence number.
    pub open spec fn carries(self, seqnum: u32) -> bool {
        exists|p: int| self.queued(p) && #[trigger] self.jobs[p].seqnum == seqnum
    }

    /// The run after one event.
    pub open spec fn after_event(self, e: InEvent) -> InRun {
        match e {
            InEvent::Submit(job) => InRun {
                jobs: self.jobs.push(job),
                queue: self.queue.pushed(job),
                pending: self.pending.insert(job.seqnum),
                ..self
            },
            InEvent::Start => InRun { queue: self.queue.started(self.pending), ..self },
            InEvent::Finish(result) => match self.queue.reply(self.pending, result) {
                Some(pkt) => InRun {
                    queue: self.queue.finished(),
                    pending: self.queue.settled(self.pending),
                    sent: self.sent.push(pkt),
                    answered: self.answered.push(self.front()),
                    results: self.results.push(result),
                    ..self
                },
                None => InRun {
                    queue: self.queue.finished(),
                    pending: self.queue.settled(self.pending),
                    ..self
                },
            },
            InEvent::Cancel => InRun { queue: self.queue.finished(), ..self },
            InEvent::Unlink(victim) => InRun {
                pending: self.pending.remove(victim),
                unlinked: self.unlinked.union(
                    Set::new(|p: int| self.due(p) && self.jobs[p].seqnum == victim),
                ),
                ..self
            },
            InEvent::Elsewhere { seqnum, submitted } => InRun {
                pending: if submitted {
                    self.pending.insert(seqnum)
                } else {
                    self.pending.remove(seqnum)
                },
                ..self
            },
        }
    }

    /// Whether an event is one of a client that does not give a transfer the
    /// number of one that is still in the queue, and of a worker that lets go
    /// only of what was unlinked.
    pub open spec fn orderly_event(self, e: InEvent) -> bool {
        match e {
            InEvent::Submit(job) => !self.carries(job.seqnum),
            InEvent::Elsewhere { seqnum, .. } => !self.carries(seqnum),
            InEvent::Cancel => self.queue.active matches Some(job) ==> !self.pending.contains(
                job.seqnum,
            ),
            _ => true,
        }
    }
}

/// A connection after some events, seen from an endpoint.
pub open spec fn in_run(events: Seq<InEvent>) -> InRun
    decreases events.len(),
{
    if events.len() == 0 {
        InRun {
            jobs: Seq::empty(),
            queue: idle_queue(),
            pending: Set::empty(),
            sent: Seq::empty(),
            answered: Seq::empty(),
            results: Seq::empty(),
            unlinked: Set::empty(),
        }
    } else {
        in_run(events.drop_last()).after_event(events.last())
    }
}

/// Whether all events are orderly. A sequence number may come again once its
/// transfer is completed, or unlinked and out of the queue.
pub open spec fn orderly(events: Seq<InEvent>) -> bool
    decreases events.len(),
{
    events.len() == 0 || {
        &&& orderly(events.drop_last())
        &&& in_run(events.drop_last()).orderly_event(events.last())
    }
}

/// What stands before the first pending job is not pending.
proof fn lemma_withdrawn_first(jobs: Seq<InJob>, pending: Set<u32>)
    ensures
        ({
            let k = withdrawn_first(jobs, pending) as int;
            &&& k <= jobs.len()
            &&& k < jobs.len() ==> pending.contains(jobs[k].seqnum)
            &&& forall|i: int| 0 <= i < k ==> !pending.contains(#[trigger] jobs[i].seqnum)
        }),
    decreases jobs.len(),
{
    let k = withdrawn_first(jobs, pending) as int;
    if k > 0 {
        let rest = jobs.drop_first();
        lemma_withdrawn_first(rest, pending);
        assert forall|i: int| 0 <= i < k implies !pending.contains(#[trigger] jobs[i].seqnum) by {
            if i > 0 {
                assert(jobs[i] == rest[i - 1]);
            }
        }
        if k < jobs.len() {
            assert(jobs[k] == rest[k - 1]);
        }
    }
}

/// Starting leaves the end of what was there, and drops nothing that is
/// pending.
proof fn lemma_started_all(q: InQueueView, pending: Set<u32>)
    ensures
        ({
            let d = q.all().len() - q.started(pending).all().len();
            &&& 0 <= d
            &&& q.started(pending).all() == q.all().skip(d)
            &&& forall|i: int| 0 <= i < d ==> !pending.contains(#[trigger] q.all()[i].seqnum)
        }),
{
    lemma_withdrawn_first(q.waiting, pending);
    let k = withdrawn_first(q.waiting, pending) as int;
    if q.active is None {
        assert(q.started(pending).all() =~= q.waiting.skip(k));
    } else {
        assert(q.all().skip(0) =~= q.all());
    }
}

/// What is in the queue is the end of what was submitted.
proof fn lemma_queue_is_the_end(events: Seq<InEvent>)
    ensures
        in_run(events).front() >= 0,
        in_run(events).queue.all() == in_run(events).jobs.skip(in_run(events).front()),
    decreases events.len(),
{
    let n = in_run(events);
    if events.len() > 0 {
        let r = in_run(events.drop_last());
        lemma_queue_is_the_end(events.drop_last());
        match events.last() {
            InEvent::Submit(job) => {
                assert(n.queue.all() =~= r.queue.all().push(job));
            },
            InEvent::Start => {
                lemma_started_all(r.queue, r.pending);
            },
            InEvent::Finish(_) | InEvent::Cancel => {
                if r.queue.active is Some {
                    assert(n.queue.all() =~= r.queue.all().skip(1));
                }
            },
            _ => {},
        }
    }
    assert(n.queue.all() =~= n.jobs.skip(n.front()));
}

/// An endpoint answers its transfers one at a time and in the order in which
/// they were submitted, each at most once: the replies go to ever later
/// transfers, none of which is still in the queue, and each packet is the
/// reply to its transfer with what the device answered. This holds whatever
/// sequence numbers the client uses.
pub proof fn lemma_answers_in_order(events: Seq<InEvent>)
    ensures
        ({
            let r = in_run(events);
            &&& r.sent.len() == r.answered.len() == r.results.len()
            &&& forall|i: int, j: int|
                0 <= i < j < r.answered.len() ==> #[trigger] r.answered[i]
                    < #[trigger] r.answered[j]
            &&& forall|i: int|
                0 <= i < r.answered.len() ==> 0 <= #[trigger] r.answered[i] < r.front()
            &&& forall|i: int|
                0 <= i < r.sent.len() ==> #[trigger] r.sent[i] == in_reply_bytes(
                    r.jobs[r.answered[i]].seqnum,
                    r.jobs[r.answered[i]].len as nat,
                    r.results[i],
                )
        }),
    decreases events.len(),
{
    if events.len() > 0 {
        let r = in_run(events.drop_last());
        lemma_answers_in_order(events.drop_last());
        lemma_queue_is_the_end(events.drop_last());
        match events.last() {
            InEvent::Start => {
                lemma_started_all(r.queue, r.pending);
            },
            InEvent::Finish(_) => {
                if r.queue.active is Some {
                    assert(r.queue.all()[0] == r.queue.active->0);
                }
            },
            _ => {},
        }
    }
}

/// The transfers in the queue of an orderly connection have different numbers.
proof fn lemma_queue_distinct(events: Seq<InEvent>)
    requires
        orderly(events),
    ensures
        ({
            let r = in_run(events);
            forall|p: int, q: int|
                r.front() <= p < q < r.jobs.len() ==> #[trigger] r.jobs[p].seqnum
                    != #[trigger] r.jobs[q].seqnum
        }),
    decreases events.len(),
{
    if events.len() > 0 {
        let r = in_run(events.drop_last());
        lemma_queue_distinct(events.drop_last());
        lemma_queue_is_the_end(events.drop_last());
        lemma_queue_is_the_end(events);
        lemma_started_all(r.queue, r.pending);
    }
}

/// Only submitted transfers are unlinked.
proof fn lemma_unlinked_submitted(events: Seq<InEvent>, p: int)
    requires
        in_run(events).unlinked.contains(p),
    ensures
        0 <= p < in_run(events).jobs.len(),
    decreases events.len(),
{
    if events.len() > 0 {
        let before = events.drop_last();
        lemma_queue_is_the_end(before);
        if in_run(before).unlinked.contains(p) {
            lemma_unlinked_submitted(before, p);
        }
    }
}

/// Every transfer submitted to an endpoint gets exactly one outcome: it is
/// answered with one packet, or it is unlinked while pending and gets none, or
/// it is still in the queue and pending. A sequence number may be used again
/// as soon as no transfer in the queue carries it.
pub proof fn lemma_one_outcome(events: Seq<InEvent>, p: int)
    requires
        orderly(events),
        0 <= p < in_run(events).jobs.len(),
    ensures
        ({
            let r = in_run(events);
            &&& r.answered.contains(p) || r.unlinked.contains(p) || r.due(p)
            &&& !(r.answered.contains(p) && r.unlinked.contains(p))
            &&& !(r.answered.contains(p) && r.due(p))
            &&& !(r.unlinked.contains(p) && r.due(p))
        }),
    decreases events.len(),
{
    let before = events.drop_last();
    let (r, n) = (in_run(before), in_run(events));
    lemma_answers_in_order(before);
    lemma_answers_in_order(events);
    lemma_queue_is_the_end(before);
    lemma_queue_is_the_end(events);
    lemma_queue_distinct(before);
    if p < r.jobs.len() {
        lemma_one_outcome(before, p);
        assert(n.jobs[p] == r.jobs[p]);
        match events.last() {
            InEvent::Start => {
                lemma_started_all(r.queue, r.pending);
                if r.due(p) {
                    assert(r.queue.all()[p - r.front()] == r.jobs[p]);
                }
            },
            InEvent::Finish(result) => {
                if r.queue.active is Some {
                    assert(r.queue.all()[0] == r.queue.active->0);
                    assert(r.jobs[r.front()] == r.queue.active->0);
                    if r.queue.reply(r.pending, result) is Some {
                        assert(n.answered.last() == r.front());
                        assert forall|q: int| n.answered.contains(q) == (r.answered.contains(q)
                            || q == r.front()) by {
                            if r.answered.contains(q) {
                                let i = choose|i: int|
                                    0 <= i < r.answered.len() && r.answered[i] == q;
                                assert(n.answered[i] == q);
                            }
                            if q == r.front() {
                                assert(n.answered[n.answered.len() - 1] == q);
                            }
                        }
                    }
                }
            },
            InEvent::Cancel => {
                if r.queue.active is Some {
                    assert(r.queue.all()[0] == r.queue.active->0);
                    assert(r.jobs[r.front()] == r.queue.active->0);
                }
            },
            _ => {},
        }
    } else {
        if r.unlinked.contains(p) {
            lemma_unlinked_submitted(before, p);
        }
    }
}

/// Once an endpoint has nothing left, it has answered exactly the transfers
/// that were not unlinked while pending.
pub proof fn lemma_drained_endpoint(events: Seq<InEvent>, p: int)
    requires
        orderly(events),
        in_run(events).queue == idle_queue(),
        0 <= p < in_run(events).jobs.len(),
    ensures
        in_run(events).answered.contains(p) != in_run(events).unlinked.contains(p),
{
    lemma_one_outcome(events, p);
}

} // verus!
