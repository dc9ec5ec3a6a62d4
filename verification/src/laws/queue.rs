//! The queue of an IN endpoint.

use crate::backend::Stall;
use crate::inqueue::{withdrawn_first, InJob, InQueue};
use crate::server::Pending;
use vstd::prelude::*;

verus! {

/// What stands before the first pending job is not pending.
proof fn lemma_first_pending(jobs: Seq<InJob>, pending: Set<u32>, i: int)
    ensures
        ({
            let k = withdrawn_first(jobs, pending) as int;
            &&& k <= jobs.len()
            &&& k < jobs.len() ==> pending.contains(jobs[k].seqnum)
            &&& 0 <= i < k ==> !pending.contains(jobs[i].seqnum)
        }),
    decreases jobs.len(),
{
    if jobs.len() > 0 && !pending.contains(jobs[0].seqnum) {
        lemma_first_pending(jobs.drop_first(), pending, i - 1);
    }
}

/// A queue starts empty; what is submitted waits behind the others.
pub proof fn law_submit(q: InQueue, p: &mut InQueue, job: InJob)
    requires
        call_ensures(InQueue::new, (), q),
        call_ensures(InQueue::push, (p, job), ()),
    ensures
        q@.active is None,
        q@.waiting.len() == 0,
        final(p)@.active == old(p)@.active,
        final(p)@.waiting == old(p)@.waiting.push(job),
{
}

/// One transfer is in hand at a time. With none in hand, the oldest one that is
/// still pending is taken; those before it were unlinked and are gone, those
/// behind it keep their order. Without a pending one the queue is left empty.
pub proof fn law_start(q: &mut InQueue, pending: &Pending, job: Option<InJob>, i: int)
    requires
        call_ensures(InQueue::start, (q, pending), job),
    ensures
        old(q)@.active is Some ==> job is None && final(q)@ == old(q)@,
        old(q)@.active is None ==> {
            let left = final(q)@.waiting;
            let k = old(q)@.waiting.len() - left.len() - 1;
            match job {
                Some(j) => {
                    &&& 0 <= k < old(q)@.waiting.len()
                    &&& j == old(q)@.waiting[k]
                    &&& pending@.contains(j.seqnum)
                    &&& left == old(q)@.waiting.skip(k + 1)
                    &&& final(q)@.active == Some(j)
                    &&& 0 <= i < k ==> !pending@.contains(old(q)@.waiting[i].seqnum)
                },
                None => {
                    &&& left.len() == 0
                    &&& final(q)@.active is None
                    &&& 0 <= i < old(q)@.waiting.len() ==> !pending@.contains(
                        old(q)@.waiting[i].seqnum,
                    )
                },
            }
        },
{
    lemma_first_pending(old(q)@.waiting, pending@, i);
}

/// Finishing completes the transfer in hand; without one nothing is sent.
/// Either way, and after letting go of it, none is in hand and the others wait
/// as before.
pub proof fn law_finish(
    q: &mut InQueue,
    pending: &mut Pending,
    result: Result<Vec<u8>, Stall>,
    r: Option<Vec<u8>>,
    direct: &mut Pending,
    job: InJob,
    completed: Option<Vec<u8>>,
    c: &mut InQueue,
)
    requires
        call_ensures(InQueue::finish, (q, pending, result), r),
        *old(direct) == *old(pending),
        call_ensures(Pending::complete, (direct, job.seqnum, job.len, result), completed),
        call_ensures(InQueue::cancel, (c,), ()),
    ensures
        final(q)@.active is None,
        final(q)@.waiting == old(q)@.waiting,
        old(q)@.active is None ==> r is None && final(pending)@ == old(pending)@,
        old(q)@.active == Some(job) ==> {
            &&& (r is Some) == (completed is Some)
            &&& r is Some ==> r->0@ == completed->0@
            &&& final(pending)@ == final(direct)@
        },
        final(c)@.active is None,
        final(c)@.waiting == old(c)@.waiting,
{
}

} // verus!
