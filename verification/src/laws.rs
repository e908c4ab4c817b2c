//! Cross-cutting laws of the commit core, stated over the same spec
//! functions the components' contracts use.

use vstd::prelude::*;
use vstd::seq_lib::group_filter_ensures;
use crate::types::{ActiveSpace, OutputId, PendingCapture, WorkspaceHandle};
use crate::shell::SurfaceEntry;
use crate::dispatch::{configured, tracker_sends};
use crate::screencopy::{goes_to_batch, goes_to_deferred, stays_queued};

verus! {

/// The initial configure of a surface is sent at most once over its
/// lifetime: after any ensure-initial-configure transition the flag
/// stands, a later call sends nothing, and repeating the transition
/// changes the entry no further.
pub proof fn lemma_initial_configure_at_most_once(e: SurfaceEntry)
    ensures
        !tracker_sends(configured(e)),
        configured(configured(e)) == configured(e),
        configured(e).initial_configure_sent,
{
}

/// A `NoDamage` outcome is idempotent for the pending queue: removing a
/// pending pair for a render attempt and requeueing the same pair on
/// no-damage keeps the queue's size and its contents; the entry merely
/// moves to the back.
pub proof fn lemma_no_damage_requeue_stable(q: Seq<PendingCapture>, i: int)
    requires
        0 <= i < q.len(),
    ensures
        q.remove(i).push(q[i]).len() == q.len(),
        q.remove(i).push(q[i]).to_multiset() == q.to_multiset(),
{
    broadcast use vstd::seq_lib::group_to_multiset_ensures;

    let m = q.to_multiset();
    let e = q[i];
    assert(q.contains(e));
    assert(m.count(e) > 0);
    assert(q.remove(i).to_multiset() =~= m.remove(e));
    assert(q.remove(i).push(e).to_multiset() =~= q.remove(i).to_multiset().insert(e));
    assert(m.remove(e).insert(e) =~= m) by {
        assert forall|x: PendingCapture| #[trigger]
            m.remove(e).insert(e).count(x) == m.count(x) by {
            if x == e {
                assert(m.remove(e).count(e) == m.count(e) - 1);
            }
        }
    }
}

/// Where one workspace-scope scan sends each entry of the scanned
/// queue: into the frame batch iff its `(output, workspace)` target is
/// an active space; removed for a deferred offscreen render iff, while
/// inactive, the target is exactly the scanned `(output, handle)` pair;
/// kept queued otherwise.
pub proof fn lemma_partition_destination(
    queue: Seq<PendingCapture>,
    active: Seq<ActiveSpace>,
    output: OutputId,
    handle: WorkspaceHandle,
    e: PendingCapture,
)
    requires
        queue.contains(e),
    ensures
        queue.filter(|x: PendingCapture| goes_to_batch(x, active)).contains(e) <==> goes_to_batch(
            e,
            active,
        ),
        queue.filter(|x: PendingCapture| goes_to_deferred(x, active, output, handle)).contains(e)
            <==> goes_to_deferred(e, active, output, handle),
        queue.filter(|x: PendingCapture| stays_queued(x, active, output, handle)).contains(e)
            <==> stays_queued(e, active, output, handle),
{
    broadcast use group_filter_ensures;

    let i = choose|i: int| 0 <= i < queue.len() && queue[i] == e;
    assert(queue[i] == e);
    let batch_pred = |x: PendingCapture| goes_to_batch(x, active);
    let defer_pred = |x: PendingCapture| goes_to_deferred(x, active, output, handle);
    let keep_pred = |x: PendingCapture| stays_queued(x, active, output, handle);
    if queue.filter(batch_pred).contains(e) {
        let k = choose|k: int|
            0 <= k < queue.filter(batch_pred).len() && queue.filter(batch_pred)[k] == e;
        assert(batch_pred(queue.filter(batch_pred)[k]));
    }
    if queue.filter(defer_pred).contains(e) {
        let k = choose|k: int|
            0 <= k < queue.filter(defer_pred).len() && queue.filter(defer_pred)[k] == e;
        assert(defer_pred(queue.filter(defer_pred)[k]));
    }
    if queue.filter(keep_pred).contains(e) {
        let k = choose|k: int|
            0 <= k < queue.filter(keep_pred).len() && queue.filter(keep_pred)[k] == e;
        assert(keep_pred(queue.filter(keep_pred)[k]));
    }
}

} // verus!
