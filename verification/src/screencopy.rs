//! Screencopy session scheduling: the workspace-scope partition of a
//! pending-buffer queue, and the bookkeeping applied when a deferred
//! capture attempt reports back.

use vstd::prelude::*;
use vstd::seq_lib::group_filter_ensures;
use crate::types::{ActiveSpace, OutputId, PendingCapture, SessionType, WorkspaceHandle,
    is_workspace_session};

verus! {

/// Entry rides the next ordinary frame: its `(output, workspace)` target
/// is currently displayed somewhere.
pub open spec fn goes_to_batch(e: PendingCapture, active: Seq<ActiveSpace>) -> bool {
    match e.session.session_type {
        SessionType::Workspace { output, workspace } => active.contains(
            ActiveSpace { output, workspace },
        ),
        SessionType::Output { .. } => false,
    }
}

/// Entry needs a deferred offscreen render: its target is not displayed,
/// but it is exactly the `(output, handle)` pair whose content the commit
/// just changed.
pub open spec fn goes_to_deferred(
    e: PendingCapture,
    active: Seq<ActiveSpace>,
    output: OutputId,
    handle: WorkspaceHandle,
) -> bool {
    match e.session.session_type {
        SessionType::Workspace { output: o, workspace: w } => !active.contains(
            ActiveSpace { output: o, workspace: w },
        ) && o == output && w == handle,
        SessionType::Output { .. } => false,
    }
}

/// Entry is neither displayed now nor affected by this commit: it stays
/// queued, in place and in order.
pub open spec fn stays_queued(
    e: PendingCapture,
    active: Seq<ActiveSpace>,
    output: OutputId,
    handle: WorkspaceHandle,
) -> bool {
    !goes_to_batch(e, active) && !goes_to_deferred(e, active, output, handle)
}

/// The three destinations of one workspace-scope scan of a pending queue.
pub struct Partition {
    /// Entries retained in the queue, original order.
    pub kept: Vec<PendingCapture>,
    /// Entries moved into the "render with this frame" batch.
    pub batch: Vec<PendingCapture>,
    /// Entries that get a deferred offscreen render pass.
    pub deferred: Vec<PendingCapture>,
}

/// Whether `(output, workspace)` is currently displayed, per `active`.
pub fn space_is_active(active: &Vec<ActiveSpace>, output: OutputId, workspace: WorkspaceHandle) -> (r:
    bool)
    ensures
        r == active@.contains(ActiveSpace { output, workspace }),
{
    let mut i: usize = 0;
    while i < active.len()
        invariant
            i <= active.len(),
            forall|j: int|
                0 <= j < i ==> active@[j] != (ActiveSpace { output, workspace }),
        decreases active.len() - i,
    {
        if active[i].output == output && active[i].workspace == workspace {
            assert(active@[i as int] == ActiveSpace { output, workspace });
            return true;
        }
        i += 1;
    }
    false
}

/// One linear scan of a workspace's pending queue under the workspace
/// scope: a stable three-way partition. Every entry lands in exactly one
/// destination, decided by its `(output, workspace)` target against the
/// active-space set and the `(output, handle)` pair being scanned; each
/// destination keeps the queue's original order.
pub fn partition_pending(
    queue: Vec<PendingCapture>,
    active: &Vec<ActiveSpace>,
    output: OutputId,
    handle: WorkspaceHandle,
) -> (r: Partition)
    requires
        forall|i: int|
            0 <= i < queue@.len() ==> is_workspace_session(#[trigger] queue@[i].session.session_type),
    ensures
        r.kept@ == queue@.filter(|e: PendingCapture| stays_queued(e, active@, output, handle)),
        r.batch@ == queue@.filter(|e: PendingCapture| goes_to_batch(e, active@)),
        r.deferred@ == queue@.filter(
            |e: PendingCapture| goes_to_deferred(e, active@, output, handle),
        ),
        forall|k: int|
            0 <= k < r.kept@.len() ==> is_workspace_session(
                (#[trigger] r.kept@[k]).session.session_type,
            ),
        forall|k: int|
            0 <= k < r.batch@.len() ==> is_workspace_session(
                (#[trigger] r.batch@[k]).session.session_type,
            ),
        forall|k: int|
            0 <= k < r.deferred@.len() ==> is_workspace_session(
                (#[trigger] r.deferred@[k]).session.session_type,
            ),
{
    broadcast use group_filter_ensures;

    let ghost keep_pred = |e: PendingCapture| stays_queued(e, active@, output, handle);
    let ghost batch_pred = |e: PendingCapture| goes_to_batch(e, active@);
    let ghost defer_pred = |e: PendingCapture| goes_to_deferred(e, active@, output, handle);
    let mut kept: Vec<PendingCapture> = Vec::new();
    let mut batch: Vec<PendingCapture> = Vec::new();
    let mut deferred: Vec<PendingCapture> = Vec::new();
    let mut i: usize = 0;
    while i < queue.len()
        invariant
            i <= queue.len(),
            forall|k: int|
                0 <= k < queue@.len() ==> is_workspace_session(
                    #[trigger] queue@[k].session.session_type,
                ),
            kept@ == queue@.subrange(0, i as int).filter(keep_pred),
            batch@ == queue@.subrange(0, i as int).filter(batch_pred),
            deferred@ == queue@.subrange(0, i as int).filter(defer_pred),
            forall|k: int|
                0 <= k < kept@.len() ==> is_workspace_session(
                    (#[trigger] kept@[k]).session.session_type,
                ),
            forall|k: int|
                0 <= k < batch@.len() ==> is_workspace_session(
                    (#[trigger] batch@[k]).session.session_type,
                ),
            forall|k: int|
                0 <= k < deferred@.len() ==> is_workspace_session(
                    (#[trigger] deferred@[k]).session.session_type,
                ),
            keep_pred == (|e: PendingCapture| stays_queued(e, active@, output, handle)),
            batch_pred == (|e: PendingCapture| goes_to_batch(e, active@)),
            defer_pred == (|e: PendingCapture| goes_to_deferred(e, active@, output, handle)),
        decreases queue.len() - i,
    {
        let entry = queue[i];
        let ghost pre = queue@.subrange(0, i as int);
        let ghost post = queue@.subrange(0, i as int + 1);
        proof {
            assert(post.drop_last() =~= pre);
            assert(post.last() == queue@[i as int]);
        }
        match entry.session.session_type {
            SessionType::Workspace { output: o, workspace: w } => {
                if space_is_active(active, o, w) {
                    batch.push(entry);
                    proof {
                        assert(batch_pred(entry) && !keep_pred(entry) && !defer_pred(entry));
                    }
                } else if w == handle && o == output {
                    deferred.push(entry);
                    proof {
                        assert(defer_pred(entry) && !keep_pred(entry) && !batch_pred(entry));
                    }
                } else {
                    kept.push(entry);
                    proof {
                        assert(keep_pred(entry) && !batch_pred(entry) && !defer_pred(entry));
                    }
                }
            },
            SessionType::Output { .. } => {
                proof {
                    assert(is_workspace_session(queue@[i as int].session.session_type));
                    assert(false);
                }
            },
        }
        proof {
            reveal_with_fuel(Seq::<PendingCapture>::filter, 2);
            assert(kept@ =~= post.filter(keep_pred));
            assert(batch@ =~= post.filter(batch_pred));
            assert(deferred@ =~= post.filter(defer_pred));
        }
        i += 1;
    }
    proof {
        assert(queue@.subrange(0, queue@.len() as int) =~= queue@);
    }
    Partition { kept, batch, deferred }
}

/// Outcome reported by one deferred render attempt.
#[derive(Clone, Copy, PartialEq, Eq, Structural, Debug)]
pub enum CaptureOutcome {
    /// Nothing changed since the last captured frame; retry on the next
    /// relevant commit.
    NoDamage,
    /// Buffer filled; the session progresses toward completion.
    Success,
    /// Render failed; the protocol layer must notify the client.
    Failure { reason: u64 },
}

/// Bookkeeping effect of one reported outcome.
#[derive(Clone, Copy, PartialEq, Eq, Structural, Debug)]
pub enum CaptureEffect {
    /// The session was already dead: silent no-op.
    Skipped,
    /// The pair went back to its pending queue, to be retried.
    Requeued,
    /// Capture succeeded; nothing more to do here.
    Completed,
    /// The session must be marked failed with this reason.
    Failed { reason: u64 },
}

/// Applies the outcome of one deferred capture attempt to the pending
/// queue the pair came from. A dead session is dropped silently: no
/// requeue, no failure notice, no success side effect. `NoDamage`
/// returns the pair, unchanged, to the back of its queue; `Success`
/// leaves the queue alone; `Failure` leaves the queue alone and carries
/// the reason out for the protocol layer.
pub fn apply_capture_result(
    queue: &mut Vec<PendingCapture>,
    entry: PendingCapture,
    alive: bool,
    outcome: CaptureOutcome,
) -> (r: CaptureEffect)
    ensures
        !alive ==> final(queue)@ == old(queue)@ && r == CaptureEffect::Skipped,
        alive && outcome == CaptureOutcome::NoDamage ==> final(queue)@ == old(queue)@.push(entry)
            && r == CaptureEffect::Requeued,
        alive && outcome == CaptureOutcome::Success ==> final(queue)@ == old(queue)@ && r
            == CaptureEffect::Completed,
        alive ==> (outcome matches CaptureOutcome::Failure { reason } ==> final(queue)@ == old(
            queue,
        )@ && r == (CaptureEffect::Failed { reason })),
{
    if !alive {
        return CaptureEffect::Skipped;
    }
    match outcome {
        CaptureOutcome::NoDamage => {
            queue.push(entry);
            CaptureEffect::Requeued
        },
        CaptureOutcome::Success => CaptureEffect::Completed,
        CaptureOutcome::Failure { reason } => CaptureEffect::Failed { reason },
    }
}

} // verus!
