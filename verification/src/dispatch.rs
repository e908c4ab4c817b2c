//! The commit dispatcher: the single entry point run for every surface
//! commit, driving the configure tracker, the mapping decisions, GPU
//! import, screencopy scheduling and render scheduling in a fixed order.
//!
//! The dispatcher rewrites the shell state and returns a [`CommitResult`]
//! naming every outward effect the embedder must perform, in this order:
//! protocol configures and mapping first, then deferred window captures,
//! GPU imports, layer arrangement, deferred workspace captures, and the
//! per-output render requests last.

use vstd::prelude::*;
use crate::types::{ActiveSpace, NodeId, OutputId, PendingCapture, SurfaceId, WorkspaceHandle};
use crate::shell::{Element, Output, Shell, SurfaceEntry, SurfaceOutput,
    SurfaceWorkspace, Workspace, copy_captures, copy_ids};
use crate::screencopy::{CaptureEffect, CaptureOutcome, goes_to_batch, goes_to_deferred,
    partition_pending, stays_queued};
use crate::import::{early_import_nodes, node_is_visible};
use crate::render::{RenderRequest, filter_for_output, targets_output};
use vstd::pervasive::VecAdditionalExecFns;

verus! {

/// A deferred idle task: render one element's active window into a
/// capture buffer, unless the session died meanwhile.
#[derive(Clone, Copy, Debug)]
pub struct DeferredWindowCapture {
    pub entry: PendingCapture,
    /// The element whose active window is to be rendered.
    pub element: usize,
}

/// A deferred idle task: render one offscreen workspace, as displayed on
/// `output`, into a capture buffer, unless the session died meanwhile.
#[derive(Clone, Copy, Debug)]
pub struct DeferredWorkspaceCapture {
    pub entry: PendingCapture,
    pub output: OutputId,
    pub workspace: WorkspaceHandle,
}

/// Everything one commit asks the embedder to perform, in field order.
#[derive(Debug)]
pub struct CommitResult {
    /// A first configure must be sent to the pending toplevel.
    pub toplevel_configure_sent: bool,
    /// The shell mapped the pending layer surface (which sends its first
    /// configure as a side effect of arranging it).
    pub layer_mapped: bool,
    /// A first configure must be sent to the popup; protocol rules
    /// guarantee this cannot fail.
    pub popup_configure_sent: bool,
    /// The pending toplevel was mapped onto this output.
    pub mapped_window: Option<OutputId>,
    /// False when the commit stopped at the initial-configure gate of a
    /// pending toplevel or layer surface; no later field carries work.
    pub completed: bool,
    /// An in-progress interactive resize must be applied to the owning
    /// element and this workspace notified of the commit.
    pub space_commit: Option<WorkspaceHandle>,
    /// Deferred window-scope capture tasks, in queue order.
    pub window_captures: Vec<DeferredWindowCapture>,
    /// Render nodes to import the committed buffer to, one per distinct
    /// node among the outputs the surface is visible on.
    pub imports: Vec<NodeId>,
    /// This output's layer stack must be re-arranged.
    pub arrange_output: Option<OutputId>,
    /// Workspace captures that ride the next ordinary frames.
    pub frame_batch: Vec<PendingCapture>,
    /// Deferred offscreen workspace capture tasks, in scan order.
    pub workspace_captures: Vec<DeferredWorkspaceCapture>,
    /// One render request per output the surface is visible on.
    pub renders: Vec<RenderRequest>,
}

/// The compositor state the dispatcher owns: the shell, and the backend's
/// render-node assignment per output (`None` for an output that no GPU
/// node drives, as on a software backend).
#[derive(Debug)]
pub struct State {
    pub shell: Shell,
    pub nodes: Vec<Option<NodeId>>,
}

/// The surface entry after its first configure was ensured.
pub open spec fn configured(e: SurfaceEntry) -> SurfaceEntry {
    SurfaceEntry { initial_configure_sent: true, ..e }
}

/// Whether an ensure-initial-configure call on `e` sends a configure.
pub open spec fn tracker_sends(e: SurfaceEntry) -> bool {
    !e.initial_configure_sent
}

/// The surface entry after a layer surface was mapped onto `output`.
pub open spec fn layer_mapped(e: SurfaceEntry, output: OutputId) -> SurfaceEntry {
    SurfaceEntry { initial_configure_sent: true, layer_output: Some(output), ..e }
}

/// Field-wise equality of elements (their queues compared by content).
pub open spec fn element_like(a: Element, b: Element) -> bool {
    &&& a.surfaces@ == b.surfaces@
    &&& a.active_surface == b.active_surface
    &&& a.workspace == b.workspace
    &&& a.pending_window_captures@ == b.pending_window_captures@
}

/// The workspace-scoped pending queues, by workspace index.
pub open spec fn queue_views(ws: Seq<Workspace>) -> Seq<Seq<PendingCapture>> {
    Seq::new(ws.len(), |i: int| ws[i].pending_buffers@)
}

/// The output-scoped pending queues, by output index.
pub open spec fn output_queue_views(os: Seq<Output>) -> Seq<Seq<PendingCapture>> {
    Seq::new(os.len(), |i: int| os[i].pending_captures@)
}

/// Which outputs have a capture queue installed, by output index.
pub open spec fn presence_flags(os: Seq<Output>) -> Seq<bool> {
    Seq::new(os.len(), |i: int| os[i].capture_queue_present)
}

/// Result of the workspace-scope screencopy pass over a list of
/// `(workspace, output)` pairs.
pub ghost struct ScanState {
    /// The workspace queues after the pass.
    pub queues: Seq<Seq<PendingCapture>>,
    /// Entries moved into the "render with this frame" batch, scan order.
    pub batch: Seq<PendingCapture>,
    /// Deferred offscreen capture tasks, scan order.
    pub deferred: Seq<DeferredWorkspaceCapture>,
}

/// One workspace-scope scan of the queue named by `a`: the stable
/// three-way partition of [`crate::screencopy::partition_pending`].
pub open spec fn scan_one(
    qs: Seq<Seq<PendingCapture>>,
    a: SurfaceWorkspace,
    active: Seq<ActiveSpace>,
) -> ScanState {
    let q = qs[a.workspace as int];
    ScanState {
        queues: qs.update(
            a.workspace as int,
            q.filter(|e: PendingCapture| stays_queued(e, active, a.output, a.workspace)),
        ),
        batch: q.filter(|e: PendingCapture| goes_to_batch(e, active)),
        deferred: q.filter(
            |e: PendingCapture| goes_to_deferred(e, active, a.output, a.workspace),
        ).map_values(
            |e: PendingCapture| DeferredWorkspaceCapture {
                entry: e,
                output: a.output,
                workspace: a.workspace,
            },
        ),
    }
}

/// The workspace-scope pass: scans the queue of each pair in order,
/// concatenating batches and deferred tasks in discovery order.
pub open spec fn workspace_scan(
    qs: Seq<Seq<PendingCapture>>,
    assocs: Seq<SurfaceWorkspace>,
    active: Seq<ActiveSpace>,
) -> ScanState
    decreases assocs.len(),
{
    if assocs.len() == 0 {
        ScanState { queues: qs, batch: Seq::empty(), deferred: Seq::empty() }
    } else {
        let first = scan_one(qs, assocs[0], active);
        let rest = workspace_scan(first.queues, assocs.drop_first(), active);
        ScanState {
            queues: rest.queues,
            batch: first.batch + rest.batch,
            deferred: first.deferred + rest.deferred,
        }
    }
}

/// One planned render request: the output, and the capture sessions to
/// attach (`None` when no capture bookkeeping existed at all).
pub ghost struct RenderPlanEntry {
    pub output: OutputId,
    pub attached: Option<Seq<PendingCapture>>,
}

/// Result of the render-scheduling pass.
pub ghost struct RenderPlan {
    /// The output-scoped queues after draining.
    pub queues: Seq<Seq<PendingCapture>>,
    /// The accumulated combined batch.
    pub acc: Seq<PendingCapture>,
    /// Whether the combined batch was ever materialized.
    pub materialized: bool,
    /// One request per visible output, in order.
    pub requests: Seq<RenderPlanEntry>,
}

/// The render pass: walks the outputs the surface is visible on, drains
/// each installed output queue into the running batch, and plans one
/// render per output attaching the batch entries that target it.
pub open spec fn render_scan(
    qs: Seq<Seq<PendingCapture>>,
    present: Seq<bool>,
    visible: Seq<OutputId>,
    acc: Seq<PendingCapture>,
    materialized: bool,
) -> RenderPlan
    decreases visible.len(),
{
    if visible.len() == 0 {
        RenderPlan { queues: qs, acc, materialized, requests: Seq::empty() }
    } else {
        let o = visible[0];
        let has_queue = 0 <= o < qs.len() && present[o as int];
        let acc1 = if has_queue {
            acc + qs[o as int]
        } else {
            acc
        };
        let mat1 = materialized || has_queue;
        let qs1 = if has_queue {
            qs.update(o as int, Seq::<PendingCapture>::empty())
        } else {
            qs
        };
        let req = RenderPlanEntry {
            output: o,
            attached: if mat1 {
                Some(acc1.filter(|e: PendingCapture| targets_output(e, o)))
            } else {
                None
            },
        };
        let rest = render_scan(qs1, present, visible.drop_first(), acc1, mat1);
        RenderPlan {
            queues: rest.queues,
            acc: rest.acc,
            materialized: rest.materialized,
            requests: seq![req] + rest.requests,
        }
    }
}

impl State {
    /// Sends the initial configure of a pending toplevel if it was not
    /// sent yet (the embedder clears any pending explicit size first so
    /// the client picks its own); returns the prior sent-state.
    pub fn toplevel_ensure_initial_configure(&mut self, surface: SurfaceId) -> (sent_before:
        bool)
        requires
            old(self).shell.wf(),
            surface < old(self).shell.surfaces@.len(),
        ensures
            final(self).shell.wf(),
            sent_before == old(self).shell.surfaces@[surface as int].initial_configure_sent,
            final(self).shell.surfaces@ == old(self).shell.surfaces@.update(
                surface as int,
                configured(old(self).shell.surfaces@[surface as int]),
            ),
            final(self).shell.outputs == old(self).shell.outputs,
            final(self).shell.workspaces == old(self).shell.workspaces,
            final(self).shell.pending_windows == old(self).shell.pending_windows,
            final(self).shell.pending_layers == old(self).shell.pending_layers,
            final(self).shell.popups == old(self).shell.popups,
            final(self).shell.elements == old(self).shell.elements,
            final(self).shell.visibility == old(self).shell.visibility,
            final(self).shell.workspace_assocs == old(self).shell.workspace_assocs,
            final(self).nodes == old(self).nodes,
    {
        let e = self.shell.surfaces[surface];
        if !e.initial_configure_sent {
            self.shell.surfaces.set(surface, SurfaceEntry { initial_configure_sent: true, ..e });
        } else {
            proof {
                assert(self.shell.surfaces@ =~= old(self).shell.surfaces@.update(
                    surface as int,
                    configured(e),
                ));
            }
        }
        proof {
            lemma_flag_update_preserves_wf(old(self).shell, self.shell, surface);
        }
        e.initial_configure_sent
    }

    /// Sends the initial configure of a popup if it was not sent yet.
    /// Protocol rules allow a popup configure at any time, so no failure
    /// path exists; returns the prior sent-state.
    pub fn xdg_popup_ensure_initial_configure(&mut self, surface: SurfaceId) -> (sent_before:
        bool)
        requires
            old(self).shell.wf(),
            surface < old(self).shell.surfaces@.len(),
        ensures
            final(self).shell.wf(),
            sent_before == old(self).shell.surfaces@[surface as int].initial_configure_sent,
            final(self).shell.surfaces@ == old(self).shell.surfaces@.update(
                surface as int,
                configured(old(self).shell.surfaces@[surface as int]),
            ),
            final(self).shell.outputs == old(self).shell.outputs,
            final(self).shell.workspaces == old(self).shell.workspaces,
            final(self).shell.pending_windows == old(self).shell.pending_windows,
            final(self).shell.pending_layers == old(self).shell.pending_layers,
            final(self).shell.popups == old(self).shell.popups,
            final(self).shell.elements == old(self).shell.elements,
            final(self).shell.visibility == old(self).shell.visibility,
            final(self).shell.workspace_assocs == old(self).shell.workspace_assocs,
            final(self).nodes == old(self).nodes,
    {
        let e = self.shell.surfaces[surface];
        if !e.initial_configure_sent {
            self.shell.surfaces.set(surface, SurfaceEntry { initial_configure_sent: true, ..e });
        } else {
            proof {
                assert(self.shell.surfaces@ =~= old(self).shell.surfaces@.update(
                    surface as int,
                    configured(e),
                ));
            }
        }
        proof {
            lemma_flag_update_preserves_wf(old(self).shell, self.shell, surface);
        }
        e.initial_configure_sent
    }

    /// Ensures the initial configure of a pending layer surface. A layer
    /// surface cannot be configured before its size is known, so instead
    /// of sending directly the shell maps it, which arranges the layer
    /// stack and sends the configure as a side effect. Returns the prior
    /// sent-state.
    pub fn layer_surface_ensure_initial_configure(&mut self, surface: SurfaceId, ix: usize) -> (sent_before:
        bool)
        requires
            old(self).shell.wf(),
            surface < old(self).shell.surfaces@.len(),
            ix < old(self).shell.pending_layers@.len(),
            old(self).shell.pending_layers@[ix as int].surface == surface,
        ensures
            final(self).shell.wf(),
            sent_before == old(self).shell.surfaces@[surface as int].initial_configure_sent,
            !sent_before ==> {
                &&& final(self).shell.surfaces@ == old(self).shell.surfaces@.update(
                    surface as int,
                    layer_mapped(
                        old(self).shell.surfaces@[surface as int],
                        old(self).shell.pending_layers@[ix as int].output,
                    ),
                )
                &&& final(self).shell.pending_layers@ == old(self).shell.pending_layers@.remove(
                    ix as int,
                )
                &&& final(self).shell.visibility@ == old(self).shell.visibility@.push(
                    SurfaceOutput {
                        surface,
                        output: old(self).shell.pending_layers@[ix as int].output,
                    },
                )
            },
            sent_before ==> {
                &&& final(self).shell.surfaces == old(self).shell.surfaces
                &&& final(self).shell.pending_layers == old(self).shell.pending_layers
                &&& final(self).shell.visibility == old(self).shell.visibility
            },
            final(self).shell.outputs == old(self).shell.outputs,
            final(self).shell.workspaces == old(self).shell.workspaces,
            final(self).shell.pending_windows == old(self).shell.pending_windows,
            final(self).shell.popups == old(self).shell.popups,
            final(self).shell.elements == old(self).shell.elements,
            final(self).shell.workspace_assocs == old(self).shell.workspace_assocs,
            final(self).nodes == old(self).nodes,
    {
        let e = self.shell.surfaces[surface];
        if !e.initial_configure_sent {
            let pl = self.shell.pending_layers[ix];
            self.shell.surfaces.set(
                surface,
                SurfaceEntry {
                    initial_configure_sent: true,
                    layer_output: Some(pl.output),
                    ..e
                },
            );
            self.shell.pending_layers.remove(ix);
            self.shell.visibility.push(SurfaceOutput { surface, output: pl.output });
            proof {
                lemma_layer_map_preserves_wf(old(self).shell, self.shell, surface, ix as int);
            }
        }
        e.initial_configure_sent
    }
}

impl State {
    /// Maps the pending toplevel at `ix` onto its seat's active output:
    /// the pending record leaves, a fresh element appears on that
    /// output's active workspace, and the surface becomes visible on,
    /// and associated with, that output.
    pub fn map_window(&mut self, surface: SurfaceId, ix: usize)
        requires
            old(self).shell.wf(),
            surface < old(self).shell.surfaces@.len(),
            ix < old(self).shell.pending_windows@.len(),
            old(self).shell.pending_windows@[ix as int].surface == surface,
        ensures
            final(self).shell.wf(),
            ({
                let pw = old(self).shell.pending_windows@[ix as int];
                let ws = old(self).shell.outputs@[pw.seat_output as int].active_space;
                &&& final(self).shell.pending_windows@ == old(self).shell.pending_windows@.remove(
                    ix as int,
                )
                &&& final(self).shell.visibility@ == old(self).shell.visibility@.push(
                    SurfaceOutput { surface, output: pw.seat_output },
                )
                &&& final(self).shell.workspace_assocs@ == old(self).shell.workspace_assocs@.push(
                    SurfaceWorkspace { surface, workspace: ws, output: pw.seat_output },
                )
                &&& final(self).shell.elements@.len() == old(self).shell.elements@.len() + 1
                &&& forall|j: int|
                    0 <= j < old(self).shell.elements@.len() ==> final(self).shell.elements@[j]
                        == old(self).shell.elements@[j]
                &&& final(self).shell.elements@.last().surfaces@ == seq![surface]
                &&& final(self).shell.elements@.last().active_surface == surface
                &&& final(self).shell.elements@.last().workspace == ws
                &&& final(self).shell.elements@.last().pending_window_captures@ == Seq::<
                    PendingCapture,
                >::empty()
            }),
            final(self).shell.surfaces == old(self).shell.surfaces,
            final(self).shell.outputs == old(self).shell.outputs,
            final(self).shell.workspaces == old(self).shell.workspaces,
            final(self).shell.pending_layers == old(self).shell.pending_layers,
            final(self).shell.popups == old(self).shell.popups,
            final(self).nodes == old(self).nodes,
    {
        let pw = self.shell.pending_windows[ix];
        self.shell.pending_windows.remove(ix);
        let ws = self.shell.outputs[pw.seat_output].active_space;
        let mut owned: Vec<SurfaceId> = Vec::new();
        owned.push(surface);
        self.shell.elements.push(
            Element {
                surfaces: owned,
                active_surface: surface,
                workspace: ws,
                pending_window_captures: Vec::new(),
            },
        );
        self.shell.visibility.push(SurfaceOutput { surface, output: pw.seat_output });
        self.shell.workspace_assocs.push(
            SurfaceWorkspace { surface, workspace: ws, output: pw.seat_output },
        );
        proof {
            lemma_map_window_preserves_wf(old(self).shell, self.shell, surface, ix as int);
        }
    }

    /// The render nodes to import the committed buffer to: one per
    /// distinct node among the outputs the surface is visible on. Must
    /// run only after any mapping this commit performed, since
    /// visibility is well defined only post-map. Outputs without a node
    /// are skipped: import is an optimization, never a requirement.
    pub fn early_import_surface(&self, surface: SurfaceId) -> (r: Vec<NodeId>)
        ensures
            r@.no_duplicates(),
            forall|n: NodeId| #[trigger]
                r@.contains(n) <==> node_is_visible(
                    self.shell.visible_seq(surface),
                    self.nodes@,
                    n,
                ),
    {
        let visible = self.shell.visible_outputs_for_surface(surface);
        early_import_nodes(&visible, &self.nodes)
    }

    /// Applies the outcome of a deferred workspace- or output-scoped
    /// capture attempt: a dead session is dropped silently; `NoDamage`
    /// requeues the pair, unchanged, onto the queue owned by its
    /// session's target; `Success` ends the attempt; `Failure` carries
    /// the reason out so the protocol layer can notify the client.
    pub fn capture_result(&mut self, entry: PendingCapture, alive: bool, outcome: CaptureOutcome) -> (r:
        CaptureEffect)
        requires
            old(self).shell.wf(),
            match entry.session.session_type {
                crate::types::SessionType::Workspace { workspace, .. } => workspace < old(self).shell.workspaces@.len(),
                crate::types::SessionType::Output { output } => output < old(self).shell.outputs@.len(),
            },
        ensures
            final(self).shell.wf(),
            r == (if !alive {
                CaptureEffect::Skipped
            } else {
                match outcome {
                    CaptureOutcome::NoDamage => CaptureEffect::Requeued,
                    CaptureOutcome::Success => CaptureEffect::Completed,
                    CaptureOutcome::Failure { reason } => CaptureEffect::Failed { reason },
                }
            }),
            r != CaptureEffect::Requeued ==> final(self).shell == old(self).shell,
            r == CaptureEffect::Requeued ==> match entry.session.session_type {
                crate::types::SessionType::Workspace { workspace, .. } => {
                    &&& queue_views(final(self).shell.workspaces@) == queue_views(
                        old(self).shell.workspaces@,
                    ).update(
                        workspace as int,
                        old(self).shell.workspaces@[workspace as int].pending_buffers@.push(entry),
                    )
                    &&& final(self).shell.workspaces@.len() == old(self).shell.workspaces@.len()
                    &&& forall|w: int|
                        0 <= w < old(self).shell.workspaces@.len()
                            ==> (#[trigger] final(self).shell.workspaces@[w]).output == old(self).shell.workspaces@[w].output
                    &&& final(self).shell.outputs == old(self).shell.outputs
                },
                crate::types::SessionType::Output { output } => {
                    &&& output_queue_views(final(self).shell.outputs@) == output_queue_views(
                        old(self).shell.outputs@,
                    ).update(
                        output as int,
                        old(self).shell.outputs@[output as int].pending_captures@.push(entry),
                    )
                    &&& final(self).shell.outputs@.len() == old(self).shell.outputs@.len()
                    &&& forall|o: int|
                        0 <= o < old(self).shell.outputs@.len() ==> (
                        #[trigger] final(self).shell.outputs@[o]).active_space == old(self).shell.outputs@[o].active_space && final(self).shell.outputs@[o].capture_queue_present == old(self).shell.outputs@[o].capture_queue_present
                    &&& final(self).shell.workspaces == old(self).shell.workspaces
                },
            },
            r == CaptureEffect::Requeued ==> {
                &&& final(self).shell.surfaces == old(self).shell.surfaces
                &&& final(self).shell.pending_windows == old(self).shell.pending_windows
                &&& final(self).shell.pending_layers == old(self).shell.pending_layers
                &&& final(self).shell.popups == old(self).shell.popups
                &&& final(self).shell.elements == old(self).shell.elements
                &&& final(self).shell.visibility == old(self).shell.visibility
                &&& final(self).shell.workspace_assocs == old(self).shell.workspace_assocs
            },
            final(self).nodes == old(self).nodes,
    {
        if !alive {
            return CaptureEffect::Skipped;
        }
        match outcome {
            CaptureOutcome::NoDamage => {
                match entry.session.session_type {
                    crate::types::SessionType::Workspace { workspace, .. } => {
                        let mut q = copy_captures(
                            &self.shell.workspaces[workspace].pending_buffers,
                        );
                        q.push(entry);
                        let out = self.shell.workspaces[workspace].output;
                        self.shell.workspaces.set(
                            workspace,
                            Workspace { output: out, pending_buffers: q },
                        );
                        proof {
                            assert(queue_views(self.shell.workspaces@) =~= queue_views(
                                old(self).shell.workspaces@,
                            ).update(
                                workspace as int,
                                old(self).shell.workspaces@[workspace as int].pending_buffers@.push(entry),
                            ));
                            lemma_queue_update_preserves_wf(old(self).shell, self.shell);
                        }
                    },
                    crate::types::SessionType::Output { output } => {
                        let mut q = copy_captures(&self.shell.outputs[output].pending_captures);
                        q.push(entry);
                        let sp = self.shell.outputs[output].active_space;
                        let present = self.shell.outputs[output].capture_queue_present;
                        self.shell.outputs.set(
                            output,
                            Output {
                                active_space: sp,
                                capture_queue_present: present,
                                pending_captures: q,
                            },
                        );
                        proof {
                            assert(output_queue_views(self.shell.outputs@) =~= output_queue_views(
                                old(self).shell.outputs@,
                            ).update(
                                output as int,
                                old(self).shell.outputs@[output as int].pending_captures@.push(
                                    entry,
                                ),
                            ));
                            lemma_queue_update_preserves_wf(old(self).shell, self.shell);
                        }
                    },
                }
                CaptureEffect::Requeued
            },
            CaptureOutcome::Success => CaptureEffect::Completed,
            CaptureOutcome::Failure { reason } => CaptureEffect::Failed { reason },
        }
    }

    /// Applies the outcome of a deferred window-scoped capture attempt;
    /// `NoDamage` requeues the pair onto the owning element's
    /// window-capture queue.
    pub fn window_capture_result(
        &mut self,
        element: usize,
        entry: PendingCapture,
        alive: bool,
        outcome: CaptureOutcome,
    ) -> (r: CaptureEffect)
        requires
            old(self).shell.wf(),
            element < old(self).shell.elements@.len(),
        ensures
            final(self).shell.wf(),
            r == (if !alive {
                CaptureEffect::Skipped
            } else {
                match outcome {
                    CaptureOutcome::NoDamage => CaptureEffect::Requeued,
                    CaptureOutcome::Success => CaptureEffect::Completed,
                    CaptureOutcome::Failure { reason } => CaptureEffect::Failed { reason },
                }
            }),
            r != CaptureEffect::Requeued ==> final(self).shell == old(self).shell,
            r == CaptureEffect::Requeued ==> {
                &&& final(self).shell.elements@.len() == old(self).shell.elements@.len()
                &&& forall|j: int|
                    0 <= j < old(self).shell.elements@.len() && j != element ==> final(self).shell.elements@[j] == old(self).shell.elements@[j]
                &&& final(self).shell.elements@[element as int].surfaces@ == old(self).shell.elements@[element as int].surfaces@
                &&& final(self).shell.elements@[element as int].active_surface == old(self).shell.elements@[element as int].active_surface
                &&& final(self).shell.elements@[element as int].workspace == old(self).shell.elements@[element as int].workspace
                &&& final(self).shell.elements@[element as int].pending_window_captures@ == old(self).shell.elements@[element as int].pending_window_captures@.push(entry)
                &&& final(self).shell.surfaces == old(self).shell.surfaces
                &&& final(self).shell.outputs == old(self).shell.outputs
                &&& final(self).shell.workspaces == old(self).shell.workspaces
                &&& final(self).shell.pending_windows == old(self).shell.pending_windows
                &&& final(self).shell.pending_layers == old(self).shell.pending_layers
                &&& final(self).shell.popups == old(self).shell.popups
                &&& final(self).shell.visibility == old(self).shell.visibility
                &&& final(self).shell.workspace_assocs == old(self).shell.workspace_assocs
            },
            final(self).nodes == old(self).nodes,
    {
        if !alive {
            return CaptureEffect::Skipped;
        }
        match outcome {
            CaptureOutcome::NoDamage => {
                let surfaces = copy_ids(&self.shell.elements[element].surfaces);
                let active = self.shell.elements[element].active_surface;
                let ws = self.shell.elements[element].workspace;
                let mut q = copy_captures(&self.shell.elements[element].pending_window_captures);
                q.push(entry);
                self.shell.elements.set(
                    element,
                    Element {
                        surfaces,
                        active_surface: active,
                        workspace: ws,
                        pending_window_captures: q,
                    },
                );
                proof {
                    lemma_element_update_preserves_wf(old(self).shell, self.shell, element as int);
                }
                CaptureEffect::Requeued
            },
            CaptureOutcome::Success => CaptureEffect::Completed,
            CaptureOutcome::Failure { reason } => CaptureEffect::Failed { reason },
        }
    }
}

/// Changing only queue contents (workspace or output scoped), with
/// workspace-typed entries kept workspace-typed, preserves shell
/// well-formedness.
proof fn lemma_queue_update_preserves_wf(pre: Shell, post: Shell)
    requires
        pre.wf(),
        post.surfaces == pre.surfaces,
        post.pending_windows == pre.pending_windows,
        post.pending_layers == pre.pending_layers,
        post.popups == pre.popups,
        post.elements == pre.elements,
        post.visibility == pre.visibility,
        post.workspace_assocs == pre.workspace_assocs,
        post.outputs@.len() == pre.outputs@.len(),
        forall|o: int|
            0 <= o < pre.outputs@.len() ==> (#[trigger] post.outputs@[o]).active_space
                == pre.outputs@[o].active_space,
        post.workspaces@.len() == pre.workspaces@.len(),
        forall|w: int|
            0 <= w < pre.workspaces@.len() ==> (#[trigger] post.workspaces@[w]).output
                == pre.workspaces@[w].output,
        forall|w: int, k: int|
            0 <= w < post.workspaces@.len() && 0 <= k < post.workspaces@[w].pending_buffers@.len()
                ==> crate::types::is_workspace_session(
                (#[trigger] post.workspaces@[w].pending_buffers@[k]).session.session_type,
            ),
    ensures
        post.wf(),
{
}

/// Replacing one element with a field-equal element (its capture queue
/// aside) preserves shell well-formedness.
proof fn lemma_element_update_preserves_wf(pre: Shell, post: Shell, ix: int)
    requires
        pre.wf(),
        0 <= ix < pre.elements@.len(),
        post.surfaces == pre.surfaces,
        post.outputs == pre.outputs,
        post.workspaces == pre.workspaces,
        post.pending_windows == pre.pending_windows,
        post.pending_layers == pre.pending_layers,
        post.popups == pre.popups,
        post.visibility == pre.visibility,
        post.workspace_assocs == pre.workspace_assocs,
        post.elements@.len() == pre.elements@.len(),
        forall|j: int|
            0 <= j < pre.elements@.len() && j != ix ==> (#[trigger] post.elements@[j])
                == pre.elements@[j],
        post.elements@[ix].surfaces@ == pre.elements@[ix].surfaces@,
        post.elements@[ix].workspace == pre.elements@[ix].workspace,
    ensures
        post.wf(),
{
    assert forall|i: int, j: int|
        0 <= i < post.pending_windows@.len() && 0 <= j < post.elements@.len() implies !(
    #[trigger] post.elements@[j]).surfaces@.contains(
        (#[trigger] post.pending_windows@[i]).surface,
    ) by {
        if j == ix {
            assert(!pre.elements@[j].surfaces@.contains(pre.pending_windows@[i].surface));
        }
    }
}

/// Mapping a pending toplevel preserves shell well-formedness.
proof fn lemma_map_window_preserves_wf(pre: Shell, post: Shell, surface: SurfaceId, ix: int)
    requires
        pre.wf(),
        surface < pre.surfaces@.len(),
        0 <= ix < pre.pending_windows@.len(),
        pre.pending_windows@[ix].surface == surface,
        post.pending_windows@ == pre.pending_windows@.remove(ix),
        post.visibility@ == pre.visibility@.push(
            SurfaceOutput { surface, output: pre.pending_windows@[ix].seat_output },
        ),
        post.workspace_assocs@ == pre.workspace_assocs@.push(
            SurfaceWorkspace {
                surface,
                workspace: pre.outputs@[pre.pending_windows@[ix].seat_output as int].active_space,
                output: pre.pending_windows@[ix].seat_output,
            },
        ),
        post.elements@.len() == pre.elements@.len() + 1,
        forall|j: int|
            0 <= j < pre.elements@.len() ==> #[trigger] post.elements@[j] == pre.elements@[j],
        post.elements@.last().surfaces@ == seq![surface],
        post.elements@.last().workspace == pre.outputs@[pre.pending_windows@[ix].seat_output as int].active_space,
        post.surfaces == pre.surfaces,
        post.outputs == pre.outputs,
        post.workspaces == pre.workspaces,
        post.pending_layers == pre.pending_layers,
        post.popups == pre.popups,
    ensures
        post.wf(),
{
    let pw = pre.pending_windows@[ix];
    assert forall|i: int, j: int|
        0 <= i < j < post.pending_windows@.len() implies (
    #[trigger] post.pending_windows@[i]).surface != (
    #[trigger] post.pending_windows@[j]).surface by {
        let i0 = if i < ix {
            i
        } else {
            i + 1
        };
        let j0 = if j < ix {
            j
        } else {
            j + 1
        };
        assert(post.pending_windows@[i] == pre.pending_windows@[i0]);
        assert(post.pending_windows@[j] == pre.pending_windows@[j0]);
    }
    assert forall|i: int|
        0 <= i < post.pending_windows@.len() implies {
        let q = #[trigger] post.pending_windows@[i];
        &&& q.surface < post.surfaces@.len()
        &&& post.surfaces@[q.surface as int].role == crate::types::Role::Toplevel
        &&& q.seat_output < post.outputs@.len()
    } by {
        let i0 = if i < ix {
            i
        } else {
            i + 1
        };
        assert(post.pending_windows@[i] == pre.pending_windows@[i0]);
    }
    assert forall|i: int, j: int|
        0 <= i < post.pending_windows@.len() && 0 <= j < post.elements@.len() implies !(
    #[trigger] post.elements@[j]).surfaces@.contains(
        (#[trigger] post.pending_windows@[i]).surface,
    ) by {
        let i0 = if i < ix {
            i
        } else {
            i + 1
        };
        assert(post.pending_windows@[i] == pre.pending_windows@[i0]);
        let s = pre.pending_windows@[i0].surface;
        assert(s != surface);
        if j < pre.elements@.len() {
            assert(!pre.elements@[j].surfaces@.contains(s));
        } else {
            assert(post.elements@[j] == post.elements@.last());
            if post.elements@.last().surfaces@.contains(s) {
                assert(seq![surface][0] == surface);
                assert(false);
            }
        }
    }
    assert forall|i: int, j: int|
        0 <= i < post.pending_windows@.len() && 0 <= j < post.visibility@.len() implies (
    #[trigger] post.visibility@[j]).surface != (#[trigger] post.pending_windows@[i]).surface by {
        let i0 = if i < ix {
            i
        } else {
            i + 1
        };
        assert(post.pending_windows@[i] == pre.pending_windows@[i0]);
        if j < pre.visibility@.len() {
            assert(post.visibility@[j] == pre.visibility@[j]);
        }
    }
    assert forall|i: int, j: int|
        0 <= i < post.pending_windows@.len() && 0 <= j < post.workspace_assocs@.len() implies (
    #[trigger] post.workspace_assocs@[j]).surface != (
    #[trigger] post.pending_windows@[i]).surface by {
        let i0 = if i < ix {
            i
        } else {
            i + 1
        };
        assert(post.pending_windows@[i] == pre.pending_windows@[i0]);
        if j < pre.workspace_assocs@.len() {
            assert(post.workspace_assocs@[j] == pre.workspace_assocs@[j]);
        }
    }
    assert forall|j: int|
        0 <= j < post.workspace_assocs@.len() implies {
        let a = #[trigger] post.workspace_assocs@[j];
        &&& a.workspace < post.workspaces@.len()
        &&& a.output < post.outputs@.len()
    } by {
        if j < pre.workspace_assocs@.len() {
            assert(post.workspace_assocs@[j] == pre.workspace_assocs@[j]);
        } else {
            assert(pw.seat_output < pre.outputs@.len());
            assert(pre.outputs@[pw.seat_output as int].active_space < pre.workspaces@.len());
        }
    }
    assert forall|j: int|
        0 <= j < post.visibility@.len() implies (#[trigger] post.visibility@[j]).output
        < post.outputs@.len() by {
        if j < pre.visibility@.len() {
            assert(post.visibility@[j] == pre.visibility@[j]);
        }
    }
    assert forall|j: int|
        0 <= j < post.elements@.len() implies (#[trigger] post.elements@[j]).workspace
        < post.workspaces@.len() by {
        if j < pre.elements@.len() {
            assert(post.elements@[j] == pre.elements@[j]);
        }
    }
}

/// Setting a surface's protocol flags (role kept) preserves shell
/// well-formedness.
proof fn lemma_flag_update_preserves_wf(pre: Shell, post: Shell, surface: SurfaceId)
    requires
        pre.wf(),
        surface < pre.surfaces@.len(),
        post.surfaces@.len() == pre.surfaces@.len(),
        forall|t: int|
            0 <= t < pre.surfaces@.len() && t != surface ==> post.surfaces@[t] == pre.surfaces@[t],
        post.surfaces@[surface as int].role == pre.surfaces@[surface as int].role,
        post.surfaces@[surface as int].layer_output == pre.surfaces@[surface as int].layer_output,
        post.outputs == pre.outputs,
        post.workspaces == pre.workspaces,
        post.pending_windows == pre.pending_windows,
        post.pending_layers == pre.pending_layers,
        post.popups == pre.popups,
        post.elements == pre.elements,
        post.visibility == pre.visibility,
        post.workspace_assocs == pre.workspace_assocs,
    ensures
        post.wf(),
{
}

/// Mapping a pending layer surface (flags set, record removed, one
/// visibility fact added) preserves shell well-formedness.
proof fn lemma_layer_map_preserves_wf(pre: Shell, post: Shell, surface: SurfaceId, ix: int)
    requires
        pre.wf(),
        surface < pre.surfaces@.len(),
        0 <= ix < pre.pending_layers@.len(),
        pre.pending_layers@[ix].surface == surface,
        post.surfaces@ == pre.surfaces@.update(
            surface as int,
            layer_mapped(pre.surfaces@[surface as int], pre.pending_layers@[ix].output),
        ),
        post.pending_layers@ == pre.pending_layers@.remove(ix),
        post.visibility@ == pre.visibility@.push(
            SurfaceOutput { surface, output: pre.pending_layers@[ix].output },
        ),
        post.outputs == pre.outputs,
        post.workspaces == pre.workspaces,
        post.pending_windows == pre.pending_windows,
        post.popups == pre.popups,
        post.elements == pre.elements,
        post.workspace_assocs == pre.workspace_assocs,
    ensures
        post.wf(),
{
    assert forall|i: int, j: int|
        0 <= i < j < post.pending_layers@.len() implies (#[trigger] post.pending_layers@[i]).surface
        != (#[trigger] post.pending_layers@[j]).surface by {
        let i0 = if i < ix {
            i
        } else {
            i + 1
        };
        let j0 = if j < ix {
            j
        } else {
            j + 1
        };
        assert(post.pending_layers@[i] == pre.pending_layers@[i0]);
        assert(post.pending_layers@[j] == pre.pending_layers@[j0]);
    }
    assert forall|i: int|
        0 <= i < post.pending_layers@.len() implies {
        let pl = #[trigger] post.pending_layers@[i];
        &&& pl.surface < post.surfaces@.len()
        &&& post.surfaces@[pl.surface as int].role == crate::types::Role::LayerSurface
        &&& pl.output < post.outputs@.len()
    } by {
        let i0 = if i < ix {
            i
        } else {
            i + 1
        };
        assert(post.pending_layers@[i] == pre.pending_layers@[i0]);
    }
    assert forall|i: int, j: int|
        0 <= i < post.pending_windows@.len() && 0 <= j < post.visibility@.len() implies (
    #[trigger] post.visibility@[j]).surface != (#[trigger] post.pending_windows@[i]).surface by {
        if j < pre.visibility@.len() {
            assert(post.visibility@[j] == pre.visibility@[j]);
        } else {
            assert(post.visibility@[j].surface == surface);
            assert(pre.surfaces@[surface as int].role == crate::types::Role::LayerSurface);
            assert(pre.surfaces@[post.pending_windows@[i].surface as int].role
                == crate::types::Role::Toplevel);
        }
    }
}


/// The surface entry after a commit attached (or removed) its buffer.
pub open spec fn buffered(e: SurfaceEntry, has_buffer: bool) -> SurfaceEntry {
    SurfaceEntry { buffer_present: has_buffer, ..e }
}

/// No downstream work was produced (the commit stopped at a gate, or the
/// field simply carries nothing).
pub open spec fn no_work(r: CommitResult) -> bool {
    &&& r.mapped_window is None
    &&& r.space_commit is None
    &&& r.window_captures@.len() == 0
    &&& r.imports@.len() == 0
    &&& r.arrange_output is None
    &&& r.frame_batch@.len() == 0
    &&& r.workspace_captures@.len() == 0
    &&& r.renders@.len() == 0
}

/// Shell delta of a commit stopped at the toplevel initial-configure
/// gate: only the surface's own flags moved.
pub open spec fn stopped_shell_toplevel(
    pre: Shell,
    post: Shell,
    surface: SurfaceId,
    has_buffer: bool,
) -> bool {
    &&& post.surfaces@ == pre.surfaces@.update(
        surface as int,
        configured(buffered(pre.surfaces@[surface as int], has_buffer)),
    )
    &&& post.outputs == pre.outputs
    &&& post.workspaces == pre.workspaces
    &&& post.pending_windows == pre.pending_windows
    &&& post.pending_layers == pre.pending_layers
    &&& post.popups == pre.popups
    &&& post.elements == pre.elements
    &&& post.visibility == pre.visibility
    &&& post.workspace_assocs == pre.workspace_assocs
}

/// Shell delta of a commit that mapped a pending layer surface and
/// stopped: flags set, the surface now owned by its output's layer stack
/// and visible there, the pending record gone.
pub open spec fn stopped_shell_layer(
    pre: Shell,
    post: Shell,
    surface: SurfaceId,
    has_buffer: bool,
) -> bool {
    let ix = pre.pending_layer_ix(surface);
    let pl = pre.pending_layers@[ix];
    &&& post.surfaces@ == pre.surfaces@.update(
        surface as int,
        layer_mapped(buffered(pre.surfaces@[surface as int], has_buffer), pl.output),
    )
    &&& post.pending_layers@ == pre.pending_layers@.remove(ix)
    &&& post.visibility@ == pre.visibility@.push(SurfaceOutput { surface, output: pl.output })
    &&& post.outputs == pre.outputs
    &&& post.workspaces == pre.workspaces
    &&& post.pending_windows == pre.pending_windows
    &&& post.popups == pre.popups
    &&& post.elements == pre.elements
    &&& post.workspace_assocs == pre.workspace_assocs
}

/// Shell delta and result of mapping a pending toplevel: the record
/// leaves, a fresh element holding only this surface appears on the
/// seat output's active workspace, and the surface becomes visible on,
/// and associated with, that output. The fresh element is the one the
/// window-scope pass then finds; its capture queue is empty, so no
/// window capture is scheduled.
pub open spec fn mapped_toplevel_post(
    pre: Shell,
    post: Shell,
    surface: SurfaceId,
    has_buffer: bool,
    r: CommitResult,
) -> bool {
    let ix = pre.pending_window_ix(surface);
    let pw = pre.pending_windows@[ix];
    let ws = pre.outputs@[pw.seat_output as int].active_space;
    &&& r.mapped_window == Some(pw.seat_output)
    &&& post.surfaces@ == pre.surfaces@.update(
        surface as int,
        configured(buffered(pre.surfaces@[surface as int], has_buffer)),
    )
    &&& post.pending_windows@ == pre.pending_windows@.remove(ix)
    &&& post.visibility@ == pre.visibility@.push(
        SurfaceOutput { surface, output: pw.seat_output },
    )
    &&& post.workspace_assocs@ == pre.workspace_assocs@.push(
        SurfaceWorkspace { surface, workspace: ws, output: pw.seat_output },
    )
    &&& post.elements@.len() == pre.elements@.len() + 1
    &&& (forall|j: int|
        0 <= j < pre.elements@.len() ==> #[trigger] post.elements@[j] == pre.elements@[j])
    &&& post.elements@.last().surfaces@ == seq![surface]
    &&& post.elements@.last().active_surface == surface
    &&& post.elements@.last().workspace == ws
    &&& post.elements@.last().pending_window_captures@.len() == 0
    &&& r.space_commit == Some(ws)
    &&& r.window_captures@.len() == 0
    &&& post.pending_layers == pre.pending_layers
    &&& post.popups == pre.popups
}

/// Result of the window-scope pass of a commit whose surface was already
/// mapped (or belongs to no element): the first owning element is
/// notified through its workspace; if the committed surface is the
/// element's active window, every pending window capture is drained into
/// a deferred task.
pub open spec fn window_scope_post(
    pre: Shell,
    post: Shell,
    surface: SurfaceId,
    r: CommitResult,
) -> bool {
    if pre.has_element_for(surface) {
        let ei = pre.element_ix(surface);
        let el = pre.elements@[ei];
        &&& r.space_commit == Some(el.workspace)
        &&& post.elements@.len() == pre.elements@.len()
        &&& (forall|j: int|
            0 <= j < pre.elements@.len() && j != ei ==> #[trigger] post.elements@[j]
                == pre.elements@[j])
        &&& if el.active_surface == surface {
            &&& r.window_captures@.len() == el.pending_window_captures@.len()
            &&& (forall|k: int|
                0 <= k < r.window_captures@.len() ==> #[trigger] r.window_captures@[k]
                    == (DeferredWindowCapture {
                    entry: el.pending_window_captures@[k],
                    element: ei as usize,
                }))
            &&& post.elements@[ei].surfaces@ == el.surfaces@
            &&& post.elements@[ei].active_surface == el.active_surface
            &&& post.elements@[ei].workspace == el.workspace
            &&& post.elements@[ei].pending_window_captures@.len() == 0
        } else {
            &&& post.elements@[ei] == pre.elements@[ei]
            &&& r.window_captures@.len() == 0
        }
    } else {
        &&& post.elements == pre.elements
        &&& r.space_commit is None
        &&& r.window_captures@.len() == 0
    }
}

/// Results of the downstream phases of a completed commit: the popup
/// configure, the deduplicated GPU imports over the surface's visible
/// outputs, the layer re-arrangement, the workspace-scope screencopy
/// pass, and one render request per visible output.
pub open spec fn completed_post(
    pre: Shell,
    post: Shell,
    nodes: Seq<Option<NodeId>>,
    surface: SurfaceId,
    r: CommitResult,
) -> bool {
    let scan = workspace_scan(
        queue_views(pre.workspaces@),
        post.assoc_seq(surface),
        pre.active_spaces_seq(),
    );
    let plan = render_scan(
        output_queue_views(pre.outputs@),
        presence_flags(pre.outputs@),
        post.visible_seq(surface),
        scan.batch,
        scan.batch.len() > 0,
    );
    &&& r.popup_configure_sent == (pre.is_popup(surface)
        && !pre.surfaces@[surface as int].initial_configure_sent)
    &&& r.imports@.no_duplicates()
    &&& (forall|n: NodeId| #[trigger]
        r.imports@.contains(n) <==> node_is_visible(post.visible_seq(surface), nodes, n))
    &&& r.arrange_output == post.surfaces@[surface as int].layer_output
    &&& queue_views(post.workspaces@) == scan.queues
    &&& post.workspaces@.len() == pre.workspaces@.len()
    &&& (forall|w: int|
        0 <= w < pre.workspaces@.len() ==> (#[trigger] post.workspaces@[w]).output
            == pre.workspaces@[w].output)
    &&& r.frame_batch@ == scan.batch
    &&& r.workspace_captures@ == scan.deferred
    &&& output_queue_views(post.outputs@) == plan.queues
    &&& post.outputs@.len() == pre.outputs@.len()
    &&& (forall|o: int|
        0 <= o < pre.outputs@.len() ==> (#[trigger] post.outputs@[o]).active_space
            == pre.outputs@[o].active_space && post.outputs@[o].capture_queue_present
            == pre.outputs@[o].capture_queue_present)
    &&& r.renders@.len() == plan.requests.len()
    &&& (forall|k: int|
        0 <= k < plan.requests.len() ==> (#[trigger] r.renders@[k]).output
            == plan.requests[k].output)
    &&& (forall|k: int|
        0 <= k < plan.requests.len() ==> ((#[trigger] r.renders@[k]).sessions is Some
            <==> plan.requests[k].attached is Some))
    &&& (forall|k: int|
        0 <= k < plan.requests.len() ==> ((#[trigger] r.renders@[k]).sessions matches Some(v)
            ==> plan.requests[k].attached matches Some(sq) && v@ == sq))
}

/// An exec-found pending-window index is the spec-chosen one.
proof fn lemma_pending_window_ix_is(s: Shell, surface: SurfaceId, ix: int)
    requires
        s.wf(),
        0 <= ix < s.pending_windows@.len(),
        s.pending_windows@[ix].surface == surface,
    ensures
        s.pending_window_ix(surface) == ix,
{
    assert(s.has_pending_window(surface));
    let ci = s.pending_window_ix(surface);
    assert(0 <= ci < s.pending_windows@.len() && s.pending_windows@[ci].surface == surface);
    if ci < ix {
        assert(s.pending_windows@[ci].surface != s.pending_windows@[ix].surface);
    }
    if ix < ci {
        assert(s.pending_windows@[ix].surface != s.pending_windows@[ci].surface);
    }
}

/// An exec-found pending-layer index is the spec-chosen one.
proof fn lemma_pending_layer_ix_is(s: Shell, surface: SurfaceId, ix: int)
    requires
        s.wf(),
        0 <= ix < s.pending_layers@.len(),
        s.pending_layers@[ix].surface == surface,
    ensures
        s.pending_layer_ix(surface) == ix,
{
    assert(s.has_pending_layer(surface));
    let ci = s.pending_layer_ix(surface);
    assert(0 <= ci < s.pending_layers@.len() && s.pending_layers@[ci].surface == surface);
    if ci < ix {
        assert(s.pending_layers@[ci].surface != s.pending_layers@[ix].surface);
    }
    if ix < ci {
        assert(s.pending_layers@[ix].surface != s.pending_layers@[ci].surface);
    }
}

/// Unfolds one step of [`workspace_scan`] at position `k` of the
/// association list.
proof fn lemma_workspace_scan_step(
    qs: Seq<Seq<PendingCapture>>,
    assocs: Seq<SurfaceWorkspace>,
    active: Seq<ActiveSpace>,
    k: int,
)
    requires
        0 <= k < assocs.len(),
    ensures
        ({
            let first = scan_one(qs, assocs[k], active);
            let rest = workspace_scan(first.queues, assocs.skip(k + 1), active);
            &&& workspace_scan(qs, assocs.skip(k), active).queues == rest.queues
            &&& workspace_scan(qs, assocs.skip(k), active).batch == first.batch + rest.batch
            &&& workspace_scan(qs, assocs.skip(k), active).deferred == first.deferred
                + rest.deferred
        }),
{
    let s = assocs.skip(k);
    assert(s.len() == assocs.len() - k);
    assert(s[0] == assocs[k]);
    assert(s.drop_first() =~= assocs.skip(k + 1));
}

/// Unfolds one step of [`render_scan`] at position `k` of the visible
/// output list.
proof fn lemma_render_scan_step(
    qs: Seq<Seq<PendingCapture>>,
    present: Seq<bool>,
    visible: Seq<OutputId>,
    acc: Seq<PendingCapture>,
    materialized: bool,
    k: int,
)
    requires
        0 <= k < visible.len(),
    ensures
        ({
            let o = visible[k];
            let has_queue = 0 <= o < qs.len() && present[o as int];
            let acc1 = if has_queue {
                acc + qs[o as int]
            } else {
                acc
            };
            let mat1 = materialized || has_queue;
            let qs1 = if has_queue {
                qs.update(o as int, Seq::<PendingCapture>::empty())
            } else {
                qs
            };
            let req = RenderPlanEntry {
                output: o,
                attached: if mat1 {
                    Some(acc1.filter(|e: PendingCapture| targets_output(e, o)))
                } else {
                    None
                },
            };
            let rest = render_scan(qs1, present, visible.skip(k + 1), acc1, mat1);
            &&& render_scan(qs, present, visible.skip(k), acc, materialized).queues == rest.queues
            &&& render_scan(qs, present, visible.skip(k), acc, materialized).acc == rest.acc
            &&& render_scan(qs, present, visible.skip(k), acc, materialized).materialized
                == rest.materialized
            &&& render_scan(qs, present, visible.skip(k), acc, materialized).requests == seq![req]
                + rest.requests
        }),
{
    let s = visible.skip(k);
    assert(s.len() == visible.len() - k);
    assert(s[0] == visible[k]);
    assert(s.drop_first() =~= visible.skip(k + 1));
}

/// Appends one deferred workspace-capture task per drained entry, tagged
/// with the `(output, workspace)` pair that was scanned.
fn push_deferred(
    dst: &mut Vec<DeferredWorkspaceCapture>,
    entries: &Vec<PendingCapture>,
    output: OutputId,
    workspace: WorkspaceHandle,
)
    ensures
        final(dst)@ == old(dst)@ + entries@.map_values(
            |e: PendingCapture| DeferredWorkspaceCapture { entry: e, output, workspace },
        ),
{
    let ghost base = dst@;
    let ghost f = |e: PendingCapture| DeferredWorkspaceCapture { entry: e, output, workspace };
    let mut i: usize = 0;
    while i < entries.len()
        invariant
            i <= entries.len(),
            dst@ == base + entries@.subrange(0, i as int).map_values(f),
            f == (|e: PendingCapture| DeferredWorkspaceCapture { entry: e, output, workspace }),
        decreases entries.len() - i,
    {
        dst.push(DeferredWorkspaceCapture { entry: entries[i], output, workspace });
        proof {
            assert(dst@ =~= base + entries@.subrange(0, i as int + 1).map_values(f));
        }
        i += 1;
    }
    proof {
        assert(entries@.subrange(0, entries@.len() as int) =~= entries@);
    }
}


/// An exec-found first element index is the spec-chosen one.
proof fn lemma_element_ix_is(s: Shell, surface: SurfaceId, ix: int)
    requires
        0 <= ix < s.elements@.len(),
        s.elements@[ix].surfaces@.contains(surface),
        forall|j: int| 0 <= j < ix ==> !(#[trigger] s.elements@[j]).surfaces@.contains(surface),
    ensures
        s.element_ix(surface) == ix,
{
    let ci = s.element_ix(surface);
    assert(0 <= ci < s.elements@.len() && s.elements@[ci].surfaces@.contains(surface) && forall|
        j: int,
    | 0 <= j < ci ==> !(#[trigger] s.elements@[j]).surfaces@.contains(surface));
    if ci < ix {
        assert(!s.elements@[ci].surfaces@.contains(surface));
    }
    if ix < ci {
        assert(!s.elements@[ix].surfaces@.contains(surface));
    }
}

impl State {
    /// The single entry point run for every surface commit, in a fixed
    /// total order of effects: record the attached buffer; gate a
    /// pending toplevel on "configure acknowledged and buffer present"
    /// and map it onto the seat's active output, else stop; map a
    /// pending layer surface on demand and stop on its first configure;
    /// fire a pending popup's configure; notify the owning element's
    /// workspace and drain its window-scope captures; import the buffer
    /// once per distinct render node of the visible outputs; re-arrange
    /// the layer stack of the surface's layer output; run the
    /// workspace-scope screencopy pass; and plan one render per visible
    /// output, draining each output's own pending captures into the
    /// batch along the way.
    #[verifier::rlimit(100)]
    #[verifier::loop_isolation(false)]
    pub fn commit(&mut self, surface: SurfaceId, has_buffer: bool) -> (r: CommitResult)
        requires
            old(self).shell.wf(),
            surface < old(self).shell.surfaces@.len(),
        ensures
            final(self).shell.wf(),
            final(self).nodes == old(self).nodes,
            final(self).shell.surfaces@.len() == old(self).shell.surfaces@.len(),
            forall|t: int|
                0 <= t < old(self).shell.surfaces@.len() && t != surface ==> final(self).shell.surfaces@[t] == old(self).shell.surfaces@[t],
            final(self).shell.surfaces@[surface as int].role == old(self).shell.surfaces@[surface as int].role,
            final(self).shell.surfaces@[surface as int].buffer_present == has_buffer,
            old(self).shell.surfaces@[surface as int].initial_configure_sent ==> final(self).shell.surfaces@[surface as int].initial_configure_sent,
            final(self).shell.popups == old(self).shell.popups,
            r.toplevel_configure_sent == (old(self).shell.has_pending_window(surface)
                && tracker_sends(old(self).shell.surfaces@[surface as int])),
            r.layer_mapped == (old(self).shell.has_pending_layer(surface) && tracker_sends(
                old(self).shell.surfaces@[surface as int],
            )),
            r.completed == (!(old(self).shell.has_pending_window(surface) && !(old(self).shell.surfaces@[surface as int].initial_configure_sent && has_buffer)) && !(old(self).shell.has_pending_layer(surface) && tracker_sends(
                old(self).shell.surfaces@[surface as int],
            ))),
            !r.completed ==> !r.popup_configure_sent,
            old(self).shell.has_pending_window(surface) && !(old(self).shell.surfaces@[surface as int].initial_configure_sent && has_buffer) ==> (
            stopped_shell_toplevel(old(self).shell, final(self).shell, surface, has_buffer)
                && no_work(r)),
            old(self).shell.has_pending_window(surface) && old(self).shell.surfaces@[surface as int].initial_configure_sent && has_buffer
                ==> mapped_toplevel_post(
                old(self).shell,
                final(self).shell,
                surface,
                has_buffer,
                r,
            ),
            !old(self).shell.has_pending_window(surface) ==> (r.mapped_window is None && final(self).shell.pending_windows == old(self).shell.pending_windows),
            old(self).shell.has_pending_layer(surface) && tracker_sends(
                old(self).shell.surfaces@[surface as int],
            ) ==> (stopped_shell_layer(old(self).shell, final(self).shell, surface, has_buffer)
                && no_work(r)),
            !(old(self).shell.has_pending_layer(surface) && tracker_sends(
                old(self).shell.surfaces@[surface as int],
            )) ==> final(self).shell.pending_layers == old(self).shell.pending_layers,
            r.completed && !old(self).shell.has_pending_window(surface) ==> {
                &&& final(self).shell.surfaces@ == old(self).shell.surfaces@.update(
                    surface as int,
                    if old(self).shell.is_popup(surface) {
                        configured(buffered(old(self).shell.surfaces@[surface as int], has_buffer))
                    } else {
                        buffered(old(self).shell.surfaces@[surface as int], has_buffer)
                    },
                )
                &&& final(self).shell.visibility == old(self).shell.visibility
                &&& final(self).shell.workspace_assocs == old(self).shell.workspace_assocs
                &&& window_scope_post(old(self).shell, final(self).shell, surface, r)
            },
            r.completed ==> completed_post(
                old(self).shell,
                final(self).shell,
                old(self).nodes@,
                surface,
                r,
            ),
    {
        let ghost pre = old(self).shell;
        let ghost e0 = pre.surfaces@[surface as int];

        // Step 1: the committed buffer becomes the renderer-visible one.
        let ecur = self.shell.surfaces[surface];
        self.shell.surfaces.set(surface, SurfaceEntry { buffer_present: has_buffer, ..ecur });
        proof {
            lemma_flag_update_preserves_wf(pre, self.shell, surface);
        }

        let mut r = CommitResult {
            toplevel_configure_sent: false,
            layer_mapped: false,
            popup_configure_sent: false,
            mapped_window: None,
            completed: false,
            space_commit: None,
            window_captures: Vec::new(),
            imports: Vec::new(),
            arrange_output: None,
            frame_batch: Vec::new(),
            workspace_captures: Vec::new(),
            renders: Vec::new(),
        };

        // Step 2: the initial-configure gate of a pending toplevel.
        // Mapping needs the configure acknowledged and a real buffer;
        // anything less stops the whole commit here.
        match self.shell.find_pending_window(surface) {
            Some(ix) => {
                proof {
                    lemma_pending_window_ix_is(pre, surface, ix as int);
                    if pre.has_pending_layer(surface) {
                        let lj = choose|j: int|
                            0 <= j < pre.pending_layers@.len() && (
                            #[trigger] pre.pending_layers@[j]).surface == surface;
                        assert(pre.surfaces@[surface as int].role == crate::types::Role::Toplevel);
                        assert(false);
                    }
                    if pre.is_popup(surface) {
                        let pj = choose|j: int|
                            0 <= j < pre.popups@.len() && (#[trigger] pre.popups@[j]) == surface;
                        assert(pre.surfaces@[pre.popups@[pj] as int].role
                            == crate::types::Role::Popup);
                        assert(false);
                    }
                }
                let pw = self.shell.pending_windows[ix];
                let sent_before = self.toplevel_ensure_initial_configure(surface);
                r.toplevel_configure_sent = !sent_before;
                proof {
                    assert(self.shell.surfaces@ =~= pre.surfaces@.update(
                        surface as int,
                        configured(buffered(e0, has_buffer)),
                    ));
                }
                if sent_before && has_buffer {
                    self.map_window(surface, ix);
                    r.mapped_window = Some(pw.seat_output);
                } else {
                    return r;
                }
            },
            None => {},
        }

        // Step 3: a pending layer surface is mapped on demand — its
        // first configure cannot be sent before arranging gives it a
        // size — and the commit stops on the mapping one.
        match self.shell.find_pending_layer(surface) {
            Some(ix) => {
                proof {
                    lemma_pending_layer_ix_is(pre, surface, ix as int);
                    if pre.is_popup(surface) {
                        let pj = choose|j: int|
                            0 <= j < pre.popups@.len() && (#[trigger] pre.popups@[j]) == surface;
                        assert(pre.surfaces@[pre.popups@[pj] as int].role
                            == crate::types::Role::Popup);
                        assert(false);
                    }
                }
                let sent_before = self.layer_surface_ensure_initial_configure(surface, ix);
                if !sent_before {
                    r.layer_mapped = true;
                    proof {
                        assert(self.shell.surfaces@ =~= pre.surfaces@.update(
                            surface as int,
                            layer_mapped(
                                buffered(e0, has_buffer),
                                pre.pending_layers@[ix as int].output,
                            ),
                        ));
                    }
                    return r;
                }
            },
            None => {},
        }

        // Step 4: a popup's first configure is fire-and-forget; it
        // gates nothing downstream.
        let popup_here = self.shell.find_popup(surface);
        if popup_here {
            let sent_before = self.xdg_popup_ensure_initial_configure(surface);
            r.popup_configure_sent = !sent_before;
            proof {
                assert(self.shell.surfaces@ =~= pre.surfaces@.update(
                    surface as int,
                    configured(buffered(e0, has_buffer)),
                ));
            }
        }

        // Step 5: an already-mapped element absorbs the commit — resize
        // bookkeeping and workspace notification — and, if this surface
        // is its active window, every window-scope capture pending on it
        // becomes a deferred render task.
        let ghost mapped_here = pre.has_pending_window(surface);
        match self.shell.element_for_surface(surface) {
            Some(ei) => {
                proof {
                    if mapped_here {
                        let wix = pre.pending_window_ix(surface);
                        assert forall|j: int|
                            0 <= j < pre.elements@.len() implies !(
                        #[trigger] self.shell.elements@[j]).surfaces@.contains(surface) by {
                            assert(self.shell.elements@[j] == pre.elements@[j]);
                            assert(!pre.elements@[j].surfaces@.contains(
                                pre.pending_windows@[wix].surface,
                            ));
                        }
                        assert(ei as int == pre.elements@.len());
                    }
                }
                let ws = self.shell.elements[ei].workspace;
                r.space_commit = Some(ws);
                let active_here = self.shell.elements[ei].active_surface == surface;
                if active_here {
                    r.window_captures = self.drain_element_captures(ei);
                }
            },
            None => {
                proof {
                    if mapped_here {
                        assert(self.shell.elements@.last().surfaces@ == seq![surface]);
                        assert(self.shell.elements@.last().surfaces@[0] == surface);
                        assert(self.shell.elements@.last().surfaces@.contains(surface));
                        assert((exists|j: int|
                            0 <= j < self.shell.elements@.len() && (
                            #[trigger] self.shell.elements@[j]).surfaces@.contains(surface)));
                        assert(false);
                    }
                }
            },
        }

        // Step 6: import the buffer once per distinct render node among
        // the outputs the surface is now visible on. This must follow
        // every mapping above: visibility is well defined only post-map.
        r.imports = self.early_import_surface(surface);

        // Step 8: a commit can change a layer surface's requested size
        // or anchor, so its output's layer stack is re-arranged.
        r.arrange_output = self.shell.surfaces[surface].layer_output;

        // Step 9: the workspace-scope screencopy pass, one stable
        // partition per (workspace, output) pair the surface
        // contributes to.
        let active = self.shell.active_spaces();
        let assocs = self.shell.workspaces_for_surface(surface);
        let (frame_batch, workspace_captures) = self.run_workspace_pass(&assocs, &active);
        r.frame_batch = frame_batch;
        r.workspace_captures = workspace_captures;

        // Step 10: one render request per output the surface is visible
        // on, draining each output's own pending captures into the
        // batch along the way.
        let visible = self.shell.visible_outputs_for_surface(surface);
        r.renders = self.run_render_pass(&visible, &r.frame_batch);

        proof {
            if pre.has_pending_window(surface) {
                let wix = pre.pending_window_ix(surface);
                let pw2 = pre.pending_windows@[wix];
                let ws2 = pre.outputs@[pw2.seat_output as int].active_space;
                assert(self.shell.elements@.len() == pre.elements@.len() + 1);
                assert(self.shell.elements@.last().workspace == ws2);
                assert(r.space_commit == Some(ws2));
            }
        }
        r.completed = true;
        return r;
    }
}


impl State {
    /// The workspace-scope screencopy pass: scans, for each
    /// `(workspace, output)` pair in order, that workspace's pending
    /// queue as one stable partition, retaining untouched entries in
    /// place; returns the "render with this frame" batch and the
    /// deferred offscreen capture tasks, in discovery order.
    #[verifier::rlimit(100)]
    #[verifier::loop_isolation(false)]
    fn run_workspace_pass(
        &mut self,
        assocs: &Vec<SurfaceWorkspace>,
        active: &Vec<ActiveSpace>,
    ) -> (res: (Vec<PendingCapture>, Vec<DeferredWorkspaceCapture>))
        requires
            old(self).shell.wf(),
            active@ == old(self).shell.active_spaces_seq(),
            forall|m: int|
                0 <= m < assocs@.len() ==> (#[trigger] assocs@[m]).workspace < old(self).shell.workspaces@.len() && assocs@[m].output < old(self).shell.outputs@.len(),
        ensures
            final(self).shell.wf(),
            final(self).shell.surfaces == old(self).shell.surfaces,
            final(self).shell.outputs == old(self).shell.outputs,
            final(self).shell.pending_windows == old(self).shell.pending_windows,
            final(self).shell.pending_layers == old(self).shell.pending_layers,
            final(self).shell.popups == old(self).shell.popups,
            final(self).shell.elements == old(self).shell.elements,
            final(self).shell.visibility == old(self).shell.visibility,
            final(self).shell.workspace_assocs == old(self).shell.workspace_assocs,
            final(self).nodes == old(self).nodes,
            final(self).shell.workspaces@.len() == old(self).shell.workspaces@.len(),
            forall|w: int|
                0 <= w < old(self).shell.workspaces@.len() ==> (#[trigger] final(self).shell.workspaces@[w]).output == old(self).shell.workspaces@[w].output,
            ({
                let scan = workspace_scan(
                    queue_views(old(self).shell.workspaces@),
                    assocs@,
                    old(self).shell.active_spaces_seq(),
                );
                &&& queue_views(final(self).shell.workspaces@) == scan.queues
                &&& res.0@ == scan.batch
                &&& res.1@ == scan.deferred
            }),
    {
        let ghost sh9 = self.shell;
        let ghost active0 = sh9.active_spaces_seq();
        let ghost qs9 = queue_views(sh9.workspaces@);
        let ghost full = workspace_scan(qs9, assocs@, active0);
        let mut frame_batch: Vec<PendingCapture> = Vec::new();
        let mut deferred_tasks: Vec<DeferredWorkspaceCapture> = Vec::new();
        proof {
            assert(assocs@.skip(0) =~= assocs@);
            assert(frame_batch@ + full.batch =~= full.batch);
            assert(deferred_tasks@ + full.deferred =~= full.deferred);
        }
        let mut k: usize = 0;
        while k < assocs.len()
            invariant
                k <= assocs.len(),
                self.shell.wf(),
                active@ == active0,
                self.shell.surfaces == sh9.surfaces,
                self.shell.outputs == sh9.outputs,
                self.shell.pending_windows == sh9.pending_windows,
                self.shell.pending_layers == sh9.pending_layers,
                self.shell.popups == sh9.popups,
                self.shell.elements == sh9.elements,
                self.shell.visibility == sh9.visibility,
                self.shell.workspace_assocs == sh9.workspace_assocs,
                self.nodes == old(self).nodes,
                self.shell.workspaces@.len() == sh9.workspaces@.len(),
                forall|w: int|
                    0 <= w < sh9.workspaces@.len() ==> (#[trigger] self.shell.workspaces@[w]).output
                        == sh9.workspaces@[w].output,
                forall|m: int|
                    0 <= m < assocs@.len() ==> (#[trigger] assocs@[m]).workspace
                        < self.shell.workspaces@.len() && assocs@[m].output
                        < self.shell.outputs@.len(),
                ({
                    let tail = workspace_scan(
                        queue_views(self.shell.workspaces@),
                        assocs@.skip(k as int),
                        active0,
                    );
                    &&& full.queues == tail.queues
                    &&& full.batch == frame_batch@ + tail.batch
                    &&& full.deferred == deferred_tasks@ + tail.deferred
                }),
            decreases assocs.len() - k,
        {
            let a = assocs[k];
            let ghost qs_cur = queue_views(self.shell.workspaces@);
            let ghost batch_pre = frame_batch@;
            let ghost def_pre = deferred_tasks@;
            let q = copy_captures(&self.shell.workspaces[a.workspace].pending_buffers);
            proof {
                assert(q@ == qs_cur[a.workspace as int]);
                assert forall|m: int|
                    0 <= m < q@.len() implies crate::types::is_workspace_session(
                    (#[trigger] q@[m]).session.session_type,
                ) by {
                    assert(crate::types::is_workspace_session(
                        self.shell.workspaces@[a.workspace as int].pending_buffers@[m].session.session_type,
                    ));
                }
            }
            let part = partition_pending(q, active, a.output, a.workspace);
            let outfield = self.shell.workspaces[a.workspace].output;
            let ghost shell_mid9 = self.shell;
            self.shell.workspaces.set(
                a.workspace,
                Workspace { output: outfield, pending_buffers: part.kept },
            );
            let mut moved_batch = part.batch;
            frame_batch.append(&mut moved_batch);
            push_deferred(&mut deferred_tasks, &part.deferred, a.output, a.workspace);
            proof {
                lemma_queue_update_preserves_wf(shell_mid9, self.shell);
                let s1 = scan_one(qs_cur, a, active0);
                assert(queue_views(self.shell.workspaces@) =~= s1.queues);
                assert(part.batch@ == s1.batch);
                let defmap = part.deferred@.map_values(
                    |e: PendingCapture| DeferredWorkspaceCapture {
                        entry: e,
                        output: a.output,
                        workspace: a.workspace,
                    },
                );
                assert(defmap =~= s1.deferred);
                lemma_workspace_scan_step(qs_cur, assocs@, active0, k as int);
                let tail_new = workspace_scan(
                    queue_views(self.shell.workspaces@),
                    assocs@.skip(k as int + 1),
                    active0,
                );
                assert(batch_pre + (s1.batch + tail_new.batch) =~= (batch_pre + s1.batch)
                    + tail_new.batch);
                assert(def_pre + (s1.deferred + tail_new.deferred) =~= (def_pre + s1.deferred)
                    + tail_new.deferred);
                assert(full.batch == frame_batch@ + tail_new.batch);
                assert(full.deferred == deferred_tasks@ + tail_new.deferred);
            }
            k += 1;
        }
        proof {
            assert(assocs@.skip(assocs@.len() as int) =~= Seq::<SurfaceWorkspace>::empty());
            assert(full.batch =~= frame_batch@);
            assert(full.deferred =~= deferred_tasks@);
        }
        (frame_batch, deferred_tasks)
    }

    /// The render pass: plans one render request per output the surface
    /// is visible on, in order, draining each installed output-scoped
    /// capture queue into the running batch; every request attaches the
    /// accumulated entries targeting its output, or nothing when no
    /// capture bookkeeping was touched at all.
    #[verifier::rlimit(100)]
    #[verifier::loop_isolation(false)]
    fn run_render_pass(&mut self, visible: &Vec<OutputId>, batch: &Vec<PendingCapture>) -> (renders:
        Vec<RenderRequest>)
        requires
            old(self).shell.wf(),
            forall|m: int|
                0 <= m < visible@.len() ==> #[trigger] visible@[m] < old(self).shell.outputs@.len(),
        ensures
            final(self).shell.wf(),
            final(self).shell.surfaces == old(self).shell.surfaces,
            final(self).shell.workspaces == old(self).shell.workspaces,
            final(self).shell.pending_windows == old(self).shell.pending_windows,
            final(self).shell.pending_layers == old(self).shell.pending_layers,
            final(self).shell.popups == old(self).shell.popups,
            final(self).shell.elements == old(self).shell.elements,
            final(self).shell.visibility == old(self).shell.visibility,
            final(self).shell.workspace_assocs == old(self).shell.workspace_assocs,
            final(self).nodes == old(self).nodes,
            final(self).shell.outputs@.len() == old(self).shell.outputs@.len(),
            forall|o: int|
                0 <= o < old(self).shell.outputs@.len() ==> (#[trigger] final(self).shell.outputs@[o]).active_space == old(self).shell.outputs@[o].active_space
                    && final(self).shell.outputs@[o].capture_queue_present == old(self).shell.outputs@[o].capture_queue_present,
            ({
                let plan = render_scan(
                    output_queue_views(old(self).shell.outputs@),
                    presence_flags(old(self).shell.outputs@),
                    visible@,
                    batch@,
                    batch@.len() > 0,
                );
                &&& output_queue_views(final(self).shell.outputs@) == plan.queues
                &&& renders@.len() == plan.requests.len()
                &&& (forall|m: int|
                    0 <= m < plan.requests.len() ==> (#[trigger] renders@[m]).output
                        == plan.requests[m].output)
                &&& (forall|m: int|
                    0 <= m < plan.requests.len() ==> ((#[trigger] renders@[m]).sessions is Some
                        <==> plan.requests[m].attached is Some))
                &&& (forall|m: int|
                    0 <= m < plan.requests.len() ==> ((#[trigger] renders@[m]).sessions matches Some(
                        v,
                    ) ==> plan.requests[m].attached matches Some(sq) && v@ == sq))
            }),
    {
        let ghost sh10 = self.shell;
        let ghost oq0 = output_queue_views(sh10.outputs@);
        let ghost pres0 = presence_flags(sh10.outputs@);
        let ghost plan = render_scan(oq0, pres0, visible@, batch@, batch@.len() > 0);
        let mut renders: Vec<RenderRequest> = Vec::new();
        let mut acc = copy_captures(batch);
        let mut some_batch = batch.len() > 0;
        let ghost mut reqs_done: Seq<RenderPlanEntry> = Seq::empty();
        proof {
            assert(visible@.skip(0) =~= visible@);
            assert(reqs_done + plan.requests =~= plan.requests);
        }
        let mut k2: usize = 0;
        while k2 < visible.len()
            invariant
                k2 <= visible.len(),
                self.shell.wf(),
                self.shell.surfaces == sh10.surfaces,
                self.shell.workspaces == sh10.workspaces,
                self.shell.pending_windows == sh10.pending_windows,
                self.shell.pending_layers == sh10.pending_layers,
                self.shell.popups == sh10.popups,
                self.shell.elements == sh10.elements,
                self.shell.visibility == sh10.visibility,
                self.shell.workspace_assocs == sh10.workspace_assocs,
                self.nodes == old(self).nodes,
                self.shell.outputs@.len() == sh10.outputs@.len(),
                forall|o: int|
                    0 <= o < sh10.outputs@.len() ==> (#[trigger] self.shell.outputs@[o]).active_space
                        == sh10.outputs@[o].active_space
                        && self.shell.outputs@[o].capture_queue_present
                        == sh10.outputs@[o].capture_queue_present,
                forall|m: int|
                    0 <= m < visible@.len() ==> #[trigger] visible@[m] < sh10.outputs@.len(),
                renders@.len() == reqs_done.len(),
                forall|m: int|
                    0 <= m < reqs_done.len() ==> (#[trigger] renders@[m]).output
                        == reqs_done[m].output,
                forall|m: int|
                    0 <= m < reqs_done.len() ==> ((#[trigger] renders@[m]).sessions is Some
                        <==> reqs_done[m].attached is Some),
                forall|m: int|
                    0 <= m < reqs_done.len() ==> ((#[trigger] renders@[m]).sessions matches Some(v)
                        ==> reqs_done[m].attached matches Some(sq) && v@ == sq),
                ({
                    let tail = render_scan(
                        output_queue_views(self.shell.outputs@),
                        pres0,
                        visible@.skip(k2 as int),
                        acc@,
                        some_batch,
                    );
                    &&& plan.queues == tail.queues
                    &&& plan.requests == reqs_done + tail.requests
                }),
            decreases visible.len() - k2,
        {
            let o = visible[k2];
            let ghost oq_cur = output_queue_views(self.shell.outputs@);
            let ghost acc_pre = acc@;
            let ghost some_pre = some_batch;
            let present = self.shell.outputs[o].capture_queue_present;
            proof {
                assert(visible@[k2 as int] == o);
                assert(o < sh10.outputs@.len());
                assert(pres0[o as int] == sh10.outputs@[o as int].capture_queue_present);
                assert(pres0[o as int] == present);
            }
            if present {
                let mut drained = copy_captures(&self.shell.outputs[o].pending_captures);
                let sp = self.shell.outputs[o].active_space;
                let ghost shell_mid10 = self.shell;
                self.shell.outputs.set(
                    o,
                    Output {
                        active_space: sp,
                        capture_queue_present: true,
                        pending_captures: Vec::new(),
                    },
                );
                acc.append(&mut drained);
                some_batch = true;
                proof {
                    lemma_queue_update_preserves_wf(shell_mid10, self.shell);
                    assert(output_queue_views(self.shell.outputs@) =~= oq_cur.update(
                        o as int,
                        Seq::<PendingCapture>::empty(),
                    ));
                    assert(acc@ == acc_pre + oq_cur[o as int]);
                }
            }
            let attach: Option<Vec<PendingCapture>> = if some_batch {
                Some(filter_for_output(&acc, o))
            } else {
                None
            };
            renders.push(RenderRequest { output: o, sessions: attach });
            proof {
                lemma_render_scan_step(oq_cur, pres0, visible@, acc_pre, some_pre, k2 as int);
                let req = RenderPlanEntry {
                    output: o,
                    attached: if some_batch {
                        Some(acc@.filter(|e: PendingCapture| targets_output(e, o)))
                    } else {
                        None
                    },
                };
                reqs_done = reqs_done.push(req);
                let tail_new = render_scan(
                    output_queue_views(self.shell.outputs@),
                    pres0,
                    visible@.skip(k2 as int + 1),
                    acc@,
                    some_batch,
                );
                assert(reqs_done.drop_last() + (seq![req] + tail_new.requests) =~= reqs_done
                    + tail_new.requests);
                assert(plan.requests == reqs_done + tail_new.requests);
            }
            k2 += 1;
        }
        proof {
            assert(visible@.skip(visible@.len() as int) =~= Seq::<OutputId>::empty());
            assert(plan.requests =~= reqs_done);
        }
        renders
    }
}


impl State {
    /// Drains every window-scope capture pending on the element into a
    /// deferred render task per entry, in queue order, leaving the
    /// element otherwise untouched.
    fn drain_element_captures(&mut self, ei: usize) -> (drained: Vec<DeferredWindowCapture>)
        requires
            old(self).shell.wf(),
            ei < old(self).shell.elements@.len(),
        ensures
            final(self).shell.wf(),
            final(self).shell.surfaces == old(self).shell.surfaces,
            final(self).shell.outputs == old(self).shell.outputs,
            final(self).shell.workspaces == old(self).shell.workspaces,
            final(self).shell.pending_windows == old(self).shell.pending_windows,
            final(self).shell.pending_layers == old(self).shell.pending_layers,
            final(self).shell.popups == old(self).shell.popups,
            final(self).shell.visibility == old(self).shell.visibility,
            final(self).shell.workspace_assocs == old(self).shell.workspace_assocs,
            final(self).nodes == old(self).nodes,
            final(self).shell.elements@.len() == old(self).shell.elements@.len(),
            forall|j: int|
                0 <= j < old(self).shell.elements@.len() && j != ei ==> final(self).shell.elements@[j] == old(self).shell.elements@[j],
            final(self).shell.elements@[ei as int].surfaces@ == old(self).shell.elements@[ei as int].surfaces@,
            final(self).shell.elements@[ei as int].active_surface == old(self).shell.elements@[ei as int].active_surface,
            final(self).shell.elements@[ei as int].workspace == old(self).shell.elements@[ei as int].workspace,
            final(self).shell.elements@[ei as int].pending_window_captures@.len() == 0,
            drained@.len() == old(self).shell.elements@[ei as int].pending_window_captures@.len(),
            forall|m: int|
                0 <= m < drained@.len() ==> #[trigger] drained@[m] == (DeferredWindowCapture {
                    entry: old(self).shell.elements@[ei as int].pending_window_captures@[m],
                    element: ei,
                }),
    {
        let ghost shell_mid = self.shell;
        let entries = copy_captures(&self.shell.elements[ei].pending_window_captures);
        let kept_surfaces = copy_ids(&self.shell.elements[ei].surfaces);
        let act = self.shell.elements[ei].active_surface;
        let ws = self.shell.elements[ei].workspace;
        self.shell.elements.set(
            ei,
            Element {
                surfaces: kept_surfaces,
                active_surface: act,
                workspace: ws,
                pending_window_captures: Vec::new(),
            },
        );
        proof {
            lemma_element_update_preserves_wf(shell_mid, self.shell, ei as int);
        }
        let mut drained: Vec<DeferredWindowCapture> = Vec::new();
        let mut k: usize = 0;
        while k < entries.len()
            invariant
                k <= entries.len(),
                drained@.len() == k,
                forall|m: int|
                    0 <= m < k ==> #[trigger] drained@[m] == (DeferredWindowCapture {
                        entry: entries@[m],
                        element: ei,
                    }),
            decreases entries.len() - k,
        {
            drained.push(DeferredWindowCapture { entry: entries[k], element: ei });
            k += 1;
        }
        drained
    }
}

} // verus!
