//! The shell state the dispatcher reads and rewrites: surfaces with
//! their per-role protocol state, pending (not yet mapped) windows and
//! layer surfaces, mapped elements, workspaces and outputs with their
//! pending capture queues, and the visibility associations mapping
//! establishes. Everything is held as arena indices and plain queues.

use vstd::prelude::*;
use crate::types::{ActiveSpace, OutputId, PendingCapture, Role, SurfaceId, WorkspaceHandle,
    is_workspace_session};

verus! {

/// Per-surface state: the role fixed at creation, the two protocol
/// flags the dispatcher guards, and where the surface stands once
/// mapped.
#[derive(Clone, Copy, Debug)]
pub struct SurfaceEntry {
    pub role: Role,
    /// Whether the first configure was sent; written once, false to
    /// true, never reverted.
    pub initial_configure_sent: bool,
    /// Whether a buffer is attached after the latest commit.
    pub buffer_present: bool,
    /// For a mapped layer surface: the output whose layer stack owns it.
    pub layer_output: Option<OutputId>,
}

/// A toplevel awaiting its first configure/map, with the seat (reduced
/// to its active output) that will receive it.
#[derive(Clone, Copy, Debug)]
pub struct PendingWindow {
    pub surface: SurfaceId,
    pub seat_output: OutputId,
}

/// A layer surface awaiting its mapping-driven first configure.
#[derive(Clone, Copy, Debug)]
pub struct PendingLayer {
    pub surface: SurfaceId,
    pub output: OutputId,
}

/// One `surface is visible on output` fact.
#[derive(Clone, Copy, Debug)]
pub struct SurfaceOutput {
    pub surface: SurfaceId,
    pub output: OutputId,
}

/// One `surface contributes to workspace, shown on output` fact.
#[derive(Clone, Copy, Debug)]
pub struct SurfaceWorkspace {
    pub surface: SurfaceId,
    pub workspace: WorkspaceHandle,
    pub output: OutputId,
}

/// A mapped element (window) in the scene graph.
#[derive(Clone, Debug)]
pub struct Element {
    /// Surfaces belonging to this element.
    pub surfaces: Vec<SurfaceId>,
    /// The surface of the element's currently active window.
    pub active_surface: SurfaceId,
    /// The workspace the element sits on.
    pub workspace: WorkspaceHandle,
    /// Window-scoped capture attempts pending on the active window.
    pub pending_window_captures: Vec<PendingCapture>,
}

/// A workspace: its owning output and its workspace-scoped pending
/// capture queue.
#[derive(Clone, Debug)]
pub struct Workspace {
    pub output: OutputId,
    pub pending_buffers: Vec<PendingCapture>,
}

/// An output: its displayed workspace and its output-scoped pending
/// capture queue. `capture_queue_present` records whether the queue was
/// ever installed; draining an installed queue, even an empty one, is
/// visible to the render scheduler.
#[derive(Clone, Debug)]
pub struct Output {
    pub active_space: WorkspaceHandle,
    pub capture_queue_present: bool,
    pub pending_captures: Vec<PendingCapture>,
}

/// The whole shell state the commit dispatcher works against.
#[derive(Clone, Debug)]
pub struct Shell {
    pub surfaces: Vec<SurfaceEntry>,
    pub outputs: Vec<Output>,
    pub workspaces: Vec<Workspace>,
    pub pending_windows: Vec<PendingWindow>,
    pub pending_layers: Vec<PendingLayer>,
    pub popups: Vec<SurfaceId>,
    pub elements: Vec<Element>,
    pub visibility: Vec<SurfaceOutput>,
    pub workspace_assocs: Vec<SurfaceWorkspace>,
}

impl Shell {
    /// Internal consistency: every arena index stored anywhere is valid,
    /// pending records carry the role they claim, no surface is pending
    /// twice, and workspace queues hold workspace-targeted sessions only.
    pub open spec fn wf(&self) -> bool {
        &&& forall|i: int|
            0 <= i < self.pending_windows@.len() ==> {
                let pw = #[trigger] self.pending_windows@[i];
                &&& pw.surface < self.surfaces@.len()
                &&& self.surfaces@[pw.surface as int].role == Role::Toplevel
                &&& pw.seat_output < self.outputs@.len()
            }
        &&& forall|i: int, j: int|
            0 <= i < j < self.pending_windows@.len() ==> (#[trigger] self.pending_windows@[i]).surface
                != (#[trigger] self.pending_windows@[j]).surface
        &&& forall|i: int|
            0 <= i < self.pending_layers@.len() ==> {
                let pl = #[trigger] self.pending_layers@[i];
                &&& pl.surface < self.surfaces@.len()
                &&& self.surfaces@[pl.surface as int].role == Role::LayerSurface
                &&& pl.output < self.outputs@.len()
            }
        &&& forall|i: int, j: int|
            0 <= i < j < self.pending_layers@.len() ==> (#[trigger] self.pending_layers@[i]).surface
                != (#[trigger] self.pending_layers@[j]).surface
        &&& forall|i: int|
            0 <= i < self.popups@.len() ==> (#[trigger] self.popups@[i]) < self.surfaces@.len()
                && self.surfaces@[self.popups@[i] as int].role == Role::Popup
        &&& forall|i: int|
            0 <= i < self.visibility@.len() ==> (#[trigger] self.visibility@[i]).output
                < self.outputs@.len()
        &&& forall|i: int|
            0 <= i < self.workspace_assocs@.len() ==> {
                let a = #[trigger] self.workspace_assocs@[i];
                &&& a.workspace < self.workspaces@.len()
                &&& a.output < self.outputs@.len()
            }
        &&& forall|i: int|
            0 <= i < self.outputs@.len() ==> (#[trigger] self.outputs@[i]).active_space
                < self.workspaces@.len()
        &&& forall|i: int|
            0 <= i < self.elements@.len() ==> (#[trigger] self.elements@[i]).workspace
                < self.workspaces@.len()
        &&& forall|w: int, k: int|
            0 <= w < self.workspaces@.len() && 0 <= k < self.workspaces@[w].pending_buffers@.len()
                ==> is_workspace_session(
                (#[trigger] self.workspaces@[w].pending_buffers@[k]).session.session_type,
            )
        &&& forall|s: int|
            0 <= s < self.surfaces@.len() ==> ((#[trigger] self.surfaces@[s]).layer_output matches Some(
                o,
            ) ==> o < self.outputs@.len())
        &&& forall|i: int, j: int|
            0 <= i < self.pending_windows@.len() && 0 <= j < self.elements@.len() ==> !(
            #[trigger] self.elements@[j]).surfaces@.contains(
                (#[trigger] self.pending_windows@[i]).surface,
            )
        &&& forall|i: int, j: int|
            0 <= i < self.pending_windows@.len() && 0 <= j < self.visibility@.len() ==> (
            #[trigger] self.visibility@[j]).surface != (
            #[trigger] self.pending_windows@[i]).surface
        &&& forall|i: int, j: int|
            0 <= i < self.pending_windows@.len() && 0 <= j < self.workspace_assocs@.len() ==> (
            #[trigger] self.workspace_assocs@[j]).surface != (
            #[trigger] self.pending_windows@[i]).surface
    }

    /// Whether `surface` is a pending (unmapped) toplevel.
    pub open spec fn has_pending_window(&self, surface: SurfaceId) -> bool {
        exists|i: int|
            0 <= i < self.pending_windows@.len() && (#[trigger] self.pending_windows@[i]).surface
                == surface
    }

    /// The index of `surface`'s pending-window record; meaningful only
    /// under [`Self::has_pending_window`] (records are unique per surface).
    pub open spec fn pending_window_ix(&self, surface: SurfaceId) -> int {
        choose|i: int|
            0 <= i < self.pending_windows@.len() && (#[trigger] self.pending_windows@[i]).surface
                == surface
    }

    /// Whether `surface` is a pending (unmapped) layer surface.
    pub open spec fn has_pending_layer(&self, surface: SurfaceId) -> bool {
        exists|i: int|
            0 <= i < self.pending_layers@.len() && (#[trigger] self.pending_layers@[i]).surface
                == surface
    }

    /// The index of `surface`'s pending-layer record; meaningful only
    /// under [`Self::has_pending_layer`].
    pub open spec fn pending_layer_ix(&self, surface: SurfaceId) -> int {
        choose|i: int|
            0 <= i < self.pending_layers@.len() && (#[trigger] self.pending_layers@[i]).surface
                == surface
    }

    /// Whether `surface` has the popup role assigned.
    pub open spec fn is_popup(&self, surface: SurfaceId) -> bool {
        self.popups@.contains(surface)
    }

    /// Whether some mapped element owns `surface`.
    pub open spec fn has_element_for(&self, surface: SurfaceId) -> bool {
        exists|i: int|
            0 <= i < self.elements@.len() && (#[trigger] self.elements@[i]).surfaces@.contains(
                surface,
            )
    }

    /// The first mapped element owning `surface`.
    pub open spec fn element_ix(&self, surface: SurfaceId) -> int {
        choose|i: int|
            0 <= i < self.elements@.len() && (#[trigger] self.elements@[i]).surfaces@.contains(
                surface,
            ) && forall|j: int|
                0 <= j < i ==> !(#[trigger] self.elements@[j]).surfaces@.contains(surface)
    }

    /// The current `(output, displayed workspace)` set, one entry per
    /// output, in output order.
    pub open spec fn active_spaces_seq(&self) -> Seq<ActiveSpace> {
        Seq::new(
            self.outputs@.len(),
            |i: int| ActiveSpace { output: i as usize, workspace: self.outputs@[i].active_space },
        )
    }

    /// The outputs `surface` is currently visible on, in association
    /// order (well defined only once the surface is mapped).
    pub open spec fn visible_seq(&self, surface: SurfaceId) -> Seq<OutputId> {
        self.visibility@.filter(|p: SurfaceOutput| p.surface == surface).map_values(
            |p: SurfaceOutput| p.output,
        )
    }

    /// The `(workspace, output)` pairs `surface` contributes content to,
    /// in association order.
    pub open spec fn assoc_seq(&self, surface: SurfaceId) -> Seq<SurfaceWorkspace> {
        self.workspace_assocs@.filter(|p: SurfaceWorkspace| p.surface == surface)
    }

    /// Finds `surface`'s pending-window record.
    pub fn find_pending_window(&self, surface: SurfaceId) -> (r: Option<usize>)
        ensures
            r matches Some(i) ==> i < self.pending_windows@.len()
                && self.pending_windows@[i as int].surface == surface,
            r is Some <==> self.has_pending_window(surface),
    {
        let mut i: usize = 0;
        while i < self.pending_windows.len()
            invariant
                i <= self.pending_windows.len(),
                forall|j: int| 0 <= j < i ==> (#[trigger] self.pending_windows@[j]).surface != surface,
            decreases self.pending_windows.len() - i,
        {
            if self.pending_windows[i].surface == surface {
                return Some(i);
            }
            i += 1;
        }
        None
    }

    /// Finds `surface`'s pending-layer record.
    pub fn find_pending_layer(&self, surface: SurfaceId) -> (r: Option<usize>)
        ensures
            r matches Some(i) ==> i < self.pending_layers@.len()
                && self.pending_layers@[i as int].surface == surface,
            r is Some <==> self.has_pending_layer(surface),
    {
        let mut i: usize = 0;
        while i < self.pending_layers.len()
            invariant
                i <= self.pending_layers.len(),
                forall|j: int| 0 <= j < i ==> (#[trigger] self.pending_layers@[j]).surface != surface,
            decreases self.pending_layers.len() - i,
        {
            if self.pending_layers[i].surface == surface {
                return Some(i);
            }
            i += 1;
        }
        None
    }

    /// Whether the popup role is assigned to `surface`.
    pub fn find_popup(&self, surface: SurfaceId) -> (r: bool)
        ensures
            r == self.is_popup(surface),
    {
        let mut i: usize = 0;
        while i < self.popups.len()
            invariant
                i <= self.popups.len(),
                forall|j: int| 0 <= j < i ==> (#[trigger] self.popups@[j]) != surface,
            decreases self.popups.len() - i,
        {
            if self.popups[i] == surface {
                assert(self.popups@[i as int] == surface);
                return true;
            }
            i += 1;
        }
        false
    }

    /// Finds the first mapped element owning `surface`.
    pub fn element_for_surface(&self, surface: SurfaceId) -> (r: Option<usize>)
        ensures
            r matches Some(i) ==> i < self.elements@.len() && i == self.element_ix(surface)
                && self.elements@[i as int].surfaces@.contains(surface) && forall|j: int|
                0 <= j < i ==> !(#[trigger] self.elements@[j]).surfaces@.contains(surface),
            r is Some <==> self.has_element_for(surface),
    {
        let mut i: usize = 0;
        while i < self.elements.len()
            invariant
                i <= self.elements.len(),
                forall|j: int|
                    0 <= j < i ==> !(#[trigger] self.elements@[j]).surfaces@.contains(surface),
            decreases self.elements.len() - i,
        {
            if contains_id(&self.elements[i].surfaces, surface) {
                proof {
                    let w = self.element_ix(surface);
                    assert(0 <= w < self.elements@.len() && self.elements@[w].surfaces@.contains(
                        surface,
                    ) && forall|j: int|
                        0 <= j < w ==> !(#[trigger] self.elements@[j]).surfaces@.contains(surface));
                    if w < i as int {
                        assert(false);
                    }
                    if (i as int) < w {
                        assert(false);
                    }
                }
                return Some(i);
            }
            i += 1;
        }
        None
    }

    /// Collects the `(output, displayed workspace)` pairs, one per
    /// output in output order.
    pub fn active_spaces(&self) -> (r: Vec<ActiveSpace>)
        ensures
            r@ == self.active_spaces_seq(),
    {
        let mut spaces: Vec<ActiveSpace> = Vec::new();
        let mut i: usize = 0;
        while i < self.outputs.len()
            invariant
                i <= self.outputs.len(),
                spaces@.len() == i,
                forall|j: int|
                    0 <= j < i ==> #[trigger] spaces@[j] == (ActiveSpace {
                        output: j as usize,
                        workspace: self.outputs@[j].active_space,
                    }),
            decreases self.outputs.len() - i,
        {
            spaces.push(ActiveSpace { output: i, workspace: self.outputs[i].active_space });
            i += 1;
        }
        proof {
            assert(spaces@ =~= self.active_spaces_seq());
        }
        spaces
    }

    /// Collects the outputs `surface` is visible on, in association
    /// order.
    pub fn visible_outputs_for_surface(&self, surface: SurfaceId) -> (r: Vec<OutputId>)
        ensures
            r@ == self.visible_seq(surface),
            self.wf() ==> forall|k: int| 0 <= k < r@.len() ==> #[trigger] r@[k] < self.outputs@.len(),
    {
        let ghost pred = |p: SurfaceOutput| p.surface == surface;
        let mut outs: Vec<OutputId> = Vec::new();
        let mut i: usize = 0;
        while i < self.visibility.len()
            invariant
                i <= self.visibility.len(),
                outs@.len() == self.visibility@.subrange(0, i as int).filter(pred).len(),
                forall|k: int|
                    0 <= k < outs@.len() ==> #[trigger] outs@[k] == self.visibility@.subrange(
                        0,
                        i as int,
                    ).filter(pred)[k].output,
                self.wf() ==> forall|k: int|
                    0 <= k < outs@.len() ==> #[trigger] outs@[k] < self.outputs@.len(),
                pred == (|p: SurfaceOutput| p.surface == surface),
            decreases self.visibility.len() - i,
        {
            let ghost pre = self.visibility@.subrange(0, i as int);
            let ghost post = self.visibility@.subrange(0, i as int + 1);
            proof {
                reveal_with_fuel(Seq::<SurfaceOutput>::filter, 2);
                assert(post.drop_last() =~= pre);
                assert(post.last() == self.visibility@[i as int]);
            }
            let p = self.visibility[i];
            if p.surface == surface {
                outs.push(p.output);
                proof {
                    assert(post.filter(pred) =~= pre.filter(pred).push(self.visibility@[i as int]));
                }
            } else {
                proof {
                    assert(post.filter(pred) =~= pre.filter(pred));
                }
            }
            i += 1;
        }
        proof {
            assert(self.visibility@.subrange(0, self.visibility@.len() as int) =~= self.visibility@);
            assert(outs@ =~= self.visible_seq(surface));
        }
        outs
    }

    /// Collects the `(workspace, output)` pairs `surface` contributes
    /// to, in association order.
    pub fn workspaces_for_surface(&self, surface: SurfaceId) -> (r: Vec<SurfaceWorkspace>)
        ensures
            r@ == self.assoc_seq(surface),
            self.wf() ==> forall|k: int|
                0 <= k < r@.len() ==> (#[trigger] r@[k]).workspace < self.workspaces@.len()
                    && r@[k].output < self.outputs@.len(),
    {
        let ghost pred = |p: SurfaceWorkspace| p.surface == surface;
        let mut assocs: Vec<SurfaceWorkspace> = Vec::new();
        let mut i: usize = 0;
        while i < self.workspace_assocs.len()
            invariant
                i <= self.workspace_assocs.len(),
                assocs@ == self.workspace_assocs@.subrange(0, i as int).filter(pred),
                self.wf() ==> forall|k: int|
                    0 <= k < assocs@.len() ==> (#[trigger] assocs@[k]).workspace
                        < self.workspaces@.len() && assocs@[k].output < self.outputs@.len(),
                pred == (|p: SurfaceWorkspace| p.surface == surface),
            decreases self.workspace_assocs.len() - i,
        {
            let ghost pre = self.workspace_assocs@.subrange(0, i as int);
            let ghost post = self.workspace_assocs@.subrange(0, i as int + 1);
            proof {
                reveal_with_fuel(Seq::<SurfaceWorkspace>::filter, 2);
                assert(post.drop_last() =~= pre);
                assert(post.last() == self.workspace_assocs@[i as int]);
            }
            let p = self.workspace_assocs[i];
            if p.surface == surface {
                assocs.push(p);
                proof {
                    assert(assocs@ =~= post.filter(pred));
                }
            } else {
                proof {
                    assert(assocs@ =~= post.filter(pred));
                }
            }
            i += 1;
        }
        proof {
            assert(self.workspace_assocs@.subrange(0, self.workspace_assocs@.len() as int)
                =~= self.workspace_assocs@);
        }
        assocs
    }
}

/// Whether `v` holds `id`.
pub fn contains_id(v: &Vec<SurfaceId>, id: SurfaceId) -> (r: bool)
    ensures
        r == v@.contains(id),
{
    let mut i: usize = 0;
    while i < v.len()
        invariant
            i <= v.len(),
            forall|j: int| 0 <= j < i ==> v@[j] != id,
        decreases v.len() - i,
    {
        if v[i] == id {
            assert(v@[i as int] == id);
            return true;
        }
        i += 1;
    }
    false
}

/// A by-value copy of a queue of capture entries.
pub fn copy_captures(v: &Vec<PendingCapture>) -> (r: Vec<PendingCapture>)
    ensures
        r@ == v@,
{
    let mut out: Vec<PendingCapture> = Vec::new();
    let mut i: usize = 0;
    while i < v.len()
        invariant
            i <= v.len(),
            out@ == v@.subrange(0, i as int),
        decreases v.len() - i,
    {
        out.push(v[i]);
        proof {
            assert(out@ =~= v@.subrange(0, i as int + 1));
        }
        i += 1;
    }
    proof {
        assert(v@.subrange(0, v@.len() as int) =~= v@);
    }
    out
}

/// A by-value copy of a list of surface ids.
pub fn copy_ids(v: &Vec<SurfaceId>) -> (r: Vec<SurfaceId>)
    ensures
        r@ == v@,
{
    let mut out: Vec<SurfaceId> = Vec::new();
    let mut i: usize = 0;
    while i < v.len()
        invariant
            i <= v.len(),
            out@ == v@.subrange(0, i as int),
        decreases v.len() - i,
    {
        out.push(v[i]);
        proof {
            assert(out@ =~= v@.subrange(0, i as int + 1));
        }
        i += 1;
    }
    proof {
        assert(v@.subrange(0, v@.len() as int) =~= v@);
    }
    out
}

} // verus!
