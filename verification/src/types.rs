//! Plain-value identifiers and protocol data shared by every component.

use vstd::prelude::*;

verus! {

/// Index of a surface in the shell's surface arena.
pub type SurfaceId = usize;

/// Index of an output in the shell's output arena.
pub type OutputId = usize;

/// Index of a workspace in the shell's workspace arena.
pub type WorkspaceHandle = usize;

/// Identifier of the GPU render node that an output's frames are composed on.
pub type NodeId = u64;

/// The protocol category of a surface, assigned once and never changed.
#[derive(Clone, Copy, PartialEq, Eq, Structural, Debug)]
pub enum Role {
    Toplevel,
    Popup,
    LayerSurface,
}

/// What a screencopy session captures.
#[derive(Clone, Copy, PartialEq, Eq, Structural, Debug)]
pub enum SessionType {
    /// Continuous capture of one output.
    Output { output: OutputId },
    /// Capture of one workspace rendered as if displayed on the given
    /// output, including while that workspace is not the active one.
    Workspace { output: OutputId, workspace: WorkspaceHandle },
}

/// A client capture request. The session owns capture intent only; the
/// protocol layer owns the client notification side.
#[derive(Clone, Copy, PartialEq, Eq, Structural, Debug)]
pub struct Session {
    pub id: u64,
    pub session_type: SessionType,
}

/// Destination buffer description accompanying one capture attempt.
#[derive(Clone, Copy, PartialEq, Eq, Structural, Debug)]
pub struct BufferParams {
    pub id: u64,
}

/// One entry of a pending-buffer queue: a capture attempt awaiting a
/// render opportunity.
#[derive(Clone, Copy, PartialEq, Eq, Structural, Debug)]
pub struct PendingCapture {
    pub session: Session,
    pub params: BufferParams,
}

/// An `(output, workspace)` pair that is currently displayed.
#[derive(Clone, Copy, PartialEq, Eq, Structural, Debug)]
pub struct ActiveSpace {
    pub output: OutputId,
    pub workspace: WorkspaceHandle,
}

/// The output component of a session's target.
pub open spec fn session_output(t: SessionType) -> OutputId {
    match t {
        SessionType::Output { output } => output,
        SessionType::Workspace { output, .. } => output,
    }
}

/// Whether a session targets a workspace (rather than a whole output).
pub open spec fn is_workspace_session(t: SessionType) -> bool {
    t is Workspace
}

} // verus!
