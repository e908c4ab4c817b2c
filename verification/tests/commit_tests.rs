use commit_core::dispatch::State;
use commit_core::import::early_import_nodes;
use commit_core::screencopy::{apply_capture_result, CaptureEffect, CaptureOutcome};
use commit_core::shell::{
    Element, Output, PendingLayer, PendingWindow, Shell, SurfaceEntry, SurfaceOutput,
    SurfaceWorkspace, Workspace,
};
use commit_core::types::{BufferParams, PendingCapture, Role, Session, SessionType};

fn surface(role: Role) -> SurfaceEntry {
    SurfaceEntry {
        role,
        initial_configure_sent: false,
        buffer_present: false,
        layer_output: None,
    }
}

fn output(active_space: usize) -> Output {
    Output {
        active_space,
        capture_queue_present: false,
        pending_captures: Vec::new(),
    }
}

fn workspace(out: usize) -> Workspace {
    Workspace {
        output: out,
        pending_buffers: Vec::new(),
    }
}

fn capture(id: u64, session_type: SessionType) -> PendingCapture {
    PendingCapture {
        session: Session { id, session_type },
        params: BufferParams { id },
    }
}

/// Two outputs; workspace 0 active on output 0, workspace 1 active on
/// output 1, workspace 2 offscreen (owned by output 0).
fn base_shell() -> Shell {
    Shell {
        surfaces: Vec::new(),
        outputs: vec![output(0), output(1)],
        workspaces: vec![workspace(0), workspace(1), workspace(0)],
        pending_windows: Vec::new(),
        pending_layers: Vec::new(),
        popups: Vec::new(),
        elements: Vec::new(),
        visibility: Vec::new(),
        workspace_assocs: Vec::new(),
    }
}

fn pending_toplevel_state() -> State {
    let mut shell = base_shell();
    shell.surfaces.push(surface(Role::Toplevel));
    shell.pending_windows.push(PendingWindow {
        surface: 0,
        seat_output: 0,
    });
    State {
        shell,
        nodes: vec![Some(7), Some(8)],
    }
}

#[test]
fn toplevel_first_commit_sends_configure_and_stops() {
    let mut st = pending_toplevel_state();
    let r = st.commit(0, false);
    assert!(r.toplevel_configure_sent);
    assert!(!r.completed);
    assert!(r.mapped_window.is_none());
    assert!(st.shell.surfaces[0].initial_configure_sent);
    assert!(!st.shell.surfaces[0].buffer_present);
    assert_eq!(st.shell.pending_windows.len(), 1);
    assert!(r.imports.is_empty());
    assert!(r.window_captures.is_empty());
    assert!(r.workspace_captures.is_empty());
    assert!(r.renders.is_empty());
    assert!(r.space_commit.is_none());
}

#[test]
fn toplevel_not_mapped_while_configure_unsent_even_with_buffer() {
    let mut st = pending_toplevel_state();
    let r = st.commit(0, true);
    assert!(r.toplevel_configure_sent);
    assert!(!r.completed);
    assert!(r.mapped_window.is_none());
    assert_eq!(st.shell.pending_windows.len(), 1);
}

#[test]
fn toplevel_acked_commit_without_buffer_still_stops() {
    let mut st = pending_toplevel_state();
    st.commit(0, false);
    let r = st.commit(0, false);
    assert!(!r.toplevel_configure_sent);
    assert!(!r.completed);
    assert!(r.mapped_window.is_none());
    assert_eq!(st.shell.pending_windows.len(), 1);
}

#[test]
fn toplevel_second_commit_with_buffer_maps_and_renders() {
    let mut st = pending_toplevel_state();
    st.commit(0, false);
    let r = st.commit(0, true);
    assert!(!r.toplevel_configure_sent);
    assert!(r.completed);
    assert_eq!(r.mapped_window, Some(0));
    assert!(st.shell.pending_windows.is_empty());
    assert_eq!(st.shell.elements.len(), 1);
    assert_eq!(st.shell.elements[0].workspace, 0);
    assert_eq!(st.shell.elements[0].active_surface, 0);
    assert_eq!(st.shell.visibility.len(), 1);
    assert_eq!(r.space_commit, Some(0));
    // visible on output 0 alone, whose render node is 7
    assert_eq!(r.imports, vec![7]);
    assert_eq!(r.renders.len(), 1);
    assert_eq!(r.renders[0].output, 0);
    assert!(r.renders[0].sessions.is_none());
}

#[test]
fn initial_configure_never_resent_after_mapping() {
    let mut st = pending_toplevel_state();
    st.commit(0, false);
    st.commit(0, true);
    let r = st.commit(0, true);
    assert!(!r.toplevel_configure_sent);
    assert!(r.completed);
    assert!(r.mapped_window.is_none());
    assert!(st.shell.surfaces[0].initial_configure_sent);
}

#[test]
fn import_runs_once_per_distinct_node() {
    // three visible outputs whose nodes are n1, n2, n1 again
    let visible = vec![0usize, 1, 2];
    let nodes = vec![Some(1u64), Some(2), Some(1)];
    let imports = early_import_nodes(&visible, &nodes);
    assert_eq!(imports.len(), 2);
    assert!(imports.contains(&1));
    assert!(imports.contains(&2));
}

#[test]
fn import_skips_outputs_without_node() {
    let visible = vec![0usize, 1];
    let nodes = vec![None, Some(3u64)];
    let imports = early_import_nodes(&visible, &nodes);
    assert_eq!(imports, vec![3]);
}

/// A mapped toplevel on the given workspace/output, with visibility and
/// association wired up.
fn mapped_state(ws: usize, out: usize) -> State {
    let mut shell = base_shell();
    shell.surfaces.push(SurfaceEntry {
        role: Role::Toplevel,
        initial_configure_sent: true,
        buffer_present: true,
        layer_output: None,
    });
    shell.elements.push(Element {
        surfaces: vec![0],
        active_surface: 0,
        workspace: ws,
        pending_window_captures: Vec::new(),
    });
    shell.visibility.push(SurfaceOutput {
        surface: 0,
        output: out,
    });
    shell.workspace_assocs.push(SurfaceWorkspace {
        surface: 0,
        workspace: ws,
        output: out,
    });
    State {
        shell,
        nodes: vec![Some(7), Some(8)],
    }
}

#[test]
fn active_workspace_capture_joins_frame_batch() {
    let mut st = mapped_state(0, 0);
    let entry = capture(
        1,
        SessionType::Workspace {
            output: 0,
            workspace: 0,
        },
    );
    st.shell.workspaces[0].pending_buffers.push(entry);
    let r = st.commit(0, true);
    assert!(r.completed);
    assert_eq!(r.frame_batch, vec![entry]);
    assert!(r.workspace_captures.is_empty());
    assert!(st.shell.workspaces[0].pending_buffers.is_empty());
    // the batch entry targets output 0, so it rides that render
    assert_eq!(r.renders.len(), 1);
    assert_eq!(r.renders[0].output, 0);
    assert_eq!(r.renders[0].sessions.as_deref(), Some(&[entry][..]));
}

#[test]
fn offscreen_workspace_capture_is_deferred() {
    // workspace 2 is owned by output 0 but not active there
    let mut st = mapped_state(2, 0);
    let entry = capture(
        2,
        SessionType::Workspace {
            output: 0,
            workspace: 2,
        },
    );
    st.shell.workspaces[2].pending_buffers.push(entry);
    let r = st.commit(0, true);
    assert!(r.completed);
    assert!(r.frame_batch.is_empty());
    assert_eq!(r.workspace_captures.len(), 1);
    assert_eq!(r.workspace_captures[0].entry, entry);
    assert_eq!(r.workspace_captures[0].output, 0);
    assert_eq!(r.workspace_captures[0].workspace, 2);
    assert!(st.shell.workspaces[2].pending_buffers.is_empty());
    // nothing rode the frame and no output queue was installed
    assert_eq!(r.renders.len(), 1);
    assert!(r.renders[0].sessions.is_none());
}

#[test]
fn unrelated_workspace_capture_stays_queued() {
    // a capture of workspace 2 as shown on output 1: inactive, and not
    // the (output 0, workspace 2) pair this commit scans
    let mut st = mapped_state(2, 0);
    let entry = capture(
        3,
        SessionType::Workspace {
            output: 1,
            workspace: 2,
        },
    );
    st.shell.workspaces[2].pending_buffers.push(entry);
    let r = st.commit(0, true);
    assert!(r.completed);
    assert!(r.frame_batch.is_empty());
    assert!(r.workspace_captures.is_empty());
    assert_eq!(st.shell.workspaces[2].pending_buffers, vec![entry]);
}

#[test]
fn output_queue_drains_into_render() {
    let mut st = mapped_state(0, 0);
    let entry = capture(4, SessionType::Output { output: 0 });
    st.shell.outputs[0].capture_queue_present = true;
    st.shell.outputs[0].pending_captures.push(entry);
    let r = st.commit(0, true);
    assert!(r.completed);
    assert!(st.shell.outputs[0].pending_captures.is_empty());
    assert_eq!(r.renders.len(), 1);
    assert_eq!(r.renders[0].sessions.as_deref(), Some(&[entry][..]));
}

#[test]
fn window_captures_drain_to_deferred_tasks() {
    let mut st = mapped_state(0, 0);
    let entry = capture(
        5,
        SessionType::Workspace {
            output: 0,
            workspace: 0,
        },
    );
    st.shell.elements[0].pending_window_captures.push(entry);
    let r = st.commit(0, true);
    assert!(r.completed);
    assert_eq!(r.space_commit, Some(0));
    assert_eq!(r.window_captures.len(), 1);
    assert_eq!(r.window_captures[0].entry, entry);
    assert_eq!(r.window_captures[0].element, 0);
    assert!(st.shell.elements[0].pending_window_captures.is_empty());
}

#[test]
fn inactive_window_commit_schedules_no_window_capture() {
    let mut st = mapped_state(0, 0);
    st.shell.surfaces.push(SurfaceEntry {
        role: Role::Toplevel,
        initial_configure_sent: true,
        buffer_present: true,
        layer_output: None,
    });
    st.shell.elements[0].surfaces.push(1);
    let entry = capture(
        6,
        SessionType::Workspace {
            output: 0,
            workspace: 0,
        },
    );
    st.shell.elements[0].pending_window_captures.push(entry);
    let r = st.commit(1, true);
    assert!(r.completed);
    assert_eq!(r.space_commit, Some(0));
    assert!(r.window_captures.is_empty());
    assert_eq!(st.shell.elements[0].pending_window_captures.len(), 1);
}

#[test]
fn popup_first_commit_sends_configure_without_gating() {
    let mut st = pending_toplevel_state();
    st.shell.surfaces.push(surface(Role::Popup));
    st.shell.popups.push(1);
    let r = st.commit(1, true);
    assert!(r.popup_configure_sent);
    assert!(r.completed);
    assert!(st.shell.surfaces[1].initial_configure_sent);
    let r2 = st.commit(1, true);
    assert!(!r2.popup_configure_sent);
}

#[test]
fn layer_surface_maps_on_first_commit_and_stops() {
    let mut st = pending_toplevel_state();
    st.shell.surfaces.push(surface(Role::LayerSurface));
    st.shell.pending_layers.push(PendingLayer {
        surface: 1,
        output: 1,
    });
    let r = st.commit(1, false);
    assert!(r.layer_mapped);
    assert!(!r.completed);
    assert!(st.shell.pending_layers.is_empty());
    assert!(st.shell.surfaces[1].initial_configure_sent);
    assert_eq!(st.shell.surfaces[1].layer_output, Some(1));
    // next commit proceeds and re-arranges the owning output
    let r2 = st.commit(1, true);
    assert!(!r2.layer_mapped);
    assert!(r2.completed);
    assert_eq!(r2.arrange_output, Some(1));
}

#[test]
fn no_damage_requeues_pair_unchanged() {
    let mut queue = vec![capture(
        7,
        SessionType::Workspace {
            output: 0,
            workspace: 0,
        },
    )];
    let attempt = capture(
        8,
        SessionType::Workspace {
            output: 0,
            workspace: 0,
        },
    );
    let eff = apply_capture_result(&mut queue, attempt, true, CaptureOutcome::NoDamage);
    assert_eq!(eff, CaptureEffect::Requeued);
    assert_eq!(queue.len(), 2);
    assert_eq!(queue[1], attempt);
    // the pair was removed for the attempt and came straight back:
    // repeating the attempt keeps the queue size stable
    let again = queue.pop().unwrap();
    let eff2 = apply_capture_result(&mut queue, again, true, CaptureOutcome::NoDamage);
    assert_eq!(eff2, CaptureEffect::Requeued);
    assert_eq!(queue.len(), 2);
}

#[test]
fn success_and_failure_leave_queue_alone() {
    let entry = capture(9, SessionType::Output { output: 0 });
    let mut queue = Vec::new();
    assert_eq!(
        apply_capture_result(&mut queue, entry, true, CaptureOutcome::Success),
        CaptureEffect::Completed
    );
    assert!(queue.is_empty());
    assert_eq!(
        apply_capture_result(&mut queue, entry, true, CaptureOutcome::Failure { reason: 5 }),
        CaptureEffect::Failed { reason: 5 }
    );
    assert!(queue.is_empty());
}

#[test]
fn dead_session_is_dropped_silently() {
    let entry = capture(
        10,
        SessionType::Workspace {
            output: 0,
            workspace: 0,
        },
    );
    let mut st = mapped_state(0, 0);
    let before = st.shell.workspaces[0].pending_buffers.clone();
    let eff = st.capture_result(entry, false, CaptureOutcome::NoDamage);
    assert_eq!(eff, CaptureEffect::Skipped);
    assert_eq!(st.shell.workspaces[0].pending_buffers, before);
    let eff2 = st.capture_result(entry, false, CaptureOutcome::Failure { reason: 1 });
    assert_eq!(eff2, CaptureEffect::Skipped);
    assert_eq!(st.shell.workspaces[0].pending_buffers, before);
}

#[test]
fn capture_result_routes_by_session_target() {
    let mut st = mapped_state(0, 0);
    let ws_entry = capture(
        11,
        SessionType::Workspace {
            output: 0,
            workspace: 1,
        },
    );
    assert_eq!(
        st.capture_result(ws_entry, true, CaptureOutcome::NoDamage),
        CaptureEffect::Requeued
    );
    assert_eq!(st.shell.workspaces[1].pending_buffers, vec![ws_entry]);
    let out_entry = capture(12, SessionType::Output { output: 1 });
    assert_eq!(
        st.capture_result(out_entry, true, CaptureOutcome::NoDamage),
        CaptureEffect::Requeued
    );
    assert_eq!(st.shell.outputs[1].pending_captures, vec![out_entry]);
}

#[test]
fn window_capture_result_requeues_on_element() {
    let mut st = mapped_state(0, 0);
    let entry = capture(
        13,
        SessionType::Workspace {
            output: 0,
            workspace: 0,
        },
    );
    assert_eq!(
        st.window_capture_result(0, entry, true, CaptureOutcome::NoDamage),
        CaptureEffect::Requeued
    );
    assert_eq!(st.shell.elements[0].pending_window_captures, vec![entry]);
    assert_eq!(
        st.window_capture_result(0, entry, false, CaptureOutcome::NoDamage),
        CaptureEffect::Skipped
    );
    assert_eq!(st.shell.elements[0].pending_window_captures.len(), 1);
}

#[test]
fn batch_is_filtered_per_visible_output() {
    let mut st = mapped_state(0, 0);
    st.shell.visibility.push(SurfaceOutput {
        surface: 0,
        output: 1,
    });
    let for_out0 = capture(
        20,
        SessionType::Workspace {
            output: 0,
            workspace: 0,
        },
    );
    let for_out1 = capture(
        21,
        SessionType::Workspace {
            output: 1,
            workspace: 1,
        },
    );
    st.shell.workspaces[0].pending_buffers.push(for_out0);
    st.shell.workspaces[0].pending_buffers.push(for_out1);
    let r = st.commit(0, true);
    assert!(r.completed);
    // both targets are active spaces, so both ride the frame batch
    assert_eq!(r.frame_batch, vec![for_out0, for_out1]);
    assert_eq!(r.renders.len(), 2);
    assert_eq!(r.renders[0].output, 0);
    assert_eq!(r.renders[0].sessions.as_deref(), Some(&[for_out0][..]));
    assert_eq!(r.renders[1].output, 1);
    assert_eq!(r.renders[1].sessions.as_deref(), Some(&[for_out1][..]));
}
