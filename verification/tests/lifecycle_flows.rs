use debugger_panel::DebugPanel;
use debugger_panel::DebugScenario;
use debugger_panel::LaunchBinary;
use debugger_panel::RerunDecision;
use debugger_panel::SessionEntry;
use debugger_panel::label_for_child_session;

fn booted(id: u64, parent: Option<u64>, label: &str) -> SessionEntry {
    SessionEntry {
        id,
        parent,
        label: String::from(label),
        adapter: String::from("codelldb"),
        task_context: String::from("ctx"),
        worktree: Some(7),
        binary: Some(LaunchBinary {
            command: String::from("codelldb --port 0"),
            request_args: String::from("{\"request\":\"launch\"}"),
        }),
        terminated: false,
        has_ever_stopped: false,
    }
}

fn unbooted(id: u64, parent: Option<u64>) -> SessionEntry {
    SessionEntry { worktree: None, binary: None, ..booted(id, parent, "fresh") }
}

fn scenario() -> DebugScenario {
    DebugScenario { label: String::from("run tests"), adapter: String::from("codelldb") }
}

#[test]
fn start_without_resolvable_worktree_is_abandoned() {
    let mut panel = DebugPanel::new();
    panel.task_scheduled();
    let command = panel.start_session(&scenario(), None, None, None);
    assert!(command.is_none());
    assert!(panel.sessions().is_empty(), "no handle is created");
    assert_eq!(panel.active_session(), None);
    assert!(!panel.debug_scenario_scheduled_last(), "the flag is untouched");
}

#[test]
fn start_prefers_the_explicit_worktree() {
    let mut panel = DebugPanel::new();
    let command = panel.start_session(&scenario(), Some(5), Some(6), Some(7)).unwrap();
    assert_eq!(command.worktree, 5);
    assert_eq!(command.label, "run tests");
    assert_eq!(command.adapter, "codelldb");
}

#[test]
fn start_falls_back_to_the_buffer_worktree() {
    let mut panel = DebugPanel::new();
    let command = panel.start_session(&scenario(), None, Some(6), Some(7)).unwrap();
    assert_eq!(command.worktree, 6);
}

#[test]
fn start_falls_back_to_the_first_visible_worktree() {
    let mut panel = DebugPanel::new();
    let command = panel.start_session(&scenario(), None, None, Some(7)).unwrap();
    assert_eq!(command.worktree, 7);
}

#[test]
fn start_records_the_scenario_as_scheduled_last() {
    let mut panel = DebugPanel::new();
    panel.task_scheduled();
    panel.start_session(&scenario(), Some(5), None, None);
    assert!(panel.debug_scenario_scheduled_last());
}

#[test]
fn restart_targets_the_root_ancestor() {
    let mut panel = DebugPanel::new();
    panel.register_session(booted(1, None, "root"), true);
    panel.register_session(booted(2, Some(1), "child"), false);
    panel.register_session(booted(3, Some(2), "grandchild"), false);
    let command = panel.handle_restart_request(3).unwrap();
    assert_eq!(command.root_id, 1);
    assert_eq!(command.label, "root");
    assert_eq!(command.adapter, "codelldb");
    assert_eq!(command.task_context, "ctx");
    assert_eq!(command.binary.command, "codelldb --port 0");
    assert_eq!(command.worktree, 7);
}

#[test]
fn restart_of_a_never_booted_root_is_abandoned() {
    let mut panel = DebugPanel::new();
    panel.register_session(unbooted(1, None), true);
    assert!(panel.handle_restart_request(1).is_none());
}

#[test]
fn restart_of_an_unknown_session_is_abandoned() {
    let panel = DebugPanel::new();
    assert!(panel.handle_restart_request(9).is_none());
}

#[test]
fn restart_leaves_a_single_handle_for_the_slot() {
    let mut panel = DebugPanel::new();
    panel.register_session(booted(1, None, "root"), true);
    panel.register_session(booted(2, Some(1), "child"), false);
    let command = panel.handle_restart_request(2).unwrap();
    // The driver awaits full shutdown of the old root, then registers the
    // replacement handle the store created.
    panel.mark_session_terminated(command.root_id);
    panel.register_session(booted(10, None, "root"), true);
    let ids: Vec<u64> = panel.sessions().iter().map(|e| e.id).collect();
    assert!(!ids.contains(&1), "the old handle is gone");
    assert_eq!(ids.iter().filter(|id| **id == 10).count(), 1);
    assert_eq!(panel.active_session(), Some(10));
}

#[test]
fn spawn_child_from_unbooted_parent_is_abandoned() {
    let mut panel = DebugPanel::new();
    panel.register_session(unbooted(1, None), true);
    let request = String::from("{\"request\":\"attach\"}");
    assert!(panel.handle_start_debugging_request(1, &request, None).is_none());
}

#[test]
fn spawn_child_overlays_the_request_on_the_parent_binary() {
    let mut panel = DebugPanel::new();
    panel.register_session(booted(1, None, "server"), true);
    let request = String::from("{\"request\":\"attach\"}");
    let command = panel.handle_start_debugging_request(1, &request, None).unwrap();
    assert_eq!(command.parent_id, 1);
    assert_eq!(command.binary.command, "codelldb --port 0");
    assert_eq!(command.binary.request_args, "{\"request\":\"attach\"}");
    assert_eq!(command.adapter, "codelldb");
    assert_eq!(command.worktree, 7);
}

#[test]
fn spawn_child_uses_the_adapter_label_when_given() {
    let mut panel = DebugPanel::new();
    panel.register_session(booted(1, None, "server"), true);
    let request = String::from("{}");
    let command = panel
        .handle_start_debugging_request(1, &request, Some(String::from("worker")))
        .unwrap();
    assert_eq!(command.label, "worker");
}

#[test]
fn spawn_child_appends_the_child_marker_once() {
    let mut panel = DebugPanel::new();
    panel.register_session(booted(1, None, "server"), true);
    let request = String::from("{}");
    let command = panel.handle_start_debugging_request(1, &request, None).unwrap();
    assert_eq!(command.label, "server (child)");
}

#[test]
fn spawn_child_keeps_a_label_that_already_ends_in_the_marker() {
    let mut panel = DebugPanel::new();
    panel.register_session(booted(1, None, "server (child)"), true);
    let request = String::from("{}");
    let command = panel.handle_start_debugging_request(1, &request, None).unwrap();
    assert_eq!(command.label, "server (child)");
}

#[test]
fn child_label_helper_appends_and_keeps_the_marker() {
    assert_eq!(label_for_child_session(&String::from("a"), None), "a (child)");
    assert_eq!(label_for_child_session(&String::from("a (child)"), None), "a (child)");
    assert_eq!(label_for_child_session(&String::from(""), None), " (child)");
    assert_eq!(
        label_for_child_session(&String::from("a"), Some(String::from("b"))),
        "b"
    );
}

#[test]
fn child_of_a_never_stopped_parent_takes_focus() {
    let mut panel = DebugPanel::new();
    panel.register_session(booted(1, None, "launcher"), true);
    let request = String::from("{}");
    let command = panel.handle_start_debugging_request(1, &request, None).unwrap();
    assert!(command.focus);
    panel.register_session(booted(2, Some(1), "worker"), command.focus);
    assert_eq!(panel.active_session(), Some(2));
}

#[test]
fn child_of_a_stopped_parent_does_not_steal_focus() {
    let mut panel = DebugPanel::new();
    panel.register_session(booted(1, None, "main"), true);
    panel.mark_session_stopped(1);
    let request = String::from("{}");
    let command = panel.handle_start_debugging_request(1, &request, None).unwrap();
    assert!(!command.focus);
    panel.register_session(booted(2, Some(1), "worker"), command.focus);
    assert_eq!(panel.active_session(), Some(1));
}

#[test]
fn close_prompts_exactly_for_live_store_sessions() {
    let mut panel = DebugPanel::new();
    panel.register_session(booted(1, None, "a"), true);
    assert_eq!(panel.close_session_begin(1, Some(false)), Some(true));
    assert_eq!(panel.close_session_begin(1, Some(true)), Some(false));
    assert_eq!(panel.close_session_begin(1, None), Some(false));
    assert_eq!(panel.close_session_begin(9, Some(false)), None);
}

#[test]
fn declined_close_changes_nothing() {
    let mut panel = DebugPanel::new();
    panel.register_session(booted(1, None, "a"), true);
    panel.register_session(booted(2, None, "b"), false);
    let ids_before: Vec<u64> = panel.sessions().iter().map(|e| e.id).collect();
    let active_before = panel.active_session();
    let removed = panel.close_session_finish(1, true);
    assert!(!removed);
    let ids_after: Vec<u64> = panel.sessions().iter().map(|e| e.id).collect();
    assert_eq!(ids_before, ids_after);
    assert_eq!(active_before, panel.active_session());
}

#[test]
fn confirmed_close_removes_and_reassigns() {
    let mut panel = DebugPanel::new();
    panel.register_session(booted(1, None, "a"), true);
    panel.register_session(booted(2, None, "b"), false);
    let removed = panel.close_session_finish(1, false);
    assert!(removed);
    assert_eq!(panel.active_session(), Some(2));
}

#[test]
fn close_of_an_already_swept_session_is_a_noop() {
    let mut panel = DebugPanel::new();
    panel.register_session(booted(1, None, "a"), true);
    let removed = panel.close_session_finish(9, false);
    assert!(!removed);
    assert_eq!(panel.active_session(), Some(1));
}

#[test]
fn rerun_starts_the_last_scenario_or_opens_the_modal() {
    assert!(matches!(
        DebugPanel::rerun_last_session(true),
        RerunDecision::StartLastScenario
    ));
    assert!(matches!(
        DebugPanel::rerun_last_session(false),
        RerunDecision::OpenNewProcessModal
    ));
}

#[test]
fn copy_arguments_serializes_the_root_binary_of_the_active_session() {
    let mut panel = DebugPanel::new();
    let mut root = booted(1, None, "root");
    root.binary = Some(LaunchBinary {
        command: String::from("root-cmd"),
        request_args: String::from("root-args"),
    });
    panel.register_session(root, true);
    panel.register_session(booted(2, Some(1), "child"), true);
    let binary = panel.copy_debug_adapter_arguments().unwrap();
    assert_eq!(binary.command, "root-cmd");
    assert_eq!(binary.request_args, "root-args");
}

#[test]
fn copy_arguments_needs_an_active_session() {
    let panel = DebugPanel::new();
    assert!(panel.copy_debug_adapter_arguments().is_none());
}

#[test]
fn scheduled_flag_follows_the_last_writer() {
    let mut panel = DebugPanel::new();
    assert!(panel.debug_scenario_scheduled_last());
    panel.task_scheduled();
    assert!(!panel.debug_scenario_scheduled_last());
    panel.debug_scenario_scheduled();
    assert!(panel.debug_scenario_scheduled_last());
}
