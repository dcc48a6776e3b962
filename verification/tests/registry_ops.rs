use debugger_panel::DebugPanel;
use debugger_panel::LaunchBinary;
use debugger_panel::SessionEntry;

fn entry(id: u64, parent: Option<u64>) -> SessionEntry {
    SessionEntry {
        id,
        parent,
        label: format!("session {id}"),
        adapter: String::from("gdb"),
        task_context: String::from("ctx"),
        worktree: Some(3),
        binary: Some(LaunchBinary {
            command: String::from("gdb --interpreter=dap"),
            request_args: String::from("{}"),
        }),
        terminated: false,
        has_ever_stopped: false,
    }
}

fn ids(panel: &DebugPanel) -> Vec<u64> {
    panel.sessions().iter().map(|e| e.id).collect()
}

#[test]
fn new_panel_is_empty() {
    let panel = DebugPanel::new();
    assert!(panel.sessions().is_empty());
    assert_eq!(panel.active_session(), None);
    assert!(panel.debug_scenario_scheduled_last());
}

#[test]
fn register_root_goes_to_end_and_focuses() {
    let mut panel = DebugPanel::new();
    let pos = panel.register_session(entry(1, None), true);
    assert_eq!(pos, 0);
    assert_eq!(ids(&panel), vec![1]);
    assert_eq!(panel.active_session(), Some(1));
}

#[test]
fn register_child_goes_right_after_parent() {
    let mut panel = DebugPanel::new();
    panel.register_session(entry(1, None), true);
    panel.register_session(entry(2, None), true);
    let pos = panel.register_session(entry(3, Some(1)), false);
    assert_eq!(pos, 1);
    assert_eq!(ids(&panel), vec![1, 3, 2]);
}

#[test]
fn register_child_of_absent_parent_goes_to_end() {
    let mut panel = DebugPanel::new();
    panel.register_session(entry(1, None), true);
    let pos = panel.register_session(entry(2, Some(42)), false);
    assert_eq!(pos, 1);
    assert_eq!(ids(&panel), vec![1, 2]);
}

#[test]
fn registration_sweeps_terminated_entries() {
    let mut panel = DebugPanel::new();
    panel.register_session(entry(1, None), true);
    panel.register_session(entry(2, None), false);
    panel.mark_session_terminated(1);
    assert_eq!(ids(&panel), vec![1, 2], "pruning is lazy, not immediate");
    panel.register_session(entry(3, None), false);
    assert_eq!(ids(&panel), vec![2, 3]);
}

#[test]
fn sweep_reassigns_active_when_it_was_terminated() {
    let mut panel = DebugPanel::new();
    panel.register_session(entry(1, None), true);
    panel.register_session(entry(2, None), false);
    panel.mark_session_terminated(1);
    panel.register_session(entry(3, None), false);
    assert_eq!(panel.active_session(), Some(2));
}

#[test]
fn activate_session_sets_active() {
    let mut panel = DebugPanel::new();
    panel.register_session(entry(1, None), true);
    panel.register_session(entry(2, None), false);
    panel.activate_session(2);
    assert_eq!(panel.active_session(), Some(2));
}

#[test]
fn activate_session_is_noop_when_absent() {
    let mut panel = DebugPanel::new();
    panel.register_session(entry(1, None), true);
    panel.activate_session(9);
    assert_eq!(panel.active_session(), Some(1));
}

#[test]
fn remove_active_session_reassigns_to_first_remaining() {
    let mut panel = DebugPanel::new();
    panel.register_session(entry(1, None), true);
    panel.register_session(entry(2, None), false);
    panel.register_session(entry(3, None), false);
    assert_eq!(panel.active_session(), Some(1));
    let removed = panel.remove_session(1);
    assert!(removed);
    assert_eq!(ids(&panel), vec![2, 3]);
    assert_eq!(panel.active_session(), Some(2));
}

#[test]
fn remove_last_session_leaves_no_active_entry() {
    let mut panel = DebugPanel::new();
    panel.register_session(entry(1, None), true);
    panel.remove_session(1);
    assert!(panel.sessions().is_empty());
    assert_eq!(panel.active_session(), None);
}

#[test]
fn remove_other_session_keeps_active() {
    let mut panel = DebugPanel::new();
    panel.register_session(entry(1, None), true);
    panel.register_session(entry(2, None), false);
    panel.remove_session(2);
    assert_eq!(panel.active_session(), Some(1));
}

#[test]
fn remove_absent_session_is_noop() {
    let mut panel = DebugPanel::new();
    panel.register_session(entry(1, None), true);
    let removed = panel.remove_session(9);
    assert!(!removed);
    assert_eq!(ids(&panel), vec![1]);
    assert_eq!(panel.active_session(), Some(1));
}

#[test]
fn removing_parent_does_not_cascade_to_children() {
    let mut panel = DebugPanel::new();
    panel.register_session(entry(1, None), true);
    panel.register_session(entry(2, Some(1)), false);
    let removed = panel.remove_session(1);
    assert!(removed);
    assert_eq!(ids(&panel), vec![2], "the orphaned child stays registered");
    assert_eq!(panel.active_session(), Some(2));
}

#[test]
fn parent_chain_walks_to_the_root() {
    let mut panel = DebugPanel::new();
    panel.register_session(entry(1, None), true);
    panel.register_session(entry(2, Some(1)), false);
    panel.register_session(entry(3, Some(2)), false);
    assert_eq!(panel.find_parent_chain(3), vec![3, 2, 1]);
    assert_eq!(panel.find_parent_chain(1), vec![1]);
    assert_eq!(panel.find_parent_chain(9), Vec::<u64>::new());
}

#[test]
fn parent_chain_stops_at_an_orphan() {
    let mut panel = DebugPanel::new();
    panel.register_session(entry(1, None), true);
    panel.register_session(entry(2, Some(1)), false);
    panel.register_session(entry(3, Some(2)), false);
    panel.remove_session(2);
    assert_eq!(panel.find_parent_chain(3), vec![3]);
}

#[test]
fn registration_keeps_topological_order_in_a_forest() {
    let mut panel = DebugPanel::new();
    panel.register_session(entry(1, None), true);
    panel.register_session(entry(2, Some(1)), false);
    panel.register_session(entry(3, Some(1)), false);
    panel.register_session(entry(4, Some(2)), false);
    panel.register_session(entry(5, None), false);
    assert_eq!(ids(&panel), vec![1, 3, 2, 4, 5]);
    let order = ids(&panel);
    for (child_pos, child) in panel.sessions().iter().enumerate() {
        if let Some(parent_id) = child.parent {
            let parent_pos = order.iter().position(|id| *id == parent_id).unwrap();
            assert!(parent_pos < child_pos);
        }
    }
}
