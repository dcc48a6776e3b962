//! Orchestration core of a debug-session panel.
//!
//! The library coordinates the lifecycle of debug sessions driven against a
//! debug-adapter backend: it keeps the ordered registry of sessions (parents
//! always before their children), tracks the single active session, and
//! decides the start, restart, child-spawn and close flows.  The asynchronous
//! collaborators (the session store that boots adapter processes, the
//! confirmation prompt, the file system) live outside: the embedding shell
//! feeds their results back in as plain values and carries the returned
//! commands out.

mod labels;
mod laws;
mod panel;
mod registry;
mod scenario_doc;

pub use labels::child_label;
pub use labels::label_for_child_session;
pub use labels::option_label_view;
pub use labels::seq_ends_with;
pub use laws::descends;
pub use laws::lemma_child_focus_rule;
pub use laws::lemma_restart_single_handle;
pub use laws::lemma_root_precedes;
pub use laws::lemma_topological_invariant;
pub use panel::DebugPanel;
pub use panel::DebugPanelEvent;
pub use panel::DebugScenario;
pub use panel::RerunDecision;
pub use panel::RestartCommand;
pub use panel::SessionStateEvent;
pub use panel::SpawnCommand;
pub use panel::StartCommand;
pub use panel::resolved_worktree;
pub use registry::LaunchBinary;
pub use registry::SessionEntry;
pub use registry::active_after_register;
pub use registry::active_after_removal;
pub use registry::contains_id;
pub use registry::ids_unique;
pub use registry::index_of_id;
pub use registry::insert_position;
pub use registry::parent_chain;
pub use registry::remove_id;
pub use registry::root_of;
pub use registry::swept;
pub use registry::topo_ordered;
pub use scenario_doc::append_scenario;
pub use scenario_doc::indent_lines;
pub use scenario_doc::indented_block;
pub use scenario_doc::last_object_end_of;
pub use scenario_doc::splice_scenario;
pub use scenario_doc::spliced;
