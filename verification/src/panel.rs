//! The debug panel: the session registry together with the lifecycle
//! orchestrator that mutates it.
//!
//! All registry mutation goes through the methods of [`DebugPanel`]; the
//! embedding shell serializes calls into it (single logical owner) and runs
//! the long-lived asynchronous work — booting an adapter, awaiting shutdown,
//! prompting the user — outside, feeding results back as plain values.

use vstd::prelude::*;

use crate::registry::LaunchBinary;
use crate::registry::SessionEntry;
use crate::registry::active_after_removal;
use crate::registry::contains_id;
use crate::registry::ids_unique;
use crate::registry::index_of_id;
use crate::registry::insert_position;
use crate::registry::lemma_insert_wf;
use crate::registry::lemma_swept_all_clean;
use crate::registry::lemma_swept_contains_id;
use crate::registry::lemma_swept_remove_terminated;
use crate::registry::lemma_swept_wf;
use crate::registry::remove_id;
use crate::registry::root_of;
use crate::registry::swept;
use crate::registry::topo_ordered;
use crate::labels::child_label;
use crate::labels::label_for_child_session;
use crate::labels::option_label_view;

verus! {

/// Status notifications the panel re-emits to its host for presentation; each
/// carries the identifier of the session it concerns.
pub enum DebugPanelEvent {
    Exited(u64),
    Terminated(u64),
    Stopped { client_id: u64, go_to_stack_frame: bool },
    Thread(u64),
    Continued(u64),
    Output(u64),
    Module(u64),
    LoadedSource(u64),
    ClientShutdown(u64),
    CapabilitiesChanged(u64),
}

/// Lifecycle events a session handle raises; the orchestrator is the single
/// handler matching over the variants.
pub enum SessionStateEvent {
    /// The adapter asked for the whole session tree to be restarted.
    Restart,
    /// The adapter asked for a child session with the given start-request
    /// payload.
    SpawnChildSession { request_args: String },
    /// An ordinary status change, used only to refresh presentation state.
    StatusChanged,
}

/// A named, reusable debug launch configuration: what the start flow is
/// handed.
pub struct DebugScenario {
    pub label: String,
    pub adapter: String,
}

/// What the start flow asks of the session store: create a handle with this
/// label and adapter and boot it against this worktree, once the scenario has
/// been resolved into a concrete definition.
pub struct StartCommand {
    pub label: String,
    pub adapter: String,
    pub worktree: u64,
}

/// What the restart flow asks of its driver: await full shutdown of the root
/// handle, then request a fresh handle with the same label, adapter, context
/// and binary, register it with focus, and boot it against the same worktree.
pub struct RestartCommand {
    pub root_id: u64,
    pub label: String,
    pub adapter: String,
    pub task_context: String,
    pub binary: LaunchBinary,
    pub worktree: u64,
}

/// What the child-spawn flow asks of its driver: request a handle under the
/// parent, register it — with focus only when `focus` is set — and boot it
/// with the overlaid binary against the parent's worktree.
pub struct SpawnCommand {
    pub parent_id: u64,
    pub label: String,
    pub adapter: String,
    pub task_context: String,
    pub binary: LaunchBinary,
    pub worktree: u64,
    pub focus: bool,
}

/// How a rerun request is served: start the last scheduled scenario again, or
/// open the new-process dialog when none was scheduled yet.
pub enum RerunDecision {
    StartLastScenario,
    OpenNewProcessModal,
}

/// The worktree a start request resolves to: the explicitly named one, else
/// the worktree of the given source buffer, else the first visible worktree.
pub open spec fn resolved_worktree(
    explicit: Option<u64>,
    buffer: Option<u64>,
    first_visible: Option<u64>,
) -> Option<u64> {
    if explicit is Some {
        explicit
    } else if buffer is Some {
        buffer
    } else {
        first_visible
    }
}

/// The panel: the ordered session registry, the single active session, and
/// the process-wide flag telling whether the last scheduled run was a debug
/// scenario rather than a plain task.
pub struct DebugPanel {
    pub sessions: Vec<SessionEntry>,
    pub active_session: Option<u64>,
    pub debug_scenario_scheduled_last: bool,
}

impl DebugPanel {
    /// Well-formedness: identifiers unique, every present parent before all
    /// of its descendants, and the active session, if set, a member.
    pub open spec fn wf(&self) -> bool {
        &&& ids_unique(self.sessions@)
        &&& topo_ordered(self.sessions@)
        &&& match self.active_session {
            Some(id) => contains_id(self.sessions@, id),
            None => true,
        }
    }

    /// A fresh panel: no sessions, nothing active; a debug scenario counts as
    /// scheduled last until a plain task is scheduled.
    pub fn new() -> (r: DebugPanel)
        ensures
            r.wf(),
            r.sessions@ == Seq::<SessionEntry>::empty(),
            r.active_session is None,
            r.debug_scenario_scheduled_last,
    {
        DebugPanel { sessions: Vec::new(), active_session: None, debug_scenario_scheduled_last: true }
    }

    /// The identifier of the active session, if one is set.
    pub fn active_session(&self) -> (r: Option<u64>)
        ensures
            r == self.active_session,
    {
        self.active_session
    }

    /// The registered sessions, in registry order.
    pub fn sessions(&self) -> (r: &Vec<SessionEntry>)
        ensures
            r == &self.sessions,
    {
        &self.sessions
    }

    /// Whether a session with this identifier is registered.
    pub fn contains_session(&self, session_id: u64) -> (r: bool)
        ensures
            r == contains_id(self.sessions@, session_id),
    {
        let mut i: usize = 0;
        while i < self.sessions.len()
            invariant
                i <= self.sessions@.len(),
                forall|k: int| 0 <= k < i ==> (#[trigger] self.sessions@[k]).id != session_id,
            decreases self.sessions@.len() - i,
        {
            if self.sessions[i].id == session_id {
                return true;
            }
            i += 1;
        }
        false
    }

    /// The position of the session with this identifier, if registered.
    pub fn find_session(&self, session_id: u64) -> (r: Option<usize>)
        ensures
            r is Some <==> contains_id(self.sessions@, session_id),
            match r {
                Some(j) => j < self.sessions@.len() && self.sessions@[j as int].id == session_id,
                None => true,
            },
            ids_unique(self.sessions@) ==> match r {
                Some(j) => j as int == index_of_id(self.sessions@, session_id),
                None => true,
            },
    {
        let mut i: usize = 0;
        while i < self.sessions.len()
            invariant
                i <= self.sessions@.len(),
                forall|k: int| 0 <= k < i ==> (#[trigger] self.sessions@[k]).id != session_id,
            decreases self.sessions@.len() - i,
        {
            if self.sessions[i].id == session_id {
                proof {
                    if ids_unique(self.sessions@) {
                        let i0 = index_of_id(self.sessions@, session_id);
                        assert(self.sessions@[i as int].id == session_id);
                        assert(0 <= i0 < self.sessions@.len() && self.sessions@[i0].id
                            == session_id);
                    }
                }
                return Some(i);
            }
            i += 1;
        }
        None
    }

    /// Re-establish the active-entry rule after entries may have been
    /// removed: keep the active session if it is still registered, otherwise
    /// fall back to the first remaining session, or to none.
    fn fix_active(&mut self)
        ensures
            final(self).sessions == old(self).sessions,
            final(self).debug_scenario_scheduled_last == old(self).debug_scenario_scheduled_last,
            final(self).active_session == active_after_removal(
                old(self).sessions@,
                old(self).active_session,
            ),
    {
        let stale = match self.active_session {
            Some(id) => !self.contains_session(id),
            None => false,
        };
        if stale {
            self.active_session = if self.sessions.len() > 0 {
                Some(self.sessions[0].id)
            } else {
                None
            };
        }
    }

    /// The lazy sweep: drop every entry whose session has terminated,
    /// reassigning the active session if it was among them.
    fn sweep(&mut self)
        requires
            old(self).wf(),
        ensures
            final(self).wf(),
            final(self).sessions@ == swept(old(self).sessions@),
            final(self).active_session == active_after_removal(
                swept(old(self).sessions@),
                old(self).active_session,
            ),
            final(self).debug_scenario_scheduled_last == old(self).debug_scenario_scheduled_last,
    {
        let ghost orig = self.sessions@;
        let mut i: usize = 0;
        while i < self.sessions.len()
            invariant
                i <= self.sessions@.len(),
                forall|k: int| 0 <= k < i ==> !(#[trigger] self.sessions@[k]).terminated,
                swept(self.sessions@) == swept(orig),
                self.active_session == old(self).active_session,
                self.debug_scenario_scheduled_last == old(self).debug_scenario_scheduled_last,
            decreases self.sessions@.len() - i,
        {
            if self.sessions[i].terminated {
                proof {
                    lemma_swept_remove_terminated(self.sessions@, i as int);
                }
                self.sessions.remove(i);
            } else {
                i += 1;
            }
        }
        proof {
            lemma_swept_all_clean(self.sessions@);
            lemma_swept_wf(orig);
        }
        self.fix_active();
        proof {
            match self.active_session {
                Some(id) => {
                    if !contains_id(swept(orig), id) {
                        assert(contains_id(swept(orig), swept(orig)[0].id));
                    }
                },
                None => {},
            }
        }
    }

    /// Register a freshly created session handle: insert it immediately after
    /// its parent's current position (at the end if the parent is absent),
    /// then sweep terminated entries, then activate it when `focus` is set.
    ///
    /// Identifiers are process-unique, so a fresh handle's identifier is
    /// carried by no registered entry and named as parent by none of them.
    /// Returns the position the entry was inserted at, counted before the
    /// sweep.
    pub fn register_session(&mut self, entry: SessionEntry, focus: bool) -> (pos: usize)
        requires
            old(self).wf(),
            !contains_id(old(self).sessions@, entry.id),
            forall|k: int|
                0 <= k < old(self).sessions@.len() ==> (#[trigger] old(
                    self,
                ).sessions@[k]).parent != Some(entry.id),
            entry.parent != Some(entry.id),
            !entry.terminated,
        ensures
            final(self).wf(),
            pos as int == insert_position(old(self).sessions@, entry.parent),
            final(self).sessions@ == swept(old(self).sessions@.insert(pos as int, entry)),
            contains_id(final(self).sessions@, entry.id),
            final(self).active_session == crate::registry::active_after_register(
                old(self).sessions@,
                old(self).active_session,
                entry,
                focus,
            ),
            final(self).debug_scenario_scheduled_last == old(self).debug_scenario_scheduled_last,
    {
        proof {
            lemma_insert_wf(old(self).sessions@, entry, insert_position(
                old(self).sessions@,
                entry.parent,
            ));
        }
        let ghost entry_id = entry.id;
        let new_id = entry.id;
        let n = self.sessions.len();
        let pos = match entry.parent {
            Some(p) => match self.find_session(p) {
                Some(i) => i + 1,
                None => n,
            },
            None => n,
        };
        let ghost orig = self.sessions@;
        self.sessions.insert(pos, entry);
        proof {
            orig.insert_ensures(pos as int, entry);
            lemma_swept_contains_id(self.sessions@, entry_id);
            assert(self.sessions@[pos as int].id == entry_id && !self.sessions@[pos as int]
                .terminated);
            match self.active_session {
                Some(id) => {
                    let k = choose|k: int| 0 <= k < orig.len() && (#[trigger] orig[k]).id == id;
                    if k < pos {
                        assert(self.sessions@[k] == orig[k]);
                    } else {
                        assert(self.sessions@[k + 1] == orig[k]);
                    }
                    assert(contains_id(self.sessions@, id));
                },
                None => {},
            }
        }
        self.sweep();
        if focus {
            self.active_session = Some(new_id);
        }
        pos
    }

    /// Make the session with this identifier active; a no-op when it is not
    /// registered.
    pub fn activate_session(&mut self, session_id: u64)
        requires
            old(self).wf(),
        ensures
            final(self).wf(),
            final(self).sessions == old(self).sessions,
            final(self).debug_scenario_scheduled_last == old(self).debug_scenario_scheduled_last,
            final(self).active_session == if contains_id(old(self).sessions@, session_id) {
                Some(session_id)
            } else {
                old(self).active_session
            },
    {
        if self.contains_session(session_id) {
            self.active_session = Some(session_id);
        }
    }

    /// Remove the session with this identifier; a no-op when it is not
    /// registered.  If it was active, the first remaining session (or none)
    /// becomes active.  Removal does not cascade: children of the removed
    /// session stay registered, orphaned, until they terminate.
    pub fn remove_session(&mut self, session_id: u64) -> (removed: bool)
        requires
            old(self).wf(),
        ensures
            final(self).wf(),
            removed == contains_id(old(self).sessions@, session_id),
            final(self).sessions@ == crate::registry::remove_id(old(self).sessions@, session_id),
            final(self).active_session == active_after_removal(
                final(self).sessions@,
                old(self).active_session,
            ),
            final(self).debug_scenario_scheduled_last == old(self).debug_scenario_scheduled_last,
    {
        let ghost orig = self.sessions@;
        match self.find_session(session_id) {
            Some(i) => {
                proof {
                    orig.remove_ensures(i as int);
                    crate::registry::lemma_remove_wf(orig, i as int);
                }
                self.sessions.remove(i);
                self.fix_active();
                proof {
                    match self.active_session {
                        Some(id) => {
                            if !contains_id(self.sessions@, id) {
                                assert(contains_id(self.sessions@, self.sessions@[0].id));
                            }
                        },
                        None => {},
                    }
                }
                true
            },
            None => {
                false
            },
        }
    }

    /// Record that the session's underlying process terminated.  The entry is
    /// kept — terminated entries are pruned lazily, on the next registration —
    /// and the active session is untouched.
    pub fn mark_session_terminated(&mut self, session_id: u64)
        requires
            old(self).wf(),
        ensures
            final(self).wf(),
            final(self).active_session == old(self).active_session,
            final(self).debug_scenario_scheduled_last == old(self).debug_scenario_scheduled_last,
            final(self).sessions@.len() == old(self).sessions@.len(),
            forall|k: int|
                0 <= k < old(self).sessions@.len() ==> #[trigger] final(self).sessions@[k] == (
                if old(self).sessions@[k].id == session_id {
                    SessionEntry { terminated: true, ..old(self).sessions@[k] }
                } else {
                    old(self).sessions@[k]
                }),
    {
        let ghost orig = self.sessions@;
        match self.find_session(session_id) {
            Some(i) => {
                let mut entry = self.sessions.remove(i);
                entry.terminated = true;
                self.sessions.insert(i, entry);
                proof {
                    orig.remove_ensures(i as int);
                    orig.remove(i as int).insert_ensures(i as int, entry);
                    self.lemma_same_links_wf(old(self));
                }
            },
            None => {},
        }
    }

    /// Record that the session has reached a stopped (breakpoint-hit) state
    /// at least once in its lifetime.
    pub fn mark_session_stopped(&mut self, session_id: u64)
        requires
            old(self).wf(),
        ensures
            final(self).wf(),
            final(self).active_session == old(self).active_session,
            final(self).debug_scenario_scheduled_last == old(self).debug_scenario_scheduled_last,
            final(self).sessions@.len() == old(self).sessions@.len(),
            forall|k: int|
                0 <= k < old(self).sessions@.len() ==> #[trigger] final(self).sessions@[k] == (
                if old(self).sessions@[k].id == session_id {
                    SessionEntry { has_ever_stopped: true, ..old(self).sessions@[k] }
                } else {
                    old(self).sessions@[k]
                }),
    {
        let ghost orig = self.sessions@;
        match self.find_session(session_id) {
            Some(i) => {
                let mut entry = self.sessions.remove(i);
                entry.has_ever_stopped = true;
                self.sessions.insert(i, entry);
                proof {
                    orig.remove_ensures(i as int);
                    orig.remove(i as int).insert_ensures(i as int, entry);
                    self.lemma_same_links_wf(old(self));
                }
            },
            None => {},
        }
    }

    /// Record a successful boot: cache the worktree the session booted
    /// against and its launch binary, the data a restart or a child spawn
    /// derives from.
    pub fn mark_session_booted(&mut self, session_id: u64, worktree: u64, binary: LaunchBinary)
        requires
            old(self).wf(),
        ensures
            final(self).wf(),
            final(self).active_session == old(self).active_session,
            final(self).debug_scenario_scheduled_last == old(self).debug_scenario_scheduled_last,
            final(self).sessions@.len() == old(self).sessions@.len(),
            forall|k: int|
                0 <= k < old(self).sessions@.len() ==> #[trigger] final(self).sessions@[k] == (
                if old(self).sessions@[k].id == session_id {
                    SessionEntry {
                        worktree: Some(worktree),
                        binary: Some(binary),
                        ..old(self).sessions@[k]
                    }
                } else {
                    old(self).sessions@[k]
                }),
    {
        let ghost orig = self.sessions@;
        match self.find_session(session_id) {
            Some(i) => {
                let mut entry = self.sessions.remove(i);
                entry.worktree = Some(worktree);
                entry.binary = Some(binary);
                self.sessions.insert(i, entry);
                proof {
                    orig.remove_ensures(i as int);
                    orig.remove(i as int).insert_ensures(i as int, entry);
                    self.lemma_same_links_wf(old(self));
                }
            },
            None => {},
        }
    }

    /// Well-formedness carries over to a panel whose entries kept their
    /// identifiers and parent links position by position.
    proof fn lemma_same_links_wf(&self, other: &DebugPanel)
        requires
            other.wf(),
            self.active_session == other.active_session,
            self.sessions@.len() == other.sessions@.len(),
            forall|k: int|
                0 <= k < self.sessions@.len() ==> (#[trigger] self.sessions@[k]).id
                    == other.sessions@[k].id && self.sessions@[k].parent
                    == other.sessions@[k].parent,
        ensures
            self.wf(),
    {
        assert forall|i: int, j: int| 0 <= i < j < self.sessions@.len() implies (
        #[trigger] self.sessions@[i]).id != (#[trigger] self.sessions@[j]).id by {
            assert(other.sessions@[i].id != other.sessions@[j].id);
        }
        assert forall|i: int, j: int|
            0 <= i < self.sessions@.len() && 0 <= j < self.sessions@.len() && (
            #[trigger] self.sessions@[j]).parent == Some(
                (#[trigger] self.sessions@[i]).id,
            ) implies i < j by {
            assert(other.sessions@[j].parent == Some(other.sessions@[i].id));
        }
        match self.active_session {
            Some(id) => {
                let k = choose|k: int|
                    0 <= k < other.sessions@.len() && (#[trigger] other.sessions@[k]).id == id;
                assert(self.sessions@[k].id == id);
            },
            None => {},
        }
    }

    /// The position of the root ancestor of the session at `start`: parent
    /// links are walked to the root, which is the session the restart flow
    /// targets.
    fn root_index(&self, start: usize) -> (r: usize)
        requires
            self.wf(),
            start < self.sessions@.len(),
        ensures
            r < self.sessions@.len(),
            r as int == root_of(self.sessions@, start as int),
    {
        let mut cur = start;
        loop
            invariant
                self.wf(),
                cur < self.sessions@.len(),
                root_of(self.sessions@, cur as int) == root_of(self.sessions@, start as int),
            decreases cur,
        {
            let parent = self.sessions[cur].parent;
            match parent {
                None => {
                    return cur;
                },
                Some(p) => {
                    match self.find_session(p) {
                        Some(j) => {
                            proof {
                                assert(self.sessions@[cur as int].parent == Some(
                                    self.sessions@[j as int].id,
                                ));
                            }
                            cur = j;
                        },
                        None => {
                            return cur;
                        },
                    }
                },
            }
        }
    }

    /// Walk parent links from the session to its root ancestor: the session's
    /// own identifier first, the root's last.  Empty when the session is not
    /// registered.
    pub fn find_parent_chain(&self, session_id: u64) -> (r: Vec<u64>)
        requires
            self.wf(),
        ensures
            contains_id(self.sessions@, session_id) ==> r@ == crate::registry::parent_chain(
                self.sessions@,
                index_of_id(self.sessions@, session_id),
            ),
            !contains_id(self.sessions@, session_id) ==> r@ == Seq::<u64>::empty(),
    {
        let ghost s = self.sessions@;
        let mut chain: Vec<u64> = Vec::new();
        let start = match self.find_session(session_id) {
            Some(i) => i,
            None => {
                return chain;
            },
        };
        proof {
            assert(start as int == index_of_id(s, session_id));
            assert(chain@ + crate::registry::parent_chain(s, start as int)
                =~= crate::registry::parent_chain(s, start as int));
        }
        let mut cur = start;
        loop
            invariant
                self.wf(),
                s == self.sessions@,
                cur < s.len(),
                contains_id(s, session_id),
                start as int == index_of_id(s, session_id),
                crate::registry::parent_chain(s, start as int) == chain@
                    + crate::registry::parent_chain(s, cur as int),
            decreases cur,
        {
            let ghost prev = chain@;
            let id = self.sessions[cur].id;
            chain.push(id);
            let parent = self.sessions[cur].parent;
            match parent {
                None => {
                    proof {
                        assert(crate::registry::parent_chain(s, cur as int) == seq![id]);
                        assert(prev.push(id) =~= prev + seq![id]);
                    }
                    return chain;
                },
                Some(p) => {
                    match self.find_session(p) {
                        Some(j) => {
                            proof {
                                assert(s[cur as int].parent == Some(s[j as int].id));
                                assert(crate::registry::parent_chain(s, cur as int) == seq![id]
                                    + crate::registry::parent_chain(s, j as int));
                                assert(prev.push(id) + crate::registry::parent_chain(s, j as int)
                                    =~= prev + (seq![id] + crate::registry::parent_chain(
                                    s,
                                    j as int,
                                )));
                            }
                            cur = j;
                        },
                        None => {
                            proof {
                                assert(crate::registry::parent_chain(s, cur as int) == seq![id]);
                                assert(prev.push(id) =~= prev + seq![id]);
                            }
                            return chain;
                        },
                    }
                },
            }
        }
    }

    /// The start flow's synchronous step.  Resolves the target worktree; when
    /// none resolves the start is abandoned — the registry is untouched and
    /// no handle is created.  Otherwise the scenario counts as scheduled last
    /// and the returned command tells the driver to create and boot a handle;
    /// the handle is registered with focus when the store hands it back.  Any
    /// later resolution or boot failure is terminal to that one session only:
    /// the driver writes it to the session's console and shuts the handle
    /// down.
    pub fn start_session(
        &mut self,
        scenario: &DebugScenario,
        explicit_worktree: Option<u64>,
        buffer_worktree: Option<u64>,
        first_visible_worktree: Option<u64>,
    ) -> (r: Option<StartCommand>)
        ensures
            final(self).sessions == old(self).sessions,
            final(self).active_session == old(self).active_session,
            match resolved_worktree(explicit_worktree, buffer_worktree, first_visible_worktree) {
                Some(w) => r matches Some(cmd) && cmd.label == scenario.label && cmd.adapter
                    == scenario.adapter && cmd.worktree == w
                    && final(self).debug_scenario_scheduled_last,
                None => r is None && final(self).debug_scenario_scheduled_last == old(
                    self,
                ).debug_scenario_scheduled_last,
            },
    {
        let worktree = match explicit_worktree {
            Some(w) => Some(w),
            None => match buffer_worktree {
                Some(w) => Some(w),
                None => first_visible_worktree,
            },
        };
        match worktree {
            Some(w) => {
                self.debug_scenario_scheduled_last = true;
                Some(
                    StartCommand {
                        label: scenario.label.clone(),
                        adapter: scenario.adapter.clone(),
                        worktree: w,
                    },
                )
            },
            None => None,
        }
    }

    /// How to serve a rerun request: start the last scheduled scenario again,
    /// or open the new-process dialog when none was scheduled yet.
    pub fn rerun_last_session(has_last_scheduled_scenario: bool) -> (r: RerunDecision)
        ensures
            r == if has_last_scheduled_scenario {
                RerunDecision::StartLastScenario
            } else {
                RerunDecision::OpenNewProcessModal
            },
    {
        if has_last_scheduled_scenario {
            RerunDecision::StartLastScenario
        } else {
            RerunDecision::OpenNewProcessModal
        }
    }

    /// The restart flow's decision.  Restart always targets the root ancestor
    /// of the session's tree — children are not independently bootable.  The
    /// command is returned exactly when the session is registered and its
    /// root booted before (it has a resolved worktree and a cached binary);
    /// otherwise the request is abandoned and nothing changes.  The driver
    /// awaits the root handle's shutdown before requesting the replacement
    /// handle, so two handles for the slot are never live at once.
    pub fn handle_restart_request(&self, session_id: u64) -> (r: Option<RestartCommand>)
        requires
            self.wf(),
        ensures
            ({
                let s = self.sessions@;
                match r {
                    Some(cmd) => contains_id(s, session_id) && {
                        let root = s[root_of(s, index_of_id(s, session_id))];
                        &&& root.worktree is Some
                        &&& root.binary is Some
                        &&& cmd.root_id == root.id
                        &&& cmd.label == root.label
                        &&& cmd.adapter == root.adapter
                        &&& cmd.task_context == root.task_context
                        &&& cmd.binary == root.binary.unwrap()
                        &&& cmd.worktree == root.worktree.unwrap()
                    },
                    None => !contains_id(s, session_id) || {
                        let root = s[root_of(s, index_of_id(s, session_id))];
                        root.worktree is None || root.binary is None
                    },
                }
            }),
    {
        let idx = match self.find_session(session_id) {
            Some(i) => i,
            None => {
                return None;
            },
        };
        let ridx = self.root_index(idx);
        let root = &self.sessions[ridx];
        let worktree = match root.worktree {
            Some(w) => w,
            None => {
                return None;
            },
        };
        match &root.binary {
            Some(binary) => Some(
                RestartCommand {
                    root_id: root.id,
                    label: root.label.clone(),
                    adapter: root.adapter.clone(),
                    task_context: root.task_context.clone(),
                    binary: binary.clone(),
                    worktree,
                },
            ),
            None => None,
        }
    }

    /// The child-spawn flow's decision.  A child can only be derived from a
    /// parent that booted (resolved worktree and cached binary); otherwise
    /// the request is abandoned.  The child's binary overlays the start
    /// request onto the parent's cached command; its label comes from the
    /// adapter or from the parent's label with the child marker appended
    /// once.  The child steals focus only when the parent has never stopped.
    pub fn handle_start_debugging_request(
        &self,
        parent_id: u64,
        request_args: &String,
        custom_label: Option<String>,
    ) -> (r: Option<SpawnCommand>)
        requires
            self.wf(),
        ensures
            ({
                let s = self.sessions@;
                match r {
                    Some(cmd) => contains_id(s, parent_id) && {
                        let parent = s[index_of_id(s, parent_id)];
                        &&& parent.worktree is Some
                        &&& parent.binary is Some
                        &&& cmd.parent_id == parent_id
                        &&& cmd.label@ == child_label(
                            parent.label@,
                            option_label_view(custom_label),
                        )
                        &&& cmd.adapter == parent.adapter
                        &&& cmd.task_context == parent.task_context
                        &&& cmd.binary.command == parent.binary.unwrap().command
                        &&& cmd.binary.request_args == *request_args
                        &&& cmd.worktree == parent.worktree.unwrap()
                        &&& cmd.focus == !parent.has_ever_stopped
                    },
                    None => !contains_id(s, parent_id) || {
                        let parent = s[index_of_id(s, parent_id)];
                        parent.worktree is None || parent.binary is None
                    },
                }
            }),
    {
        let idx = match self.find_session(parent_id) {
            Some(i) => i,
            None => {
                return None;
            },
        };
        let parent = &self.sessions[idx];
        let worktree = match parent.worktree {
            Some(w) => w,
            None => {
                return None;
            },
        };
        match &parent.binary {
            Some(binary) => Some(
                SpawnCommand {
                    parent_id,
                    label: label_for_child_session(&parent.label, custom_label),
                    adapter: parent.adapter.clone(),
                    task_context: parent.task_context.clone(),
                    binary: LaunchBinary {
                        command: binary.command.clone(),
                        request_args: request_args.clone(),
                    },
                    worktree,
                    focus: !parent.has_ever_stopped,
                },
            ),
            None => None,
        }
    }

    /// The close flow's first step.  Yields nothing when the session is not
    /// registered (the close is a no-op); otherwise whether the user must be
    /// asked first: exactly when the backing store still knows the session
    /// and it has not terminated.
    pub fn close_session_begin(&self, session_id: u64, store_terminated: Option<bool>) -> (r:
        Option<bool>)
        ensures
            r is Some <==> contains_id(self.sessions@, session_id),
            r matches Some(prompt) ==> prompt == (store_terminated == Some(false)),
    {
        if self.contains_session(session_id) {
            Some(
                match store_terminated {
                    Some(terminated) => !terminated,
                    None => false,
                },
            )
        } else {
            None
        }
    }

    /// The close flow's last step, after the confirmation resolved.  A
    /// declined confirmation cancels the close: the panel is exactly as it
    /// was.  Otherwise the session is removed — a no-op if it was swept away
    /// while the prompt was outstanding — and the active session reassigned
    /// per the removal rule; the driver shuts the handle down regardless.
    pub fn close_session_finish(&mut self, session_id: u64, cancelled: bool) -> (removed: bool)
        requires
            old(self).wf(),
        ensures
            final(self).wf(),
            cancelled ==> *final(self) == *old(self) && !removed,
            !cancelled ==> {
                &&& removed == contains_id(old(self).sessions@, session_id)
                &&& final(self).sessions@ == remove_id(old(self).sessions@, session_id)
                &&& final(self).active_session == active_after_removal(
                    final(self).sessions@,
                    old(self).active_session,
                )
                &&& final(self).debug_scenario_scheduled_last == old(
                    self,
                ).debug_scenario_scheduled_last
            },
    {
        if cancelled {
            return false;
        }
        self.remove_session(session_id)
    }

    /// The launch binary a copy-arguments request serializes: the cached
    /// binary of the root ancestor of the active session, if any.
    pub fn copy_debug_adapter_arguments(&self) -> (r: Option<LaunchBinary>)
        requires
            self.wf(),
        ensures
            ({
                let s = self.sessions@;
                match self.active_session {
                    Some(id) => r == s[root_of(s, index_of_id(s, id))].binary,
                    None => r is None,
                }
            }),
    {
        let id = match self.active_session {
            Some(id) => id,
            None => {
                return None;
            },
        };
        let idx = match self.find_session(id) {
            Some(i) => i,
            None => {
                proof {
                    assert(contains_id(self.sessions@, id));
                }
                return None;
            },
        };
        let ridx = self.root_index(idx);
        match &self.sessions[ridx].binary {
            Some(binary) => Some(binary.clone()),
            None => None,
        }
    }

    /// Note that a debug scenario was the last thing scheduled.
    pub fn debug_scenario_scheduled(&mut self)
        ensures
            final(self).sessions == old(self).sessions,
            final(self).active_session == old(self).active_session,
            final(self).debug_scenario_scheduled_last,
    {
        self.debug_scenario_scheduled_last = true;
    }

    /// Note that a plain task, not a debug scenario, was the last thing
    /// scheduled.
    pub fn task_scheduled(&mut self)
        ensures
            final(self).sessions == old(self).sessions,
            final(self).active_session == old(self).active_session,
            !final(self).debug_scenario_scheduled_last,
    {
        self.debug_scenario_scheduled_last = false;
    }

    /// Whether the last scheduled run was a debug scenario.
    pub fn debug_scenario_scheduled_last(&self) -> (r: bool)
        ensures
            r == self.debug_scenario_scheduled_last,
    {
        self.debug_scenario_scheduled_last
    }
}

} // verus!
