//! The session registry's data model and the sequence-level specification
//! functions that the panel's contracts are stated over.
//!
//! An entry records what the orchestrator caches about one live session
//! handle: its process-unique identifier, the weak parent link, the data
//! needed to reboot it, and its last-known status.  The registry itself is an
//! ordered sequence of entries kept in topological order: every parent that
//! is present precedes all of its descendants.

use vstd::prelude::*;

verus! {

/// The cached launch data of a session: the command that booted the adapter
/// and the start-request payload it was handed.  Needed to restart a session
/// or to derive a child session's launch arguments.
pub struct LaunchBinary {
    pub command: String,
    pub request_args: String,
}

impl Clone for LaunchBinary {
    fn clone(&self) -> (r: Self)
        ensures
            r == *self,
    {
        LaunchBinary { command: self.command.clone(), request_args: self.request_args.clone() }
    }
}

/// One registry entry: the orchestrator's record of a live session handle.
pub struct SessionEntry {
    /// Process-unique session identifier, immutable for the handle's lifetime.
    pub id: u64,
    /// Weak link to the parent session, if this session was spawned as a
    /// child.  The registry, not the entry, owns lifetime and membership: the
    /// parent may have been removed already.
    pub parent: Option<u64>,
    /// Human-readable label.
    pub label: String,
    /// Adapter name.
    pub adapter: String,
    /// Execution context used to (re)boot the session.
    pub task_context: String,
    /// The worktree the session booted against, once resolved.
    pub worktree: Option<u64>,
    /// Cached launch binary and arguments, once the session booted.
    pub binary: Option<LaunchBinary>,
    /// Last-known terminated status.  Terminated entries are pruned lazily,
    /// on the next registration, not immediately on termination.
    pub terminated: bool,
    /// Whether the session has ever reached a stopped (breakpoint-hit) state.
    /// Decides whether a spawned child steals focus.
    pub has_ever_stopped: bool,
}

/// Whether some entry of `s` carries the identifier `id`.
pub open spec fn contains_id(s: Seq<SessionEntry>, id: u64) -> bool {
    exists|i: int| 0 <= i < s.len() && (#[trigger] s[i]).id == id
}

/// The position of the entry carrying `id`; meaningful when `contains_id`
/// holds and identifiers are unique.
pub open spec fn index_of_id(s: Seq<SessionEntry>, id: u64) -> int {
    choose|i: int| 0 <= i < s.len() && (#[trigger] s[i]).id == id
}

/// Session identifiers are process-unique, so no two entries share one.
pub open spec fn ids_unique(s: Seq<SessionEntry>) -> bool {
    forall|i: int, j: int|
        0 <= i < j < s.len() ==> (#[trigger] s[i]).id != (#[trigger] s[j]).id
}

/// Topological order: every entry whose parent is present in the sequence
/// stands after that parent.
pub open spec fn topo_ordered(s: Seq<SessionEntry>) -> bool {
    forall|i: int, j: int|
        0 <= i < s.len() && 0 <= j < s.len() && (#[trigger] s[j]).parent == Some(
            (#[trigger] s[i]).id,
        ) ==> i < j
}

/// Where a new entry is inserted: immediately after its parent's current
/// position, or at the end if it has no parent or the parent is absent.
pub open spec fn insert_position(s: Seq<SessionEntry>, parent: Option<u64>) -> int {
    match parent {
        Some(p) => if contains_id(s, p) {
            index_of_id(s, p) + 1
        } else {
            s.len() as int
        },
        None => s.len() as int,
    }
}

/// The position of the root ancestor of the entry at position `i`: parent
/// links are walked until an entry has no parent or its parent is absent.
/// Well-defined on topologically ordered sequences, where a present parent
/// always stands earlier.
pub open spec fn root_of(s: Seq<SessionEntry>, i: int) -> int
    decreases i
        when 0 <= i < s.len() && ids_unique(s) && topo_ordered(s)
        via root_of_decreases
{
    match s[i].parent {
        None => i,
        Some(p) => if contains_id(s, p) {
            root_of(s, index_of_id(s, p))
        } else {
            i
        },
    }
}

#[via_fn]
proof fn root_of_decreases(s: Seq<SessionEntry>, i: int) {
    match s[i].parent {
        Some(p) => {
            if contains_id(s, p) {
                let j = index_of_id(s, p);
                assert(0 <= j < s.len() && s[j].id == p);
                assert(s[i].parent == Some(s[j].id));
            }
        },
        None => {},
    }
}

/// The chain of parent links from the entry at position `i` up to its root
/// ancestor: the identifiers of the entry itself, its parent, and so on,
/// ending at the first entry with no parent or an absent one.
pub open spec fn parent_chain(s: Seq<SessionEntry>, i: int) -> Seq<u64>
    decreases i
        when 0 <= i < s.len() && ids_unique(s) && topo_ordered(s)
        via parent_chain_decreases
{
    match s[i].parent {
        None => seq![s[i].id],
        Some(p) => if contains_id(s, p) {
            seq![s[i].id] + parent_chain(s, index_of_id(s, p))
        } else {
            seq![s[i].id]
        },
    }
}

#[via_fn]
proof fn parent_chain_decreases(s: Seq<SessionEntry>, i: int) {
    match s[i].parent {
        Some(p) => {
            if contains_id(s, p) {
                let j = index_of_id(s, p);
                assert(0 <= j < s.len() && s[j].id == p);
                assert(s[i].parent == Some(s[j].id));
            }
        },
        None => {},
    }
}

/// The sweep: the sequence with every terminated entry removed, order kept.
pub open spec fn swept(s: Seq<SessionEntry>) -> Seq<SessionEntry>
    decreases s.len(),
{
    if s.len() == 0 {
        Seq::empty()
    } else if s[0].terminated {
        swept(s.drop_first())
    } else {
        seq![s[0]] + swept(s.drop_first())
    }
}

/// The active entry after entries may have been removed: kept if still a
/// member, otherwise reassigned to the first remaining entry, or to none.
pub open spec fn active_after_removal(s: Seq<SessionEntry>, active: Option<u64>) -> Option<u64> {
    match active {
        Some(id) => if contains_id(s, id) {
            Some(id)
        } else if s.len() > 0 {
            Some(s[0].id)
        } else {
            None
        },
        None => None,
    }
}

/// The sequence after removing the entry carrying `id`; the sequence itself
/// when no entry carries it.
pub open spec fn remove_id(s: Seq<SessionEntry>, id: u64) -> Seq<SessionEntry> {
    if contains_id(s, id) {
        s.remove(index_of_id(s, id))
    } else {
        s
    }
}

/// The active entry after a registration: the fresh entry itself when it was
/// registered with focus; otherwise the previous active entry, subject to the
/// removal rule should the sweep have pruned it.
pub open spec fn active_after_register(
    s: Seq<SessionEntry>,
    active: Option<u64>,
    entry: SessionEntry,
    focus: bool,
) -> Option<u64> {
    if focus {
        Some(entry.id)
    } else {
        active_after_removal(swept(s.insert(insert_position(s, entry.parent), entry)), active)
    }
}

/// Every element of the sweep comes from the original sequence and is not
/// terminated.
pub proof fn lemma_swept_elements(s: Seq<SessionEntry>)
    ensures
        forall|k: int|
            0 <= k < swept(s).len() ==> exists|i: int|
                0 <= i < s.len() && #[trigger] swept(s)[k] == s[i],
        forall|k: int| 0 <= k < swept(s).len() ==> !(#[trigger] swept(s)[k]).terminated,
    decreases s.len(),
{
    if s.len() == 0 {
    } else {
        let rest = s.drop_first();
        lemma_swept_elements(rest);
        assert forall|k: int| 0 <= k < swept(s).len() implies exists|i: int|
            0 <= i < s.len() && #[trigger] swept(s)[k] == s[i] by {
            if s[0].terminated {
                let i = choose|i: int| 0 <= i < rest.len() && swept(rest)[k] == rest[i];
                assert(s[i + 1] == rest[i]);
                assert(swept(s)[k] == s[i + 1]);
            } else {
                if k == 0 {
                    assert(swept(s)[0] == s[0]);
                } else {
                    let i = choose|i: int|
                        0 <= i < rest.len() && swept(rest)[k - 1] == rest[i];
                    assert(s[i + 1] == rest[i]);
                    assert(swept(s)[k] == s[i + 1]);
                }
            }
        }
    }
}

/// An identifier survives the sweep exactly when some entry carries it and
/// that entry is not terminated.
pub proof fn lemma_swept_contains_id(s: Seq<SessionEntry>, id: u64)
    ensures
        contains_id(swept(s), id) <==> exists|i: int|
            0 <= i < s.len() && (#[trigger] s[i]).id == id && !s[i].terminated,
    decreases s.len(),
{
    if s.len() == 0 {
    } else {
        let rest = s.drop_first();
        lemma_swept_contains_id(rest, id);
        assert(forall|i: int| 0 <= i < rest.len() ==> #[trigger] rest[i] == s[i + 1]);
        if exists|i: int| 0 <= i < rest.len() && (#[trigger] rest[i]).id == id && !rest[i].terminated {
            let i = choose|i: int|
                0 <= i < rest.len() && (#[trigger] rest[i]).id == id && !rest[i].terminated;
            assert(s[i + 1].id == id && !s[i + 1].terminated);
        }
        if contains_id(swept(s), id) {
            if !s[0].terminated {
                let k = choose|k: int| 0 <= k < swept(s).len() && (#[trigger] swept(s)[k]).id == id;
                if k > 0 {
                    assert(swept(rest)[k - 1] == swept(s)[k]);
                }
            }
        } else {
            if exists|i: int| 0 <= i < s.len() && (#[trigger] s[i]).id == id && !s[i].terminated {
                let i = choose|i: int|
                    0 <= i < s.len() && (#[trigger] s[i]).id == id && !s[i].terminated;
                if i == 0 {
                    assert(swept(s)[0] == s[0]);
                    assert(contains_id(swept(s), id));
                } else {
                    assert(rest[i - 1] == s[i]);
                    assert(contains_id(swept(rest), id));
                    let k = choose|k: int|
                        0 <= k < swept(rest).len() && (#[trigger] swept(rest)[k]).id == id;
                    if s[0].terminated {
                        assert(swept(s)[k].id == id);
                    } else {
                        assert(swept(s)[k + 1] == swept(rest)[k]);
                    }
                }
            }
        }
    }
}

/// The sweep preserves identifier uniqueness and topological order.
pub proof fn lemma_swept_wf(s: Seq<SessionEntry>)
    requires
        ids_unique(s),
        topo_ordered(s),
    ensures
        ids_unique(swept(s)),
        topo_ordered(swept(s)),
    decreases s.len(),
{
    if s.len() == 0 {
    } else {
        let rest = s.drop_first();
        assert(forall|i: int| 0 <= i < rest.len() ==> #[trigger] rest[i] == s[i + 1]);
        lemma_swept_wf(rest);
        lemma_swept_elements(rest);
        if !s[0].terminated {
            let t = swept(rest);
            assert forall|i: int, j: int|
                0 <= i < j < swept(s).len() implies (#[trigger] swept(s)[i]).id != (
            #[trigger] swept(s)[j]).id by {
                if i == 0 {
                    let oj = choose|o: int| 0 <= o < rest.len() && t[j - 1] == rest[o];
                    assert(swept(s)[j] == t[j - 1]);
                    assert(rest[oj] == s[oj + 1]);
                    assert(s[0].id != s[oj + 1].id);
                } else {
                    assert(swept(s)[i] == t[i - 1] && swept(s)[j] == t[j - 1]);
                }
            }
            assert forall|i: int, j: int|
                0 <= i < swept(s).len() && 0 <= j < swept(s).len() && (#[trigger] swept(
                    s,
                )[j]).parent == Some((#[trigger] swept(s)[i]).id) implies i < j by {
                if i > 0 && j > 0 {
                    assert(swept(s)[i] == t[i - 1] && swept(s)[j] == t[j - 1]);
                } else if i == 0 && j == 0 {
                    assert(swept(s)[0] == s[0]);
                    assert(s[0].parent == Some(s[0].id));
                    assert(topo_ordered(s) && s[0].parent == Some(s[0].id) ==> 0 < 0);
                } else if j == 0 && i > 0 {
                    let oi = choose|o: int| 0 <= o < rest.len() && t[i - 1] == rest[o];
                    assert(swept(s)[i] == t[i - 1]);
                    assert(rest[oi] == s[oi + 1]);
                    assert(s[0].parent == Some(s[oi + 1].id));
                }
            }
        }
    }
}

/// Removing a terminated entry does not change the sweep.
pub proof fn lemma_swept_remove_terminated(s: Seq<SessionEntry>, i: int)
    requires
        0 <= i < s.len(),
        s[i].terminated,
    ensures
        swept(s.remove(i)) == swept(s),
    decreases s.len(),
{
    s.remove_ensures(i);
    if i == 0 {
        assert(s.remove(0) =~= s.drop_first());
    } else {
        let rest = s.drop_first();
        assert(forall|k: int| 0 <= k < rest.len() ==> #[trigger] rest[k] == s[k + 1]);
        assert(rest[i - 1].terminated);
        lemma_swept_remove_terminated(rest, i - 1);
        rest.remove_ensures(i - 1);
        assert(s.remove(i)[0] == s[0]);
        assert(s.remove(i).drop_first() =~= rest.remove(i - 1));
    }
}

/// A sequence with no terminated entry is its own sweep.
pub proof fn lemma_swept_all_clean(s: Seq<SessionEntry>)
    requires
        forall|k: int| 0 <= k < s.len() ==> !(#[trigger] s[k]).terminated,
    ensures
        swept(s) == s,
    decreases s.len(),
{
    if s.len() > 0 {
        let rest = s.drop_first();
        assert(forall|k: int| 0 <= k < rest.len() ==> #[trigger] rest[k] == s[k + 1]);
        lemma_swept_all_clean(rest);
        assert(seq![s[0]] + rest =~= s);
    }
}

/// Inserting a fresh entry at its computed position keeps identifiers unique
/// and the sequence topologically ordered.  Freshness of a process-unique
/// identifier means no other entry carries it and no entry names it as its
/// parent; a session is never its own parent.
pub proof fn lemma_insert_wf(s: Seq<SessionEntry>, entry: SessionEntry, pos: int)
    requires
        ids_unique(s),
        topo_ordered(s),
        !contains_id(s, entry.id),
        forall|k: int| 0 <= k < s.len() ==> (#[trigger] s[k]).parent != Some(entry.id),
        entry.parent != Some(entry.id),
        pos == insert_position(s, entry.parent),
    ensures
        0 <= pos <= s.len(),
        ids_unique(s.insert(pos, entry)),
        topo_ordered(s.insert(pos, entry)),
{
    match entry.parent {
        Some(p) => {
            if contains_id(s, p) {
                assert(0 <= index_of_id(s, p) < s.len() && s[index_of_id(s, p)].id == p);
            }
        },
        None => {},
    }
    s.insert_ensures(pos, entry);
    let t = s.insert(pos, entry);
    let back = |k: int| if k < pos { k } else { k - 1 };
    assert forall|k: int| 0 <= k < t.len() && k != pos implies #[trigger] t[k] == s[back(k)] by {
        if k > pos {
            assert(t[(k - 1) + 1] == s[k - 1]);
        }
    }
    assert forall|i: int, j: int| 0 <= i < j < t.len() implies (#[trigger] t[i]).id != (
    #[trigger] t[j]).id by {
        if i != pos && j != pos {
            assert(t[i] == s[back(i)] && t[j] == s[back(j)]);
        } else if i == pos {
            assert(t[j] == s[back(j)]);
        } else {
            assert(t[i] == s[back(i)]);
        }
    }
    assert forall|i: int, j: int|
        0 <= i < t.len() && 0 <= j < t.len() && (#[trigger] t[j]).parent == Some(
            (#[trigger] t[i]).id,
        ) implies i < j by {
        if i == pos && j == pos {
            assert(entry.parent == Some(entry.id));
        } else if i == pos {
            assert(t[j] == s[back(j)]);
            assert(s[back(j)].parent != Some(entry.id));
        } else if j == pos {
            assert(t[i] == s[back(i)]);
            match entry.parent {
                Some(p) => {
                    if contains_id(s, p) {
                        let ip = index_of_id(s, p);
                        assert(s[back(i)].id == p);
                        assert(back(i) == ip);
                        assert(pos == ip + 1);
                    } else {
                        assert(s[back(i)].id == p);
                    }
                },
                None => {},
            }
        } else {
            assert(t[i] == s[back(i)] && t[j] == s[back(j)]);
            assert(back(i) < back(j));
        }
    }
}

/// Removing an entry keeps identifiers unique and the sequence topologically
/// ordered: removal never cascades, an orphaned child merely loses the link.
pub proof fn lemma_remove_wf(s: Seq<SessionEntry>, i: int)
    requires
        ids_unique(s),
        topo_ordered(s),
        0 <= i < s.len(),
    ensures
        ids_unique(s.remove(i)),
        topo_ordered(s.remove(i)),
{
    s.remove_ensures(i);
    let t = s.remove(i);
    let fwd = |k: int| if k < i { k } else { k + 1 };
    assert forall|k: int| 0 <= k < t.len() implies #[trigger] t[k] == s[fwd(k)] by {
        if k >= i {
            assert(t[k] == s[k + 1]);
        }
    }
    assert forall|a: int, b: int| 0 <= a < b < t.len() implies (#[trigger] t[a]).id != (
    #[trigger] t[b]).id by {
        assert(t[a] == s[fwd(a)] && t[b] == s[fwd(b)]);
    }
    assert forall|a: int, b: int|
        0 <= a < t.len() && 0 <= b < t.len() && (#[trigger] t[b]).parent == Some(
            (#[trigger] t[a]).id,
        ) implies a < b by {
        assert(t[a] == s[fwd(a)] && t[b] == s[fwd(b)]);
        assert(fwd(a) < fwd(b));
    }
}

} // verus!
