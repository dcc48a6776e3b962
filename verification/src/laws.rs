//! The panel's cross-cutting guarantees, stated and proved once.
//!
//! The two registry invariants — topological order of the session forest and
//! membership of the active entry — are carried as [`crate::panel::DebugPanel::wf`]
//! through the `ensures` of every mutating method, so they hold of every
//! state reachable through the panel's interface.  This module proves the
//! guarantees that relate several operations: what a completed restart leaves
//! behind, how a spawned child affects focus, and that a root ancestor always
//! stands at or before its descendant.

use vstd::prelude::*;

use crate::registry::SessionEntry;
use crate::registry::active_after_register;
use crate::registry::active_after_removal;
use crate::registry::contains_id;
use crate::registry::ids_unique;
use crate::registry::index_of_id;
use crate::registry::insert_position;
use crate::registry::lemma_swept_contains_id;
use crate::registry::root_of;
use crate::registry::swept;
use crate::registry::topo_ordered;

verus! {

/// Whether the session at position `j` descends from the one at position `i`:
/// following parent links, each present in the registry, from `j` reaches `i`.
pub open spec fn descends(s: Seq<SessionEntry>, j: int, i: int) -> bool
    decreases j
        when 0 <= j < s.len() && ids_unique(s) && topo_ordered(s)
        via descends_decreases
{
    match s[j].parent {
        None => false,
        Some(p) => contains_id(s, p) && (index_of_id(s, p) == i || descends(
            s,
            index_of_id(s, p),
            i,
        )),
    }
}

#[via_fn]
proof fn descends_decreases(s: Seq<SessionEntry>, j: int, i: int) {
    match s[j].parent {
        Some(p) => {
            if contains_id(s, p) {
                assert(0 <= index_of_id(s, p) < s.len() && s[index_of_id(s, p)].id == p);
                assert(s[j].parent == Some(s[index_of_id(s, p)].id));
            }
        },
        None => {},
    }
}

/// The topological invariant, transitively: in a well-formed registry every
/// entry's position precedes the positions of all of its descendants.
pub proof fn lemma_topological_invariant(s: Seq<SessionEntry>, i: int, j: int)
    requires
        ids_unique(s),
        topo_ordered(s),
        0 <= i < s.len(),
        0 <= j < s.len(),
        descends(s, j, i),
    ensures
        i < j,
    decreases j,
{
    match s[j].parent {
        Some(p) => {
            let pi = index_of_id(s, p);
            assert(0 <= pi < s.len() && s[pi].id == p);
            assert(s[j].parent == Some(s[pi].id));
            if pi != i {
                lemma_topological_invariant(s, i, pi);
            }
        },
        None => {},
    }
}

/// Root ancestors respect the topological order: the root of the session at
/// position `i` stands at or before `i`.  Together with the pairwise order —
/// every present parent precedes each of its children, carried by
/// well-formedness — this pins the registry's parent-before-descendant shape.
pub proof fn lemma_root_precedes(s: Seq<SessionEntry>, i: int)
    requires
        ids_unique(s),
        topo_ordered(s),
        0 <= i < s.len(),
    ensures
        0 <= root_of(s, i) <= i,
    decreases i,
{
    match s[i].parent {
        None => {},
        Some(p) => {
            if contains_id(s, p) {
                let j = index_of_id(s, p);
                assert(0 <= j < s.len() && s[j].id == p);
                assert(s[i].parent == Some(s[j].id));
                lemma_root_precedes(s, j);
            }
        },
    }
}

/// Restart leaves exactly one handle for the logical session slot.  Once the
/// old root handle has fully terminated, registering the replacement — an
/// insertion followed by the sweep — yields a registry that holds the fresh
/// handle and no longer holds the old one.
pub proof fn lemma_restart_single_handle(
    s: Seq<SessionEntry>,
    old_root_id: u64,
    entry: SessionEntry,
    pos: int,
)
    requires
        ids_unique(s),
        contains_id(s, old_root_id),
        s[index_of_id(s, old_root_id)].terminated,
        !entry.terminated,
        entry.id != old_root_id,
        0 <= pos <= s.len(),
    ensures
        contains_id(swept(s.insert(pos, entry)), entry.id),
        !contains_id(swept(s.insert(pos, entry)), old_root_id),
{
    let t = s.insert(pos, entry);
    s.insert_ensures(pos, entry);
    lemma_swept_contains_id(t, entry.id);
    lemma_swept_contains_id(t, old_root_id);
    assert(t[pos] == entry && !t[pos].terminated);
    let old_idx = index_of_id(s, old_root_id);
    assert(0 <= old_idx < s.len() && s[old_idx].id == old_root_id);
    assert forall|k: int|
        0 <= k < t.len() && (#[trigger] t[k]).id == old_root_id implies t[k].terminated by {
        if k < pos {
            assert(t[k] == s[k]);
            assert(k == old_idx);
        } else if k == pos {
            assert(t[k] == entry);
        } else {
            assert(t[k] == s[k - 1]);
            assert(k - 1 == old_idx);
        }
    }
}

/// The child focus rule.  Registering a spawned child with the focus its
/// command carries — focus exactly when the parent has never stopped —
/// activates the child when the parent never stopped, and leaves the active
/// entry unchanged when the parent has stopped at least once.  The rule asks
/// that the active entry, if set, has not terminated; a terminated active
/// entry is swept by the very registration and reassigned.
pub proof fn lemma_child_focus_rule(
    s: Seq<SessionEntry>,
    active: Option<u64>,
    parent_idx: int,
    child: SessionEntry,
    focus: bool,
)
    requires
        ids_unique(s),
        topo_ordered(s),
        0 <= parent_idx < s.len(),
        child.parent == Some(s[parent_idx].id),
        focus == !s[parent_idx].has_ever_stopped,
        match active {
            Some(id) => exists|i: int|
                0 <= i < s.len() && (#[trigger] s[i]).id == id && !s[i].terminated,
            None => true,
        },
    ensures
        !s[parent_idx].has_ever_stopped ==> active_after_register(s, active, child, focus)
            == Some(child.id),
        s[parent_idx].has_ever_stopped ==> active_after_register(s, active, child, focus)
            == active,
{
    if s[parent_idx].has_ever_stopped {
        let pos = insert_position(s, child.parent);
        match child.parent {
            Some(p) => {
                assert(contains_id(s, p));
                assert(0 <= index_of_id(s, p) < s.len() && s[index_of_id(s, p)].id == p);
            },
            None => {},
        }
        let t = s.insert(pos, child);
        s.insert_ensures(pos, child);
        match active {
            Some(id) => {
                let i = choose|i: int|
                    0 <= i < s.len() && (#[trigger] s[i]).id == id && !s[i].terminated;
                if i < pos {
                    assert(t[i] == s[i]);
                } else {
                    assert(t[i + 1] == s[i]);
                }
                lemma_swept_contains_id(t, id);
                assert(contains_id(swept(t), id));
            },
            None => {},
        }
    }
}

} // verus!
