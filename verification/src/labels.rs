//! Deriving the label of a child session.
//!
//! A spawned child is labelled by its adapter when the adapter supplies a
//! label for the start request; otherwise it inherits the parent's label with
//! a fixed child marker appended once — a label that already ends in the
//! marker is kept unchanged.

use vstd::prelude::*;
use vstd::string::StrSliceExecFns;
use vstd::string::StringExecFns;

verus! {

/// Whether `s` ends in `suffix`.
pub open spec fn seq_ends_with(s: Seq<char>, suffix: Seq<char>) -> bool {
    s.len() >= suffix.len() && s.subrange(s.len() - suffix.len(), s.len() as int) == suffix
}

/// The marker a derived child label ends in.
pub open spec fn child_suffix() -> Seq<char> {
    "(child)"@
}

/// The label a child session gets: the adapter-supplied label when there is
/// one; otherwise the parent's label, with the child marker appended unless
/// it is already there.
pub open spec fn child_label(parent: Seq<char>, custom: Option<Seq<char>>) -> Seq<char> {
    match custom {
        Some(label) => label,
        None => if seq_ends_with(parent, child_suffix()) {
            parent
        } else {
            parent + " (child)"@
        },
    }
}

/// The view of an optional label.
pub open spec fn option_label_view(label: Option<String>) -> Option<Seq<char>> {
    match label {
        Some(l) => Some(l@),
        None => None,
    }
}

/// Whether the string slice `s` ends in `suffix`, compared by characters.
fn str_ends_with(s: &str, suffix: &str) -> (r: bool)
    ensures
        r == seq_ends_with(s@, suffix@),
{
    let n = s.unicode_len();
    let m = suffix.unicode_len();
    if m > n {
        return false;
    }
    let mut i: usize = 0;
    while i < m
        invariant
            m <= n,
            n == s@.len(),
            m == suffix@.len(),
            i <= m,
            forall|k: int| 0 <= k < i ==> s@[n - m + k] == suffix@[k],
        decreases m - i,
    {
        if s.get_char(n - m + i) != suffix.get_char(i) {
            proof {
                if seq_ends_with(s@, suffix@) {
                    assert(s@.subrange(n - m, n as int)[i as int] == suffix@[i as int]);
                }
            }
            return false;
        }
        i += 1;
    }
    proof {
        assert(s@.subrange(n - m, n as int) =~= suffix@);
    }
    true
}

/// Derive the label for a child session from its parent's label and the
/// label the adapter supplied for the start request, if any.
pub fn label_for_child_session(parent_label: &String, custom_label: Option<String>) -> (r: String)
    ensures
        r@ == child_label(parent_label@, option_label_view(custom_label)),
{
    match custom_label {
        Some(label) => label,
        None => {
            if str_ends_with(parent_label.as_str(), "(child)") {
                parent_label.clone()
            } else {
                parent_label.clone().concat(" (child)")
            }
        },
    }
}

} // verus!
