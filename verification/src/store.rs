//! The library's view of a trashed item, and the selection of items a
//! compiled pattern matches. The trash store itself is an outside
//! collaborator: callers list it and hand the entries in as plain values,
//! keyed here by their position in that list.

use vstd::prelude::*;

use crate::matcher::{matcher_matches, CompiledMatcher};
use crate::pattern::MatchTarget;

verus! {

/// One trashed item: its basename at the time of trashing, the path it was
/// trashed from, and the store's deletion timestamp (seconds).
#[derive(Clone)]
pub struct TrashEntry {
    pub name: String,
    pub original_path: String,
    pub deleted_at: i64,
}

/// The text of an entry that a pattern is matched against: its basename or
/// its recorded original path.
pub open spec fn entry_haystack(e: TrashEntry, target: MatchTarget) -> Seq<char> {
    match target {
        MatchTarget::Name => e.name@,
        MatchTarget::Path => e.original_path@,
    }
}

/// The positions of the entries the matcher accepts, in input order.
pub fn matching_indices(
    entries: &Vec<TrashEntry>,
    m: &CompiledMatcher,
    target: MatchTarget,
) -> (r: Vec<usize>)
    ensures
        forall|a: int, b: int| 0 <= a < b < r@.len() ==> r@[a] < r@[b],
        forall|a: int| 0 <= a < r@.len() ==> #[trigger] r@[a] < entries@.len(),
        forall|i: usize|
            i < entries@.len() ==> (r@.contains(i) <==> matcher_matches(
                m.model(),
                entry_haystack(entries@[i as int], target),
            )),
{
    let mut r: Vec<usize> = Vec::new();
    let mut i: usize = 0;
    let n = entries.len();
    while i < n
        invariant
            i <= n == entries@.len(),
            forall|a: int, b: int| 0 <= a < b < r@.len() ==> r@[a] < r@[b],
            forall|a: int| 0 <= a < r@.len() ==> #[trigger] r@[a] < i,
            forall|k: usize|
                k < i ==> (r@.contains(k) <==> matcher_matches(
                    m.model(),
                    entry_haystack(entries@[k as int], target),
                )),
        decreases n - i,
    {
        let e = &entries[i];
        let hay: &str = match target {
            MatchTarget::Name => e.name.as_str(),
            MatchTarget::Path => e.original_path.as_str(),
        };
        let ghost r0 = r@;
        let matched = m.is_match(hay);
        if matched {
            r.push(i);
            proof {
                assert forall|k: usize| r@.contains(k) <==> (r0.contains(k) || k == i) by {
                    if r@.contains(k) {
                        let a = choose|a: int| 0 <= a < r@.len() && r@[a] == k;
                        if a < r0.len() {
                            assert(r0[a] == k);
                        }
                    }
                    if r0.contains(k) {
                        let a = choose|a: int| 0 <= a < r0.len() && r0[a] == k;
                        assert(r@[a] == k);
                    }
                    if k == i {
                        assert(r@[r@.len() - 1] == k);
                    }
                }
            }
        } else {
            proof {
                assert(forall|k: usize| r@.contains(k) <==> (r0.contains(k) || false));
            }
        }
        i = i + 1;
        proof {
            assert forall|k: usize|
                k < i implies (r@.contains(k) <==> matcher_matches(
                m.model(),
                entry_haystack(entries@[k as int], target),
            )) by {
                if k < i - 1 {
                    assert(r0.contains(k) <==> matcher_matches(
                        m.model(),
                        entry_haystack(entries@[k as int], target),
                    ));
                } else {
                    if r0.contains(k) {
                        let a = choose|a: int| 0 <= a < r0.len() && r0[a] == k;
                        assert(r0[a] < i - 1);
                    }
                    assert(!r0.contains(k));
                }
            }
        }
    }
    r
}

} // verus!
