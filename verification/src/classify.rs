//! The conflict classifier: matched entries grouped by their original path.
//! A group with more than one member is a twin conflict — the same path was
//! trashed more than once — and its members are ordered oldest first, which
//! fixes the numbering shown to the user.

use vstd::prelude::*;

use crate::store::TrashEntry;

verus! {

/// The matched entries that share one original path, as positions into the
/// entry list, ordered by ascending deletion time (ties by position).
pub struct TwinGroup {
    pub original_path: String,
    pub members: Vec<usize>,
}

/// Members ordered by deletion time, oldest first, ties by position.
pub open spec fn sorted_members(entries: Seq<TrashEntry>, ms: Seq<usize>) -> bool {
    forall|i: int, j: int|
        0 <= i < j < ms.len() ==> (entries[ms[i] as int].deleted_at < entries[ms[j] as int].deleted_at
            || (entries[ms[i] as int].deleted_at == entries[ms[j] as int].deleted_at && ms[i]
            < ms[j]))
}

/// A well-formed group: nonempty, every member a valid position whose entry
/// has the group's path, ordered oldest first.
pub open spec fn group_wf(entries: Seq<TrashEntry>, g: TwinGroup) -> bool {
    &&& g.members@.len() >= 1
    &&& forall|i: int|
        0 <= i < g.members@.len() ==> #[trigger] g.members@[i] < entries.len()
            && entries[g.members@[i] as int].original_path@ == g.original_path@
    &&& sorted_members(entries, g.members@)
}

/// Whether some group of `gs` has `k` among its members.
pub open spec fn in_groups(gs: Seq<TwinGroup>, k: usize) -> bool {
    exists|gi: int| 0 <= gi < gs.len() && #[trigger] gs[gi].members@.contains(k)
}

/// Groups the matched entries by original path. Every matched position
/// lands in exactly one group — groups carry distinct paths — and each
/// group's members are ordered oldest first.
#[verifier::rlimit(100)]
pub fn classify(entries: &Vec<TrashEntry>, idxs: &Vec<usize>) -> (r: Vec<TwinGroup>)
    requires
        forall|a: int, b: int| 0 <= a < b < idxs@.len() ==> idxs@[a] < idxs@[b],
        forall|a: int| 0 <= a < idxs@.len() ==> #[trigger] idxs@[a] < entries@.len(),
    ensures
        forall|gi: int| 0 <= gi < r@.len() ==> group_wf(entries@, #[trigger] r@[gi]),
        forall|g1: int, g2: int|
            0 <= g1 < g2 < r@.len() ==> r@[g1].original_path@ != r@[g2].original_path@,
        forall|gi: int, mi: int|
            0 <= gi < r@.len() && 0 <= mi < r@[gi].members@.len() ==> idxs@.contains(
                #[trigger] r@[gi].members@[mi],
            ),
        forall|k: usize| idxs@.contains(k) ==> in_groups(r@, k),
{
    let mut groups: Vec<TwinGroup> = Vec::new();
    let mut t: usize = 0;
    while t < idxs.len()
        invariant
            t <= idxs@.len(),
            forall|a: int, b: int| 0 <= a < b < idxs@.len() ==> idxs@[a] < idxs@[b],
            forall|a: int| 0 <= a < idxs@.len() ==> #[trigger] idxs@[a] < entries@.len(),
            forall|gi: int| 0 <= gi < groups@.len() ==> group_wf(entries@, #[trigger] groups@[gi]),
            forall|g1: int, g2: int|
                0 <= g1 < g2 < groups@.len() ==> groups@[g1].original_path@
                    != groups@[g2].original_path@,
            forall|gi: int, mi: int|
                0 <= gi < groups@.len() && 0 <= mi < groups@[gi].members@.len() ==> idxs@.take(
                    t as int,
                ).contains(#[trigger] groups@[gi].members@[mi]),
            forall|k: usize| idxs@.take(t as int).contains(k) ==> in_groups(groups@, k),
        decreases idxs@.len() - t,
    {
        let k = idxs[t];
        let dk = entries[k].deleted_at;
        let ghost gs0 = groups@;
        // Find the group with this entry's path, if it exists yet.
        let mut gi: usize = 0;
        let mut found = false;
        loop
            invariant_except_break
                gi <= groups@.len(),
                groups@ == gs0,
                k < entries@.len(),
                !found,
                forall|g: int|
                    0 <= g < gi ==> groups@[g].original_path@ != entries@[k as int].original_path@,
            ensures
                groups@ == gs0,
                k < entries@.len(),
                found ==> gi < groups@.len() && groups@[gi as int].original_path@ == entries@[
                    k as int
                ].original_path@,
                !found ==> forall|g: int|
                    0 <= g < groups@.len() ==> groups@[g].original_path@ != entries@[
                        k as int
                    ].original_path@,
            decreases groups@.len() - gi,
        {
            if gi == groups.len() {
                break ;
            }
            if groups[gi].original_path.eq(&entries[k].original_path) {
                found = true;
                break ;
            }
            gi = gi + 1;
        }
        if found {
            // Insert `k` into this group, keeping members ordered oldest
            // first; every present member is a smaller position, so a tie on
            // the timestamp keeps the earlier entry first.
            let mut g = groups.remove(gi);
            let ghost ms0 = g.members@;
            let mut p: usize = 0;
            while p < g.members.len() && entries[g.members[p]].deleted_at <= dk
                invariant
                    p <= g.members@.len(),
                    g.members@ == ms0,
                    k < entries@.len(),
                    dk == entries@[k as int].deleted_at,
                    forall|a: int| 0 <= a < ms0.len() ==> #[trigger] ms0[a] < entries@.len(),
                    forall|a: int|
                        0 <= a < p ==> entries@[#[trigger] ms0[a] as int].deleted_at <= dk,
                decreases g.members@.len() - p,
            {
                p = p + 1;
            }
            g.members.insert(p, k);
            proof {
                let pi = p as int;
                let ms = g.members@;
                assert(forall|a: int|
                    0 <= a < ms.len() ==> ms[a] == (if a < pi {
                        ms0[a]
                    } else if a == pi {
                        k
                    } else {
                        ms0[a - 1]
                    }));
                // Every old member was taken from the processed prefix, so
                // it is a strictly smaller position than `k`.
                assert forall|a: int| 0 <= a < ms0.len() implies ms0[a] < k by {
                    assert(idxs@.take(t as int).contains(ms0[a]));
                    let w = choose|w: int| 0 <= w < t && idxs@.take(t as int)[w] == ms0[a];
                    assert(idxs@[w] == ms0[a]);
                    assert(idxs@[t as int] == k);
                }
                assert(sorted_members(entries@, ms)) by {
                    assert forall|i: int, j: int|
                        0 <= i < j < ms.len() implies (entries@[ms[i] as int].deleted_at < entries@[
                        ms[j] as int].deleted_at || (entries@[ms[i] as int].deleted_at == entries@[
                        ms[j] as int].deleted_at && ms[i] < ms[j])) by {
                        if j < pi {
                            assert(ms[i] == ms0[i] && ms[j] == ms0[j]);
                        } else if j == pi {
                            assert(ms[j] == k);
                            assert(entries@[ms0[i] as int].deleted_at <= dk);
                            assert(ms0[i] < k);
                        } else if i < pi {
                            assert(ms[i] == ms0[i] && ms[j] == ms0[j - 1]);
                            if j - 1 == pi - 1 {
                            }
                        } else if i == pi {
                            assert(ms[i] == k && ms[j] == ms0[j - 1]);
                            assert(entries@[ms0[j - 1] as int].deleted_at > dk);
                        } else {
                            assert(ms[i] == ms0[i - 1] && ms[j] == ms0[j - 1]);
                        }
                    }
                }
                assert forall|m: usize| ms.contains(m) <==> (ms0.contains(m) || m == k) by {
                    if ms.contains(m) {
                        let a = choose|a: int| 0 <= a < ms.len() && ms[a] == m;
                        if a < pi {
                            assert(ms0[a] == m);
                        } else if a > pi {
                            assert(ms0[a - 1] == m);
                        }
                    }
                    if ms0.contains(m) {
                        let a = choose|a: int| 0 <= a < ms0.len() && ms0[a] == m;
                        if a < pi {
                            assert(ms[a] == m);
                        } else {
                            assert(ms[a + 1] == m);
                        }
                    }
                    if m == k {
                        assert(ms[pi] == m);
                    }
                }
            }
            let ghost gmod = g;
            groups.insert(gi, g);
            proof {
                assert(groups@ =~= gs0.update(gi as int, gmod));
                assert(group_wf(entries@, groups@[gi as int]));
                assert forall|k2: usize| in_groups(gs0, k2) implies in_groups(groups@, k2) by {
                    let g2 = choose|g2: int| 0 <= g2 < gs0.len() && #[trigger] gs0[g2].members@.contains(k2);
                    if g2 == gi {
                        assert(groups@[g2].members@.contains(k2));
                    } else {
                        assert(groups@[g2].members@.contains(k2));
                    }
                }
                assert(groups@[gi as int].members@.contains(k));
                assert(in_groups(groups@, k));
            }
        } else {
            let mut ms: Vec<usize> = Vec::new();
            ms.push(k);
            let mut path = String::new();
            path.append(entries[k].original_path.as_str());
            proof {
                assert(path@ =~= entries@[k as int].original_path@);
            }
            let g = TwinGroup { original_path: path, members: ms };
            let ghost gnew = g;
            groups.push(g);
            proof {
                assert(groups@ =~= gs0.push(gnew));
                assert(groups@[groups@.len() - 1].members@[0] == k);
                assert(groups@[groups@.len() - 1].members@.contains(k));
                assert(in_groups(groups@, k));
                assert forall|k2: usize| in_groups(gs0, k2) implies in_groups(groups@, k2) by {
                    let g2 = choose|g2: int| 0 <= g2 < gs0.len() && #[trigger] gs0[g2].members@.contains(k2);
                    assert(groups@[g2].members@.contains(k2));
                }
            }
        }
        t = t + 1;
        proof {
            assert(idxs@.take(t as int) =~= idxs@.take(t - 1).push(k));
            assert forall|k2: usize|
                idxs@.take(t as int).contains(k2) implies (idxs@.take(t - 1).contains(k2) || k2
                == k) by {
                let a = choose|a: int| 0 <= a < t && #[trigger] idxs@.take(t as int)[a] == k2;
                if a < t - 1 {
                    assert(idxs@.take(t - 1)[a] == k2);
                }
            }
            assert forall|k2: usize|
                idxs@.take(t - 1).contains(k2) implies idxs@.take(t as int).contains(k2) by {
                let a = choose|a: int| 0 <= a < t - 1 && #[trigger] idxs@.take(t - 1)[a] == k2;
                assert(idxs@.take(t as int)[a] == k2);
            }
            assert(idxs@.take(t as int)[t - 1] == k);
            assert forall|k2: usize| idxs@.take(t as int).contains(k2) implies in_groups(
                groups@,
                k2,
            ) by {
                if idxs@.take(t - 1).contains(k2) {
                    assert(in_groups(gs0, k2));
                    assert(in_groups(groups@, k2));
                } else {
                    assert(k2 == k);
                    assert(in_groups(groups@, k));
                }
            }
        }
    }
    proof {
        assert(idxs@.take(t as int) =~= idxs@);
    }
    groups
}

} // verus!
