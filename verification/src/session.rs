//! The restore session: sequences twin and collision resolution over the
//! matched groups, one prompt or probe at a time. The caller performs all
//! outside work — printing, reading lines, listing directories, probing
//! paths, and the store operations — and feeds each result back; every
//! decision in between is made and verified here.
//!
//! A Quit resolution, at any prompt, ends the whole session: no further
//! group is touched. With `once` set, the first twin resolution (all or
//! none) and the first collision resolution are cached and applied to every
//! later conflict of the same kind without prompting.

use vstd::prelude::*;

use crate::classify::{classify, group_wf, in_groups, TwinGroup};
use crate::display::{
    build_plain_line, collision_menu_lines, entry_times, twin_list_lines, twin_menu_lines,
};
use crate::naming::{
    find_untrash_range, format_untrash_range, occupied, untrash_name, untrash_name_spec,
};
use crate::resolver::{
    collision_menu_step, collision_prompt_step, selection_prompt_step, twin_menu_step,
    twin_prompt_step, CollisionChoice, SelectionStep, TwinChoice, TwinInfo, TwinStep,
};
use crate::selection::{selection_values, trim};
use crate::store::TrashEntry;

verus! {

/// The per-path result of a session.
#[derive(Clone, PartialEq, Eq, Debug)]
pub enum Outcome {
    Restored { path: String },
    RestoredAs { path: String, new_path: String },
    Skipped { path: String },
    Aborted,
}

/// A store operation the caller must perform: restore the entry at `index`
/// to `dest` (a path found free), or restore it over an existing file.
#[derive(Clone, PartialEq, Eq, Debug)]
pub enum StoreAction {
    RestoreTo { index: usize, dest: String },
    OverwriteTo { index: usize, dest: String },
}

/// What the session needs next from the caller.
#[derive(Clone, PartialEq, Eq, Debug)]
pub enum Request {
    /// The full paths currently present beside `path` (its directory's
    /// entries), for picking free untrash names.
    NeedListing { path: String },
    /// One line of user input, `None` at end of input.
    NeedLine,
    /// Whether `path` currently exists, by a probe that does not follow the
    /// final symlink.
    NeedProbe { path: String },
    /// Nothing: the session is over.
    Done,
}

/// Where the session stands.
#[derive(Clone, Copy, PartialEq, Eq, Debug, Structural)]
pub enum Phase {
    GroupListing,
    TwinMenu,
    TwinSelect,
    Probe,
    CollisionListing,
    CollisionMenu,
    Finished,
}

enum CachedTwin {
    CacheAll,
    CacheSkip,
}

pub open spec fn line_view(line: Option<&str>) -> Option<Seq<char>> {
    match line {
        Option::Some(l) => Option::Some(l@),
        Option::None => Option::None,
    }
}

/// `a` restores `index` to exactly `dest`.
pub open spec fn is_restore_to(a: StoreAction, index: usize, dest: Seq<char>) -> bool {
    match a {
        StoreAction::RestoreTo { index: i, dest: d } => i == index && d@ == dest,
        _ => false,
    }
}

/// `a` overwrites `dest` with the entry at `index`.
pub open spec fn is_overwrite_to(a: StoreAction, index: usize, dest: Seq<char>) -> bool {
    match a {
        StoreAction::OverwriteTo { index: i, dest: d } => i == index && d@ == dest,
        _ => false,
    }
}

/// `o` reports `path` restored to its own place.
pub open spec fn is_restored(o: Outcome, path: Seq<char>) -> bool {
    match o {
        Outcome::Restored { path: p } => p@ == path,
        _ => false,
    }
}

/// `o` reports `path` restored under `newp`.
pub open spec fn is_restored_as(o: Outcome, path: Seq<char>, newp: Seq<char>) -> bool {
    match o {
        Outcome::RestoredAs { path: p, new_path: d } => p@ == path && d@ == newp,
        _ => false,
    }
}

/// `o` reports `path` skipped.
pub open spec fn is_skipped(o: Outcome, path: Seq<char>) -> bool {
    match o {
        Outcome::Skipped { path: p } => p@ == path,
        _ => false,
    }
}

/// The picked entries (all of one original path) were restored as the
/// contiguous untrash-name block starting at `s`, free in `existing`:
/// one action and one outcome per picked entry, in order.
pub open spec fn block_restored(
    path: Seq<char>,
    existing: Seq<String>,
    picked: Seq<usize>,
    s: usize,
    acts: Seq<StoreAction>,
    out_new: Seq<Outcome>,
    out_old: Seq<Outcome>,
) -> bool {
    &&& 1 <= s
    &&& s + picked.len() <= usize::MAX
    &&& forall|j: usize| s <= j < s + picked.len() ==> !occupied(path, existing, j)
    &&& acts.len() == picked.len()
    &&& forall|i: int|
        0 <= i < acts.len() ==> is_restore_to(
            #[trigger] acts[i],
            picked[i],
            untrash_name_spec(path, (s + i) as nat),
        )
    &&& out_new.len() >= out_old.len() + picked.len()
    &&& out_new.take(out_old.len() as int) == out_old
    &&& forall|i: int|
        0 <= i < picked.len() ==> is_restored_as(
            #[trigger] out_new[out_old.len() + i],
            path,
            untrash_name_spec(path, (s + i) as nat),
        )
    &&& forall|j: int|
        out_old.len() + picked.len() <= j < out_new.len() ==> #[trigger] out_new[j] is Skipped
}

/// `x` is the member a selected index names: `members[n-1]` for some
/// selected `n`.
pub open spec fn picked_from(vals: Seq<usize>, members: Seq<usize>, x: usize) -> bool {
    exists|n: usize| #[trigger] vals.contains(n) && x == members[n - 1]
}

/// The outcomes grew only by skipped groups the cached twin choice
/// dismissed.
pub open spec fn outcomes_grew_skipped(new: Seq<Outcome>, old: Seq<Outcome>) -> bool {
    &&& new.len() >= old.len()
    &&& new.take(old.len() as int) == old
    &&& forall|j: int| old.len() <= j < new.len() ==> #[trigger] new[j] is Skipped
}

pub struct RestoreSession {
    entries: Vec<TrashEntry>,
    times: Vec<String>,
    groups: Vec<TwinGroup>,
    gi: usize,
    phase: Phase,
    once: bool,
    cached_twin: Option<CachedTwin>,
    cached_collision: Option<CollisionChoice>,
    existing: Vec<String>,
    pending: usize,
    range_desc: String,
    keep_name: String,
    collision_decided: Option<CollisionChoice>,
    outcomes: Vec<Outcome>,
}

impl RestoreSession {
    /// The phase the session is in.
    pub closed spec fn phase(&self) -> Phase {
        self.phase
    }

    /// The per-path results so far.
    pub closed spec fn outcomes_seq(&self) -> Seq<Outcome> {
        self.outcomes@
    }

    /// The entries the session was built over.
    pub closed spec fn entries_seq(&self) -> Seq<TrashEntry> {
        self.entries@
    }

    /// The groups the session resolves, classified from the entries.
    pub closed spec fn groups_seq(&self) -> Seq<TwinGroup> {
        self.groups@
    }

    /// Which group is being resolved.
    pub closed spec fn group_cursor(&self) -> usize {
        self.gi
    }

    /// The original path of the group being resolved.
    pub open spec fn cur_path(&self) -> Seq<char> {
        self.groups_seq()[self.group_cursor() as int].original_path@
    }

    /// The members (entry positions, oldest first) of the group being
    /// resolved.
    pub open spec fn cur_members(&self) -> Seq<usize> {
        self.groups_seq()[self.group_cursor() as int].members@
    }

    /// The entry position awaiting its probe or collision resolution.
    pub closed spec fn pending_index(&self) -> usize {
        self.pending
    }

    /// The directory listing the caller last supplied.
    pub closed spec fn existing_seq(&self) -> Seq<String> {
        self.existing@
    }

    /// The alternate name offered by the collision menu.
    pub closed spec fn keep_name_seq(&self) -> Seq<char> {
        self.keep_name@
    }

    /// Whether decide-once mode is on.
    pub closed spec fn once_mode(&self) -> bool {
        self.once
    }

    /// The twin resolution cached by decide-once mode, if any: restore all,
    /// or skip.
    pub closed spec fn twin_cache(&self) -> Option<TwinChoice> {
        match self.cached_twin {
            Option::Some(CachedTwin::CacheAll) => Option::Some(TwinChoice::All),
            Option::Some(CachedTwin::CacheSkip) => Option::Some(TwinChoice::Skip),
            Option::None => Option::None,
        }
    }

    /// The collision resolution cached by decide-once mode, if any.
    pub closed spec fn collision_cache(&self) -> Option<CollisionChoice> {
        self.cached_collision
    }

    /// A cached keep-both resolution waiting for its directory listing.
    pub closed spec fn pending_decision(&self) -> Option<CollisionChoice> {
        self.collision_decided
    }

    spec fn base_wf(&self) -> bool {
        &&& forall|g: int|
            0 <= g < self.groups@.len() ==> group_wf(self.entries@, #[trigger] self.groups@[g])
        &&& self.times@.len() == self.entries@.len()
        &&& self.gi <= self.groups@.len()
        &&& (!self.once ==> self.collision_decided is None)
        &&& (!self.once ==> self.cached_twin is None)
        &&& (!self.once ==> self.cached_collision is None)
        &&& self.cached_collision != Option::Some(CollisionChoice::Quit)
        &&& (self.collision_decided is Some ==> self.collision_decided == Option::Some(
            CollisionChoice::KeepBoth,
        ))
    }

    /// The session's invariant: groups well formed over the entries, and
    /// the fields the current phase reads in the state that phase expects.
    pub closed spec fn wf(&self) -> bool {
        &&& self.base_wf()
        &&& (!(self.phase is Finished) ==> self.gi < self.groups@.len())
        &&& match self.phase {
            Phase::GroupListing | Phase::TwinMenu | Phase::TwinSelect => self.cur_members().len()
                > 1,
            Phase::Probe | Phase::CollisionListing | Phase::CollisionMenu => self.pending
                < self.entries@.len() && self.entries@[self.pending as int].original_path@
                == self.cur_path(),
            _ => true,
        }
        &&& match self.phase {
            Phase::TwinMenu | Phase::TwinSelect => (self.existing@.len() + 1)
                * self.cur_members().len() + 1 <= usize::MAX,
            _ => true,
        }
        &&& (self.phase is CollisionMenu ==> exists|k: usize|
            1 <= k && self.keep_name@ == untrash_name_spec(self.cur_path(), k as nat) && !occupied(
                self.cur_path(),
                self.existing@,
                k,
            ))
        &&& (self.phase is GroupListing ==> self.twin_cache() != Option::Some(TwinChoice::Skip))
    }

    /// With decide-once off, a well-formed session holds no cached or
    /// pending choice.
    pub proof fn lemma_no_once_no_cache(&self)
        requires
            self.wf(),
        ensures
            !self.once_mode() ==> self.twin_cache() is None && self.collision_cache() is None
                && self.pending_decision() is None,
    {
    }

    /// Whether the session is over.
    pub fn finished(&self) -> (r: bool)
        ensures
            r == (self.phase() is Finished),
    {
        match self.phase {
            Phase::Finished => true,
            _ => false,
        }
    }

    /// The per-path results so far; after the session finishes, the final
    /// report.
    pub fn outcomes(&self) -> (r: &Vec<Outcome>)
        ensures
            r@ == self.outcomes_seq(),
    {
        &self.outcomes
    }

    /// What the caller must supply next.
    pub fn next_request(&self) -> (r: Request)
        requires
            self.wf(),
        ensures
            match self.phase() {
                Phase::GroupListing | Phase::CollisionListing => matches!(r, Request::NeedListing {
                    ..
                }),
                Phase::TwinMenu | Phase::TwinSelect | Phase::CollisionMenu => r == Request::NeedLine,
                Phase::Probe => matches!(r, Request::NeedProbe { .. }),
                Phase::Finished => r == Request::Done,
            },
    {
        match self.phase {
            Phase::GroupListing | Phase::CollisionListing => Request::NeedListing {
                path: self.groups[self.gi].original_path.clone(),
            },
            Phase::TwinMenu | Phase::TwinSelect | Phase::CollisionMenu => Request::NeedLine,
            Phase::Probe => Request::NeedProbe {
                path: self.groups[self.gi].original_path.clone(),
            },
            Phase::Finished => Request::Done,
        }
    }

    /// Moves to the next group that needs input, resolving on the way any
    /// group the cached twin choice dismisses. Without a cached twin choice
    /// nothing is resolved here: the cursor stands still and the first
    /// group's size alone picks the next phase.
    fn advance(&mut self) -> (msgs: Vec<String>)
        requires
            old(self).base_wf(),
        ensures
            final(self).wf(),
            final(self).entries_seq() == old(self).entries_seq(),
            final(self).groups@ == old(self).groups@,
            final(self).once == old(self).once,
            final(self).cached_twin == old(self).cached_twin,
            final(self).cached_collision == old(self).cached_collision,
            final(self).collision_decided == old(self).collision_decided,
            outcomes_grew_skipped(final(self).outcomes_seq(), old(self).outcomes_seq()),
            final(self).phase is Finished <==> final(self).gi == final(self).groups@.len(),
            !(final(self).phase is Finished) ==> ({
                &&& final(self).cur_members().len() == 1 ==> final(self).phase is Probe && final(self).pending == final(self).cur_members()[0]
                &&& final(self).cur_members().len() > 1 ==> final(self).phase is GroupListing
            }),
            old(self).cached_twin is None ==> final(self).gi == old(self).gi && final(self).outcomes@
                == old(self).outcomes@ && msgs@.len() == 0,
    {
        let mut msgs: Vec<String> = Vec::new();
        proof {
            assert(old(self).outcomes@.take(old(self).outcomes@.len() as int) =~= old(self).outcomes@);
        }
        loop
            invariant_except_break
                self.base_wf(),
                self.entries@ == old(self).entries@,
                self.groups@ == old(self).groups@,
                self.times@ == old(self).times@,
                self.once == old(self).once,
                self.cached_twin == old(self).cached_twin,
                self.cached_collision == old(self).cached_collision,
                self.collision_decided == old(self).collision_decided,
                outcomes_grew_skipped(self.outcomes@, old(self).outcomes@),
                old(self).cached_twin is None ==> self.gi == old(self).gi && self.outcomes@ == old(self).outcomes@ && msgs@.len() == 0,
            ensures
                self.wf(),
                self.entries@ == old(self).entries@,
                self.groups@ == old(self).groups@,
                self.times@ == old(self).times@,
                self.once == old(self).once,
                self.cached_twin == old(self).cached_twin,
                self.cached_collision == old(self).cached_collision,
                self.collision_decided == old(self).collision_decided,
                outcomes_grew_skipped(self.outcomes@, old(self).outcomes@),
                self.phase is Finished <==> self.gi == self.groups@.len(),
                !(self.phase is Finished) ==> ({
                    &&& self.cur_members().len() == 1 ==> self.phase is Probe && self.pending
                        == self.cur_members()[0]
                    &&& self.cur_members().len() > 1 ==> self.phase is GroupListing
                }),
                old(self).cached_twin is None ==> self.gi == old(self).gi && self.outcomes@ == old(self).outcomes@ && msgs@.len() == 0,
            decreases self.groups@.len() - self.gi,
        {
            if self.gi == self.groups.len() {
                self.phase = Phase::Finished;
                break ;
            }
            let count = self.groups[self.gi].members.len();
            if count == 1 {
                self.pending = self.groups[self.gi].members[0];
                self.phase = Phase::Probe;
                break ;
            }
            let skip_cached = if self.once {
                match &self.cached_twin {
                    Option::Some(CachedTwin::CacheSkip) => true,
                    _ => false,
                }
            } else {
                false
            };
            if skip_cached {
                let path = self.groups[self.gi].original_path.clone();
                msgs.push(build_plain_line("Skipping", path.as_str()));
                let ghost out0 = self.outcomes@;
                self.outcomes.push(Outcome::Skipped { path });
                proof {
                    assert(self.outcomes@.take(old(self).outcomes@.len() as int) =~= old(self).outcomes@);
                }
                self.gi = self.gi + 1;
            } else {
                self.phase = Phase::GroupListing;
                break ;
            }
        }
        msgs
    }

    /// Starts a session over the matched entries: `idxs` are the matched
    /// positions, ascending. The groups are the classification of those
    /// entries — every matched position lands in exactly one group, groups
    /// carry distinct paths, members are oldest first — the cursor stands at
    /// the first group, no outcome or output exists yet, the caches are
    /// empty, and the session is finished at birth only when nothing
    /// matched.
    pub fn new(entries: Vec<TrashEntry>, idxs: &Vec<usize>, once: bool) -> (r: (
        RestoreSession,
        Vec<String>,
    ))
        requires
            forall|a: int, b: int| 0 <= a < b < idxs@.len() ==> idxs@[a] < idxs@[b],
            forall|a: int| 0 <= a < idxs@.len() ==> #[trigger] idxs@[a] < entries@.len(),
        ensures
            r.0.wf(),
            r.0.entries_seq() == entries@,
            r.0.once_mode() == once,
            r.0.outcomes_seq() == Seq::<Outcome>::empty(),
            r.1@.len() == 0,
            r.0.twin_cache() is None,
            r.0.collision_cache() is None,
            forall|g: int|
                0 <= g < r.0.groups_seq().len() ==> group_wf(
                    entries@,
                    #[trigger] r.0.groups_seq()[g],
                ),
            forall|g1: int, g2: int|
                0 <= g1 < g2 < r.0.groups_seq().len() ==> r.0.groups_seq()[g1].original_path@
                    != r.0.groups_seq()[g2].original_path@,
            forall|g: int, mi: int|
                0 <= g < r.0.groups_seq().len() && 0 <= mi < r.0.groups_seq()[g].members@.len()
                    ==> idxs@.contains(#[trigger] r.0.groups_seq()[g].members@[mi]),
            forall|k: usize| idxs@.contains(k) ==> in_groups(r.0.groups_seq(), k),
            r.0.group_cursor() == 0,
            (r.0.phase() is Finished) <==> idxs@.len() == 0,
            !(r.0.phase() is Finished) ==> ({
                &&& r.0.cur_members().len() == 1 ==> r.0.phase() is Probe && r.0.pending_index()
                    == r.0.cur_members()[0]
                &&& r.0.cur_members().len() > 1 ==> r.0.phase() is GroupListing
            }),
    {
        let times = entry_times(&entries);
        let groups = classify(&entries, idxs);
        let mut s = RestoreSession {
            entries,
            times,
            groups,
            gi: 0,
            phase: Phase::Finished,
            once,
            cached_twin: Option::None,
            cached_collision: Option::None,
            existing: Vec::new(),
            pending: 0,
            range_desc: String::new(),
            keep_name: String::new(),
            collision_decided: Option::None,
            outcomes: Vec::new(),
        };
        let msgs = s.advance();
        proof {
            // A group exists exactly when something matched: a group's first
            // member comes from `idxs`, and any matched position lands in
            // some group.
            if s.groups@.len() > 0 {
                assert(group_wf(s.entries@, s.groups@[0]));
                assert(idxs@.contains(s.groups@[0].members@[0]));
                assert(idxs@.len() > 0);
            }
            if idxs@.len() > 0 {
                assert(idxs@.contains(idxs@[0]));
                assert(in_groups(s.groups@, idxs@[0]));
                let g = choose|g: int|
                    0 <= g < s.groups@.len() && #[trigger] s.groups@[g].members@.contains(
                        idxs@[0],
                    );
                assert(s.groups@.len() > 0);
            }
        }
        (s, msgs)
    }

    /// Restores the picked entries (all with one original path) as a
    /// contiguous block of untrash names, free in the supplied listing.
    fn emit_block(&mut self, picked: &Vec<usize>) -> (r: (Vec<String>, Vec<StoreAction>))
        requires
            old(self).base_wf(),
            old(self).gi < old(self).groups@.len(),
            picked@.len() >= 1,
            forall|a: int|
                0 <= a < picked@.len() ==> #[trigger] picked@[a] < old(self).entries@.len(),
            (old(self).existing@.len() + 1) * picked@.len() + 1 <= usize::MAX,
        ensures
            final(self).base_wf(),
            final(self).gi == old(self).gi,
            final(self).phase == old(self).phase,
            final(self).entries@ == old(self).entries@,
            final(self).groups@ == old(self).groups@,
            final(self).times@ == old(self).times@,
            final(self).once == old(self).once,
            final(self).cached_twin == old(self).cached_twin,
            final(self).cached_collision == old(self).cached_collision,
            final(self).existing@ == old(self).existing@,
            exists|s: usize|
                #[trigger] block_restored(
                    old(self).cur_path(),
                    old(self).existing@,
                    picked@,
                    s,
                    r.1@,
                    final(self).outcomes@,
                    old(self).outcomes@,
                ),
    {
        let path = self.groups[self.gi].original_path.clone();
        let count = picked.len();
        let start = find_untrash_range(path.as_str(), &self.existing, count);
        let mut msgs: Vec<String> = Vec::new();
        let mut acts: Vec<StoreAction> = Vec::new();
        let mut i: usize = 0;
        let ghost out0 = self.outcomes@;
        while i < count
            invariant
                i <= count == picked@.len(),
                1 <= start,
                start + count <= usize::MAX,
                forall|j: usize| start <= j < start + count ==> !occupied(path@, self.existing@, j),
                path@ == self.groups@[self.gi as int].original_path@,
                self.gi < self.groups@.len(),
                self.base_wf(),
                self.gi == old(self).gi,
                self.phase == old(self).phase,
                self.entries@ == old(self).entries@,
                self.groups@ == old(self).groups@,
                self.times@ == old(self).times@,
                self.once == old(self).once,
                self.cached_twin == old(self).cached_twin,
                self.cached_collision == old(self).cached_collision,
                self.existing@ == old(self).existing@,
                out0 == old(self).outcomes@,
                acts@.len() == i,
                forall|x: int|
                    0 <= x < i ==> is_restore_to(
                        #[trigger] acts@[x],
                        picked@[x],
                        untrash_name_spec(path@, (start + x) as nat),
                    ),
                self.outcomes@.len() == out0.len() + i,
                self.outcomes@.take(out0.len() as int) == out0,
                forall|x: int|
                    0 <= x < i ==> is_restored_as(
                        #[trigger] self.outcomes@[out0.len() + x],
                        path@,
                        untrash_name_spec(path@, (start + x) as nat),
                    ),
            decreases count - i,
        {
            let name = untrash_name(path.as_str(), start + i);
            msgs.push(build_plain_line("Restored as", name.as_str()));
            acts.push(StoreAction::RestoreTo { index: picked[i], dest: name.clone() });
            let ghost outp = self.outcomes@;
            self.outcomes.push(
                Outcome::RestoredAs { path: path.clone(), new_path: name },
            );
            i = i + 1;
            proof {
                assert(self.outcomes@.take(out0.len() as int) =~= out0);
            }
        }
        let r = (msgs, acts);
        proof {
            assert(block_restored(
                old(self).cur_path(),
                old(self).existing@,
                picked@,
                start,
                r.1@,
                self.outcomes@,
                old(self).outcomes@,
            ));
        }
        r
    }

    /// The member list as shown to the user: basename and deletion time of
    /// each member, oldest first.
    fn build_twin_infos(&self) -> (r: Vec<TwinInfo>)
        requires
            self.base_wf(),
            self.gi < self.groups@.len(),
    {
        let ms = &self.groups[self.gi].members;
        let mut infos: Vec<TwinInfo> = Vec::new();
        let mut i: usize = 0;
        while i < ms.len()
            invariant
                i <= ms@.len(),
                self.base_wf(),
                self.gi < self.groups@.len(),
                ms@ == self.groups@[self.gi as int].members@,
            decreases ms@.len() - i,
        {
            let m = ms[i];
            infos.push(
                TwinInfo { name: self.entries[m].name.clone(), timestamp: self.times[m].clone() },
            );
            i = i + 1;
        }
        infos
    }

    /// The twin menu for the current group, with its range descriptor.
    fn build_twin_menu(&self) -> (r: Vec<String>)
        requires
            self.base_wf(),
            self.gi < self.groups@.len(),
    {
        let count = self.groups[self.gi].members.len();
        twin_menu_lines(
            self.groups[self.gi].original_path.as_str(),
            count,
            self.range_desc.as_str(),
            self.once,
        )
    }

    /// Resolves the current twin group by `choice` and moves on.
    fn resolve_twin(&mut self, choice: TwinChoice) -> (r: (Vec<String>, Vec<StoreAction>))
        requires
            old(self).base_wf(),
            old(self).gi < old(self).groups@.len(),
            old(self).cur_members().len() > 1,
            (old(self).existing@.len() + 1) * old(self).cur_members().len() + 1 <= usize::MAX,
            match choice {
                TwinChoice::Pick(sel) => sel@.len() >= 1 && crate::selection::strictly_increasing(
                    sel@,
                ) && (forall|a: int|
                    0 <= a < sel@.len() ==> 1 <= #[trigger] sel@[a] <= old(self).cur_members().len()),
                _ => true,
            },
        ensures
            final(self).wf(),
            final(self).entries_seq() == old(self).entries_seq(),
            final(self).twin_cache() == old(self).twin_cache(),
            final(self).collision_cache() == old(self).collision_cache(),
            choice is Quit ==> final(self).phase() is Finished && r.1@.len() == 0
                && final(self).outcomes_seq() == old(self).outcomes_seq().push(Outcome::Aborted),
            choice is Skip ==> r.1@.len() == 0 && outcomes_extended_skip(
                final(self).outcomes_seq(),
                old(self).outcomes_seq(),
                old(self).cur_path(),
            ),
            choice is All ==> exists|s: usize|
                #[trigger] block_restored(
                    old(self).cur_path(),
                    old(self).existing@,
                    old(self).cur_members(),
                    s,
                    r.1@,
                    final(self).outcomes_seq(),
                    old(self).outcomes_seq(),
                ),
            (choice matches TwinChoice::Pick(sel) && sel@.len() == 1) ==> final(self).phase()
                is Probe && final(self).pending_index() == old(self).cur_members()[choice->Pick_0@[0]
                - 1] && r.1@.len() == 0 && final(self).outcomes_seq() == old(self).outcomes_seq(),
            (choice matches TwinChoice::Pick(sel) && sel@.len() >= 2) ==> exists|s: usize, picked: Seq<usize>|
                {
                    &&& #[trigger] block_restored(
                        old(self).cur_path(),
                        old(self).existing@,
                        picked,
                        s,
                        r.1@,
                        final(self).outcomes_seq(),
                        old(self).outcomes_seq(),
                    )
                    &&& picked.len() == choice->Pick_0@.len()
                    &&& forall|a: int|
                        0 <= a < picked.len() ==> #[trigger] picked[a] == old(self).cur_members()[choice->Pick_0@[a] - 1]
                },
    {
        let _glen = self.groups.len();
        match choice {
            TwinChoice::Quit => {
                self.outcomes.push(Outcome::Aborted);
                self.phase = Phase::Finished;
                (Vec::new(), Vec::new())
            },
            TwinChoice::Skip => {
                let path = self.groups[self.gi].original_path.clone();
                let mut msgs: Vec<String> = Vec::new();
                msgs.push(build_plain_line("Skipping", path.as_str()));
                self.outcomes.push(Outcome::Skipped { path });
                let ghost mid = self.outcomes@;
                proof {
                    assert(mid.take(old(self).outcomes@.len() as int) =~= old(self).outcomes@);
                }
                self.gi = self.gi + 1;
                let mut m2 = self.advance();
                msgs.append(&mut m2);
                proof {
                    lemma_take_chain(self.outcomes@, mid, old(self).outcomes@);
                    assert(self.outcomes@[old(self).outcomes@.len() as int] == mid[old(self).outcomes@.len() as int]);
                }
                (msgs, Vec::new())
            },
            TwinChoice::All => {
                let picked = self.groups[self.gi].members.clone();
                proof {
                    assert(picked@ =~= old(self).cur_members());
                }
                let (mut msgs, acts) = self.emit_block(&picked);
                let ghost mid = self.outcomes@;
                proof {
                    assert(mid.take(old(self).outcomes@.len() as int) == old(self).outcomes@);
                }
                let ghost s0 = choose|s: usize|
                    block_restored(
                        old(self).cur_path(),
                        old(self).existing@,
                        picked@,
                        s,
                        acts@,
                        mid,
                        old(self).outcomes@,
                    );
                self.gi = self.gi + 1;
                let mut m2 = self.advance();
                msgs.append(&mut m2);
                proof {
                    lemma_take_chain(self.outcomes@, mid, old(self).outcomes@);
                    assert forall|i: int| 0 <= i < picked@.len() implies #[trigger] self.outcomes@[old(self).outcomes@.len() + i] == mid[old(self).outcomes@.len() + i] by {
                        assert(self.outcomes@.take(mid.len() as int)[old(self).outcomes@.len() + i]
                            == mid[old(self).outcomes@.len() + i]);
                    }
                    assert forall|j: int|
                        old(self).outcomes@.len() + picked@.len() <= j < self.outcomes@.len()
                            implies #[trigger] self.outcomes@[j] is Skipped by {
                        if j < mid.len() {
                            assert(self.outcomes@.take(mid.len() as int)[j] == mid[j]);
                        }
                    }
                }
                let rr = (msgs, acts);
                proof {
                    assert(block_restored(
                        old(self).cur_path(),
                        old(self).existing@,
                        old(self).cur_members(),
                        s0,
                        rr.1@,
                        self.outcomes_seq(),
                        old(self).outcomes_seq(),
                    ));
                }
                rr
            },
            TwinChoice::Pick(sel) => {
                if sel.len() == 1 {
                    let m = self.groups[self.gi].members[sel[0] - 1];
                    self.pending = m;
                    self.phase = Phase::Probe;
                    (Vec::new(), Vec::new())
                } else {
                    let ms = &self.groups[self.gi].members;
                    let mcount = ms.len();
                    let mut picked: Vec<usize> = Vec::new();
                    let mut i: usize = 0;
                    while i < sel.len()
                        invariant
                            i <= sel@.len(),
                            self == old(self),
                            old(self).base_wf(),
                            old(self).gi < old(self).groups@.len(),
                            ms@ == old(self).cur_members(),
                            forall|a: int|
                                0 <= a < sel@.len() ==> 1 <= #[trigger] sel@[a] <= ms@.len(),
                            picked@.len() == i,
                            forall|a: int|
                                0 <= a < i ==> #[trigger] picked@[a] == ms@[sel@[a] - 1],
                        decreases sel@.len() - i,
                    {
                        picked.push(ms[sel[i] - 1]);
                        i = i + 1;
                    }
                    proof {
                        assert(forall|a: int|
                            0 <= a < picked@.len() ==> #[trigger] picked@[a] < old(self).entries@.len());
                        crate::selection::lemma_increasing_bounded_len(sel@, mcount);
                        let exl = old(self).existing@.len() as int;
                        let pl = picked@.len() as int;
                        let ml = old(self).cur_members().len() as int;
                        assert((exl + 1) * pl + 1 <= (exl + 1) * ml + 1) by (nonlinear_arith)
                            requires
                                0 <= pl <= ml,
                                0 <= exl,
                        ;
                    }
                    let (mut msgs, acts) = self.emit_block(&picked);
                    let ghost mid = self.outcomes@;
                    proof {
                        assert(mid.take(old(self).outcomes@.len() as int) == old(self).outcomes@);
                    }
                    let ghost s0 = choose|s: usize|
                        block_restored(
                            old(self).cur_path(),
                            old(self).existing@,
                            picked@,
                            s,
                            acts@,
                            mid,
                            old(self).outcomes@,
                        );
                    self.gi = self.gi + 1;
                    let mut m2 = self.advance();
                    msgs.append(&mut m2);
                    proof {
                        lemma_take_chain(self.outcomes@, mid, old(self).outcomes@);
                        assert forall|i: int|
                            0 <= i < picked@.len() implies #[trigger] self.outcomes@[old(self).outcomes@.len() + i] == mid[old(self).outcomes@.len() + i] by {
                            assert(self.outcomes@.take(mid.len() as int)[old(self).outcomes@.len()
                                + i] == mid[old(self).outcomes@.len() + i]);
                        }
                        assert forall|j: int|
                            old(self).outcomes@.len() + picked@.len() <= j < self.outcomes@.len()
                                implies #[trigger] self.outcomes@[j] is Skipped by {
                            if j < mid.len() {
                                assert(self.outcomes@.take(mid.len() as int)[j] == mid[j]);
                            }
                        }
                    }
                    let rr = (msgs, acts);
                    proof {
                        assert(block_restored(
                            old(self).cur_path(),
                            old(self).existing@,
                            picked@,
                            s0,
                            rr.1@,
                            self.outcomes_seq(),
                            old(self).outcomes_seq(),
                        ));
                    }
                    rr
                }
            },
        }
    }

    /// Resolves the pending single restore by the collision choice `c` and
    /// moves on.
    fn resolve_collision(&mut self, c: CollisionChoice) -> (r: (Vec<String>, Vec<StoreAction>))
        requires
            old(self).base_wf(),
            old(self).gi < old(self).groups@.len(),
            old(self).pending < old(self).entries@.len(),
            old(self).entries@[old(self).pending as int].original_path@ == old(self).cur_path(),
            c is KeepBoth ==> exists|k: usize|
                1 <= k && old(self).keep_name@ == untrash_name_spec(old(self).cur_path(), k as nat)
                    && !occupied(old(self).cur_path(), old(self).existing@, k),
        ensures
            final(self).wf(),
            final(self).entries_seq() == old(self).entries_seq(),
            final(self).twin_cache() == old(self).twin_cache(),
            final(self).collision_cache() == old(self).collision_cache(),
            c is Quit ==> final(self).phase() is Finished && r.1@.len() == 0
                && final(self).outcomes_seq() == old(self).outcomes_seq().push(Outcome::Aborted),
            c is Overwrite ==> r.1@.len() == 1 && is_overwrite_to(
                r.1@[0],
                old(self).pending_index(),
                old(self).cur_path(),
            ) && outcomes_extended_restored(
                final(self).outcomes_seq(),
                old(self).outcomes_seq(),
                old(self).cur_path(),
            ),
            c is KeepBoth ==> r.1@.len() == 1 && is_restore_to(
                r.1@[0],
                old(self).pending_index(),
                old(self).keep_name_seq(),
            ) && outcomes_extended_restored_as(
                final(self).outcomes_seq(),
                old(self).outcomes_seq(),
                old(self).cur_path(),
                old(self).keep_name_seq(),
            ),
            c is Skip ==> r.1@.len() == 0 && outcomes_extended_skip(
                final(self).outcomes_seq(),
                old(self).outcomes_seq(),
                old(self).cur_path(),
            ),
    {
        let _glen = self.groups.len();
        match c {
            CollisionChoice::Quit => {
                self.outcomes.push(Outcome::Aborted);
                self.phase = Phase::Finished;
                (Vec::new(), Vec::new())
            },
            CollisionChoice::Overwrite => {
                let path = self.groups[self.gi].original_path.clone();
                let mut msgs: Vec<String> = Vec::new();
                let mut acts: Vec<StoreAction> = Vec::new();
                msgs.push(build_plain_line("Overwritten", path.as_str()));
                acts.push(StoreAction::OverwriteTo { index: self.pending, dest: path.clone() });
                self.outcomes.push(Outcome::Restored { path });
                let ghost mid = self.outcomes@;
                proof {
                    assert(mid.take(old(self).outcomes@.len() as int) =~= old(self).outcomes@);
                }
                self.gi = self.gi + 1;
                let mut m2 = self.advance();
                msgs.append(&mut m2);
                proof {
                    lemma_take_chain(self.outcomes@, mid, old(self).outcomes@);
                    assert(self.outcomes@[old(self).outcomes@.len() as int] == mid[old(self).outcomes@.len() as int]);
                }
                (msgs, acts)
            },
            CollisionChoice::KeepBoth => {
                let path = self.groups[self.gi].original_path.clone();
                let name = self.keep_name.clone();
                let mut msgs: Vec<String> = Vec::new();
                let mut acts: Vec<StoreAction> = Vec::new();
                msgs.push(build_plain_line("Restored as", name.as_str()));
                acts.push(StoreAction::RestoreTo { index: self.pending, dest: name.clone() });
                self.outcomes.push(Outcome::RestoredAs { path, new_path: name });
                let ghost mid = self.outcomes@;
                proof {
                    assert(mid.take(old(self).outcomes@.len() as int) =~= old(self).outcomes@);
                }
                self.gi = self.gi + 1;
                let mut m2 = self.advance();
                msgs.append(&mut m2);
                proof {
                    lemma_take_chain(self.outcomes@, mid, old(self).outcomes@);
                    assert(self.outcomes@[old(self).outcomes@.len() as int] == mid[old(self).outcomes@.len() as int]);
                }
                (msgs, acts)
            },
            CollisionChoice::Skip => {
                let path = self.groups[self.gi].original_path.clone();
                let mut msgs: Vec<String> = Vec::new();
                msgs.push(build_plain_line("Skipping", path.as_str()));
                self.outcomes.push(Outcome::Skipped { path });
                let ghost mid = self.outcomes@;
                proof {
                    assert(mid.take(old(self).outcomes@.len() as int) =~= old(self).outcomes@);
                }
                self.gi = self.gi + 1;
                let mut m2 = self.advance();
                msgs.append(&mut m2);
                proof {
                    lemma_take_chain(self.outcomes@, mid, old(self).outcomes@);
                    assert(self.outcomes@[old(self).outcomes@.len() as int] == mid[old(self).outcomes@.len() as int]);
                }
                (msgs, Vec::new())
            },
        }
    }

    /// Answers a probe of the current original path: free means the entry
    /// goes straight back to its own place; occupied opens the collision
    /// flow (or applies a cached collision choice).
    pub fn give_probe(&mut self, exists_now: bool) -> (r: (Vec<String>, Vec<StoreAction>))
        requires
            old(self).wf(),
            old(self).phase() is Probe,
        ensures
            final(self).wf(),
            final(self).entries_seq() == old(self).entries_seq(),
            !exists_now ==> r.1@.len() == 1 && is_restore_to(
                r.1@[0],
                old(self).pending_index(),
                old(self).cur_path(),
            ) && outcomes_extended_restored(
                final(self).outcomes_seq(),
                old(self).outcomes_seq(),
                old(self).cur_path(),
            ),
            exists_now && old(self).collision_cache() is None ==> final(self).phase()
                is CollisionListing && r.1@.len() == 0 && final(self).outcomes_seq() == old(self).outcomes_seq()
                && final(self).pending_index() == old(self).pending_index() && final(self).cur_path()
                == old(self).cur_path() && final(self).pending_decision() is None,
            exists_now && old(self).collision_cache() == Option::Some(CollisionChoice::Overwrite)
                ==> r.1@.len() == 1 && is_overwrite_to(
                r.1@[0],
                old(self).pending_index(),
                old(self).cur_path(),
            ) && outcomes_extended_restored(
                final(self).outcomes_seq(),
                old(self).outcomes_seq(),
                old(self).cur_path(),
            ),
            exists_now && old(self).collision_cache() == Option::Some(CollisionChoice::Skip)
                ==> r.1@.len() == 0 && outcomes_extended_skip(
                final(self).outcomes_seq(),
                old(self).outcomes_seq(),
                old(self).cur_path(),
            ),
            exists_now && old(self).collision_cache() == Option::Some(CollisionChoice::KeepBoth)
                ==> final(self).phase() is CollisionListing && r.1@.len() == 0 && final(self).outcomes_seq()
                == old(self).outcomes_seq() && final(self).pending_index() == old(self).pending_index()
                && final(self).cur_path() == old(self).cur_path() && final(self).pending_decision()
                == Option::Some(CollisionChoice::KeepBoth),
    {
        let _glen = self.groups.len();
        if !exists_now {
            let path = self.groups[self.gi].original_path.clone();
            let mut msgs: Vec<String> = Vec::new();
            let mut acts: Vec<StoreAction> = Vec::new();
            msgs.push(build_plain_line("Restoring", path.as_str()));
            acts.push(StoreAction::RestoreTo { index: self.pending, dest: path.clone() });
            self.outcomes.push(Outcome::Restored { path });
            let ghost mid = self.outcomes@;
            proof {
                assert(mid.take(old(self).outcomes@.len() as int) =~= old(self).outcomes@);
            }
            self.gi = self.gi + 1;
            let mut m2 = self.advance();
            msgs.append(&mut m2);
            proof {
                lemma_take_chain(self.outcomes@, mid, old(self).outcomes@);
                assert(self.outcomes@[old(self).outcomes@.len() as int] == mid[old(self).outcomes@.len() as int]);
            }
            (msgs, acts)
        } else {
            let cached: Option<CollisionChoice> = if self.once {
                self.cached_collision
            } else {
                Option::None
            };
            match cached {
                Option::Some(CollisionChoice::Overwrite) => self.resolve_collision(
                    CollisionChoice::Overwrite,
                ),
                Option::Some(CollisionChoice::Skip) => self.resolve_collision(CollisionChoice::Skip),
                Option::Some(CollisionChoice::Quit) => {
                    proof {
                        assert(false);
                    }
                    (Vec::new(), Vec::new())
                },
                Option::Some(CollisionChoice::KeepBoth) => {
                    self.collision_decided = Option::Some(CollisionChoice::KeepBoth);
                    self.phase = Phase::CollisionListing;
                    (Vec::new(), Vec::new())
                },
                Option::None => {
                    self.collision_decided = Option::None;
                    self.phase = Phase::CollisionListing;
                    (Vec::new(), Vec::new())
                },
            }
        }
    }

    /// Takes the directory listing it asked for. Before a twin menu it
    /// fixes the menu's range descriptor; before a collision menu it fixes
    /// the keep-both name — the first untrash name free in the listing.
    pub fn give_listing(&mut self, existing: Vec<String>) -> (r: (Vec<String>, Vec<StoreAction>))
        requires
            old(self).wf(),
            old(self).phase() is GroupListing || old(self).phase() is CollisionListing,
            old(self).phase() is GroupListing ==> (existing@.len() + 1) * old(self).cur_members().len() + 1 <= usize::MAX,
            old(self).phase() is CollisionListing ==> existing@.len() + 2 <= usize::MAX,
        ensures
            final(self).wf(),
            final(self).entries_seq() == old(self).entries_seq(),
            old(self).phase() is GroupListing && old(self).twin_cache() is None ==> final(self).phase()
                is TwinMenu && r.1@.len() == 0 && final(self).outcomes_seq() == old(self).outcomes_seq() && final(self).existing_seq() == existing@ && final(self).cur_path()
                == old(self).cur_path() && final(self).cur_members() == old(self).cur_members(),
            old(self).phase() is GroupListing && old(self).twin_cache() == Option::Some(
                TwinChoice::All,
            ) ==> exists|s: usize|
                #[trigger] block_restored(
                    old(self).cur_path(),
                    existing@,
                    old(self).cur_members(),
                    s,
                    r.1@,
                    final(self).outcomes_seq(),
                    old(self).outcomes_seq(),
                ),
            old(self).phase() is CollisionListing && old(self).pending_decision() is None ==> final(self).phase()
                is CollisionMenu && r.1@.len() == 0 && final(self).outcomes_seq() == old(self).outcomes_seq() && final(self).pending_index() == old(self).pending_index() && final(self).cur_path() == old(self).cur_path() && exists|k: usize|
                {
                    &&& 1 <= k
                    &&& final(self).keep_name_seq() == untrash_name_spec(
                        old(self).cur_path(),
                        k as nat,
                    )
                    &&& !occupied(old(self).cur_path(), existing@, k)
                    &&& forall|k2: usize|
                        1 <= k2 < k ==> #[trigger] occupied(old(self).cur_path(), existing@, k2)
                },
            old(self).phase() is CollisionListing && old(self).pending_decision() == Option::Some(
                CollisionChoice::KeepBoth,
            ) ==> exists|k: usize|
                {
                    &&& 1 <= k
                    &&& !occupied(old(self).cur_path(), existing@, k)
                    &&& forall|k2: usize|
                        1 <= k2 < k ==> #[trigger] occupied(old(self).cur_path(), existing@, k2)
                    &&& r.1@.len() == 1
                    &&& is_restore_to(
                        r.1@[0],
                        old(self).pending_index(),
                        untrash_name_spec(old(self).cur_path(), k as nat),
                    )
                    &&& outcomes_extended_restored_as(
                        final(self).outcomes_seq(),
                        old(self).outcomes_seq(),
                        old(self).cur_path(),
                        untrash_name_spec(old(self).cur_path(), k as nat),
                    )
                },
    {
        match self.phase {
            Phase::GroupListing => {
                self.existing = existing;
                let path = self.groups[self.gi].original_path.clone();
                let count = self.groups[self.gi].members.len();
                let s = find_untrash_range(path.as_str(), &self.existing, count);
                self.range_desc = format_untrash_range(path.as_str(), s, s + count - 1);
                let cached_all = if self.once {
                    match &self.cached_twin {
                        Option::Some(CachedTwin::CacheAll) => true,
                        _ => false,
                    }
                } else {
                    false
                };
                if cached_all {
                    let ghost pre = *self;
                    let rr = self.resolve_twin(TwinChoice::All);
                    proof {
                        let s0 = choose|s2: usize|
                            block_restored(
                                pre.cur_path(),
                                pre.existing@,
                                pre.cur_members(),
                                s2,
                                rr.1@,
                                self.outcomes_seq(),
                                pre.outcomes_seq(),
                            );
                        assert(block_restored(
                            old(self).cur_path(),
                            existing@,
                            old(self).cur_members(),
                            s0,
                            rr.1@,
                            self.outcomes_seq(),
                            old(self).outcomes_seq(),
                        ));
                    }
                    rr
                } else {
                    self.phase = Phase::TwinMenu;
                    (self.build_twin_menu(), Vec::new())
                }
            },
            Phase::CollisionListing => {
                let ghost ex0 = existing@;
                self.existing = existing;
                let path = self.groups[self.gi].original_path.clone();
                let k = find_untrash_range(path.as_str(), &self.existing, 1);
                self.keep_name = untrash_name(path.as_str(), k);
                proof {
                    assert(path@ == old(self).cur_path());
                    assert(1 <= k && self.keep_name@ == untrash_name_spec(
                        old(self).cur_path(),
                        k as nat,
                    ) && !occupied(old(self).cur_path(), self.existing@, k));
                    assert forall|k2: usize| 1 <= k2 < k implies #[trigger] occupied(
                        old(self).cur_path(),
                        self.existing@,
                        k2,
                    ) by {
                        assert(crate::naming::block_occupied(path@, self.existing@, k2, 1));
                        let j = choose|j: usize| k2 <= j < k2 + 1 && occupied(
                            path@,
                            self.existing@,
                            j,
                        );
                        assert(j == k2);
                    }
                }
                let decided = self.collision_decided;
                match decided {
                    Option::Some(c) => {
                        self.collision_decided = Option::None;
                        proof {
                            assert(c == CollisionChoice::KeepBoth);
                            assert(1 <= k && self.keep_name@ == untrash_name_spec(
                                self.cur_path(),
                                k as nat,
                            ) && !occupied(self.cur_path(), self.existing@, k));
                        }
                        let ghost pre = *self;
                        let rr = self.resolve_collision(c);
                        proof {
                            assert(!occupied(old(self).cur_path(), ex0, k));
                            assert forall|k2: usize| 1 <= k2 < k implies #[trigger] occupied(
                                old(self).cur_path(),
                                ex0,
                                k2,
                            ) by {
                                assert(occupied(old(self).cur_path(), pre.existing@, k2));
                            }
                            assert(is_restore_to(
                                rr.1@[0],
                                old(self).pending_index(),
                                untrash_name_spec(old(self).cur_path(), k as nat),
                            ));
                            assert(outcomes_extended_restored_as(
                                self.outcomes_seq(),
                                old(self).outcomes_seq(),
                                old(self).cur_path(),
                                untrash_name_spec(old(self).cur_path(), k as nat),
                            ));
                        }
                        rr
                    },
                    Option::None => {
                        self.phase = Phase::CollisionMenu;
                        proof {
                            assert(1 <= k && self.keep_name@ == untrash_name_spec(
                                self.cur_path(),
                                k as nat,
                            ) && !occupied(self.cur_path(), self.existing@, k));
                            assert(self.keep_name_seq() == untrash_name_spec(
                                old(self).cur_path(),
                                k as nat,
                            ));
                            assert(!occupied(old(self).cur_path(), ex0, k));
                            assert forall|k2: usize| 1 <= k2 < k implies #[trigger] occupied(
                                old(self).cur_path(),
                                ex0,
                                k2,
                            ) by {
                                assert(occupied(old(self).cur_path(), self.existing@, k2));
                            }
                        }
                        (
                            collision_menu_lines(path.as_str(), self.keep_name.as_str(), self.once),
                            Vec::new(),
                        )
                    },
                }
            },
            _ => {
                proof {
                    assert(false);
                }
                (Vec::new(), Vec::new())
            },
        }
    }

    /// Takes one line of user input at whichever prompt is open. At a twin
    /// menu: list, all, some, none or quit, end-of-input quitting; at the
    /// selection sub-prompt, a selection against the member count,
    /// end-of-input skipping this conflict alone; at a collision menu:
    /// overwrite, keep both, none or quit. Unrecognized input re-prompts
    /// and changes nothing.
    pub fn give_line(&mut self, line: Option<&str>) -> (r: (Vec<String>, Vec<StoreAction>))
        requires
            old(self).wf(),
            old(self).phase() is TwinMenu || old(self).phase() is TwinSelect || old(self).phase()
                is CollisionMenu,
        ensures
            final(self).wf(),
            final(self).entries_seq() == old(self).entries_seq(),
            old(self).phase() is TwinMenu ==> match twin_menu_step(line_view(line)) {
                TwinStep::Done(c) => match c {
                    TwinChoice::Quit => final(self).phase() is Finished && r.1@.len() == 0 && final(self).outcomes_seq() == old(self).outcomes_seq().push(Outcome::Aborted),
                    TwinChoice::All => exists|s: usize|
                        #[trigger] block_restored(
                            old(self).cur_path(),
                            old(self).existing_seq(),
                            old(self).cur_members(),
                            s,
                            r.1@,
                            final(self).outcomes_seq(),
                            old(self).outcomes_seq(),
                        ),
                    TwinChoice::Skip => r.1@.len() == 0 && outcomes_extended_skip(
                        final(self).outcomes_seq(),
                        old(self).outcomes_seq(),
                        old(self).cur_path(),
                    ),
                    TwinChoice::Pick(_) => true,
                },
                TwinStep::ShowList | TwinStep::AskAgain => final(self).phase() is TwinMenu
                    && r.1@.len() == 0 && final(self).outcomes_seq() == old(self).outcomes_seq(),
                TwinStep::EnterSelection => final(self).phase() is TwinSelect && r.1@.len() == 0
                    && final(self).outcomes_seq() == old(self).outcomes_seq(),
            },
            old(self).phase() is TwinSelect ==> ({
                let cnt = old(self).cur_members().len() as usize;
                &&& (line_view(line) is None ==> r.1@.len() == 0 && outcomes_extended_skip(
                    final(self).outcomes_seq(),
                    old(self).outcomes_seq(),
                    old(self).cur_path(),
                ))
                &&& match line_view(line) {
                    Option::Some(l) => {
                        if trim(l).len() == 0 {
                            final(self).phase() is TwinSelect && r.1@.len() == 0 && final(self).outcomes_seq() == old(self).outcomes_seq()
                        } else {
                            match selection_values(l, cnt) {
                                Option::Some(vals) => {
                                    if vals.len() == 0 {
                                        final(self).phase() is TwinSelect && r.1@.len() == 0
                                            && final(self).outcomes_seq() == old(self).outcomes_seq()
                                    } else if (forall|n: usize, m: usize|
                                        #[trigger] vals.contains(n) && #[trigger] vals.contains(m)
                                            ==> n == m) {
                                        // A single index was selected: that member alone moves
                                        // to its probe.
                                        &&& final(self).phase() is Probe
                                        &&& r.1@.len() == 0
                                        &&& final(self).outcomes_seq() == old(self).outcomes_seq()
                                        &&& forall|n: usize|
                                            #[trigger] vals.contains(n) ==> final(self).pending_index() == old(self).cur_members()[n - 1]
                                    } else {
                                        // Several indices: exactly the members at the selected
                                        // positions go to a fresh untrash block.
                                        exists|s: usize, picked: Seq<usize>|
                                            {
                                                &&& #[trigger] block_restored(
                                                    old(self).cur_path(),
                                                    old(self).existing_seq(),
                                                    picked,
                                                    s,
                                                    r.1@,
                                                    final(self).outcomes_seq(),
                                                    old(self).outcomes_seq(),
                                                )
                                                &&& picked.len() >= 2
                                                &&& forall|a: int|
                                                    0 <= a < picked.len() ==> picked_from(
                                                        vals,
                                                        old(self).cur_members(),
                                                        #[trigger] picked[a],
                                                    )
                                                &&& forall|n: usize|
                                                    #[trigger] vals.contains(n) ==> exists|a: int|
                                                        0 <= a < picked.len() && #[trigger] picked[a] == old(self).cur_members()[n - 1]
                                            }
                                    }
                                },
                                Option::None => final(self).phase() is TwinSelect && r.1@.len()
                                    == 0 && final(self).outcomes_seq() == old(self).outcomes_seq(),
                            }
                        }
                    },
                    Option::None => true,
                }
            }),
            old(self).phase() is TwinMenu && old(self).once_mode() && twin_menu_step(
                line_view(line),
            ) == TwinStep::Done(TwinChoice::All) ==> final(self).twin_cache() == Option::Some(
                TwinChoice::All,
            ),
            old(self).phase() is TwinMenu && old(self).once_mode() && twin_menu_step(
                line_view(line),
            ) == TwinStep::Done(TwinChoice::Skip) ==> final(self).twin_cache() == Option::Some(
                TwinChoice::Skip,
            ),
            old(self).phase() is CollisionMenu && old(self).once_mode() ==> match collision_menu_step(
                line_view(line),
            ) {
                Option::Some(c) => !(c is Quit) ==> final(self).collision_cache() == Option::Some(
                    c,
                ),
                Option::None => true,
            },
            old(self).phase() is CollisionMenu ==> match collision_menu_step(line_view(line)) {
                Option::Some(c) => match c {
                    CollisionChoice::Quit => final(self).phase() is Finished && r.1@.len() == 0
                        && final(self).outcomes_seq() == old(self).outcomes_seq().push(
                        Outcome::Aborted,
                    ),
                    CollisionChoice::Overwrite => r.1@.len() == 1 && is_overwrite_to(
                        r.1@[0],
                        old(self).pending_index(),
                        old(self).cur_path(),
                    ) && outcomes_extended_restored(
                        final(self).outcomes_seq(),
                        old(self).outcomes_seq(),
                        old(self).cur_path(),
                    ),
                    CollisionChoice::KeepBoth => r.1@.len() == 1 && is_restore_to(
                        r.1@[0],
                        old(self).pending_index(),
                        old(self).keep_name_seq(),
                    ) && outcomes_extended_restored_as(
                        final(self).outcomes_seq(),
                        old(self).outcomes_seq(),
                        old(self).cur_path(),
                        old(self).keep_name_seq(),
                    ),
                    CollisionChoice::Skip => r.1@.len() == 0 && outcomes_extended_skip(
                        final(self).outcomes_seq(),
                        old(self).outcomes_seq(),
                        old(self).cur_path(),
                    ),
                },
                Option::None => final(self).phase() is CollisionMenu && r.1@.len() == 0 && final(self).outcomes_seq() == old(self).outcomes_seq(),
            },
    {
        match self.phase {
            Phase::TwinMenu => {
                match twin_prompt_step(line) {
                    TwinStep::Done(c) => {
                        if self.once {
                            match &c {
                                TwinChoice::All => {
                                    self.cached_twin = Option::Some(CachedTwin::CacheAll);
                                },
                                TwinChoice::Skip => {
                                    self.cached_twin = Option::Some(CachedTwin::CacheSkip);
                                },
                                _ => {},
                            }
                        }
                        let ghost pre = *self;
                        let ghost is_all = c is All;
                        let rr = self.resolve_twin(c);
                        proof {
                            if is_all {
                                let s0 = choose|s: usize|
                                    block_restored(
                                        pre.cur_path(),
                                        pre.existing@,
                                        pre.cur_members(),
                                        s,
                                        rr.1@,
                                        self.outcomes_seq(),
                                        pre.outcomes_seq(),
                                    );
                                assert(block_restored(
                                    old(self).cur_path(),
                                    old(self).existing_seq(),
                                    old(self).cur_members(),
                                    s0,
                                    rr.1@,
                                    self.outcomes_seq(),
                                    old(self).outcomes_seq(),
                                ));
                            }
                        }
                        rr
                    },
                    TwinStep::ShowList => {
                        let infos = self.build_twin_infos();
                        let mut msgs = twin_list_lines(&infos);
                        let mut menu = self.build_twin_menu();
                        msgs.append(&mut menu);
                        (msgs, Vec::new())
                    },
                    TwinStep::EnterSelection => {
                        let infos = self.build_twin_infos();
                        let mut msgs = twin_list_lines(&infos);
                        msgs.push(String::from_str("Select items (e.g. 1,3-5):"));
                        self.phase = Phase::TwinSelect;
                        (msgs, Vec::new())
                    },
                    TwinStep::AskAgain => {
                        let mut msgs: Vec<String> = Vec::new();
                        msgs.push(String::from_str("Invalid choice."));
                        let mut menu = self.build_twin_menu();
                        msgs.append(&mut menu);
                        (msgs, Vec::new())
                    },
                }
            },
            Phase::TwinSelect => {
                let count = self.groups[self.gi].members.len();
                proof {
                    assert(old(self).cur_members().len() as usize == count);
                }
                match selection_prompt_step(line, count) {
                    SelectionStep::Done(sel) => {
                        match sel {
                            Option::None => self.resolve_twin(TwinChoice::Skip),
                            Option::Some(v) => {
                                proof {
                                    let l = line->Some_0@;
                                    crate::selection::lemma_selection_values_in_range(l, count);
                                    let vals = selection_values(l, count)->Some_0;
                                    assert forall|a: int|
                                        0 <= a < v@.len() implies 1 <= #[trigger] v@[a]
                                        <= count by {
                                        assert(v@.contains(v@[a]));
                                        assert(vals.contains(v@[a]));
                                    }
                                }
                                let single = v.len() == 1;
                                let ghost selv = v@;
                                let ghost vals = selection_values(line->Some_0@, count)->Some_0;
                                let rr = self.resolve_twin(TwinChoice::Pick(v));
                                proof {
                                    if single {
                                        assert(old(self).cur_members()[selv[0] - 1]
                                            == self.pending_index());
                                        // The one selected value is the one the indices name.
                                        assert forall|n: usize, m: usize|
                                            #[trigger] vals.contains(n) && #[trigger] vals.contains(m) implies n == m by {
                                            assert(selv.contains(n));
                                            assert(selv.contains(m));
                                            let a = choose|a: int|
                                                0 <= a < selv.len() && selv[a] == n;
                                            let b = choose|b: int|
                                                0 <= b < selv.len() && selv[b] == m;
                                        }
                                        assert forall|n: usize| #[trigger] vals.contains(n) implies self.pending_index() == old(self).cur_members()[n - 1] by {
                                            assert(selv.contains(n));
                                            let a = choose|a: int|
                                                0 <= a < selv.len() && selv[a] == n;
                                            assert(n == selv[0]);
                                        }
                                    } else {
                                        // Two selected values refute the single-index reading.
                                        assert(selv[0] < selv[1]);
                                        assert(selv.contains(selv[0]) && selv.contains(selv[1]));
                                        assert(vals.contains(selv[0]) && vals.contains(selv[1]));
                                        let (s0, picked) = choose|s: usize, picked: Seq<usize>|
                                            {
                                                &&& block_restored(
                                                    old(self).cur_path(),
                                                    old(self).existing@,
                                                    picked,
                                                    s,
                                                    rr.1@,
                                                    self.outcomes_seq(),
                                                    old(self).outcomes_seq(),
                                                )
                                                &&& picked.len() == selv.len()
                                                &&& forall|a: int|
                                                    0 <= a < picked.len()
                                                        ==> #[trigger] picked[a] == old(self).cur_members()[selv[a] - 1]
                                            };
                                        assert forall|a: int|
                                            0 <= a < picked.len() implies picked_from(
                                            vals,
                                            old(self).cur_members(),
                                            #[trigger] picked[a],
                                        ) by {
                                            assert(selv.contains(selv[a]));
                                            assert(vals.contains(selv[a]));
                                            assert(picked[a] == old(self).cur_members()[selv[a]
                                                - 1]);
                                        }
                                        assert forall|n: usize| #[trigger] vals.contains(n) implies exists|a: int|
                                            0 <= a < picked.len() && #[trigger] picked[a] == old(self).cur_members()[n - 1] by {
                                            assert(selv.contains(n));
                                            let a = choose|a: int|
                                                0 <= a < selv.len() && selv[a] == n;
                                            assert(picked[a] == old(self).cur_members()[n - 1]);
                                        }
                                        assert(block_restored(
                                            old(self).cur_path(),
                                            old(self).existing_seq(),
                                            picked,
                                            s0,
                                            rr.1@,
                                            self.outcomes_seq(),
                                            old(self).outcomes_seq(),
                                        ));
                                        assert(picked.len() >= 2);
                                    }
                                }
                                rr
                            },
                        }
                    },
                    SelectionStep::Retry(m) => {
                        let mut msgs: Vec<String> = Vec::new();
                        msgs.push(m);
                        msgs.push(String::from_str("Select items (e.g. 1,3-5):"));
                        (msgs, Vec::new())
                    },
                    SelectionStep::RetrySilent => {
                        let mut msgs: Vec<String> = Vec::new();
                        msgs.push(String::from_str("Select items (e.g. 1,3-5):"));
                        (msgs, Vec::new())
                    },
                }
            },
            Phase::CollisionMenu => {
                match collision_prompt_step(line) {
                    Option::Some(c) => {
                        if self.once {
                            match c {
                                CollisionChoice::Quit => {},
                                _ => {
                                    self.cached_collision = Option::Some(c);
                                },
                            }
                        }
                        proof {
                            let kk = choose|k: usize|
                                1 <= k && old(self).keep_name@ == untrash_name_spec(
                                    old(self).cur_path(),
                                    k as nat,
                                ) && !occupied(old(self).cur_path(), old(self).existing@, k);
                            assert(1 <= kk && self.keep_name@ == untrash_name_spec(
                                self.cur_path(),
                                kk as nat,
                            ) && !occupied(self.cur_path(), self.existing@, kk));
                        }
                        self.resolve_collision(c)
                    },
                    Option::None => {
                        let mut msgs: Vec<String> = Vec::new();
                        msgs.push(String::from_str("Invalid choice."));
                        msgs.push(String::from_str("Choice:"));
                        (msgs, Vec::new())
                    },
                }
            },
            _ => {
                proof {
                    assert(false);
                }
                (Vec::new(), Vec::new())
            },
        }
    }
}

/// Taking the shorter prefix of a longer take gives the shorter prefix.
proof fn lemma_take_chain(full: Seq<Outcome>, mid: Seq<Outcome>, base: Seq<Outcome>)
    requires
        base.len() <= mid.len() <= full.len(),
        full.take(mid.len() as int) == mid,
        mid.take(base.len() as int) == base,
    ensures
        full.take(base.len() as int) == base,
{
    assert forall|i: int| 0 <= i < base.len() implies full[i] == base[i] by {
        assert(full.take(mid.len() as int)[i] == full[i]);
        assert(mid.take(base.len() as int)[i] == mid[i]);
    }
    assert(full.take(base.len() as int) =~= base);
}

/// The outcomes grew by `path` restored to its own place, then possibly by
/// skipped groups the cached twin choice dismissed.
pub open spec fn outcomes_extended_restored(
    new: Seq<Outcome>,
    old: Seq<Outcome>,
    path: Seq<char>,
) -> bool {
    &&& new.len() > old.len()
    &&& new.take(old.len() as int) == old
    &&& is_restored(new[old.len() as int], path)
    &&& forall|j: int| old.len() < j < new.len() ==> #[trigger] new[j] is Skipped
}

/// The outcomes grew by `path` restored under `newp`, then possibly by
/// skipped groups the cached twin choice dismissed.
pub open spec fn outcomes_extended_restored_as(
    new: Seq<Outcome>,
    old: Seq<Outcome>,
    path: Seq<char>,
    newp: Seq<char>,
) -> bool {
    &&& new.len() > old.len()
    &&& new.take(old.len() as int) == old
    &&& is_restored_as(new[old.len() as int], path, newp)
    &&& forall|j: int| old.len() < j < new.len() ==> #[trigger] new[j] is Skipped
}

/// The outcomes grew by a skip of `path`, then possibly by skipped groups
/// the cached twin choice dismissed on the way to the next prompt.
pub open spec fn outcomes_extended_skip(new: Seq<Outcome>, old: Seq<Outcome>, path: Seq<char>) -> bool {
    &&& new.len() > old.len()
    &&& new.take(old.len() as int) == old
    &&& is_skipped(new[old.len() as int], path)
    &&& forall|j: int| old.len() < j < new.len() ==> #[trigger] new[j] is Skipped
}

} // verus!
