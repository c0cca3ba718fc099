use trache::session::{Outcome, Request, RestoreSession, StoreAction};
use trache::store::TrashEntry;

fn entry(name: &str, path: &str, t: i64) -> TrashEntry {
    TrashEntry { name: String::from(name), original_path: String::from(path), deleted_at: t }
}

fn three_twins() -> (Vec<TrashEntry>, Vec<usize>) {
    let entries = vec![
        entry("foo.txt", "/tmp/foo.txt", 100),
        entry("foo.txt", "/tmp/foo.txt", 300),
        entry("foo.txt", "/tmp/foo.txt", 200),
    ];
    (entries, vec![0, 1, 2])
}

#[test]
fn test_twin_flow_pick_second_oldest() {
    // Three trashed versions of one path; "s" then "2" restores exactly the
    // second-oldest (deleted_at 200, position 2 in the entry list).
    let (entries, idxs) = three_twins();
    let (mut s, _m) = RestoreSession::new(entries, &idxs, false);
    assert!(matches!(s.next_request(), Request::NeedListing { .. }));
    let (_m, a) = s.give_listing(Vec::new());
    assert!(a.is_empty());
    assert!(matches!(s.next_request(), Request::NeedLine));
    let (_m, a) = s.give_line(Some("s\n"));
    assert!(a.is_empty());
    let (_m, a) = s.give_line(Some("2\n"));
    assert!(a.is_empty());
    match s.next_request() {
        Request::NeedProbe { path } => assert_eq!(path, "/tmp/foo.txt"),
        r => panic!("unexpected request {:?}", r),
    }
    let (_m, a) = s.give_probe(false);
    assert_eq!(
        a,
        vec![StoreAction::RestoreTo { index: 2, dest: String::from("/tmp/foo.txt") }]
    );
    assert!(s.finished());
    assert_eq!(
        s.outcomes(),
        &vec![Outcome::Restored { path: String::from("/tmp/foo.txt") }]
    );
}

#[test]
fn test_twin_flow_all_contiguous_range() {
    // "a" restores all three to the contiguous untrash range 1..3, oldest
    // first.
    let (entries, idxs) = three_twins();
    let (mut s, _m) = RestoreSession::new(entries, &idxs, false);
    let (m, _a) = s.give_listing(Vec::new());
    // The menu offers the whole range.
    assert!(m.iter().any(|l| l.contains("foo-untrash_{1..3}.txt")));
    let (_m, a) = s.give_line(Some("a\n"));
    assert_eq!(
        a,
        vec![
            StoreAction::RestoreTo { index: 0, dest: String::from("/tmp/foo-untrash_1.txt") },
            StoreAction::RestoreTo { index: 2, dest: String::from("/tmp/foo-untrash_2.txt") },
            StoreAction::RestoreTo { index: 1, dest: String::from("/tmp/foo-untrash_3.txt") },
        ]
    );
    assert!(s.finished());
    assert_eq!(s.outcomes().len(), 3);
}

#[test]
fn test_twin_flow_quit_leaves_store_untouched() {
    // "q" at the menu aborts: no action is requested at all.
    let (entries, idxs) = three_twins();
    let (mut s, _m) = RestoreSession::new(entries, &idxs, false);
    let (_m, a) = s.give_listing(Vec::new());
    assert!(a.is_empty());
    let (_m, a) = s.give_line(Some("q\n"));
    assert!(a.is_empty());
    assert!(s.finished());
    assert_eq!(s.outcomes(), &vec![Outcome::Aborted]);
}

#[test]
fn test_twin_flow_eof_quits() {
    let (entries, idxs) = three_twins();
    let (mut s, _m) = RestoreSession::new(entries, &idxs, false);
    let (_m, _a) = s.give_listing(Vec::new());
    let (_m, a) = s.give_line(None);
    assert!(a.is_empty());
    assert!(s.finished());
    assert_eq!(s.outcomes(), &vec![Outcome::Aborted]);
}

#[test]
fn test_twin_flow_none_skips() {
    let (entries, idxs) = three_twins();
    let (mut s, _m) = RestoreSession::new(entries, &idxs, false);
    let (_m, _a) = s.give_listing(Vec::new());
    let (_m, a) = s.give_line(Some("n\n"));
    assert!(a.is_empty());
    assert!(s.finished());
    assert_eq!(
        s.outcomes(),
        &vec![Outcome::Skipped { path: String::from("/tmp/foo.txt") }]
    );
}

#[test]
fn test_twin_flow_invalid_then_list_then_all() {
    let (entries, idxs) = three_twins();
    let (mut s, _m) = RestoreSession::new(entries, &idxs, false);
    let (_m, _a) = s.give_listing(Vec::new());
    let (m, a) = s.give_line(Some("x\n"));
    assert!(a.is_empty());
    assert!(!s.finished());
    assert!(m.iter().any(|l| l == "Invalid choice."));
    let (m, a) = s.give_line(Some("l\n"));
    assert!(a.is_empty());
    // The list shows each member numbered, oldest first.
    assert!(m.iter().any(|l| l.starts_with("  1: foo.txt")));
    assert!(m.iter().any(|l| l.starts_with("  3: foo.txt")));
    let (_m, a) = s.give_line(Some("a\n"));
    assert_eq!(a.len(), 3);
    assert!(s.finished());
}

#[test]
fn test_twin_flow_selection_eof_skips_conflict_only() {
    // End of input during "Some" selection abandons the conflict (None),
    // not the whole run: with one group the session just finishes with a
    // skip, not an abort.
    let (entries, idxs) = three_twins();
    let (mut s, _m) = RestoreSession::new(entries, &idxs, false);
    let (_m, _a) = s.give_listing(Vec::new());
    let (_m, _a) = s.give_line(Some("s\n"));
    let (_m, a) = s.give_line(None);
    assert!(a.is_empty());
    assert!(s.finished());
    assert_eq!(
        s.outcomes(),
        &vec![Outcome::Skipped { path: String::from("/tmp/foo.txt") }]
    );
}

#[test]
fn test_twin_flow_pick_range_goes_to_untrash_names() {
    // Picking two of three sends both to fresh untrash names.
    let (entries, idxs) = three_twins();
    let (mut s, _m) = RestoreSession::new(entries, &idxs, false);
    let (_m, _a) = s.give_listing(Vec::new());
    let (_m, _a) = s.give_line(Some("s\n"));
    let (_m, a) = s.give_line(Some("1,3\n"));
    assert_eq!(
        a,
        vec![
            StoreAction::RestoreTo { index: 0, dest: String::from("/tmp/foo-untrash_1.txt") },
            StoreAction::RestoreTo { index: 1, dest: String::from("/tmp/foo-untrash_2.txt") },
        ]
    );
    assert!(s.finished());
}

fn one_entry() -> (Vec<TrashEntry>, Vec<usize>) {
    (vec![entry("foo.txt", "/home/user/foo.txt", 10)], vec![0])
}

#[test]
fn test_collision_flow_overwrite() {
    let (entries, idxs) = one_entry();
    let (mut s, _m) = RestoreSession::new(entries, &idxs, false);
    assert!(matches!(s.next_request(), Request::NeedProbe { .. }));
    let (_m, a) = s.give_probe(true);
    assert!(a.is_empty());
    assert!(matches!(s.next_request(), Request::NeedListing { .. }));
    let (m, _a) = s.give_listing(vec![String::from("/home/user/foo.txt")]);
    assert!(m.iter().any(|l| l.contains("foo-untrash_1.txt")));
    let (m, a) = s.give_line(Some("o\n"));
    assert_eq!(
        a,
        vec![StoreAction::OverwriteTo { index: 0, dest: String::from("/home/user/foo.txt") }]
    );
    assert!(m.iter().any(|l| l.starts_with("Overwritten")));
    assert!(s.finished());
    assert_eq!(
        s.outcomes(),
        &vec![Outcome::Restored { path: String::from("/home/user/foo.txt") }]
    );
}

#[test]
fn test_collision_flow_keep_both() {
    let (entries, idxs) = one_entry();
    let (mut s, _m) = RestoreSession::new(entries, &idxs, false);
    let (_m, _a) = s.give_probe(true);
    let (_m, _a) = s.give_listing(Vec::new());
    let (m, a) = s.give_line(Some("k\n"));
    assert_eq!(
        a,
        vec![StoreAction::RestoreTo {
            index: 0,
            dest: String::from("/home/user/foo-untrash_1.txt"),
        }]
    );
    assert!(m.iter().any(|l| l.starts_with("Restored as")));
    assert!(s.finished());
    assert_eq!(
        s.outcomes(),
        &vec![Outcome::RestoredAs {
            path: String::from("/home/user/foo.txt"),
            new_path: String::from("/home/user/foo-untrash_1.txt"),
        }]
    );
}

#[test]
fn test_collision_flow_keep_both_skips_taken_names() {
    let (entries, idxs) = one_entry();
    let (mut s, _m) = RestoreSession::new(entries, &idxs, false);
    let (_m, _a) = s.give_probe(true);
    let (_m, _a) = s.give_listing(vec![String::from("/home/user/foo-untrash_1.txt")]);
    let (_m, a) = s.give_line(Some("k\n"));
    assert_eq!(
        a,
        vec![StoreAction::RestoreTo {
            index: 0,
            dest: String::from("/home/user/foo-untrash_2.txt"),
        }]
    );
}

#[test]
fn test_collision_flow_none_skips() {
    let (entries, idxs) = one_entry();
    let (mut s, _m) = RestoreSession::new(entries, &idxs, false);
    let (_m, _a) = s.give_probe(true);
    let (_m, _a) = s.give_listing(Vec::new());
    let (_m, a) = s.give_line(Some("n\n"));
    assert!(a.is_empty());
    assert!(s.finished());
    assert_eq!(
        s.outcomes(),
        &vec![Outcome::Skipped { path: String::from("/home/user/foo.txt") }]
    );
}

#[test]
fn test_collision_flow_quit() {
    let (entries, idxs) = one_entry();
    let (mut s, _m) = RestoreSession::new(entries, &idxs, false);
    let (_m, _a) = s.give_probe(true);
    let (_m, _a) = s.give_listing(Vec::new());
    let (_m, a) = s.give_line(Some("q\n"));
    assert!(a.is_empty());
    assert!(s.finished());
    assert_eq!(s.outcomes(), &vec![Outcome::Aborted]);
}

#[test]
fn test_collision_flow_invalid_then_valid() {
    let (entries, idxs) = one_entry();
    let (mut s, _m) = RestoreSession::new(entries, &idxs, false);
    let (_m, _a) = s.give_probe(true);
    let (_m, _a) = s.give_listing(Vec::new());
    let (m, a) = s.give_line(Some("x\n"));
    assert!(a.is_empty());
    assert!(!s.finished());
    assert!(m.iter().any(|l| l == "Invalid choice."));
    let (_m, a) = s.give_line(Some("o\n"));
    assert_eq!(a.len(), 1);
    assert!(s.finished());
}

#[test]
fn test_plain_restore_no_conflict() {
    let (entries, idxs) = one_entry();
    let (mut s, _m) = RestoreSession::new(entries, &idxs, false);
    let (m, a) = s.give_probe(false);
    assert_eq!(
        a,
        vec![StoreAction::RestoreTo { index: 0, dest: String::from("/home/user/foo.txt") }]
    );
    assert!(m.iter().any(|l| l.starts_with("Restoring")));
    assert!(s.finished());
}

#[test]
fn test_once_mode_caches_collision_choice() {
    // Two singleton groups, both colliding; with `once`, the first
    // overwrite answer is applied to the second collision unprompted.
    let entries = vec![
        entry("a.txt", "/tmp/a.txt", 1),
        entry("b.txt", "/tmp/b.txt", 2),
    ];
    let idxs = vec![0, 1];
    let (mut s, _m) = RestoreSession::new(entries, &idxs, true);
    let (_m, _a) = s.give_probe(true);
    let (_m, _a) = s.give_listing(Vec::new());
    let (_m, a) = s.give_line(Some("o\n"));
    assert_eq!(a.len(), 1);
    assert!(!s.finished());
    // Second group: the probe answer alone resolves it.
    assert!(matches!(s.next_request(), Request::NeedProbe { .. }));
    let (_m, a) = s.give_probe(true);
    assert_eq!(
        a,
        vec![StoreAction::OverwriteTo { index: 1, dest: String::from("/tmp/b.txt") }]
    );
    assert!(s.finished());
}

#[test]
fn test_two_groups_sequenced() {
    // One twin pair and one singleton: resolving the pair moves on to the
    // singleton; quitting at the pair never reaches it.
    let entries = vec![
        entry("a.txt", "/tmp/a.txt", 1),
        entry("a.txt", "/tmp/a.txt", 2),
        entry("b.txt", "/tmp/b.txt", 3),
    ];
    let idxs = vec![0, 1, 2];
    let (mut s, _m) = RestoreSession::new(entries.clone(), &idxs, false);
    let (_m, _a) = s.give_listing(Vec::new());
    let (_m, a) = s.give_line(Some("a\n"));
    assert_eq!(a.len(), 2);
    assert!(!s.finished());
    let (_m, a) = s.give_probe(false);
    assert_eq!(
        a,
        vec![StoreAction::RestoreTo { index: 2, dest: String::from("/tmp/b.txt") }]
    );
    assert!(s.finished());
    assert_eq!(s.outcomes().len(), 3);

    let (mut s2, _m) = RestoreSession::new(entries, &idxs, false);
    let (_m, _a) = s2.give_listing(Vec::new());
    let (_m, a) = s2.give_line(Some("q\n"));
    assert!(a.is_empty());
    assert!(s2.finished());
    assert_eq!(s2.outcomes(), &vec![Outcome::Aborted]);
}

#[test]
fn test_once_mode_caches_twin_all() {
    // Two twin pairs; with `once`, answering "a" at the first menu restores
    // the second pair's block without another menu.
    let entries = vec![
        entry("a.txt", "/tmp/a.txt", 1),
        entry("a.txt", "/tmp/a.txt", 2),
        entry("b.txt", "/tmp/b.txt", 3),
        entry("b.txt", "/tmp/b.txt", 4),
    ];
    let idxs = vec![0, 1, 2, 3];
    let (mut s, _m) = RestoreSession::new(entries, &idxs, true);
    let (_m, _a) = s.give_listing(Vec::new());
    let (_m, a) = s.give_line(Some("a\n"));
    assert_eq!(a.len(), 2);
    assert!(!s.finished());
    // Second group: its listing alone resolves it.
    assert!(matches!(s.next_request(), Request::NeedListing { .. }));
    let (_m, a) = s.give_listing(Vec::new());
    assert_eq!(
        a,
        vec![
            StoreAction::RestoreTo { index: 2, dest: String::from("/tmp/b-untrash_1.txt") },
            StoreAction::RestoreTo { index: 3, dest: String::from("/tmp/b-untrash_2.txt") },
        ]
    );
    assert!(s.finished());
}

#[test]
fn test_once_mode_caches_twin_none() {
    // Answering "n" once skips every later twin group unprompted.
    let entries = vec![
        entry("a.txt", "/tmp/a.txt", 1),
        entry("a.txt", "/tmp/a.txt", 2),
        entry("b.txt", "/tmp/b.txt", 3),
        entry("b.txt", "/tmp/b.txt", 4),
    ];
    let idxs = vec![0, 1, 2, 3];
    let (mut s, _m) = RestoreSession::new(entries, &idxs, true);
    let (_m, _a) = s.give_listing(Vec::new());
    let (_m, a) = s.give_line(Some("n\n"));
    assert!(a.is_empty());
    assert!(s.finished());
    assert_eq!(
        s.outcomes(),
        &vec![
            Outcome::Skipped { path: String::from("/tmp/a.txt") },
            Outcome::Skipped { path: String::from("/tmp/b.txt") },
        ]
    );
}

#[test]
fn test_once_mode_caches_keep_both() {
    // A cached keep-both answer still fetches a listing for each later
    // collision, then restores under the first free untrash name.
    let entries = vec![
        entry("a.txt", "/tmp/a.txt", 1),
        entry("b.txt", "/tmp/b.txt", 2),
    ];
    let idxs = vec![0, 1];
    let (mut s, _m) = RestoreSession::new(entries, &idxs, true);
    let (_m, _a) = s.give_probe(true);
    let (_m, _a) = s.give_listing(Vec::new());
    let (_m, a) = s.give_line(Some("k\n"));
    assert_eq!(
        a,
        vec![StoreAction::RestoreTo { index: 0, dest: String::from("/tmp/a-untrash_1.txt") }]
    );
    let (_m, _a) = s.give_probe(true);
    assert!(matches!(s.next_request(), Request::NeedListing { .. }));
    let (_m, a) = s.give_listing(vec![String::from("/tmp/b-untrash_1.txt")]);
    assert_eq!(
        a,
        vec![StoreAction::RestoreTo { index: 1, dest: String::from("/tmp/b-untrash_2.txt") }]
    );
    assert!(s.finished());
}
