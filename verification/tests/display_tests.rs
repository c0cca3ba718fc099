use trache::classify::classify;
use trache::display::{deleted_count_line, list_line, no_match_line, report_lines};
use trache::matcher::compile_matcher;
use trache::pattern::{MatchExtent, MatchTarget, MatchType};
use trache::store::{matching_indices, TrashEntry};

fn entry(name: &str, path: &str, t: i64) -> TrashEntry {
    TrashEntry { name: String::from(name), original_path: String::from(path), deleted_at: t }
}

#[test]
fn test_no_match_line() {
    assert_eq!(no_match_line("foo"), "No items matching 'foo' found in trash.");
}

#[test]
fn test_list_line() {
    assert_eq!(
        list_line("2024-01-15 10:30", "foo.txt", "/tmp/foo.txt"),
        "2024-01-15 10:30 foo.txt /tmp/foo.txt"
    );
}

#[test]
fn test_deleted_count_line() {
    assert_eq!(deleted_count_line(3), "Permanently deleted 3 item(s).");
}

#[test]
fn test_report_lines_plain_and_numbered() {
    // Two entries share a path: their lines carry (i/total, time) suffixes;
    // the third stands alone and gets a plain line.
    let entries = vec![
        entry("a.txt", "/tmp/a.txt", 1),
        entry("a.txt", "/tmp/a.txt", 2),
        entry("b.txt", "/tmp/b.txt", 3),
    ];
    let idxs = vec![0, 1, 2];
    let times = vec![String::from("T0"), String::from("T1"), String::from("T2")];
    let lines = report_lines(&entries, &idxs, &times, "Restoring");
    assert_eq!(
        lines,
        vec![
            String::from("Restoring (1/2, T0): /tmp/a.txt"),
            String::from("Restoring (2/2, T1): /tmp/a.txt"),
            String::from("Restoring: /tmp/b.txt"),
        ]
    );
}

#[test]
fn test_report_lines_dry_run_prefix() {
    let entries = vec![entry("a.txt", "/tmp/a.txt", 1)];
    let idxs = vec![0];
    let times = vec![String::from("T0")];
    let lines = report_lines(&entries, &idxs, &times, "would restore");
    assert_eq!(lines, vec![String::from("would restore: /tmp/a.txt")]);
}

#[test]
fn test_matching_indices_by_name() {
    let entries = vec![
        entry("foo.txt", "/tmp/foo.txt", 1),
        entry("bar.log", "/tmp/bar.log", 2),
        entry("xfoo", "/var/xfoo", 3),
    ];
    let m = compile_matcher("foo", MatchType::Literal, MatchExtent::Partial).unwrap();
    assert_eq!(matching_indices(&entries, &m, MatchTarget::Name), vec![0, 2]);
}

#[test]
fn test_matching_indices_by_path() {
    let entries = vec![
        entry("foo.txt", "/tmp/foo.txt", 1),
        entry("foo.txt", "/var/foo.txt", 2),
    ];
    let m = compile_matcher("/tmp", MatchType::Literal, MatchExtent::Partial).unwrap();
    assert_eq!(matching_indices(&entries, &m, MatchTarget::Path), vec![0]);
    let n = compile_matcher("full:foo.txt", MatchType::Glob, MatchExtent::Partial).unwrap();
    // `full:` in the raw pattern is a modifier, not matcher input: here the
    // literal glob text contains it and matches nothing.
    assert_eq!(matching_indices(&entries, &n, MatchTarget::Name), Vec::<usize>::new());
}

#[test]
fn test_classify_groups_by_path_oldest_first() {
    let entries = vec![
        entry("a.txt", "/tmp/a.txt", 30),
        entry("b.txt", "/tmp/b.txt", 20),
        entry("a.txt", "/tmp/a.txt", 10),
    ];
    let idxs = vec![0, 1, 2];
    let groups = classify(&entries, &idxs);
    assert_eq!(groups.len(), 2);
    assert_eq!(groups[0].original_path, "/tmp/a.txt");
    assert_eq!(groups[0].members, vec![2, 0]);
    assert_eq!(groups[1].original_path, "/tmp/b.txt");
    assert_eq!(groups[1].members, vec![1]);
}

#[test]
fn test_classify_stable_on_equal_timestamps() {
    let entries = vec![
        entry("a.txt", "/tmp/a.txt", 5),
        entry("a.txt", "/tmp/a.txt", 5),
    ];
    let idxs = vec![0, 1];
    let groups = classify(&entries, &idxs);
    assert_eq!(groups.len(), 1);
    assert_eq!(groups[0].members, vec![0, 1]);
}

#[test]
fn test_format_timestamp_out_of_range_placeholder() {
    // A timestamp chrono cannot represent falls back to a placeholder.
    assert_eq!(trache::display::format_timestamp(i64::MAX), "????-??-?? ??:??");
}

#[test]
fn test_entry_times_one_per_entry() {
    let entries = vec![
        entry("a.txt", "/tmp/a.txt", 1),
        entry("b.txt", "/tmp/b.txt", 2),
    ];
    assert_eq!(trache::display::entry_times(&entries).len(), 2);
}
