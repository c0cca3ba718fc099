use trache::naming::{find_untrash_range, format_untrash_range, untrash_name};

#[test]
fn test_untrash_name_with_ext() {
    let p = "/home/user/foo.txt";
    assert_eq!(untrash_name(p, 1), "/home/user/foo-untrash_1.txt");
    assert_eq!(untrash_name(p, 42), "/home/user/foo-untrash_42.txt");
}

#[test]
fn test_untrash_name_no_ext() {
    let p = "/home/user/Makefile";
    assert_eq!(untrash_name(p, 1), "/home/user/Makefile-untrash_1");
}

#[test]
fn test_untrash_name_dotfile() {
    let p = "/home/user/.gitignore";
    assert_eq!(untrash_name(p, 1), "/home/user/.gitignore-untrash_1");
}

#[test]
fn test_untrash_name_multiple_dots() {
    let p = "/home/user/archive.tar.gz";
    assert_eq!(untrash_name(p, 1), "/home/user/archive.tar-untrash_1.gz");
}

#[test]
fn test_untrash_name_bare_name() {
    assert_eq!(untrash_name("foo.txt", 7), "foo-untrash_7.txt");
}

#[test]
fn test_untrash_name_dotfile_with_ext() {
    assert_eq!(untrash_name("/home/user/.config.bak", 2), "/home/user/.config-untrash_2.bak");
}

#[test]
fn test_format_untrash_range_single() {
    assert_eq!(format_untrash_range("/tmp/foo.txt", 2, 2), "foo-untrash_2.txt");
}

#[test]
fn test_format_untrash_range_braced() {
    assert_eq!(format_untrash_range("/tmp/foo.txt", 1, 3), "foo-untrash_{1..3}.txt");
}

#[test]
fn test_format_untrash_range_no_ext() {
    assert_eq!(format_untrash_range("/tmp/Makefile", 1, 2), "Makefile-untrash_{1..2}");
    assert_eq!(format_untrash_range("/tmp/Makefile", 4, 4), "Makefile-untrash_4");
}

#[test]
fn test_find_untrash_range_no_conflicts() {
    let existing: Vec<String> = Vec::new();
    assert_eq!(find_untrash_range("foo.txt", &existing, 3), 1);
}

#[test]
fn test_find_untrash_range_any_count_when_free() {
    let existing: Vec<String> = Vec::new();
    assert_eq!(find_untrash_range("/tmp/foo.txt", &existing, 1), 1);
    assert_eq!(find_untrash_range("/tmp/foo.txt", &existing, 5), 1);
    assert_eq!(find_untrash_range("/tmp/Makefile", &existing, 2), 1);
}

#[test]
fn test_find_untrash_range_with_conflicts() {
    let existing = vec![
        String::from("foo-untrash_1.txt"),
        String::from("foo-untrash_2.txt"),
    ];
    assert_eq!(find_untrash_range("foo.txt", &existing, 3), 3);
}

#[test]
fn test_find_untrash_range_gap() {
    let existing = vec![
        String::from("foo-untrash_1.txt"),
        String::from("foo-untrash_3.txt"),
    ];
    // A single name fits in the gap; a block of two must go past it.
    assert_eq!(find_untrash_range("foo.txt", &existing, 1), 2);
    assert_eq!(find_untrash_range("foo.txt", &existing, 2), 4);
}

#[test]
fn test_find_untrash_range_restarts_whole_block() {
    // Occupied at 2 only: a block of three cannot start at 1 or 2.
    let existing = vec![String::from("foo-untrash_2.txt")];
    assert_eq!(find_untrash_range("foo.txt", &existing, 3), 3);
}

#[test]
fn test_find_untrash_range_unrelated_names_ignored() {
    let existing = vec![
        String::from("bar-untrash_1.txt"),
        String::from("foo.txt"),
    ];
    assert_eq!(find_untrash_range("foo.txt", &existing, 2), 1);
}
