//! Display strings: report lines for listing, restoring and purging, the
//! prompt menus, and the timestamp text shown beside disambiguated entries.
//! When several trashed entries share one original path, each report line
//! carries an `(i/total, timestamp)` suffix, oldest-numbering fixed by the
//! caller's ordering.

use vstd::prelude::*;

use crate::chars::{append_dec, dec_str};
use crate::resolver::TwinInfo;
use crate::store::TrashEntry;

verus! {

/// Relies on chrono: `DateTime::from_timestamp(t, 0)`, rendered in the
/// machine's local time zone as `%Y-%m-%d %H:%M`. The text depends on that
/// time zone, so nothing is claimed about it; `None` comes of a timestamp
/// chrono cannot represent.
#[verifier::external_body]
fn chrono_local_stamp(t: i64) -> (r: Option<String>) {
    chrono::DateTime::from_timestamp(t, 0).map(
        |u| u.with_timezone(&chrono::Local).format("%Y-%m-%d %H:%M").to_string(),
    )
}

/// The display text of a deletion timestamp; a placeholder stands in for
/// one out of chrono's range.
pub fn format_timestamp(t: i64) -> (r: String) {
    match chrono_local_stamp(t) {
        Option::Some(s) => s,
        Option::None => String::from_str("????-??-?? ??:??"),
    }
}

/// The display timestamps of all entries, in order.
pub fn entry_times(entries: &Vec<TrashEntry>) -> (r: Vec<String>)
    ensures
        r@.len() == entries@.len(),
{
    let mut r: Vec<String> = Vec::new();
    let mut i: usize = 0;
    while i < entries.len()
        invariant
            i <= entries@.len(),
            r@.len() == i,
        decreases entries@.len() - i,
    {
        r.push(format_timestamp(entries[i].deleted_at));
        i = i + 1;
    }
    r
}

/// One listing line: `time name path`.
pub fn list_line(time: &str, name: &str, path: &str) -> (r: String)
    ensures
        r@ == time@ + " "@ + name@ + " "@ + path@,
{
    let mut s = String::from_str(time);
    s.append(" ");
    s.append(name);
    s.append(" ");
    s.append(path);
    proof {
        assert(s@ =~= time@ + " "@ + name@ + " "@ + path@);
    }
    s
}

/// The report when a pattern matches nothing in the trash.
pub fn no_match_line(pattern: &str) -> (r: String)
    ensures
        r@ == "No items matching '"@ + pattern@ + "' found in trash."@,
{
    let mut s = String::from_str("No items matching '");
    s.append(pattern);
    s.append("' found in trash.");
    proof {
        assert(s@ =~= "No items matching '"@ + pattern@ + "' found in trash."@);
    }
    s
}

/// `Permanently deleted {count} item(s).`
pub fn deleted_count_line(count: usize) -> (r: String)
    ensures
        r@ == "Permanently deleted "@ + dec_str(count as nat) + " item(s)."@,
{
    let mut s = String::from_str("Permanently deleted ");
    append_dec(&mut s, count);
    s.append(" item(s).");
    proof {
        assert(s@ =~= "Permanently deleted "@ + dec_str(count as nat) + " item(s)."@);
    }
    s
}

/// The lines of the twin prompt's menu, ending in the choice prompt.
pub open spec fn twin_menu_lines_spec(
    path: Seq<char>,
    count: nat,
    range_desc: Seq<char>,
    once: bool,
) -> Seq<Seq<char>> {
    let head = seq![
        Seq::<char>::empty(),
        "The following path was trashed "@ + dec_str(count) + " times:"@,
        "  "@ + path,
        "(a) All: restore as "@ + range_desc,
        "(s) Some: select versions to restore"@,
        "(l) List: show details"@,
        "(n) None: skip"@,
        "(q) Quit"@,
    ];
    let tail = if once {
        seq!["(this choice will apply to all future twin conflicts)"@, "Choice:"@]
    } else {
        seq!["Choice:"@]
    };
    head + tail
}

/// Builds the twin prompt's menu.
pub fn twin_menu_lines(path: &str, count: usize, range_desc: &str, once: bool) -> (r: Vec<String>)
    ensures
        r@.len() == twin_menu_lines_spec(path@, count as nat, range_desc@, once).len(),
        forall|i: int|
            0 <= i < r@.len() ==> #[trigger] r@[i]@ == twin_menu_lines_spec(
                path@,
                count as nat,
                range_desc@,
                once,
            )[i],
{
    let mut r: Vec<String> = Vec::new();
    r.push(String::new());
    let mut l1 = String::from_str("The following path was trashed ");
    append_dec(&mut l1, count);
    l1.append(" times:");
    r.push(l1);
    let mut l2 = String::from_str("  ");
    l2.append(path);
    r.push(l2);
    let mut l3 = String::from_str("(a) All: restore as ");
    l3.append(range_desc);
    r.push(l3);
    r.push(String::from_str("(s) Some: select versions to restore"));
    r.push(String::from_str("(l) List: show details"));
    r.push(String::from_str("(n) None: skip"));
    r.push(String::from_str("(q) Quit"));
    if once {
        r.push(String::from_str("(this choice will apply to all future twin conflicts)"));
    }
    r.push(String::from_str("Choice:"));
    proof {
        let m = twin_menu_lines_spec(path@, count as nat, range_desc@, once);
        assert(r@[0]@ =~= m[0]);
        assert(r@[1]@ =~= m[1]);
        assert(r@[2]@ =~= m[2]);
        assert(r@[3]@ =~= m[3]);
        assert(r@[4]@ =~= m[4]);
        assert(r@[5]@ =~= m[5]);
        assert(r@[6]@ =~= m[6]);
        assert(r@[7]@ =~= m[7]);
        assert(r@[8]@ =~= m[8]);
        if once {
            assert(r@[9]@ =~= m[9]);
        }
    }
    r
}

/// The lines of the collision prompt's menu, ending in the choice prompt.
pub open spec fn collision_menu_lines_spec(
    path: Seq<char>,
    keep_name: Seq<char>,
    once: bool,
) -> Seq<Seq<char>> {
    let head = seq![
        Seq::<char>::empty(),
        path + " already exists."@,
        "(o) Overwrite: replace existing file"@,
        "(k) Keep both: restore as "@ + keep_name,
        "(n) None: skip this file"@,
        "(q) Quit"@,
    ];
    let tail = if once {
        seq![
            "(this choice will apply to all future 'path already exists' conflicts)"@,
            "Choice:"@,
        ]
    } else {
        seq!["Choice:"@]
    };
    head + tail
}

/// Builds the collision prompt's menu.
pub fn collision_menu_lines(path: &str, keep_name: &str, once: bool) -> (r: Vec<String>)
    ensures
        r@.len() == collision_menu_lines_spec(path@, keep_name@, once).len(),
        forall|i: int|
            0 <= i < r@.len() ==> #[trigger] r@[i]@ == collision_menu_lines_spec(
                path@,
                keep_name@,
                once,
            )[i],
{
    let mut r: Vec<String> = Vec::new();
    r.push(String::new());
    let mut l1 = String::from_str(path);
    l1.append(" already exists.");
    r.push(l1);
    r.push(String::from_str("(o) Overwrite: replace existing file"));
    let mut l3 = String::from_str("(k) Keep both: restore as ");
    l3.append(keep_name);
    r.push(l3);
    r.push(String::from_str("(n) None: skip this file"));
    r.push(String::from_str("(q) Quit"));
    if once {
        r.push(
            String::from_str(
                "(this choice will apply to all future 'path already exists' conflicts)",
            ),
        );
    }
    r.push(String::from_str("Choice:"));
    proof {
        let m = collision_menu_lines_spec(path@, keep_name@, once);
        assert(r@[0]@ =~= m[0]);
        assert(r@[1]@ =~= m[1]);
        assert(r@[2]@ =~= m[2]);
        assert(r@[3]@ =~= m[3]);
        assert(r@[4]@ =~= m[4]);
        assert(r@[5]@ =~= m[5]);
        assert(r@[6]@ =~= m[6]);
        if once {
            assert(r@[7]@ =~= m[7]);
        }
    }
    r
}

/// One member line of the twin list: `  i: name (timestamp)`, 1-based.
pub open spec fn twin_list_line_spec(i: nat, name: Seq<char>, timestamp: Seq<char>) -> Seq<char> {
    "  "@ + dec_str(i) + ": "@ + name + " ("@ + timestamp + ")"@
}

/// The numbered member list shown by the twin prompt's list and select
/// commands.
pub fn twin_list_lines(infos: &Vec<TwinInfo>) -> (r: Vec<String>)
    ensures
        r@.len() == infos@.len(),
        forall|i: int|
            0 <= i < r@.len() ==> #[trigger] r@[i]@ == twin_list_line_spec(
                (i + 1) as nat,
                infos@[i].name@,
                infos@[i].timestamp@,
            ),
{
    let mut r: Vec<String> = Vec::new();
    let mut i: usize = 0;
    while i < infos.len()
        invariant
            i <= infos@.len(),
            r@.len() == i,
            forall|x: int|
                0 <= x < i ==> #[trigger] r@[x]@ == twin_list_line_spec(
                    (x + 1) as nat,
                    infos@[x].name@,
                    infos@[x].timestamp@,
                ),
        decreases infos@.len() - i,
    {
        let mut l = String::from_str("  ");
        append_dec(&mut l, i + 1);
        l.append(": ");
        l.append(infos[i].name.as_str());
        l.append(" (");
        l.append(infos[i].timestamp.as_str());
        l.append(")");
        proof {
            assert(l@ =~= twin_list_line_spec(
                (i + 1) as nat,
                infos@[i as int].name@,
                infos@[i as int].timestamp@,
            ));
        }
        r.push(l);
        i = i + 1;
    }
    r
}

/// How many of the listed positions hold an entry with this path.
pub open spec fn count_path(entries: Seq<TrashEntry>, idxs: Seq<usize>, path: Seq<char>) -> nat
    decreases idxs.len(),
{
    if idxs.len() == 0 {
        0
    } else {
        count_path(entries, idxs.drop_last(), path) + (if entries[idxs.last() as int].original_path@
            == path {
            1nat
        } else {
            0nat
        })
    }
}

/// One plain report line: `prefix: path`.
pub open spec fn plain_line(prefix: Seq<char>, path: Seq<char>) -> Seq<char> {
    prefix + ": "@ + path
}

/// One disambiguated report line: `prefix (i/total, time): path`.
pub open spec fn numbered_line(
    prefix: Seq<char>,
    i: nat,
    total: nat,
    time: Seq<char>,
    path: Seq<char>,
) -> Seq<char> {
    prefix + " ("@ + dec_str(i) + "/"@ + dec_str(total) + ", "@ + time + "): "@ + path
}

pub fn build_plain_line(prefix: &str, path: &str) -> (r: String)
    ensures
        r@ == plain_line(prefix@, path@),
{
    let mut s = String::from_str(prefix);
    s.append(": ");
    s.append(path);
    proof {
        assert(s@ =~= plain_line(prefix@, path@));
    }
    s
}

fn build_numbered_line(prefix: &str, i: usize, total: usize, time: &str, path: &str) -> (r: String)
    ensures
        r@ == numbered_line(prefix@, i as nat, total as nat, time@, path@),
{
    let mut s = String::from_str(prefix);
    s.append(" (");
    append_dec(&mut s, i);
    s.append("/");
    append_dec(&mut s, total);
    s.append(", ");
    s.append(time);
    s.append("): ");
    s.append(path);
    proof {
        assert(s@ =~= numbered_line(prefix@, i as nat, total as nat, time@, path@));
    }
    s
}

/// The report lines for the listed positions: `prefix: path` when the path
/// occurs once among them, else `prefix (i/total, time): path` numbering
/// the occurrences in listed order.
pub fn report_lines(
    entries: &Vec<TrashEntry>,
    idxs: &Vec<usize>,
    times: &Vec<String>,
    prefix: &str,
) -> (r: Vec<String>)
    requires
        forall|a: int| 0 <= a < idxs@.len() ==> #[trigger] idxs@[a] < entries@.len(),
        times@.len() == entries@.len(),
    ensures
        r@.len() == idxs@.len(),
        forall|a: int|
            0 <= a < idxs@.len() ==> #[trigger] r@[a]@ == ({
                let e = entries@[idxs@[a] as int];
                let total = count_path(entries@, idxs@, e.original_path@);
                if total > 1 {
                    numbered_line(
                        prefix@,
                        count_path(entries@, idxs@.take(a + 1), e.original_path@),
                        total,
                        times@[idxs@[a] as int]@,
                        e.original_path@,
                    )
                } else {
                    plain_line(prefix@, e.original_path@)
                }
            }),
{
    let n = idxs.len();
    let mut r: Vec<String> = Vec::new();
    let mut a: usize = 0;
    while a < n
        invariant
            a <= n == idxs@.len(),
            forall|x: int| 0 <= x < idxs@.len() ==> #[trigger] idxs@[x] < entries@.len(),
            times@.len() == entries@.len(),
            r@.len() == a,
            forall|x: int|
                0 <= x < a ==> #[trigger] r@[x]@ == ({
                    let e = entries@[idxs@[x] as int];
                    let total = count_path(entries@, idxs@, e.original_path@);
                    if total > 1 {
                        numbered_line(
                            prefix@,
                            count_path(entries@, idxs@.take(x + 1), e.original_path@),
                            total,
                            times@[idxs@[x] as int]@,
                            e.original_path@,
                        )
                    } else {
                        plain_line(prefix@, e.original_path@)
                    }
                }),
        decreases n - a,
    {
        let k = idxs[a];
        let path = &entries[k].original_path;
        // Count occurrences of this path overall and up to this position.
        let mut total: usize = 0;
        let mut upto: usize = 0;
        let mut x: usize = 0;
        while x < n
            invariant
                x <= n == idxs@.len(),
                a < n,
                k == idxs@[a as int],
                k < entries@.len(),
                forall|y: int| 0 <= y < idxs@.len() ==> #[trigger] idxs@[y] < entries@.len(),
                path@ == entries@[k as int].original_path@,
                total == count_path(entries@, idxs@.take(x as int), path@),
                upto == count_path(entries@, idxs@.take(if x <= a + 1 {
                    x as int
                } else {
                    a + 1
                }), path@),
                total <= x,
            decreases n - x,
        {
            proof {
                assert(idxs@.take(x + 1).drop_last() =~= idxs@.take(x as int));
                assert(idxs@.take(x + 1).last() == idxs@[x as int]);
            }
            if entries[idxs[x]].original_path.eq(path) {
                total = total + 1;
                if x <= a {
                    upto = upto + 1;
                }
            }
            x = x + 1;
        }
        proof {
            assert(idxs@.take(n as int) =~= idxs@);
        }
        let line = if total > 1 {
            build_numbered_line(prefix, upto, total, times[k].as_str(), path.as_str())
        } else {
            build_plain_line(prefix, path.as_str())
        };
        r.push(line);
        a = a + 1;
    }
    r
}

} // verus!
