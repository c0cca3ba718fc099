//! The naming scheme: collision-free "untrash" destination names for
//! restored items, and human-readable range descriptors for "restore as"
//! messages.
//!
//! A name is derived from a path by inserting `-untrash_<n>` immediately
//! before the last extension of the basename: the extension is whatever
//! follows the final `.` of the basename, and a dotfile with no further dot
//! has no extension.

use vstd::prelude::*;

use crate::chars::{append_dec, dec_str, to_chars};

verus! {

/// The index of the last occurrence of `c`, or `-1` when absent.
pub open spec fn last_index(s: Seq<char>, c: char) -> int
    decreases s.len(),
{
    if s.len() == 0 {
        -1
    } else if s[s.len() - 1] == c {
        s.len() - 1
    } else {
        last_index(s.drop_last(), c)
    }
}

/// Where the basename of a path starts: just past the last separator.
pub open spec fn base_start(p: Seq<char>) -> int {
    last_index(p, '/') + 1
}

/// The index of the dot that starts the basename's extension, or `-1` when
/// the basename has none (no dot, or only a leading dot).
pub open spec fn ext_dot(p: Seq<char>) -> int {
    let bs = base_start(p);
    let d = last_index(p.skip(bs), '.');
    if d > 0 {
        bs + d
    } else {
        -1
    }
}

/// Everything before the inserted counter: the path up to the extension dot
/// (or the whole path), then the marker.
pub open spec fn untrash_prefix(p: Seq<char>) -> Seq<char> {
    (if ext_dot(p) >= 0 {
        p.take(ext_dot(p))
    } else {
        p
    }) + "-untrash_"@
}

/// Everything after the inserted counter: the extension dot and extension,
/// or nothing.
pub open spec fn untrash_suffix(p: Seq<char>) -> Seq<char> {
    if ext_dot(p) >= 0 {
        p.skip(ext_dot(p))
    } else {
        Seq::empty()
    }
}

/// The untrash name for a path and a counter.
pub open spec fn untrash_name_spec(p: Seq<char>, n: nat) -> Seq<char> {
    untrash_prefix(p) + dec_str(n) + untrash_suffix(p)
}

/// `last_index` lands inside the sequence, or at `-1`.
pub proof fn lemma_last_index_bounds(s: Seq<char>, c: char)
    ensures
        -1 <= last_index(s, c) < s.len(),
    decreases s.len(),
{
    if s.len() > 0 && s[s.len() - 1] != c {
        lemma_last_index_bounds(s.drop_last(), c);
    }
}

/// `ext_dot` is `-1` or a position inside the path, past the basename start.
pub proof fn lemma_ext_dot_bounds(p: Seq<char>)
    ensures
        0 <= base_start(p) <= p.len(),
        ext_dot(p) == -1 || base_start(p) < ext_dot(p) < p.len(),
{
    lemma_last_index_bounds(p, '/');
    lemma_last_index_bounds(p.skip(base_start(p)), '.');
}

proof fn lemma_last_index_is(s: Seq<char>, c: char, i: int)
    requires
        -1 <= i < s.len(),
        forall|j: int| i < j < s.len() ==> s[j] != c,
        i == -1 || s[i] == c,
    ensures
        last_index(s, c) == i,
    decreases s.len(),
{
    if s.len() == 0 {
    } else if s[s.len() - 1] == c {
        assert(i == s.len() - 1);
    } else {
        lemma_last_index_is(s.drop_last(), c, i);
    }
}

/// Finds `base_start` and `ext_dot` for a path given as characters.
fn scan_name(chars: &Vec<char>) -> (r: (usize, Option<usize>))
    ensures
        base_start(chars@) == r.0 as int,
        r.0 <= chars@.len(),
        match r.1 {
            Some(dd) => ext_dot(chars@) == dd as int && r.0 < dd < chars@.len(),
            None => ext_dot(chars@) == -1,
        },
{
    let n = chars.len();
    let mut bs = n;
    while bs > 0 && chars[bs - 1] != '/'
        invariant
            bs <= n == chars@.len(),
            forall|j: int| bs <= j < n ==> chars@[j] != '/',
        decreases bs,
    {
        bs = bs - 1;
    }
    proof {
        lemma_last_index_is(chars@, '/', bs - 1);
    }
    // Last dot strictly inside the basename.
    let mut d = n;
    while d > bs && chars[d - 1] != '.'
        invariant
            bs <= d <= n == chars@.len(),
            forall|j: int| d <= j < n ==> chars@[j] != '.',
        decreases d,
    {
        d = d - 1;
    }
    proof {
        let base = chars@.skip(bs as int);
        if d > bs {
            assert(chars@[d - 1] == '.');
            assert(base[d - 1 - bs] == '.');
            assert(forall|j: int| d - bs <= j < base.len() ==> base[j] != '.');
            lemma_last_index_is(base, '.', d - 1 - bs);
        } else {
            assert(forall|j: int| 0 <= j < base.len() ==> base[j] != '.');
            lemma_last_index_is(base, '.', -1);
        }
    }
    if d > bs {
        let dd = d - 1;
        if dd > bs {
            (bs, Some(dd))
        } else {
            (bs, None)
        }
    } else {
        (bs, None)
    }
}

/// The untrash name for `path` and counter `n`: `-untrash_<n>` is inserted
/// immediately before the basename's last extension, or appended when the
/// basename has none.
pub fn untrash_name(path: &str, n: usize) -> (r: String)
    ensures
        r@ == untrash_name_spec(path@, n as nat),
{
    let chars = to_chars(path);
    let len = chars.len();
    let (_, dot) = scan_name(&chars);
    let mut out: String = match dot {
        Some(dd) => String::from_str(path.substring_char(0, dd)),
        None => String::from_str(path),
    };
    out.append("-untrash_");
    append_dec(&mut out, n);
    match dot {
        Some(dd) => {
            out.append(path.substring_char(dd, len));
        },
        None => {},
    }
    proof {
        assert(out@ =~= untrash_name_spec(path@, n as nat));
    }
    out
}

/// The descriptor for a block of untrash names: the single name's basename
/// when `start == end`, else a brace form such as `stem-untrash_{2..4}.ext`.
pub open spec fn format_untrash_range_spec(p: Seq<char>, start: nat, end: nat) -> Seq<char> {
    let bs = base_start(p);
    let stem = if ext_dot(p) >= 0 {
        p.subrange(bs, ext_dot(p))
    } else {
        p.skip(bs)
    };
    let ext = if ext_dot(p) >= 0 {
        p.skip(ext_dot(p))
    } else {
        Seq::empty()
    };
    let mid = if start == end {
        "-untrash_"@ + dec_str(start)
    } else {
        "-untrash_{"@ + dec_str(start) + ".."@ + dec_str(end) + "}"@
    };
    stem + mid + ext
}

/// A human-readable destination descriptor for the untrash names
/// `start..=end` of a path, built from the basename alone.
pub fn format_untrash_range(path: &str, start: usize, end: usize) -> (r: String)
    ensures
        r@ == format_untrash_range_spec(path@, start as nat, end as nat),
{
    let chars = to_chars(path);
    let len = chars.len();
    let (bs, dot) = scan_name(&chars);
    let stem_end = match dot {
        Some(dd) => dd,
        None => len,
    };
    let mut out = String::from_str(path.substring_char(bs, stem_end));
    if start == end {
        out.append("-untrash_");
        append_dec(&mut out, start);
    } else {
        out.append("-untrash_{");
        append_dec(&mut out, start);
        out.append("..");
        append_dec(&mut out, end);
        out.append("}");
    }
    match dot {
        Some(dd) => {
            out.append(path.substring_char(dd, len));
        },
        None => {},
    }
    proof {
        assert(out@ =~= format_untrash_range_spec(path@, start as nat, end as nat));
    }
    out
}

/// Law: for a path whose basename has an extension, every untrash name ends
/// in that same dot and extension.
pub proof fn lemma_untrash_name_keeps_extension(p: Seq<char>, n: nat)
    requires
        ext_dot(p) >= 0,
    ensures
        untrash_name_spec(p, n).len() > p.len() - ext_dot(p),
        untrash_name_spec(p, n).skip(
            untrash_name_spec(p, n).len() - (p.len() - ext_dot(p)),
        ) == p.skip(ext_dot(p)),
{
    let r = untrash_name_spec(p, n);
    let sfx = p.skip(ext_dot(p));
    lemma_ext_dot_bounds(p);
    crate::chars::lemma_dec_str_len(n);
    assert(sfx.len() == p.len() - ext_dot(p));
    assert(r.len() > sfx.len());
    assert(r.skip(r.len() - sfx.len()) =~= sfx);
}

/// Law: for a path whose basename has no extension (no dot, or a dotfile
/// with no later dot), the counter is appended to the whole path and no
/// dot-segment follows it.
pub proof fn lemma_untrash_name_no_extension(p: Seq<char>, n: nat)
    requires
        ext_dot(p) < 0,
    ensures
        untrash_name_spec(p, n) == p + "-untrash_"@ + dec_str(n),
{
    assert(untrash_name_spec(p, n) =~= p + "-untrash_"@ + dec_str(n));
}

proof fn lemma_digit_char_val(d: nat)
    requires
        d < 10,
    ensures
        crate::selection::digit_val(crate::chars::digit_char(d)) == d,
{
}

/// Reading the decimal representation back gives the number.
proof fn lemma_dec_str_val(n: nat)
    ensures
        crate::selection::digits_val(dec_str(n)) == n,
    decreases n,
{
    if n < 10 {
        lemma_digit_char_val(n);
        let s = dec_str(n);
        assert(s == seq![crate::chars::digit_char(n)]);
        assert(s.drop_last() =~= Seq::<char>::empty());
        assert(crate::selection::digits_val(Seq::<char>::empty()) == 0);
        assert(s[s.len() - 1] == crate::chars::digit_char(n));
        assert(crate::selection::digits_val(s) == 0 * 10 + crate::selection::digit_val(
            crate::chars::digit_char(n),
        ));
    } else {
        lemma_dec_str_val(n / 10);
        lemma_digit_char_val(n % 10);
        let s = dec_str(n);
        assert(s.drop_last() =~= dec_str(n / 10));
        assert(s[s.len() - 1] == crate::chars::digit_char(n % 10));
        assert(crate::selection::digits_val(s) == crate::selection::digits_val(s.drop_last()) * 10
            + crate::selection::digit_val(s[s.len() - 1]));
        assert(crate::selection::digits_val(s) == (n / 10) * 10 + n % 10);
    }
}

/// Distinct counters give distinct untrash names for the same path.
pub proof fn lemma_untrash_name_injective(p: Seq<char>, a: nat, b: nat)
    requires
        untrash_name_spec(p, a) == untrash_name_spec(p, b),
    ensures
        a == b,
{
    let pre = untrash_prefix(p);
    let sfx = untrash_suffix(p);
    let ra = untrash_name_spec(p, a);
    let rb = untrash_name_spec(p, b);
    assert(ra.len() == pre.len() + dec_str(a).len() + sfx.len());
    assert(rb.len() == pre.len() + dec_str(b).len() + sfx.len());
    assert(dec_str(a).len() == dec_str(b).len());
    assert forall|idx: int| 0 <= idx < dec_str(a).len() implies dec_str(a)[idx] == dec_str(
        b,
    )[idx] by {
        assert(ra[pre.len() + idx] == dec_str(a)[idx]);
        assert(rb[pre.len() + idx] == dec_str(b)[idx]);
    }
    assert(dec_str(a) =~= dec_str(b));
    lemma_dec_str_val(a);
    lemma_dec_str_val(b);
}

/// Whether the untrash name numbered `i` for `p` is already present among
/// the existing paths.
pub open spec fn occupied(p: Seq<char>, existing: Seq<String>, i: usize) -> bool {
    exists|k: int| 0 <= k < existing.len() && existing[k]@ == untrash_name_spec(p, i as nat)
}

/// Whether some untrash name of the block `s..s+count` is already present.
pub open spec fn block_occupied(p: Seq<char>, existing: Seq<String>, s: usize, count: usize) -> bool {
    exists|j: usize| s <= j < s + count && occupied(p, existing, j)
}

/// Whether `untrash_name(path, i)` is one of the existing paths.
fn is_occupied(path: &str, existing: &Vec<String>, i: usize) -> (r: bool)
    ensures
        r == occupied(path@, existing@, i),
{
    let name = untrash_name(path, i);
    let mut k: usize = 0;
    while k < existing.len()
        invariant
            k <= existing@.len(),
            name@ == untrash_name_spec(path@, i as nat),
            forall|m: int| 0 <= m < k ==> existing@[m]@ != untrash_name_spec(path@, i as nat),
        decreases existing@.len() - k,
    {
        if existing[k].eq(&name) {
            return true;
        }
        k = k + 1;
    }
    false
}

/// The first occupied counter in `[lo, hi)`, if any.
fn first_occupied(path: &str, existing: &Vec<String>, lo: usize, hi: usize) -> (r: Option<usize>)
    requires
        lo <= hi,
    ensures
        match r {
            Some(i) => lo <= i < hi && occupied(path@, existing@, i) && forall|j: usize|
                lo <= j < i ==> !occupied(path@, existing@, j),
            None => forall|j: usize| lo <= j < hi ==> !occupied(path@, existing@, j),
        },
{
    let mut i = lo;
    while i < hi
        invariant
            lo <= i <= hi,
            forall|j: usize| lo <= j < i ==> !occupied(path@, existing@, j),
        decreases hi - i,
    {
        if is_occupied(path, existing, i) {
            return Some(i);
        }
        i = i + 1;
    }
    None
}

/// A duplicate-free sequence of indices below `n` has at most `n` entries.
proof fn lemma_used_len_bound(used: Seq<int>, n: int)
    requires
        0 <= n,
        used.no_duplicates(),
        forall|m: int| 0 <= m < used.len() ==> 0 <= #[trigger] used[m] < n,
    ensures
        used.len() <= n,
{
    used.unique_seq_to_set();
    let su = used.to_set();
    let rng = vstd::set_lib::set_int_range(0, n);
    assert forall|e: int| su.contains(e) implies rng.contains(e) by {
        assert(used.contains(e));
        let m = choose|m: int| 0 <= m < used.len() && used[m] == e;
        assert(0 <= used[m] < n);
    }
    assert(su.subset_of(rng));
    vstd::set_lib::lemma_int_range(0, n);
    vstd::set_lib::lemma_len_subset(su, rng);
}

/// The smallest starting counter `r >= 1` such that the whole block of
/// untrash names `r..r+count` is absent from `existing`: the scan restarts
/// the block just past each occupied counter it meets, so the block found is
/// both free and the least such block.
///
/// With nothing occupied at all the result is 1, whatever `count` is.
pub fn find_untrash_range(path: &str, existing: &Vec<String>, count: usize) -> (r: usize)
    requires
        (existing@.len() + 1) * (count as int) + 1 <= usize::MAX as int,
    ensures
        1 <= r,
        r as int + count as int <= usize::MAX as int,
        forall|j: usize| r <= j < r + count ==> !occupied(path@, existing@, j),
        forall|s: usize| 1 <= s < r ==> #[trigger] block_occupied(path@, existing@, s, count),
        (forall|j: usize| !occupied(path@, existing@, j)) ==> r == 1,
{
    let ghost p = path@;
    let ghost ex = existing@;
    let ghost mut used: Seq<int> = Seq::empty();
    let mut start: usize = 1;
    loop
        invariant_except_break
            1 <= start,
            ex == existing@,
            p == path@,
            (ex.len() + 1) * (count as int) + 1 <= usize::MAX as int,
            used.no_duplicates(),
            forall|m: int| 0 <= m < used.len() ==> 0 <= #[trigger] used[m] < ex.len(),
            forall|m: int|
                0 <= m < used.len() ==> exists|j: usize|
                    j < start && ex[#[trigger] used[m]]@ == untrash_name_spec(p, j as nat),
            start as int <= 1 + used.len() * (count as int),
            forall|s: usize| 1 <= s < start ==> #[trigger] block_occupied(p, ex, s, count),
        ensures
            1 <= start,
            start as int + count as int <= usize::MAX as int,
            forall|j: usize| start <= j < start + count ==> !occupied(p, ex, j),
            forall|s: usize| 1 <= s < start ==> #[trigger] block_occupied(p, ex, s, count),
        decreases ex.len() - used.len(),
    {
        proof {
            lemma_used_len_bound(used, ex.len() as int);
            assert(start as int + count as int <= usize::MAX as int) by (nonlinear_arith)
                requires
                    start as int <= 1 + used.len() * (count as int),
                    used.len() <= ex.len(),
                    (ex.len() + 1) * (count as int) + 1 <= usize::MAX as int,
            ;
        }
        match first_occupied(path, existing, start, start + count) {
            None => {
                break ;
            },
            Some(i) => {
                proof {
                    assert(occupied(p, ex, i));
                    let k = choose|k: int|
                        0 <= k < ex.len() && ex[k]@ == untrash_name_spec(p, i as nat);
                    if used.contains(k) {
                        let m = choose|m: int| 0 <= m < used.len() && used[m] == k;
                        let j = choose|j: usize|
                            j < start && ex[used[m]]@ == untrash_name_spec(p, j as nat);
                        lemma_untrash_name_injective(p, j as nat, i as nat);
                        assert(false);
                    }
                    let used2 = used.push(k);
                    assert forall|a: int, b: int|
                        0 <= a < b < used2.len() implies used2[a] != used2[b] by {
                        if b < used.len() {
                            assert(used[a] != used[b]);
                        } else {
                            assert(used2[b] == k);
                            assert(used2[a] == used[a]);
                            if used[a] == k {
                                assert(used.contains(k));
                            }
                        }
                    }
                    assert(used2.no_duplicates());
                    used = used2;
                    lemma_used_len_bound(used, ex.len() as int);
                    assert forall|s: usize| 1 <= s < i + 1 implies #[trigger] block_occupied(
                        p,
                        ex,
                        s,
                        count,
                    ) by {
                        if s >= start {
                            assert(s <= i < s + count);
                            assert(occupied(p, ex, i));
                        }
                    }
                    assert((i + 1) as int <= 1 + used.len() * (count as int)) by (nonlinear_arith)
                        requires
                            i < start + count,
                            start as int <= 1 + (used.len() - 1) * (count as int),
                            used.len() >= 1,
                            count >= 1,
                    ;
                }
                start = i + 1;
            },
        }
    }
    proof {
        if start > 1 && (forall|j: usize| !occupied(p, ex, j)) {
            let s1: usize = 1;
            assert(block_occupied(p, ex, s1, count));
            let j = choose|j: usize| s1 <= j < s1 + count && occupied(p, ex, j);
            assert(false);
        }
    }
    start
}

} // verus!
