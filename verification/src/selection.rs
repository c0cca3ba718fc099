//! The numeric range-selection parser shared by the twin and collision
//! prompts: comma-separated tokens, each a single index or an inclusive
//! range `a-b`, every index within `1..=max`; the result is sorted and
//! deduplicated.

use vstd::prelude::*;

use crate::chars::{dec_str, to_chars};

verus! {

/// Whitespace ignored around tokens and around the hyphen of a range.
pub open spec fn is_space(c: char) -> bool {
    c == ' ' || c == '\t' || c == '\n' || c == '\r'
}

/// A decimal digit.
pub open spec fn is_digit(c: char) -> bool {
    '0' <= c && c <= '9'
}

/// The value of a digit character.
pub open spec fn digit_val(c: char) -> nat
    recommends
        is_digit(c),
{
    (c as nat - '0' as nat) as nat
}

/// Leading whitespace removed.
pub open spec fn trim_front(s: Seq<char>) -> Seq<char>
    decreases s.len(),
{
    if s.len() > 0 && is_space(s[0]) {
        trim_front(s.drop_first())
    } else {
        s
    }
}

/// Trailing whitespace removed.
pub open spec fn trim_back(s: Seq<char>) -> Seq<char>
    decreases s.len(),
{
    if s.len() > 0 && is_space(s[s.len() - 1]) {
        trim_back(s.drop_last())
    } else {
        s
    }
}

/// Leading and trailing whitespace removed.
pub open spec fn trim(s: Seq<char>) -> Seq<char> {
    trim_back(trim_front(s))
}

/// The position of the first occurrence of `c`, or the length if absent.
pub open spec fn first_index(s: Seq<char>, c: char) -> int
    decreases s.len(),
{
    if s.len() == 0 {
        0
    } else if s[0] == c {
        0
    } else {
        1 + first_index(s.drop_first(), c)
    }
}

/// A nonempty run of digits.
pub open spec fn all_digits(s: Seq<char>) -> bool {
    s.len() > 0 && forall|i: int| 0 <= i < s.len() ==> is_digit(s[i])
}

/// A number token as the standard library parses unsigned integers: an
/// optional leading plus sign followed by at least one digit.
pub open spec fn is_number(s: Seq<char>) -> bool {
    if s.len() > 0 && s[0] == '+' {
        all_digits(s.drop_first())
    } else {
        all_digits(s)
    }
}

/// The value of a digit run, most significant digit first.
pub open spec fn digits_val(s: Seq<char>) -> nat
    decreases s.len(),
{
    if s.len() == 0 {
        0
    } else {
        digits_val(s.drop_last()) * 10 + digit_val(s[s.len() - 1])
    }
}

/// The value of a number token (sign stripped).
pub open spec fn number_val(s: Seq<char>) -> nat {
    if s.len() > 0 && s[0] == '+' {
        digits_val(s.drop_first())
    } else {
        digits_val(s)
    }
}

/// A number token that parses as a `usize`.
pub open spec fn parses_usize(s: Seq<char>) -> bool {
    is_number(s) && number_val(s) <= usize::MAX
}

/// The consecutive indices `x..=y`.
pub open spec fn range_seq(x: usize, y: usize) -> Seq<usize>
    recommends
        x <= y,
{
    Seq::new((y - x + 1) as nat, |i: int| (x + i) as usize)
}

/// The indices one trimmed, nonempty token stands for, or `None` when it is
/// rejected: a range `a-b` (split at the first hyphen) demands two numbers
/// with `a <= b`, and every index, in a range or alone, must lie in
/// `1..=max`.
pub open spec fn token_values(u: Seq<char>, max: usize) -> Option<Seq<usize>>
    recommends
        u == trim(u),
        u.len() > 0,
{
    if first_index(u, '-') < u.len() {
        let d = first_index(u, '-');
        let a = trim(u.take(d));
        let b = trim(u.skip(d + 1));
        if parses_usize(a) && parses_usize(b) {
            let x = number_val(a) as usize;
            let y = number_val(b) as usize;
            if x <= y && 1 <= x && y <= max {
                Some(range_seq(x, y))
            } else {
                None
            }
        } else {
            None
        }
    } else {
        if parses_usize(u) {
            let n = number_val(u) as usize;
            if 1 <= n && n <= max {
                Some(seq![n])
            } else {
                None
            }
        } else {
            None
        }
    }
}

/// `first_index` always lands inside the sequence or just past its end.
pub proof fn lemma_first_index_bounds(s: Seq<char>, c: char)
    ensures
        0 <= first_index(s, c) <= s.len(),
    decreases s.len(),
{
    if s.len() > 0 && s[0] != c {
        lemma_first_index_bounds(s.drop_first(), c);
    }
}

/// The indices the whole input stands for, in input order with duplicates
/// kept, or `None` when any token is rejected. Works through the input one
/// comma-separated token at a time; blank tokens are skipped.
pub open spec fn selection_values(s: Seq<char>, max: usize) -> Option<Seq<usize>>
    decreases s.len(),
    via selection_values_decreases
{
    let i = first_index(s, ',');
    let t = trim(s.take(i));
    let head: Option<Seq<usize>> = if t.len() == 0 {
        Some(Seq::empty())
    } else {
        token_values(t, max)
    };
    if i == s.len() {
        head
    } else {
        match (head, selection_values(s.skip(i + 1), max)) {
            (Some(h), Some(r)) => Some(h + r),
            _ => None,
        }
    }
}

#[via_fn]
proof fn selection_values_decreases(s: Seq<char>, max: usize) {
    lemma_first_index_bounds(s, ',');
}

/// Every index a selection stands for lies in `1..=max`.
pub proof fn lemma_selection_values_in_range(s: Seq<char>, max: usize)
    ensures
        match selection_values(s, max) {
            Some(vals) => forall|n: usize| #[trigger] vals.contains(n) ==> 1 <= n <= max,
            None => true,
        },
    decreases s.len(),
{
    lemma_first_index_bounds(s, ',');
    let i = first_index(s, ',');
    let t = trim(s.take(i));
    if t.len() > 0 {
        match token_values(t, max) {
            Some(h) => {
                assert forall|n: usize| #[trigger] h.contains(n) implies 1 <= n <= max by {
                    let a = choose|a: int| 0 <= a < h.len() && h[a] == n;
                }
            },
            None => {},
        }
    }
    if i < s.len() {
        lemma_selection_values_in_range(s.skip(i + 1), max);
        match (
            if t.len() == 0 {
                Some(Seq::<usize>::empty())
            } else {
                token_values(t, max)
            },
            selection_values(s.skip(i + 1), max),
        ) {
            (Some(h), Some(rest)) => {
                assert forall|n: usize| #[trigger] (h + rest).contains(n) implies 1 <= n
                    <= max by {
                    let a = choose|a: int| 0 <= a < (h + rest).len() && (h + rest)[a] == n;
                    if a < h.len() {
                        assert(h.contains(n));
                    } else {
                        assert(rest[a - h.len()] == n);
                        assert(rest.contains(n));
                    }
                }
            },
            _ => {},
        }
    }
}

/// A sequence of strictly increasing indices.
pub open spec fn strictly_increasing(v: Seq<usize>) -> bool {
    forall|i: int, j: int| 0 <= i < j < v.len() ==> v[i] < v[j]
}

/// A strictly increasing sequence of indices drawn from `1..=max` has at
/// most `max` entries.
pub proof fn lemma_increasing_bounded_len(v: Seq<usize>, max: usize)
    requires
        strictly_increasing(v),
        forall|a: int| 0 <= a < v.len() ==> 1 <= #[trigger] v[a] <= max,
    ensures
        v.len() <= max,
    decreases v.len(),
{
    if v.len() > 0 {
        if max == 0 {
            assert(1 <= v[0] <= 0);
        } else {
            let w = v.drop_last();
            assert(forall|a: int| 0 <= a < w.len() ==> 1 <= #[trigger] w[a] <= max - 1) by {
                assert(forall|a: int| 0 <= a < w.len() ==> w[a] == v[a] && v[a] < v[v.len() - 1]);
            }
            lemma_increasing_bounded_len(w, (max - 1) as usize);
        }
    }
}

proof fn lemma_first_index_is(s: Seq<char>, c: char, i: int)
    requires
        0 <= i <= s.len(),
        forall|j: int| 0 <= j < i ==> s[j] != c,
        i == s.len() || s[i] == c,
    ensures
        first_index(s, c) == i,
    decreases s.len(),
{
    if s.len() == 0 {
    } else if s[0] == c {
    } else {
        lemma_first_index_is(s.drop_first(), c, i - 1);
    }
}

pub proof fn lemma_trim_front_is(s: Seq<char>, i: int)
    requires
        0 <= i <= s.len(),
        forall|j: int| 0 <= j < i ==> is_space(s[j]),
        i == s.len() || !is_space(s[i]),
    ensures
        trim_front(s) == s.skip(i),
    decreases s.len(),
{
    if s.len() > 0 && is_space(s[0]) {
        if i == 0 {
            assert(false);
        }
        lemma_trim_front_is(s.drop_first(), i - 1);
        assert(s.drop_first().skip(i - 1) =~= s.skip(i));
    } else {
        assert(i == 0);
        assert(s.skip(0) =~= s);
    }
}

proof fn lemma_trim_back_is(s: Seq<char>, i: int)
    requires
        0 <= i <= s.len(),
        forall|j: int| i <= j < s.len() ==> is_space(s[j]),
        i == 0 || !is_space(s[i - 1]),
    ensures
        trim_back(s) == s.take(i),
    decreases s.len(),
{
    if s.len() > 0 && is_space(s[s.len() - 1]) {
        if i == s.len() {
            assert(false);
        }
        lemma_trim_back_is(s.drop_last(), i);
        assert(s.drop_last() =~= s.take(s.len() - 1));
        assert(s.take(s.len() - 1).take(i) =~= s.take(i));
    } else {
        assert(i == s.len());
        assert(s.take(i as int) =~= s);
    }
}

/// `trim` of a subrange, characterized by the indices the executable code
/// finds when it narrows `[lo, hi)` to `[a, b)`.
pub proof fn lemma_trim_subrange(s: Seq<char>, lo: int, hi: int, a: int, b: int)
    requires
        0 <= lo <= a <= b <= hi <= s.len(),
        forall|j: int| lo <= j < a ==> is_space(s[j]),
        forall|j: int| b <= j < hi ==> is_space(s[j]),
        a == b || !is_space(s[a]),
        a == b || !is_space(s[b - 1]),
    ensures
        trim(s.subrange(lo, hi)) == s.subrange(a, b),
{
    let u = s.subrange(lo, hi);
    if a == b {
        lemma_trim_front_is(u, hi - lo);
        assert(u.skip(hi - lo) =~= Seq::<char>::empty());
        assert(s.subrange(a, b) =~= Seq::<char>::empty());
    } else {
        lemma_trim_front_is(u, a - lo);
        let w = u.skip(a - lo);
        assert(w =~= s.subrange(a, hi));
        lemma_trim_back_is(w, b - a);
        assert(w.take(b - a) =~= s.subrange(a, b));
    }
}

/// Parses a digit run `s[lo..hi]` as a `usize`, rejecting overflow.
fn parse_digits(s: &Vec<char>, lo: usize, hi: usize) -> (r: Option<usize>)
    requires
        lo <= hi <= s@.len(),
        all_digits(s@.subrange(lo as int, hi as int)),
    ensures
        r is Some <==> digits_val(s@.subrange(lo as int, hi as int)) <= usize::MAX,
        r is Some ==> r->Some_0 == digits_val(s@.subrange(lo as int, hi as int)),
{
    let mut val: usize = 0;
    let mut i: usize = lo;
    while i < hi
        invariant
            lo <= i <= hi <= s@.len(),
            all_digits(s@.subrange(lo as int, hi as int)),
            val == digits_val(s@.subrange(lo as int, i as int)),
        decreases hi - i,
    {
        let c = s[i];
        proof {
            assert(s@.subrange(lo as int, hi as int)[i - lo] == c);
            assert(is_digit(c));
            assert(s@.subrange(lo as int, i + 1).drop_last() =~= s@.subrange(lo as int, i as int));
            assert(s@.subrange(lo as int, i + 1)[i - lo] == c);
        }
        let d = (c as u32 - '0' as u32) as usize;
        if val > (usize::MAX - d) / 10 {
            proof {
                lemma_digits_val_monotone(s@.subrange(lo as int, hi as int), i + 1 - lo);
                assert(s@.subrange(lo as int, hi as int).take(i + 1 - lo) =~= s@.subrange(
                    lo as int,
                    i + 1,
                ));
                assert(digits_val(s@.subrange(lo as int, i + 1)) == val * 10 + d);
                assert(val * 10 + d > usize::MAX) by (nonlinear_arith)
                    requires
                        val > (usize::MAX - d) / 10,
                        d < 10,
                ;
            }
            return None;
        }
        proof {
            assert(val * 10 + d <= usize::MAX) by (nonlinear_arith)
                requires
                    val <= (usize::MAX - d) / 10,
                    d < 10,
            ;
        }
        val = val * 10 + d;
        i = i + 1;
    }
    proof {
        assert(s@.subrange(lo as int, hi as int) =~= s@.subrange(lo as int, i as int));
    }
    Some(val)
}

/// A digit run is worth at least any of its prefixes.
proof fn lemma_digits_val_monotone(s: Seq<char>, k: int)
    requires
        0 <= k <= s.len(),
    ensures
        digits_val(s.take(k)) <= digits_val(s),
    decreases s.len() - k,
{
    if k < s.len() {
        lemma_digits_val_monotone(s, k + 1)
;
        assert(s.take(k + 1).drop_last() =~= s.take(k));
        assert(digits_val(s.take(k)) * 10 >= digits_val(s.take(k))) by (nonlinear_arith);
    } else {
        assert(s.take(k) =~= s);
    }
}

/// Parses the trimmed token `s[lo..hi]` as a number, per `parses_usize` and
/// `number_val`: an optional plus sign, then digits, rejecting overflow.
fn parse_number(s: &Vec<char>, lo: usize, hi: usize) -> (r: Option<usize>)
    requires
        lo <= hi <= s@.len(),
    ensures
        r is Some <==> parses_usize(s@.subrange(lo as int, hi as int)),
        r is Some ==> r->Some_0 == number_val(s@.subrange(lo as int, hi as int)),
{
    let ghost u = s@.subrange(lo as int, hi as int);
    let mut start = lo;
    if lo < hi && s[lo] == '+' {
        start = lo + 1;
        proof {
            assert(u[0] == '+');
            assert(u.drop_first() =~= s@.subrange(start as int, hi as int));
        }
    } else {
        proof {
            assert(u =~= s@.subrange(start as int, hi as int));
            assert(lo < hi ==> u[0] == s@[lo as int]);
        }
    }
    proof {
        assert(is_number(u) == all_digits(s@.subrange(start as int, hi as int)));
        assert(number_val(u) == digits_val(s@.subrange(start as int, hi as int)));
    }
    let mut i = start;
    while i < hi
        invariant
            lo <= start <= i <= hi <= s@.len(),
            u == s@.subrange(lo as int, hi as int),
            is_number(u) == all_digits(s@.subrange(start as int, hi as int)),
            number_val(u) == digits_val(s@.subrange(start as int, hi as int)),
            forall|j: int| start <= j < i ==> is_digit(s@[j]),
        decreases hi - i,
    {
        let c = s[i];
        if !('0' <= c && c <= '9') {
            proof {
                let v = s@.subrange(start as int, hi as int);
                assert(v[i - start] == c);
                assert(!all_digits(v));
            }
            return None;
        }
        i = i + 1;
    }
    if start == hi {
        proof {
            let v = s@.subrange(start as int, hi as int);
            assert(v.len() == 0);
            assert(!all_digits(v));
            assert(!is_number(u));
        }
        return None;
    }
    proof {
        let v = s@.subrange(start as int, hi as int);
        assert(forall|j: int| 0 <= j < v.len() ==> is_digit(v[j]));
        assert(all_digits(v));
    }
    parse_digits(s, start, hi)
}

/// Whether a character is selection whitespace.
pub(crate) fn space_char(c: char) -> (r: bool)
    ensures
        r == is_space(c),
{
    c == ' ' || c == '\t' || c == '\n' || c == '\r'
}

/// The values of `v`, sorted ascending with duplicates removed.
#[verifier::rlimit(50)]
fn sorted_unique(v: &Vec<usize>) -> (r: Vec<usize>)
    ensures
        strictly_increasing(r@),
        forall|n: usize| r@.contains(n) <==> v@.contains(n),
{
    let mut r: Vec<usize> = Vec::new();
    let mut i: usize = 0;
    while i < v.len()
        invariant
            i <= v@.len(),
            strictly_increasing(r@),
            forall|n: usize| r@.contains(n) <==> v@.take(i as int).contains(n),
        decreases v@.len() - i,
    {
        let x = v[i];
        let mut p: usize = 0;
        while p < r.len() && r[p] < x
            invariant
                p <= r@.len(),
                forall|k: int| 0 <= k < p ==> r@[k] < x,
            decreases r@.len() - p,
        {
            p = p + 1;
        }
        let ghost r0 = r@;
        if p == r.len() || r[p] > x {
            r.insert(p, x);
            proof {
                let pi = p as int;
                assert(forall|k: int|
                    0 <= k < r@.len() ==> r@[k] == (if k < pi {
                        r0[k]
                    } else if k == pi {
                        x
                    } else {
                        r0[k - 1]
                    }));
                assert forall|a: int, b: int| 0 <= a < b < r@.len() implies r@[a] < r@[b] by {
                    if b < pi {
                        assert(r0[a] < r0[b]);
                    } else if b == pi {
                        assert(r0[a] < x);
                    } else if a < pi {
                        assert(r0[a] < x);
                        assert(r0[pi] > x);
                        if b - 1 > pi {
                            assert(r0[pi] < r0[b - 1]);
                        }
                    } else if a == pi {
                        assert(r0[pi] > x);
                        if b - 1 > pi {
                            assert(r0[pi] < r0[b - 1]);
                        }
                    } else {
                        assert(r0[a - 1] < r0[b - 1]);
                    }
                }
                assert(strictly_increasing(r@));
                assert forall|n: usize| r@.contains(n) <==> (r0.contains(n) || n == x) by {
                    if r0.contains(n) {
                        let k = choose|k: int| 0 <= k < r0.len() && r0[k] == n;
                        if k < pi {
                            assert(r@[k] == n);
                        } else {
                            assert(r@[k + 1] == n);
                        }
                    }
                    if n == x {
                        assert(r@[pi] == n);
                    }
                    if r@.contains(n) {
                        let k = choose|k: int| 0 <= k < r@.len() && r@[k] == n;
                        if k < pi {
                            assert(r0[k] == n);
                        } else if k > pi {
                            assert(r0[k - 1] == n);
                        }
                    }
                }
            }
        } else {
            proof {
                assert(r@[p as int] == x);
                assert(r@.contains(x));
                assert(forall|n: usize| r@.contains(n) <==> (r0.contains(n) || n == x));
            }
        }
        i = i + 1;
        proof {
            assert(v@.take(i as int) =~= v@.take(i - 1).push(x));
            assert forall|n: usize| v@.take(i as int).contains(n) <==> (v@.take(
                i - 1,
            ).contains(n) || n == x) by {
                if v@.take(i as int).contains(n) {
                    let k = choose|k: int| 0 <= k < i && #[trigger] v@.take(i as int)[k] == n;
                    if k < i - 1 {
                        assert(v@.take(i - 1)[k] == n);
                    } else {
                        assert(n == x);
                    }
                }
                if v@.take(i - 1).contains(n) {
                    let k = choose|k: int| 0 <= k < i - 1 && #[trigger] v@.take(i - 1)[k] == n;
                    assert(v@.take(i as int)[k] == n);
                }
                if n == x {
                    assert(v@.take(i as int)[i - 1] == n);
                }
            }
            assert forall|n: usize| r@.contains(n) <==> v@.take(i as int).contains(n) by {
                assert(r@.contains(n) <==> (r0.contains(n) || n == x));
                assert(r0.contains(n) <==> v@.take(i - 1).contains(n));
                assert(v@.take(i as int).contains(n) <==> (v@.take(i - 1).contains(n) || n == x));
            }
        }
    }
    proof {
        assert(v@.take(i as int) =~= v@);
    }
    r
}

/// Narrows `[lo, hi)` to the whitespace-trimmed sub-token `[a, b)`.
pub(crate) fn trim_range(s: &Vec<char>, lo: usize, hi: usize) -> (r: (usize, usize))
    requires
        lo <= hi <= s@.len(),
    ensures
        lo <= r.0 <= r.1 <= hi,
        trim(s@.subrange(lo as int, hi as int)) == s@.subrange(r.0 as int, r.1 as int),
{
    let mut a = lo;
    while a < hi && space_char(s[a])
        invariant
            lo <= a <= hi <= s@.len(),
            forall|j: int| lo <= j < a ==> is_space(s@[j]),
        decreases hi - a,
    {
        a = a + 1;
    }
    let mut b = hi;
    while b > a && space_char(s[b - 1])
        invariant
            a <= b <= hi <= s@.len(),
            forall|j: int| b <= j < hi ==> is_space(s@[j]),
        decreases b,
    {
        b = b - 1;
    }
    proof {
        lemma_trim_subrange(s@, lo as int, hi as int, a as int, b as int);
    }
    (a, b)
}

/// The position of the first `c` in `[lo, hi)`, or `hi` when absent.
fn find_char(s: &Vec<char>, lo: usize, hi: usize, c: char) -> (d: usize)
    requires
        lo <= hi <= s@.len(),
    ensures
        lo <= d <= hi,
        first_index(s@.subrange(lo as int, hi as int), c) == d - lo,
        d < hi ==> s@[d as int] == c,
{
    let mut d = lo;
    while d < hi && s[d] != c
        invariant
            lo <= d <= hi <= s@.len(),
            forall|j: int| lo <= j < d ==> s@[j] != c,
        decreases hi - d,
    {
        d = d + 1;
    }
    proof {
        let u = s@.subrange(lo as int, hi as int);
        assert(forall|j: int| 0 <= j < d - lo ==> u[j] != c);
        lemma_first_index_is(u, c, d - lo);
    }
    d
}

/// `invalid number: 'token'`, quoting the offending token.
fn err_invalid_number(input: &str, lo: usize, hi: usize) -> (r: String)
    requires
        lo <= hi <= input@.len(),
    ensures
        r@ == "invalid number: '"@ + input@.subrange(lo as int, hi as int) + "'"@,
{
    let mut m = String::from_str("invalid number: '");
    m.append(input.substring_char(lo, hi));
    m.append("'");
    proof {
        assert(m@ =~= "invalid number: '"@ + input@.subrange(lo as int, hi as int) + "'"@);
    }
    m
}

/// `invalid range: x-y`, for a range whose start exceeds its end.
fn err_invalid_range(x: usize, y: usize) -> (r: String)
    ensures
        r@ == "invalid range: "@ + dec_str(x as nat) + "-"@ + dec_str(y as nat),
{
    let mut m = String::from_str("invalid range: ");
    crate::chars::append_dec(&mut m, x);
    m.append("-");
    crate::chars::append_dec(&mut m, y);
    proof {
        assert(m@ =~= "invalid range: "@ + dec_str(x as nat) + "-"@ + dec_str(y as nat));
    }
    m
}

/// `selection i out of range (1-max)`.
fn err_out_of_range(i: usize, max: usize) -> (r: String)
    ensures
        r@ == "selection "@ + dec_str(i as nat) + " out of range (1-"@ + dec_str(max as nat)
            + ")"@,
{
    let mut m = String::from_str("selection ");
    crate::chars::append_dec(&mut m, i);
    m.append(" out of range (1-");
    crate::chars::append_dec(&mut m, max);
    m.append(")");
    proof {
        assert(m@ =~= "selection "@ + dec_str(i as nat) + " out of range (1-"@ + dec_str(
            max as nat,
        ) + ")"@);
    }
    m
}

/// How the values of the suffix of the input still to be scanned combine
/// with the values gathered so far.
spec fn suffix_rel(whole: Seq<char>, pos: int, acc: Seq<usize>, max: usize) -> bool {
    selection_values(whole, max) == (match selection_values(whole.skip(pos), max) {
        Some(rest) => Some(acc + rest),
        None => None::<Seq<usize>>,
    })
}

/// Parses a selection such as `1,3-5,7` against `max` items: comma-separated
/// single indices or inclusive ranges `a-b`, whitespace ignored, blank tokens
/// skipped, every index within `1..=max`.
///
/// Succeeds exactly when every token is well formed and in range; the result
/// is sorted ascending and deduplicated. The error text names the offending
/// token, range or index.
pub fn parse_selection(input: &str, max: usize) -> (r: Result<Vec<usize>, String>)
    ensures
        match r {
            Ok(v) => {
                &&& selection_values(input@, max) is Some
                &&& strictly_increasing(v@)
                &&& forall|n: usize|
                    v@.contains(n) <==> selection_values(input@, max)->Some_0.contains(n)
            },
            Err(_) => selection_values(input@, max) is None,
        },
{
    let s = to_chars(input);
    let n = s.len();
    let ghost whole = input@;
    let mut acc: Vec<usize> = Vec::new();
    let mut pos: usize = 0;
    proof {
        assert(whole.skip(0) =~= whole);
        if selection_values(whole, max) is Some {
            assert(Seq::<usize>::empty() + selection_values(whole, max)->Some_0 =~= selection_values(
                whole,
                max,
            )->Some_0);
        }
        assert(suffix_rel(whole, pos as int, acc@, max));
    }
    loop
        invariant_except_break
            pos <= n,
            n == s@.len(),
            s@ == whole,
            input@ == whole,
            suffix_rel(whole, pos as int, acc@, max),
        ensures
            selection_values(whole, max) == Some(acc@),
        decreases n - pos,
    {
        let ghost su = whole.skip(pos as int);
        let ghost acc_head = acc@;
        let end = find_char(&s, pos, n, ',');
        proof {
            assert(su.take(end - pos) =~= whole.subrange(pos as int, end as int));
            assert(first_index(su, ',') == end - pos) by {
                assert(whole.subrange(pos as int, n as int) =~= su);
            }
        }
        let (a, b) = trim_range(&s, pos, end);
        let ghost t = whole.subrange(a as int, b as int);
        proof {
            assert(trim(su.take(end - pos)) == t);
        }
        if a < b {
            // A nonempty token: a single number, or a range split at the
            // first hyphen.
            let d = find_char(&s, a, b, '-');
            proof {
                assert(first_index(t, '-') == d - a);
            }
            if d < b {
                let (a2, d2) = trim_range(&s, a, d);
                proof {
                    assert(t.take(d - a) =~= whole.subrange(a as int, d as int));
                    assert(trim(t.take(d - a)) == whole.subrange(a2 as int, d2 as int));
                }
                let (e2, f2) = trim_range(&s, d + 1, b);
                proof {
                    assert(t.skip(d - a + 1) =~= whole.subrange(d + 1, b as int));
                    assert(trim(t.skip(d - a + 1)) == whole.subrange(e2 as int, f2 as int));
                }
                let x = match parse_number(&s, a2, d2) {
                    Some(x) => x,
                    None => {
                        proof {
                            assert(token_values(t, max) is None);
                        }
                        return Err(err_invalid_number(input, a2, d2));
                    },
                };
                let y = match parse_number(&s, e2, f2) {
                    Some(y) => y,
                    None => {
                        proof {
                            assert(token_values(t, max) is None);
                        }
                        return Err(err_invalid_number(input, e2, f2));
                    },
                };
                if x > y {
                    proof {
                        assert(token_values(t, max) is None);
                    }
                    return Err(err_invalid_range(x, y));
                }
                if x < 1 {
                    proof {
                        assert(token_values(t, max) is None);
                    }
                    return Err(err_out_of_range(x, max));
                }
                if y > max {
                    let bad = if x > max {
                        x
                    } else {
                        max + 1
                    };
                    proof {
                        assert(token_values(t, max) is None);
                    }
                    return Err(err_out_of_range(bad, max));
                }
                // Push x..=y.
                let ghost acc0 = acc@;
                let mut k = x;
                loop
                    invariant_except_break
                        x <= k <= y,
                        acc@ == acc0 + range_seq(x, y).take(k - x),
                    ensures
                        acc@ == acc0 + range_seq(x, y),
                    decreases y - k,
                {
                    acc.push(k);
                    proof {
                        assert(range_seq(x, y).take(k + 1 - x) =~= range_seq(x, y).take(
                            k - x,
                        ).push(k));
                        assert(acc@ =~= acc0 + range_seq(x, y).take(k + 1 - x));
                    }
                    if k == y {
                        proof {
                            assert(range_seq(x, y).take(k + 1 - x) =~= range_seq(x, y));
                        }
                        break ;
                    }
                    k = k + 1;
                }
                proof {
                    assert(token_values(t, max) == Some(range_seq(x, y)));
                }
            } else {
                let v = match parse_number(&s, a, b) {
                    Some(v) => v,
                    None => {
                        proof {
                            assert(t =~= whole.subrange(a as int, b as int));
                            assert(token_values(t, max) is None);
                        }
                        return Err(err_invalid_number(input, a, b));
                    },
                };
                if v < 1 || v > max {
                    proof {
                        assert(token_values(t, max) is None);
                    }
                    return Err(err_out_of_range(v, max));
                }
                acc.push(v);
                proof {
                    assert(token_values(t, max) == Some(seq![v]));
                }
            }
        }
        // Re-establish the suffix relation past this token.
        proof {
            let head: Option<Seq<usize>> = if t.len() == 0 {
                Some(Seq::empty())
            } else {
                token_values(t, max)
            };
            assert(head is Some);
            assert(acc@ =~= acc_head + head->Some_0);
        }
        if end == n {
            proof {
                let head: Option<Seq<usize>> = if t.len() == 0 {
                    Some(Seq::empty())
                } else {
                    token_values(t, max)
                };
                assert(first_index(su, ',') == su.len());
                assert(selection_values(su, max) == head);
                assert(selection_values(whole, max) == Some(acc_head + head->Some_0));
                assert(selection_values(whole, max) == Some(acc@));
            }
            break ;
        }
        proof {
            let head: Option<Seq<usize>> = if t.len() == 0 {
                Some(Seq::empty())
            } else {
                token_values(t, max)
            };
            let h = head->Some_0;
            assert(su.skip(end - pos + 1) =~= whole.skip(end + 1));
            match selection_values(whole.skip(end + 1), max) {
                Some(rest) => {
                    assert(selection_values(su, max) == Some(h + rest));
                    assert(selection_values(whole, max) == Some(acc_head + (h + rest)));
                    assert(acc_head + (h + rest) =~= (acc_head + h) + rest);
                    assert(selection_values(whole, max) == Some(acc@ + rest));
                },
                None => {
                    assert(selection_values(su, max) is None);
                    assert(selection_values(whole, max) is None);
                },
            }
        }
        pos = end + 1;
    }
    let r = sorted_unique(&acc);
    Ok(r)
}

} // verus!
