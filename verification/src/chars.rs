//! Character-level helpers shared by the parsing and naming modules: viewing
//! a `&str` as its characters, and printing numbers in decimal.

use vstd::prelude::*;

verus! {

/// The decimal digit character for a value below ten.
pub open spec fn digit_char(d: nat) -> char
    recommends
        d < 10,
{
    if d == 0 {
        '0'
    } else if d == 1 {
        '1'
    } else if d == 2 {
        '2'
    } else if d == 3 {
        '3'
    } else if d == 4 {
        '4'
    } else if d == 5 {
        '5'
    } else if d == 6 {
        '6'
    } else if d == 7 {
        '7'
    } else if d == 8 {
        '8'
    } else {
        '9'
    }
}

/// The decimal representation of a number, without sign or padding.
pub open spec fn dec_str(n: nat) -> Seq<char>
    decreases n,
{
    if n < 10 {
        seq![digit_char(n)]
    } else {
        dec_str(n / 10) + seq![digit_char(n % 10)]
    }
}

/// A decimal representation has at least one digit.
pub proof fn lemma_dec_str_len(n: nat)
    ensures
        dec_str(n).len() >= 1,
    decreases n,
{
    if n >= 10 {
        lemma_dec_str_len(n / 10);
    }
}

/// The characters of a string, as a vector.
pub fn to_chars(s: &str) -> (v: Vec<char>)
    ensures
        v@ == s@,
{
    let n = s.unicode_len();
    let mut v: Vec<char> = Vec::new();
    let mut i: usize = 0;
    while i < n
        invariant
            n == s@.len(),
            i <= n,
            v@ == s@.take(i as int),
        decreases n - i,
    {
        v.push(s.get_char(i));
        i = i + 1;
        proof {
            assert(v@ =~= s@.take(i as int));
        }
    }
    proof {
        assert(v@ =~= s@);
    }
    v
}

/// Appends one decimal digit character to a string.
fn push_digit(s: &mut String, d: usize)
    requires
        d < 10,
    ensures
        final(s)@ == old(s)@ + seq![digit_char(d as nat)],
{
    if d == 0 {
        proof {
            reveal_strlit("0");
        }
        s.append("0");
    } else if d == 1 {
        proof {
            reveal_strlit("1");
        }
        s.append("1");
    } else if d == 2 {
        proof {
            reveal_strlit("2");
        }
        s.append("2");
    } else if d == 3 {
        proof {
            reveal_strlit("3");
        }
        s.append("3");
    } else if d == 4 {
        proof {
            reveal_strlit("4");
        }
        s.append("4");
    } else if d == 5 {
        proof {
            reveal_strlit("5");
        }
        s.append("5");
    } else if d == 6 {
        proof {
            reveal_strlit("6");
        }
        s.append("6");
    } else if d == 7 {
        proof {
            reveal_strlit("7");
        }
        s.append("7");
    } else if d == 8 {
        proof {
            reveal_strlit("8");
        }
        s.append("8");
    } else {
        proof {
            reveal_strlit("9");
        }
        s.append("9");
    }
    proof {
        assert(final(s)@ =~= old(s)@ + seq![digit_char(d as nat)]);
    }
}

/// Appends the decimal representation of `n` to a string.
pub fn append_dec(s: &mut String, n: usize)
    ensures
        final(s)@ == old(s)@ + dec_str(n as nat),
    decreases n,
{
    if n < 10 {
        push_digit(s, n);
    } else {
        append_dec(s, n / 10);
        push_digit(s, n % 10);
        proof {
            assert(old(s)@ + dec_str((n / 10) as nat) + seq![digit_char((n % 10) as nat)] =~= old(
                s,
            )@ + dec_str(n as nat));
        }
    }
}

/// The decimal representation of a number as a fresh string.
pub fn dec_string(n: usize) -> (r: String)
    ensures
        r@ == dec_str(n as nat),
{
    let mut s = String::new();
    append_dec(&mut s, n);
    proof {
        assert(Seq::<char>::empty() + dec_str(n as nat) =~= dec_str(n as nat));
    }
    s
}

} // verus!
