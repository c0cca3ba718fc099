//! The pattern compiler's front half: a raw pattern string starts with zero
//! or more stacked modifier prefixes (`glob:`, `regex:`, `string:`, `full:`,
//! `partial:`, `name:`, `path:`), applied left to right with the last
//! occurrence per group winning; the unconsumed remainder is the literal
//! pattern body, never trimmed or interpreted further.

use vstd::prelude::*;

use crate::chars::to_chars;

verus! {

/// How the pattern body is interpreted.
#[derive(Clone, Copy, PartialEq, Eq, Debug, Structural)]
pub enum MatchType {
    Glob,
    Regex,
    Literal,
}

/// Whether a match must cover the whole haystack or any part of it.
#[derive(Clone, Copy, PartialEq, Eq, Debug, Structural)]
pub enum MatchExtent {
    Partial,
    Full,
}

/// Which text of a trashed item the pattern is matched against.
#[derive(Clone, Copy, PartialEq, Eq, Debug, Structural)]
pub enum MatchTarget {
    Name,
    Path,
}

/// A raw pattern resolved into its body and effective modifiers.
pub struct ParsedPattern {
    pub pattern: String,
    pub match_type: MatchType,
    pub extent: MatchExtent,
    pub target: MatchTarget,
}

/// Whether `pre` starts `s`.
pub open spec fn is_prefix_of(pre: Seq<char>, s: Seq<char>) -> bool {
    s.len() >= pre.len() && s.take(pre.len() as int) == pre
}

/// One pass of the scanner: consume the longest recognized prefix and update
/// the state it belongs to, until none matches.
pub open spec fn parse_rec(
    s: Seq<char>,
    ty: MatchType,
    ex: MatchExtent,
    tg: MatchTarget,
) -> (Seq<char>, MatchType, MatchExtent, MatchTarget)
    decreases s.len(),
    via parse_rec_decreases
{
    if is_prefix_of("glob:"@, s) {
        parse_rec(s.skip("glob:"@.len() as int), MatchType::Glob, ex, tg)
    } else if is_prefix_of("regex:"@, s) {
        parse_rec(s.skip("regex:"@.len() as int), MatchType::Regex, ex, tg)
    } else if is_prefix_of("string:"@, s) {
        parse_rec(s.skip("string:"@.len() as int), MatchType::Literal, ex, tg)
    } else if is_prefix_of("full:"@, s) {
        parse_rec(s.skip("full:"@.len() as int), ty, MatchExtent::Full, tg)
    } else if is_prefix_of("partial:"@, s) {
        parse_rec(s.skip("partial:"@.len() as int), ty, MatchExtent::Partial, tg)
    } else if is_prefix_of("name:"@, s) {
        parse_rec(s.skip("name:"@.len() as int), ty, ex, MatchTarget::Name)
    } else if is_prefix_of("path:"@, s) {
        parse_rec(s.skip("path:"@.len() as int), ty, ex, MatchTarget::Path)
    } else {
        (s, ty, ex, tg)
    }
}

#[via_fn]
proof fn parse_rec_decreases(s: Seq<char>, ty: MatchType, ex: MatchExtent, tg: MatchTarget) {
    reveal_strlit("glob:");
    reveal_strlit("regex:");
    reveal_strlit("string:");
    reveal_strlit("full:");
    reveal_strlit("partial:");
    reveal_strlit("name:");
    reveal_strlit("path:");
}

/// The whole parse, from the default modifiers: glob, partial, name.
pub open spec fn parse_pattern_spec(s: Seq<char>) -> (
    Seq<char>,
    MatchType,
    MatchExtent,
    MatchTarget,
) {
    parse_rec(s, MatchType::Glob, MatchExtent::Partial, MatchTarget::Name)
}

/// Whether `lit` starts the characters of `chars` at `pos`.
fn has_prefix_at(chars: &Vec<char>, pos: usize, lit: &str) -> (r: bool)
    requires
        pos <= chars@.len(),
    ensures
        r == is_prefix_of(lit@, chars@.skip(pos as int)),
{
    let ghost sp = chars@.skip(pos as int);
    let lchars = to_chars(lit);
    let m = lchars.len();
    if chars.len() - pos < m {
        return false;
    }
    let mut i: usize = 0;
    while i < m
        invariant
            i <= m == lit@.len(),
            lchars@ == lit@,
            pos + m <= chars@.len() <= usize::MAX,
            sp == chars@.skip(pos as int),
            forall|j: int| 0 <= j < i ==> chars@[pos + j] == lit@[j],
        decreases m - i,
    {
        if chars[pos + i] != lchars[i] {
            proof {
                if is_prefix_of(lit@, sp) {
                    assert(sp.take(m as int)[i as int] == lit@[i as int]);
                    assert(sp.take(m as int)[i as int] == chars@[pos + i]);
                }
            }
            return false;
        }
        i = i + 1;
    }
    proof {
        assert(sp.take(m as int) =~= lit@);
    }
    true
}

/// Splits a raw pattern into its literal body and the effective match type,
/// extent and target. Never fails: text that is not a recognized modifier
/// prefix, colons included, stays part of the body.
pub fn parse_pattern(raw: &str) -> (r: ParsedPattern)
    ensures
        ({
            let (pat, ty, ex, tg) = parse_pattern_spec(raw@);
            &&& r.pattern@ == pat
            &&& r.match_type == ty
            &&& r.extent == ex
            &&& r.target == tg
        }),
{
    let chars = to_chars(raw);
    let len = chars.len();
    let ghost whole = raw@;
    let mut pos: usize = 0;
    let mut ty = MatchType::Glob;
    let mut ex = MatchExtent::Partial;
    let mut tg = MatchTarget::Name;
    proof {
        assert(whole.skip(0) =~= whole);
    }
    loop
        invariant_except_break
            pos <= len,
            len == chars@.len(),
            chars@ == whole,
            raw@ == whole,
            parse_rec(whole.skip(pos as int), ty, ex, tg) == parse_pattern_spec(whole),
        ensures
            pos <= len == whole.len(),
            raw@ == whole,
            parse_pattern_spec(whole) == (whole.skip(pos as int), ty, ex, tg),
        decreases len - pos,
    {
        let ghost sp = whole.skip(pos as int);
        if has_prefix_at(&chars, pos, "glob:") {
            proof {
                reveal_strlit("glob:");
                assert(sp.skip(5) =~= whole.skip(pos + 5));
            }
            ty = MatchType::Glob;
            pos = pos + 5;
        } else if has_prefix_at(&chars, pos, "regex:") {
            proof {
                reveal_strlit("regex:");
                assert(sp.skip(6) =~= whole.skip(pos + 6));
            }
            ty = MatchType::Regex;
            pos = pos + 6;
        } else if has_prefix_at(&chars, pos, "string:") {
            proof {
                reveal_strlit("string:");
                assert(sp.skip(7) =~= whole.skip(pos + 7));
            }
            ty = MatchType::Literal;
            pos = pos + 7;
        } else if has_prefix_at(&chars, pos, "full:") {
            proof {
                reveal_strlit("full:");
                assert(sp.skip(5) =~= whole.skip(pos + 5));
            }
            ex = MatchExtent::Full;
            pos = pos + 5;
        } else if has_prefix_at(&chars, pos, "partial:") {
            proof {
                reveal_strlit("partial:");
                assert(sp.skip(8) =~= whole.skip(pos + 8));
            }
            ex = MatchExtent::Partial;
            pos = pos + 8;
        } else if has_prefix_at(&chars, pos, "name:") {
            proof {
                reveal_strlit("name:");
                assert(sp.skip(5) =~= whole.skip(pos + 5));
            }
            tg = MatchTarget::Name;
            pos = pos + 5;
        } else if has_prefix_at(&chars, pos, "path:") {
            proof {
                reveal_strlit("path:");
                assert(sp.skip(5) =~= whole.skip(pos + 5));
            }
            tg = MatchTarget::Path;
            pos = pos + 5;
        } else {
            break ;
        }
    }
    let pattern = String::from_str(raw.substring_char(pos, len));
    ParsedPattern { pattern, match_type: ty, extent: ex, target: tg }
}

/// One recognized modifier prefix.
#[derive(Clone, Copy, PartialEq, Eq, Debug, Structural)]
pub enum Modifier {
    GlobMod,
    RegexMod,
    StringMod,
    FullMod,
    PartialMod,
    NameMod,
    PathMod,
}

/// The text a modifier is written as.
pub open spec fn modifier_text(m: Modifier) -> Seq<char> {
    match m {
        Modifier::GlobMod => "glob:"@,
        Modifier::RegexMod => "regex:"@,
        Modifier::StringMod => "string:"@,
        Modifier::FullMod => "full:"@,
        Modifier::PartialMod => "partial:"@,
        Modifier::NameMod => "name:"@,
        Modifier::PathMod => "path:"@,
    }
}

/// A stack of modifiers written out in order.
pub open spec fn render_mods(ms: Seq<Modifier>) -> Seq<char>
    decreases ms.len(),
{
    if ms.len() == 0 {
        Seq::empty()
    } else {
        modifier_text(ms[0]) + render_mods(ms.drop_first())
    }
}

/// The match type set by the last type modifier of the stack, if any.
pub open spec fn last_type_mod(ms: Seq<Modifier>) -> Option<MatchType>
    decreases ms.len(),
{
    if ms.len() == 0 {
        None
    } else {
        match last_type_mod(ms.drop_first()) {
            Some(v) => Some(v),
            None => match ms[0] {
                Modifier::GlobMod => Some(MatchType::Glob),
                Modifier::RegexMod => Some(MatchType::Regex),
                Modifier::StringMod => Some(MatchType::Literal),
                _ => None,
            },
        }
    }
}

/// The extent set by the last extent modifier of the stack, if any.
pub open spec fn last_extent_mod(ms: Seq<Modifier>) -> Option<MatchExtent>
    decreases ms.len(),
{
    if ms.len() == 0 {
        None
    } else {
        match last_extent_mod(ms.drop_first()) {
            Some(v) => Some(v),
            None => match ms[0] {
                Modifier::FullMod => Some(MatchExtent::Full),
                Modifier::PartialMod => Some(MatchExtent::Partial),
                _ => None,
            },
        }
    }
}

/// The target set by the last target modifier of the stack, if any.
pub open spec fn last_target_mod(ms: Seq<Modifier>) -> Option<MatchTarget>
    decreases ms.len(),
{
    if ms.len() == 0 {
        None
    } else {
        match last_target_mod(ms.drop_first()) {
            Some(v) => Some(v),
            None => match ms[0] {
                Modifier::NameMod => Some(MatchTarget::Name),
                Modifier::PathMod => Some(MatchTarget::Path),
                _ => None,
            },
        }
    }
}

/// Text that starts with no recognized modifier prefix.
pub open spec fn no_leading_modifier(s: Seq<char>) -> bool {
    &&& !is_prefix_of("glob:"@, s)
    &&& !is_prefix_of("regex:"@, s)
    &&& !is_prefix_of("string:"@, s)
    &&& !is_prefix_of("full:"@, s)
    &&& !is_prefix_of("partial:"@, s)
    &&& !is_prefix_of("name:"@, s)
    &&& !is_prefix_of("path:"@, s)
}

proof fn lemma_parse_rec_mods(
    ms: Seq<Modifier>,
    rest: Seq<char>,
    ty: MatchType,
    ex: MatchExtent,
    tg: MatchTarget,
)
    requires
        no_leading_modifier(rest),
    ensures
        parse_rec(render_mods(ms) + rest, ty, ex, tg) == (
            rest,
            last_type_mod(ms).unwrap_or(ty),
            last_extent_mod(ms).unwrap_or(ex),
            last_target_mod(ms).unwrap_or(tg),
        ),
    decreases ms.len(),
{
    reveal_strlit("glob:");
    reveal_strlit("regex:");
    reveal_strlit("string:");
    reveal_strlit("full:");
    reveal_strlit("partial:");
    reveal_strlit("name:");
    reveal_strlit("path:");
    if ms.len() == 0 {
        assert(render_mods(ms) + rest =~= rest);
    } else {
        let m0 = ms[0];
        let txt = modifier_text(m0);
        let tail = render_mods(ms.drop_first()) + rest;
        let s = render_mods(ms) + rest;
        assert(s =~= txt + tail);
        assert(s.take(txt.len() as int) =~= txt);
        assert(is_prefix_of(txt, s));
        assert(s.skip(txt.len() as int) =~= tail);
        // No other modifier text can start `s`: the seven spellings pairwise
        // differ within their common length.
        assert forall|m2: Modifier| m2 != m0 implies !is_prefix_of(modifier_text(m2), s) by {
            if is_prefix_of(modifier_text(m2), s) {
                let t2 = modifier_text(m2);
                assert(s[0] == t2[0] && s[1] == t2[1] && s[2] == t2[2]) by {
                    assert(s.take(t2.len() as int)[0] == t2[0]);
                    assert(s.take(t2.len() as int)[1] == t2[1]);
                    assert(s.take(t2.len() as int)[2] == t2[2]);
                }
                assert(s[0] == txt[0] && s[1] == txt[1] && s[2] == txt[2]) by {
                    assert(s.take(txt.len() as int)[0] == txt[0]);
                    assert(s.take(txt.len() as int)[1] == txt[1]);
                    assert(s.take(txt.len() as int)[2] == txt[2]);
                }
                assert(false);
            }
        }
        if m0 != Modifier::GlobMod {
            assert(!is_prefix_of(modifier_text(Modifier::GlobMod), s));
        }
        if m0 != Modifier::RegexMod {
            assert(!is_prefix_of(modifier_text(Modifier::RegexMod), s));
        }
        if m0 != Modifier::StringMod {
            assert(!is_prefix_of(modifier_text(Modifier::StringMod), s));
        }
        if m0 != Modifier::FullMod {
            assert(!is_prefix_of(modifier_text(Modifier::FullMod), s));
        }
        if m0 != Modifier::PartialMod {
            assert(!is_prefix_of(modifier_text(Modifier::PartialMod), s));
        }
        if m0 != Modifier::NameMod {
            assert(!is_prefix_of(modifier_text(Modifier::NameMod), s));
        }
        if m0 != Modifier::PathMod {
            assert(!is_prefix_of(modifier_text(Modifier::PathMod), s));
        }
        lemma_parse_rec_mods(
            ms.drop_first(),
            rest,
            match m0 {
                Modifier::GlobMod => MatchType::Glob,
                Modifier::RegexMod => MatchType::Regex,
                Modifier::StringMod => MatchType::Literal,
                _ => ty,
            },
            match m0 {
                Modifier::FullMod => MatchExtent::Full,
                Modifier::PartialMod => MatchExtent::Partial,
                _ => ex,
            },
            match m0 {
                Modifier::NameMod => MatchTarget::Name,
                Modifier::PathMod => MatchTarget::Path,
                _ => tg,
            },
        );
    }
}

/// Law: a raw string made of any stack of modifier prefixes followed by
/// literal text that starts with no recognized prefix parses to exactly that
/// literal text, with the last-written modifier of each group in force and
/// the defaults (glob, partial, name) where a group never occurs. The stack's
/// order matters only through which modifier of each group comes last.
pub proof fn lemma_parse_pattern_stacking(ms: Seq<Modifier>, rest: Seq<char>)
    requires
        no_leading_modifier(rest),
    ensures
        parse_pattern_spec(render_mods(ms) + rest) == (
            rest,
            last_type_mod(ms).unwrap_or(MatchType::Glob),
            last_extent_mod(ms).unwrap_or(MatchExtent::Partial),
            last_target_mod(ms).unwrap_or(MatchTarget::Name),
        ),
{
    lemma_parse_rec_mods(ms, rest, MatchType::Glob, MatchExtent::Partial, MatchTarget::Name);
}

/// Law: two stacks that agree on the last modifier of every group parse any
/// raw string identically, whatever their order; `full:name:` and
/// `name:full:` are one example.
pub proof fn lemma_parse_pattern_order_irrelevant(
    ms1: Seq<Modifier>,
    ms2: Seq<Modifier>,
    rest: Seq<char>,
)
    requires
        no_leading_modifier(rest),
        last_type_mod(ms1) == last_type_mod(ms2),
        last_extent_mod(ms1) == last_extent_mod(ms2),
        last_target_mod(ms1) == last_target_mod(ms2),
    ensures
        parse_pattern_spec(render_mods(ms1) + rest) == parse_pattern_spec(render_mods(ms2) + rest),
{
    lemma_parse_pattern_stacking(ms1, rest);
    lemma_parse_pattern_stacking(ms2, rest);
}

} // verus!
