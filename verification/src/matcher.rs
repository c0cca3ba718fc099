//! The compiled matcher: one immutable predicate over a string, in three
//! variants. Glob patterns go through the globset crate and regular
//! expressions through the regex crate, each behind a trusted wrapper;
//! literal matching is implemented and verified here.

use vstd::prelude::*;

use crate::chars::to_chars;
use crate::pattern::{MatchExtent, MatchType};

verus! {

#[verifier::external_type_specification]
#[verifier::external_body]
pub struct ExGlobMatcher(globset::GlobMatcher);

#[verifier::external_type_specification]
#[verifier::external_body]
pub struct ExRegex(regex::Regex);

/// What globset's matcher, compiled from a glob pattern with the given
/// literal-separator setting, answers on a haystack.
pub uninterp spec fn glob_matches(pattern: Seq<char>, literal_separator: bool, hay: Seq<char>) -> bool;

/// Whether globset's builder accepts a glob pattern as well formed, under
/// the given literal-separator setting.
pub uninterp spec fn glob_valid(pattern: Seq<char>, literal_separator: bool) -> bool;

/// The longest glob text handed to globset. globset turns the glob into a
/// regex and aborts (rather than erring) if the compiled form exceeds its
/// 10 MiB cap; each glob character contributes only a bounded handful of
/// regex bytes and states, so globs within this limit stay far below the
/// cap, while globs of a few hundred kilobytes can reach it.
pub const GLOB_SOURCE_MAX: usize = 4096;

/// Whether the regex crate accepts a pattern as a valid regular expression.
pub uninterp spec fn regex_valid(pattern: Seq<char>) -> bool;

/// What the regex crate's unanchored search answers on a haystack.
pub uninterp spec fn regex_matches(pattern: Seq<char>, hay: Seq<char>) -> bool;

/// The byte span of the leftmost regex match on a haystack, if any.
pub uninterp spec fn regex_find_spec(pattern: Seq<char>, hay: Seq<char>) -> Option<(usize, usize)>;

/// A compiled glob together with the pattern and separator setting it was
/// built from. The fields are private: every handle is made by `glob_build`,
/// so the recorded pattern is the one the inner matcher was compiled from.
pub struct GlobHandle {
    pattern: String,
    literal_separator: bool,
    inner: globset::GlobMatcher,
}

impl GlobHandle {
    /// The glob pattern the matcher was compiled from.
    pub closed spec fn pattern_view(&self) -> Seq<char> {
        self.pattern@
    }

    /// The literal-separator setting the matcher was compiled with.
    pub closed spec fn sep(&self) -> bool {
        self.literal_separator
    }
}

/// A compiled regular expression together with the pattern it was built
/// from; as with `GlobHandle`, only `regex_build` makes one.
pub struct RegexHandle {
    pattern: String,
    inner: regex::Regex,
}

impl RegexHandle {
    /// The pattern the regular expression was compiled from.
    pub closed spec fn pattern_view(&self) -> Seq<char> {
        self.pattern@
    }
}

/// Relies on globset: `GlobBuilder::new(p).literal_separator(sep).build()`
/// succeeds exactly when `p` is well-formed glob syntax, and
/// `Glob::compile_matcher` then yields the matcher for it. The handle
/// records the inputs, which is what `glob_is_match` relies on.
///
/// The length bound keeps the call from aborting: `compile_matcher` unwraps
/// an internal regex compilation that is capped at 10 MiB and panics past
/// the cap, which syntactically valid globs of a few hundred kilobytes can
/// reach; a glob within `GLOB_SOURCE_MAX` cannot.
#[verifier::external_body]
fn glob_build(pattern: &str, literal_separator: bool) -> (r: Result<GlobHandle, String>)
    requires
        pattern@.len() <= GLOB_SOURCE_MAX,
    ensures
        r is Ok <==> glob_valid(pattern@, literal_separator),
        r is Ok ==> r->Ok_0.pattern_view() == pattern@ && r->Ok_0.sep() == literal_separator,
{
    let built = globset::GlobBuilder::new(pattern).literal_separator(literal_separator).build();
    match built {
        Ok(glob) => Ok(
            GlobHandle {
                pattern: pattern.to_string(),
                literal_separator,
                inner: glob.compile_matcher(),
            },
        ),
        Err(e) => Err(e.to_string()),
    }
}

/// Relies on globset's `GlobMatcher::is_match`: deterministic in the glob
/// the matcher was compiled from (recorded in the handle) and the haystack.
#[verifier::external_body]
fn glob_is_match(h: &GlobHandle, hay: &str) -> (r: bool)
    ensures
        r == glob_matches(h.pattern_view(), h.sep(), hay@),
{
    h.inner.is_match(hay)
}

/// Relies on the regex crate: `Regex::new` succeeds exactly when the
/// pattern is valid regex syntax.
#[verifier::external_body]
fn regex_build(pattern: &str) -> (r: Result<RegexHandle, String>)
    ensures
        r is Ok <==> regex_valid(pattern@),
        r is Ok ==> r->Ok_0.pattern_view() == pattern@,
{
    match regex::Regex::new(pattern) {
        Ok(re) => Ok(RegexHandle { pattern: pattern.to_string(), inner: re }),
        Err(e) => Err(e.to_string()),
    }
}

/// Relies on the regex crate's `Regex::is_match`: an unanchored search,
/// deterministic in the recorded pattern and the haystack.
#[verifier::external_body]
fn regex_is_match(h: &RegexHandle, hay: &str) -> (r: bool)
    ensures
        r == regex_matches(h.pattern_view(), hay@),
{
    h.inner.is_match(hay)
}

/// Relies on the regex crate's `Regex::find`: the leftmost match, returned
/// as byte offsets into the haystack.
#[verifier::external_body]
fn regex_find(h: &RegexHandle, hay: &str) -> (r: Option<(usize, usize)>)
    ensures
        r == regex_find_spec(h.pattern_view(), hay@),
{
    h.inner.find(hay).map(|m| (m.start(), m.end()))
}

/// `needle` occurs contiguously inside `hay` (an empty needle always does).
pub open spec fn is_substring(needle: Seq<char>, hay: Seq<char>) -> bool {
    exists|i: int|
        0 <= i <= hay.len() - needle.len() && #[trigger] hay.subrange(i, i + needle.len())
            == needle
}

/// Whether `needle` occurs in `hay` starting at `i`.
fn chars_eq_at(hay: &Vec<char>, i: usize, needle: &Vec<char>) -> (r: bool)
    requires
        i + needle@.len() <= hay@.len(),
    ensures
        r == (hay@.subrange(i as int, i as int + needle@.len()) == needle@),
{
    let n = needle.len();
    let hl = hay.len();
    let mut j: usize = 0;
    while j < n
        invariant
            j <= n == needle@.len(),
            i + n <= hl == hay@.len(),
            forall|k: int| 0 <= k < j ==> hay@[i + k] == needle@[k],
        decreases n - j,
    {
        if hay[i + j] != needle[j] {
            proof {
                assert(hay@.subrange(i as int, i as int + needle@.len())[j as int] == hay@[i + j]);
            }
            return false;
        }
        j = j + 1;
    }
    proof {
        assert(hay@.subrange(i as int, i as int + needle@.len()) =~= needle@);
    }
    true
}

/// Substring search, by scanning every start position.
fn contains_sub(hay: &Vec<char>, needle: &Vec<char>) -> (r: bool)
    ensures
        r == is_substring(needle@, hay@),
{
    let n = needle.len();
    let h = hay.len();
    if n > h {
        return false;
    }
    if n == 0 {
        proof {
            assert(hay@.subrange(0, 0 + needle@.len() as int) =~= needle@);
        }
        return true;
    }
    let mut i: usize = 0;
    while i <= h - n
        invariant
            1 <= n <= h,
            n == needle@.len(),
            h == hay@.len(),
            i <= h - n + 1,
            forall|k: int| 0 <= k < i ==> #[trigger] hay@.subrange(k, k + needle@.len())
                != needle@,
        decreases h - i,
    {
        if chars_eq_at(hay, i, needle) {
            return true;
        }
        i = i + 1;
    }
    false
}

/// The shape a compiled matcher has: its variant and what it was built
/// from, with the glob already in its final form (wrapped for a partial
/// match).
pub enum MatcherModel {
    Glob { pattern: Seq<char>, literal_separator: bool },
    Regex { pattern: Seq<char>, full: bool },
    Literal { pattern: Seq<char>, full: bool },
}

/// What a matcher of a given shape answers on a haystack: globs and regexes
/// by the outside crates' answers, literals by equality or substring
/// containment; a full-extent regex must span the whole haystack.
pub open spec fn matcher_matches(m: MatcherModel, hay: Seq<char>) -> bool {
    match m {
        MatcherModel::Glob { pattern, literal_separator } => glob_matches(
            pattern,
            literal_separator,
            hay,
        ),
        MatcherModel::Regex { pattern, full } => if full {
            match regex_find_spec(pattern, hay) {
                Some(span) => span.0 == 0 && span.1 == vstd::utf8::encode_utf8(hay).len() as usize,
                None => false,
            }
        } else {
            regex_matches(pattern, hay)
        },
        MatcherModel::Literal { pattern, full } => if full {
            hay == pattern
        } else {
            is_substring(pattern, hay)
        },
    }
}

/// A compiled, immutable predicate over a string.
pub enum CompiledMatcher {
    Glob(GlobHandle),
    Regex(RegexHandle, bool),
    Literal(String, bool),
}

impl CompiledMatcher {
    /// The shape of this matcher.
    pub closed spec fn model(&self) -> MatcherModel {
        match self {
            CompiledMatcher::Glob(h) => MatcherModel::Glob {
                pattern: h.pattern_view(),
                literal_separator: h.sep(),
            },
            CompiledMatcher::Regex(h, full) => MatcherModel::Regex {
                pattern: h.pattern_view(),
                full: *full,
            },
            CompiledMatcher::Literal(p, full) => MatcherModel::Literal {
                pattern: p@,
                full: *full,
            },
        }
    }

    /// Whether this matcher accepts the haystack. Pure: two calls on equal
    /// haystacks answer alike.
    pub fn is_match(&self, haystack: &str) -> (r: bool)
        ensures
            r == matcher_matches(self.model(), haystack@),
    {
        match self {
            CompiledMatcher::Glob(h) => glob_is_match(h, haystack),
            CompiledMatcher::Regex(h, full) => {
                if *full {
                    match regex_find(h, haystack) {
                        Some(span) => span.0 == 0 && span.1 == haystack.len(),
                        None => false,
                    }
                } else {
                    regex_is_match(h, haystack)
                }
            },
            CompiledMatcher::Literal(p, full) => {
                let hc = to_chars(haystack);
                let pc = to_chars(p.as_str());
                if *full {
                    if hc.len() != pc.len() {
                        return false;
                    }
                    let r = chars_eq_at(&hc, 0, &pc);
                    proof {
                        assert(hc@.subrange(0, 0 + pc@.len() as int) =~= hc@);
                    }
                    r
                } else {
                    contains_sub(&hc, &pc)
                }
            },
        }
    }
}

/// The glob text actually compiled: a partial-extent glob is wrapped as
/// `*pattern*` and may cross path separators; a full-extent glob is taken
/// as written with separator-aware wildcards.
pub open spec fn glob_source(pattern: Seq<char>, extent: MatchExtent) -> Seq<char> {
    if extent is Full {
        pattern
    } else {
        seq!['*'] + pattern + seq!['*']
    }
}

/// Whether compiling a pattern of the given type and extent succeeds:
/// literals always compile; globs and regexes exactly when the outside
/// crate accepts them.
pub open spec fn compile_ok(pattern: Seq<char>, ty: MatchType, extent: MatchExtent) -> bool {
    match ty {
        MatchType::Glob => glob_source(pattern, extent).len() <= GLOB_SOURCE_MAX && glob_valid(
            glob_source(pattern, extent),
            extent is Full,
        ),
        MatchType::Regex => regex_valid(pattern),
        MatchType::Literal => true,
    }
}

/// The shape a successful compilation yields.
pub open spec fn compiled_model(pattern: Seq<char>, ty: MatchType, extent: MatchExtent) -> MatcherModel {
    match ty {
        MatchType::Glob => MatcherModel::Glob {
            pattern: glob_source(pattern, extent),
            literal_separator: extent is Full,
        },
        MatchType::Regex => MatcherModel::Regex { pattern, full: extent is Full },
        MatchType::Literal => MatcherModel::Literal { pattern, full: extent is Full },
    }
}

/// Compiles a pattern into a matcher. Fails exactly on glob or regex
/// patterns the respective crate rejects — counting a glob too long for
/// globset's compiled-size cap as rejected — never for literals; the error
/// text names the bad pattern kind.
pub fn compile_matcher(pattern: &str, ty: MatchType, extent: MatchExtent) -> (r: Result<
    CompiledMatcher,
    String,
>)
    ensures
        r is Ok <==> compile_ok(pattern@, ty, extent),
        r is Ok ==> r->Ok_0.model() == compiled_model(pattern@, ty, extent),
{
    match ty {
        MatchType::Glob => {
            let full = match extent {
                MatchExtent::Full => true,
                MatchExtent::Partial => false,
            };
            let source: String = if full {
                String::from_str(pattern)
            } else {
                let mut s = String::from_str("*");
                s.append(pattern);
                s.append("*");
                proof {
                    reveal_strlit("*");
                    assert(s@ =~= seq!['*'] + pattern@ + seq!['*']);
                }
                s
            };
            if source.as_str().unicode_len() > GLOB_SOURCE_MAX {
                return Err(String::from_str("invalid glob pattern: pattern too long"));
            }
            match glob_build(source.as_str(), full) {
                Ok(h) => Ok(CompiledMatcher::Glob(h)),
                Err(e) => {
                    let mut m = String::from_str("invalid glob pattern: ");
                    m.append(e.as_str());
                    Err(m)
                },
            }
        },
        MatchType::Regex => {
            let full = match extent {
                MatchExtent::Full => true,
                MatchExtent::Partial => false,
            };
            match regex_build(pattern) {
                Ok(h) => Ok(CompiledMatcher::Regex(h, full)),
                Err(e) => {
                    let mut m = String::from_str("invalid regex: ");
                    m.append(e.as_str());
                    Err(m)
                },
            }
        },
        MatchType::Literal => {
            let full = match extent {
                MatchExtent::Full => true,
                MatchExtent::Partial => false,
            };
            Ok(CompiledMatcher::Literal(String::from_str(pattern), full))
        },
    }
}

/// Law: a full-extent literal matcher accepts exactly its own pattern, and
/// a partial-extent one exactly the haystacks containing it.
pub proof fn lemma_literal_matcher(pattern: Seq<char>, hay: Seq<char>)
    ensures
        matcher_matches(MatcherModel::Literal { pattern, full: true }, hay) <==> hay == pattern,
        matcher_matches(MatcherModel::Literal { pattern, full: false }, hay) <==> is_substring(
            pattern,
            hay,
        ),
{
}

/// Law: the empty literal pattern matches every haystack in partial mode,
/// and only the empty haystack in full mode.
pub proof fn lemma_literal_empty_pattern(hay: Seq<char>)
    ensures
        matcher_matches(MatcherModel::Literal { pattern: Seq::empty(), full: false }, hay),
        matcher_matches(MatcherModel::Literal { pattern: Seq::empty(), full: true }, hay)
            <==> hay == Seq::<char>::empty(),
{
    let needle = Seq::<char>::empty();
    assert(hay.subrange(0, 0 + needle.len() as int) =~= needle);
    assert(is_substring(needle, hay));
}

} // verus!
