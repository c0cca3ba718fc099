//! The interactive resolver's decisions: what one line of user input means
//! at each prompt of the twin and collision flows. The prompts themselves —
//! printing and reading — live with the caller; every decision here is a
//! pure function of the line, with end-of-input (`None`) resolving to Quit
//! at a menu and to skipping at a selection sub-prompt.

use vstd::prelude::*;

use crate::chars::to_chars;
use crate::selection::{
    is_space, lemma_trim_front_is, parse_selection, selection_values, strictly_increasing, trim,
    trim_front, trim_range,
};

verus! {

/// The resolution of a twin conflict: restore every version, the picked
/// ones (1-based, oldest first), or none; Quit abandons the whole run.
#[derive(Clone, PartialEq, Eq, Debug)]
pub enum TwinChoice {
    All,
    Pick(Vec<usize>),
    Skip,
    Quit,
}

/// The resolution of a collision: replace the live file, restore under a
/// fresh untrash name, skip this item; Quit abandons the whole run.
#[derive(Clone, Copy, PartialEq, Eq, Debug, Structural)]
pub enum CollisionChoice {
    Overwrite,
    KeepBoth,
    Skip,
    Quit,
}

/// One twin-group member as shown to the user: the trashed basename and a
/// formatted deletion time.
#[derive(Clone, Debug)]
pub struct TwinInfo {
    pub name: String,
    pub timestamp: String,
}

/// The word a collision choice is reported as.
pub fn collision_choice_name(c: CollisionChoice) -> (r: &'static str)
    ensures
        c is Overwrite ==> r@ == "overwrite"@,
        c is KeepBoth ==> r@ == "keep both"@,
        c is Skip ==> r@ == "none"@,
        c is Quit ==> r@ == "quit"@,
{
    match c {
        CollisionChoice::Overwrite => "overwrite",
        CollisionChoice::KeepBoth => "keep both",
        CollisionChoice::Skip => "none",
        CollisionChoice::Quit => "quit",
    }
}

/// The key a prompt line stands for: its first character past leading
/// whitespace.
pub open spec fn menu_key(line: Seq<char>) -> Option<char> {
    let t = trim_front(line);
    if t.len() == 0 {
        None
    } else {
        Some(t[0])
    }
}

/// The first character of a line past leading whitespace.
fn menu_key_of(line: &str) -> (r: Option<char>)
    ensures
        r == menu_key(line@),
{
    let chars = to_chars(line);
    let n = chars.len();
    let mut i: usize = 0;
    while i < n && crate::selection::space_char(chars[i])
        invariant
            i <= n == chars@.len(),
            chars@ == line@,
            forall|j: int| 0 <= j < i ==> is_space(chars@[j]),
        decreases n - i,
    {
        i = i + 1;
    }
    proof {
        lemma_trim_front_is(line@, i as int);
    }
    if i == n {
        None
    } else {
        Some(chars[i])
    }
}

/// What the twin menu does with one line of input.
#[derive(Clone, PartialEq, Eq, Debug)]
pub enum TwinStep {
    /// The conflict is resolved.
    Done(TwinChoice),
    /// Show the numbered member list, then ask again.
    ShowList,
    /// Show the numbered member list, then move to the selection prompt.
    EnterSelection,
    /// Unrecognized input: say so and ask again.
    AskAgain,
}

/// The twin menu's reading of a line: end-of-input quits; otherwise the
/// first non-blank character picks list, all, none, quit or select, either
/// case; anything else asks again.
pub open spec fn twin_menu_step(line: Option<Seq<char>>) -> TwinStep {
    match line {
        Option::None => TwinStep::Done(TwinChoice::Quit),
        Option::Some(l) => match menu_key(l) {
            Option::Some(c) => if c == 'l' || c == 'L' {
                TwinStep::ShowList
            } else if c == 'a' || c == 'A' {
                TwinStep::Done(TwinChoice::All)
            } else if c == 'n' || c == 'N' {
                TwinStep::Done(TwinChoice::Skip)
            } else if c == 'q' || c == 'Q' {
                TwinStep::Done(TwinChoice::Quit)
            } else if c == 's' || c == 'S' {
                TwinStep::EnterSelection
            } else {
                TwinStep::AskAgain
            },
            Option::None => TwinStep::AskAgain,
        },
    }
}

/// Reads one line of the twin menu; `None` is end-of-input.
pub fn twin_prompt_step(line: Option<&str>) -> (r: TwinStep)
    ensures
        r == twin_menu_step(match line {
            Option::Some(l) => Option::Some(l@),
            Option::None => Option::None,
        }),
{
    match line {
        Option::None => TwinStep::Done(TwinChoice::Quit),
        Option::Some(l) => match menu_key_of(l) {
            Option::Some(c) => {
                if c == 'l' || c == 'L' {
                    TwinStep::ShowList
                } else if c == 'a' || c == 'A' {
                    TwinStep::Done(TwinChoice::All)
                } else if c == 'n' || c == 'N' {
                    TwinStep::Done(TwinChoice::Skip)
                } else if c == 'q' || c == 'Q' {
                    TwinStep::Done(TwinChoice::Quit)
                } else if c == 's' || c == 'S' {
                    TwinStep::EnterSelection
                } else {
                    TwinStep::AskAgain
                }
            },
            Option::None => TwinStep::AskAgain,
        },
    }
}

/// The collision menu's reading of a line: end-of-input quits; the first
/// non-blank character picks overwrite, keep-both, none or quit, either
/// case; `None` here means unrecognized input, to be asked again.
pub open spec fn collision_menu_step(line: Option<Seq<char>>) -> Option<CollisionChoice> {
    match line {
        Option::None => Option::Some(CollisionChoice::Quit),
        Option::Some(l) => match menu_key(l) {
            Option::Some(c) => if c == 'o' || c == 'O' {
                Option::Some(CollisionChoice::Overwrite)
            } else if c == 'k' || c == 'K' {
                Option::Some(CollisionChoice::KeepBoth)
            } else if c == 'n' || c == 'N' {
                Option::Some(CollisionChoice::Skip)
            } else if c == 'q' || c == 'Q' {
                Option::Some(CollisionChoice::Quit)
            } else {
                Option::None
            },
            Option::None => Option::None,
        },
    }
}

/// Reads one line of the collision menu; `None` in is end-of-input, `None`
/// out is unrecognized input.
pub fn collision_prompt_step(line: Option<&str>) -> (r: Option<CollisionChoice>)
    ensures
        r == collision_menu_step(match line {
            Option::Some(l) => Option::Some(l@),
            Option::None => Option::None,
        }),
{
    match line {
        Option::None => Option::Some(CollisionChoice::Quit),
        Option::Some(l) => match menu_key_of(l) {
            Option::Some(c) => {
                if c == 'o' || c == 'O' {
                    Option::Some(CollisionChoice::Overwrite)
                } else if c == 'k' || c == 'K' {
                    Option::Some(CollisionChoice::KeepBoth)
                } else if c == 'n' || c == 'N' {
                    Option::Some(CollisionChoice::Skip)
                } else if c == 'q' || c == 'Q' {
                    Option::Some(CollisionChoice::Quit)
                } else {
                    Option::None
                }
            },
            Option::None => Option::None,
        },
    }
}

/// Whether a character is the given letter in either case.
pub open spec fn letter(c: char, lower: char, upper: char) -> bool {
    c == lower || c == upper
}

/// An affirmative answer: the line, stripped of surrounding whitespace, is
/// `y` or `yes` in any letter case.
pub open spec fn is_yes_line(line: Seq<char>) -> bool {
    let t = trim(line);
    (t.len() == 1 && letter(t[0], 'y', 'Y')) || (t.len() == 3 && letter(t[0], 'y', 'Y') && letter(
        t[1],
        'e',
        'E',
    ) && letter(t[2], 's', 'S'))
}

/// Reads a yes/no answer; anything but `y` or `yes` (either case, trimmed)
/// declines, end-of-input included.
pub fn prompt_yes_line(line: Option<&str>) -> (r: bool)
    ensures
        r == match line {
            Option::Some(l) => is_yes_line(l@),
            Option::None => false,
        },
{
    let l = match line {
        Option::Some(l) => l,
        Option::None => {
            return false;
        },
    };
    let chars = to_chars(l);
    let n = chars.len();
    let (a, b) = trim_range(&chars, 0, n);
    proof {
        assert(chars@.subrange(0, n as int) =~= l@);
    }
    if b - a == 1 {
        let c0 = chars[a];
        proof {
            assert(trim(l@)[0] == chars@[a as int]);
        }
        c0 == 'y' || c0 == 'Y'
    } else if b - a == 3 {
        let c0 = chars[a];
        let c1 = chars[a + 1];
        let c2 = chars[a + 2];
        proof {
            assert(trim(l@)[0] == chars@[a as int]);
            assert(trim(l@)[1] == chars@[a + 1]);
            assert(trim(l@)[2] == chars@[a + 2]);
        }
        (c0 == 'y' || c0 == 'Y') && (c1 == 'e' || c1 == 'E') && (c2 == 's' || c2 == 'S')
    } else {
        false
    }
}

/// What the selection sub-prompt does with one line of input.
#[derive(Clone, PartialEq, Eq, Debug)]
pub enum SelectionStep {
    /// Indices were chosen, or end-of-input abandoned this conflict alone
    /// (`None`): the enclosing twin flow resolves to its skip choice, not to
    /// Quit.
    Done(Option<Vec<usize>>),
    /// Reject the line with a message and ask again.
    Retry(String),
    /// A blank line: ask again without comment.
    RetrySilent,
}

/// Reads one line of the selection sub-prompt against `count` items: a
/// blank line re-prompts silently, a selection that names no item or fails
/// to parse re-prompts with a message, and a nonempty selection resolves.
pub fn selection_prompt_step(line: Option<&str>, count: usize) -> (r: SelectionStep)
    ensures
        match line {
            Option::None => r == SelectionStep::Done(Option::<Vec<usize>>::None),
            Option::Some(l) => {
                if trim(l@).len() == 0 {
                    r == SelectionStep::RetrySilent
                } else {
                    match selection_values(l@, count) {
                        Option::Some(vals) => {
                            if vals.len() == 0 {
                                r is Retry
                            } else {
                                match r {
                                    SelectionStep::Done(sel) => match sel {
                                        Option::Some(v) => strictly_increasing(v@) && v@.len() > 0
                                            && (forall|n: usize|
                                            v@.contains(n) <==> vals.contains(n)),
                                        Option::None => false,
                                    },
                                    _ => false,
                                }
                            }
                        },
                        Option::None => r is Retry,
                    }
                }
            },
        },
{
    let l = match line {
        Option::Some(l) => l,
        Option::None => {
            return SelectionStep::Done(Option::None);
        },
    };
    let chars = to_chars(l);
    let n = chars.len();
    let (a, b) = trim_range(&chars, 0, n);
    proof {
        assert(chars@.subrange(0, n as int) =~= l@);
    }
    if a == b {
        proof {
            assert(chars@.subrange(a as int, b as int) =~= Seq::<char>::empty());
        }
        return SelectionStep::RetrySilent;
    }
    match parse_selection(l, count) {
        Ok(sel) => {
            if sel.len() == 0 {
                proof {
                    let vals = selection_values(l@, count)->Some_0;
                    if vals.len() > 0 {
                        assert(vals.contains(vals[0]));
                        assert(sel@.contains(vals[0]));
                    }
                }
                SelectionStep::Retry(String::from_str("No items selected."))
            } else {
                proof {
                    let vals = selection_values(l@, count)->Some_0;
                    assert(sel@.contains(sel@[0]));
                    assert(vals.len() > 0) by {
                        if vals.len() == 0 {
                            assert(!vals.contains(sel@[0]));
                        }
                    }
                }
                SelectionStep::Done(Option::Some(sel))
            }
        },
        Err(e) => {
            let mut m = String::from_str("Invalid selection: ");
            m.append(e.as_str());
            SelectionStep::Retry(m)
        },
    }
}

} // verus!
