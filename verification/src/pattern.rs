//! The jump pattern and what it captures in a line.

use vstd::prelude::*;
use crate::text::{lines_of, split_lines};

verus! {

/// A compiled pattern of the `regex` crate. Nothing inside it is visible here.
#[verifier::external_type_specification]
#[verifier::external_body]
pub struct ExRegex(regex::Regex);

/// The pattern of a jump instruction: the word `jump`, the target's digits in
/// the first group, the arguments in the second.
pub const JUMP_PATTERN: &'static str = r"jump (\d+) (.+)";

/// What a search of `line` with `pattern` finds: `None` where nothing in the
/// line matches, else the text of the first and of the second capture group of
/// the leftmost match, each `None` where the pattern has no such group or the
/// group took no part in the match.
pub uninterp spec fn captured(pattern: regex::Regex, line: Seq<char>) -> Option<
    (Option<Seq<char>>, Option<Seq<char>>),
>;

/// The first two capture groups of a match.
pub struct Captured {
    /// The first group: the target, as it is written.
    pub target: Option<String>,
    /// The second group: what follows the target.
    pub arguments: Option<String>,
}

/// A line of the source together with what the pattern found in it.
pub struct Line {
    /// The line, without its ending.
    pub text: String,
    /// The groups of the match, or `None` where the pattern did not match.
    pub found: Option<Captured>,
}

/// The mathematical value of a `Captured`.
pub struct CapturedModel {
    pub target: Option<Seq<char>>,
    pub arguments: Option<Seq<char>>,
}

/// The mathematical value of a `Line`.
pub struct LineModel {
    pub text: Seq<char>,
    pub found: Option<CapturedModel>,
}

/// The value of a group that may be absent.
pub open spec fn text_of(s: Option<String>) -> Option<Seq<char>> {
    match s {
        Some(t) => Some(t@),
        None => None,
    }
}

impl View for Captured {
    type V = CapturedModel;

    open spec fn view(&self) -> CapturedModel {
        CapturedModel { target: text_of(self.target), arguments: text_of(self.arguments) }
    }
}

impl View for Line {
    type V = LineModel;

    open spec fn view(&self) -> LineModel {
        LineModel {
            text: self.text@,
            found: match self.found {
                Some(c) => Some(c@),
                None => None,
            },
        }
    }
}

/// The values of a sequence of lines.
pub open spec fn models(lines: Seq<Line>) -> Seq<LineModel> {
    Seq::new(lines.len(), |i: int| lines[i]@)
}

/// A line as the pattern sees it.
pub open spec fn scanned_line(pattern: regex::Regex, text: Seq<char>) -> LineModel {
    LineModel {
        text,
        found: match captured(pattern, text) {
            Some((target, arguments)) => Some(CapturedModel { target, arguments }),
            None => None,
        },
    }
}

/// A text as the pattern sees it, line by line.
pub open spec fn scanned(pattern: regex::Regex, input: Seq<char>) -> Seq<LineModel> {
    let lines = lines_of(input);
    Seq::new(lines.len(), |i: int| scanned_line(pattern, lines[i]))
}

/// The values of the groups that a search handed back.
pub open spec fn groups_of(found: Option<(Option<String>, Option<String>)>) -> Option<
    (Option<Seq<char>>, Option<Seq<char>>),
> {
    match found {
        Some((target, arguments)) => Some((text_of(target), text_of(arguments))),
        None => None,
    }
}

/// Calls `Regex::captures` on the line and, on a match, `Captures::get` for the
/// groups 1 and 2 and `Match::as_str` on each that is there. The contract gives
/// the outcome its name, `captured`, and claims nothing else of it.
#[verifier::external_body]
pub(crate) fn search(pattern: &regex::Regex, line: &str) -> (found: Option<
    (Option<String>, Option<String>),
>)
    ensures
        groups_of(found) == captured(*pattern, line@),
{
    pattern.captures(line).map(
        |c| (c.get(1).map(|m| m.as_str().to_owned()), c.get(2).map(|m| m.as_str().to_owned())),
    )
}

/// Puts a line and what was found in it together.
pub fn line_from(text: String, found: Option<(Option<String>, Option<String>)>) -> (line: Line)
    ensures
        line@.text == text@,
        line@.found == match found {
            Some((target, arguments)) => Some(
                CapturedModel { target: text_of(target), arguments: text_of(arguments) },
            ),
            None => None::<CapturedModel>,
        },
{
    let found = match found {
        Some((target, arguments)) => Some(Captured { target, arguments }),
        None => None,
    };
    Line { text, found }
}

/// Splits the input into lines and searches each with the pattern.
pub fn scan(input: &str, pattern: &regex::Regex) -> (lines: Vec<Line>)
    ensures
        models(lines@) == scanned(*pattern, input@),
{
    let mut pieces = split_lines(input);
    let ghost texts = lines_of(input@);
    let mut lines: Vec<Line> = Vec::new();
    let n = pieces.len();
    let mut i: usize = 0;
    while i < n
        invariant
            i <= n,
            n == pieces@.len(),
            n == texts.len(),
            texts == lines_of(input@),
            forall|k: int| i <= k < n ==> (#[trigger] pieces@[k])@ == texts[k],
            lines@.len() == i,
            forall|k: int|
                0 <= k < i ==> (#[trigger] lines@[k])@ == scanned_line(*pattern, texts[k]),
        decreases n - i,
    {
        let found = search(pattern, pieces[i].as_str());
        // The line moves out of `pieces`; an empty string takes its place.
        let mut piece = String::new();
        std::mem::swap(&mut pieces[i], &mut piece);
        lines.push(line_from(piece, found));
        i += 1;
    }
    assert(models(lines@) =~= scanned(*pattern, input@));
    lines
}

} // verus!
