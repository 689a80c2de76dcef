//! The pass that writes the program with labels.

use vstd::prelude::*;
use crate::labels::{LabelMap, label_of};
use crate::pattern::{Line, LineModel, models};
use crate::text::{decimal, decimal_string};

verus! {

/// Why a program could not be rewritten. `line` counts from 0.
#[derive(Debug, Clone, Copy, PartialEq, Eq)]
pub enum TransformError {
    /// The pattern matched the line but captured no target or no arguments.
    MalformedMatch { line: usize },
    /// The line jumps to a target that the mapping does not hold.
    MissingLabel { line: usize },
}

/// The name of the label with the identifier `id`.
pub open spec fn label_name(id: nat) -> Seq<char> {
    "jump_"@ + decimal(id)
}

/// The declaration that stands in front of the line at `index`, where the
/// mapping holds the numeral of `index` as a target.
pub open spec fn declaration(labels: Seq<Seq<char>>, index: nat) -> Option<Seq<char>> {
    match label_of(labels, decimal(index)) {
        Some(id) => Some(label_name(id) + ":"@),
        None => None,
    }
}

/// What stands in the output for the line at `index` itself: a line without a
/// match as it is, a jump with the label's name in place of the target.
pub open spec fn instruction(labels: Seq<Seq<char>>, index: nat, line: LineModel) -> Result<
    Seq<char>,
    TransformError,
> {
    match line.found {
        None => Ok(line.text),
        Some(c) => match c.target {
            None => Err(TransformError::MalformedMatch { line: index as usize }),
            Some(target) => match label_of(labels, target) {
                None => Err(TransformError::MissingLabel { line: index as usize }),
                Some(id) => match c.arguments {
                    None => Err(TransformError::MalformedMatch { line: index as usize }),
                    Some(arguments) => Ok("jump "@ + label_name(id) + " "@ + arguments),
                },
            },
        },
    }
}

/// A line that the rewrite can take under any mapping that holds its target:
/// one without a match, or one whose match captured both groups.
pub open spec fn complete(line: LineModel) -> bool {
    line.found matches Some(c) ==> c.target is Some && c.arguments is Some
}

/// The output lines that the line at `index` gives: its declaration, if it has
/// one, and then its instruction.
pub open spec fn emitted(labels: Seq<Seq<char>>, index: nat, line: LineModel) -> Result<
    Seq<Seq<char>>,
    TransformError,
> {
    match instruction(labels, index, line) {
        Err(e) => Err(e),
        Ok(body) => match declaration(labels, index) {
            Some(label) => Ok(seq![label, body]),
            None => Ok(seq![body]),
        },
    }
}

/// The lines of the output, or the error of the first line that has one.
pub open spec fn output_lines(labels: Seq<Seq<char>>, lines: Seq<LineModel>) -> Result<
    Seq<Seq<char>>,
    TransformError,
>
    decreases lines.len(),
{
    if lines.len() == 0 {
        Ok(Seq::empty())
    } else {
        match output_lines(labels, lines.drop_last()) {
            Err(e) => Err(e),
            Ok(head) => match emitted(labels, (lines.len() - 1) as nat, lines.last()) {
                Err(e) => Err(e),
                Ok(tail) => Ok(head + tail),
            },
        }
    }
}

/// The text made of `lines`, each followed by a line feed.
pub open spec fn joined(lines: Seq<Seq<char>>) -> Seq<char>
    decreases lines.len(),
{
    if lines.len() == 0 {
        Seq::empty()
    } else {
        joined(lines.drop_last()) + lines.last() + "\n"@
    }
}

/// The output text for `lines` under `labels`.
pub open spec fn rewritten(labels: Seq<Seq<char>>, lines: Seq<LineModel>) -> Result<
    Seq<char>,
    TransformError,
> {
    match output_lines(labels, lines) {
        Ok(out) => Ok(joined(out)),
        Err(e) => Err(e),
    }
}

/// Writes the name of the label `id`.
pub fn label_text(id: usize) -> (name: String)
    ensures
        name@ == label_name(id as nat),
{
    let mut name = String::from_str("jump_");
    let digits = decimal_string(id);
    name.append(digits.as_str());
    name
}

/// Rewrites one line: a line without a match is handed back as it is; a jump
/// gets the name of its target's label; a match that lacks a group, or a target
/// without a label, is an error that names the line.
pub fn rewrite_line(labels: &LabelMap, index: usize, line: &Line) -> (r: Result<
    String,
    TransformError,
>)
    ensures
        match r {
            Ok(body) => instruction(labels@, index as nat, line@) == Ok::<Seq<char>, TransformError>(
                body@,
            ),
            Err(e) => instruction(labels@, index as nat, line@) == Err::<Seq<char>, TransformError>(e),
        },
{
    match &line.found {
        None => Ok(line.text.clone()),
        Some(c) => {
            match &c.target {
                None => Err(TransformError::MalformedMatch { line: index }),
                Some(target) => {
                    match labels.id_of(target) {
                        None => Err(TransformError::MissingLabel { line: index }),
                        Some(id) => {
                            match &c.arguments {
                                None => Err(TransformError::MalformedMatch { line: index }),
                                Some(arguments) => {
                                    let mut body = String::from_str("jump ");
                                    let name = label_text(id);
                                    body.append(name.as_str());
                                    body.append(" ");
                                    body.append(arguments.as_str());
                                    Ok(body)
                                },
                            }
                        },
                    }
                },
            }
        },
    }
}

/// The rewrite pass: goes through the lines in order, counting from 0. In
/// front of a line whose number is a target of the mapping it puts the
/// label's declaration; then comes the line, a jump rewritten to address its
/// label; every output line ends with a line feed. The first line that cannot
/// be rewritten ends the pass with its error, and no text is returned. A
/// target that is the number of no line keeps its label, whose declaration
/// is then nowhere in the output.
pub fn rewrite(lines: &Vec<Line>, labels: &LabelMap) -> (r: Result<String, TransformError>)
    ensures
        match r {
            Ok(text) => rewritten(labels@, models(lines@)) == Ok::<Seq<char>, TransformError>(
                text@,
            ),
            Err(e) => rewritten(labels@, models(lines@)) == Err::<Seq<char>, TransformError>(e),
        },
{
    let mut out = String::new();
    let ghost mut done: Seq<Seq<char>> = Seq::empty();
    let mut i: usize = 0;
    assert(models(lines@).take(0) =~= Seq::<LineModel>::empty());
    while i < lines.len()
        invariant
            i <= lines.len(),
            output_lines(labels@, models(lines@).take(i as int)) == Ok::<
                Seq<Seq<char>>,
                TransformError,
            >(done),
            out@ == joined(done),
        decreases lines.len() - i,
    {
        let ghost all = models(lines@);
        proof {
            let next = all.take(i + 1);
            assert(next.drop_last() =~= all.take(i as int));
            assert(next.last() == lines@[i as int]@);
        }
        let body = match rewrite_line(labels, i, &lines[i]) {
            Ok(body) => body,
            Err(e) => {
                proof {
                    lemma_failure_stays(labels@, all, i + 1);
                }
                return Err(e);
            },
        };
        let number = decimal_string(i);
        match labels.id_of(&number) {
            Some(id) => {
                let name = label_text(id);
                out.append(name.as_str());
                out.append(":");
                out.append("\n");
                proof {
                    let label = label_name(id as nat) + ":"@;
                    assert(done.push(label).drop_last() =~= done);
                    assert(out@ =~= joined(done.push(label)));
                    assert(done + seq![label, body@] =~= done.push(label).push(body@));
                    done = done.push(label);
                }
            },
            None => {
                assert(done + seq![body@] =~= done.push(body@));
            },
        }
        out.append(body.as_str());
        out.append("\n");
        proof {
            assert(done.push(body@).drop_last() =~= done);
            assert(out@ =~= joined(done.push(body@)));
            done = done.push(body@);
        }
        i += 1;
    }
    assert(models(lines@).take(lines@.len() as int) =~= models(lines@));
    Ok(out)
}

/// Where the first `k` lines cannot be rewritten, the whole cannot, with the
/// same error.
pub proof fn lemma_failure_stays(labels: Seq<Seq<char>>, lines: Seq<LineModel>, k: int)
    requires
        0 <= k <= lines.len(),
        output_lines(labels, lines.take(k)) is Err,
    ensures
        output_lines(labels, lines) == output_lines(labels, lines.take(k)),
    decreases lines.len(),
{
    if k == lines.len() {
        assert(lines.take(k) =~= lines);
    } else {
        assert(lines.drop_last().take(k) =~= lines.take(k));
        lemma_failure_stays(labels, lines.drop_last(), k);
    }
}

} // verus!
