//! The two passes over a source text.

use vstd::prelude::*;
use crate::labels::{LabelMap, discover, discovered};
use crate::laws::{lemma_own_labels_succeed, lemma_own_labels_suffice};
use crate::pattern::{scan, scanned};
use crate::rewrite::{TransformError, complete, rewrite, rewritten};

verus! {

/// The output for `input` where `pattern` tells the jumps: the lines are
/// rewritten under the mapping that the same lines give.
pub open spec fn transformed(pattern: regex::Regex, input: Seq<char>) -> Result<
    Seq<char>,
    TransformError,
> {
    rewritten(discovered(scanned(pattern, input)), scanned(pattern, input))
}

/// The discovery pass on a text: the mapping of the targets that its jump
/// lines refer to, in the order in which they are first met.
pub fn read_jumps(input: &String, regex: &regex::Regex) -> (labels: LabelMap)
    ensures
        labels@ == discovered(scanned(*regex, input@)),
{
    let lines = scan(input.as_str(), regex);
    discover(&lines)
}

/// The rewrite pass on a text, under a mapping that the caller hands in. It
/// fails on the first line that the pattern matched without both groups, or
/// that jumps to a target missing from the mapping.
pub fn compile(input: &String, indices: &LabelMap, regex: &regex::Regex) -> (r: Result<
    String,
    TransformError,
>)
    ensures
        match r {
            Ok(text) => rewritten(indices@, scanned(*regex, input@)) == Ok::<
                Seq<char>,
                TransformError,
            >(text@),
            Err(e) => rewritten(indices@, scanned(*regex, input@)) == Err::<
                Seq<char>,
                TransformError,
            >(e),
        },
{
    let lines = scan(input.as_str(), regex);
    rewrite(&lines, indices)
}

/// Both passes in their order. The result depends on the text and the pattern
/// alone. No jump is left without a label, so the transform succeeds exactly
/// where every match captured both groups, and its only error is a match that
/// lacks one.
pub fn transform(input: &str, pattern: &regex::Regex) -> (r: Result<String, TransformError>)
    ensures
        match r {
            Ok(text) => transformed(*pattern, input@) == Ok::<Seq<char>, TransformError>(text@),
            Err(e) => transformed(*pattern, input@) == Err::<Seq<char>, TransformError>(e),
        },
        !(r matches Err(TransformError::MissingLabel { .. })),
        r is Ok <==> forall|i: int|
            0 <= i < scanned(*pattern, input@).len() ==> complete(
                #[trigger] scanned(*pattern, input@)[i],
            ),
{
    let lines = scan(input, pattern);
    let labels = discover(&lines);
    proof {
        lemma_own_labels_suffice(scanned(*pattern, input@));
        lemma_own_labels_succeed(scanned(*pattern, input@));
    }
    rewrite(&lines, &labels)
}

} // verus!
