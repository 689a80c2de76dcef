//! What holds of the two passes together.

use vstd::prelude::*;
use crate::labels::{discovered, label_of, lemma_labels_unique, line_target};
use crate::pattern::{LineModel, captured, scanned};
use crate::rewrite::{
    TransformError, complete, declaration, instruction, label_name, output_lines,
};
use crate::text::{decimal, digit, lemma_decimal_nonempty, lines_of};

verus! {

/// The number of lines before the `n`-th that have a declaration in front.
pub open spec fn declared_before(labels: Seq<Seq<char>>, n: nat) -> nat
    decreases n,
{
    if n == 0 {
        0
    } else {
        declared_before(labels, (n - 1) as nat) + if declaration(labels, (n - 1) as nat) is Some {
            1nat
        } else {
            0nat
        }
    }
}

/// Where the instruction of the input line `i` stands among the output lines.
pub open spec fn output_position(labels: Seq<Seq<char>>, i: nat) -> nat {
    i + declared_before(labels, i + 1)
}

/// Later lines have at least as many declarations before them.
pub proof fn lemma_declared_before_grows(labels: Seq<Seq<char>>, m: nat, n: nat)
    requires
        m <= n,
    ensures
        declared_before(labels, m) <= declared_before(labels, n),
    decreases n,
{
    if m < n {
        lemma_declared_before_grows(labels, m, (n - 1) as nat);
    }
}

/// The output keeps the order of the input: a later line stands later.
pub proof fn lemma_output_order(labels: Seq<Seq<char>>, i: nat, j: nat)
    requires
        i < j,
    ensures
        output_position(labels, i) < output_position(labels, j),
{
    lemma_declared_before_grows(labels, i + 1, j + 1);
}

/// The layout of the output: it holds one line for each input line and one for
/// each declaration; the instruction of the input line `i` stands at
/// `output_position(labels, i)`, and its declaration, if it has one, directly
/// in front of it.
pub proof fn lemma_output_layout(labels: Seq<Seq<char>>, lines: Seq<LineModel>)
    requires
        output_lines(labels, lines) is Ok,
    ensures
        output_lines(labels, lines)->Ok_0.len() == lines.len() + declared_before(
            labels,
            lines.len(),
        ),
        forall|i: int|
            0 <= i < lines.len() ==> {
                let out = output_lines(labels, lines)->Ok_0;
                let at = output_position(labels, i as nat) as int;
                &&& at < out.len()
                &&& instruction(labels, i as nat, #[trigger] lines[i]) == Ok::<
                    Seq<char>,
                    TransformError,
                >(out[at])
                &&& declaration(labels, i as nat) is Some ==> at >= 1 && declaration(
                    labels,
                    i as nat,
                ) == Some(out[at - 1])
            },
    decreases lines.len(),
{
    if lines.len() > 0 {
        let init = lines.drop_last();
        let last = (lines.len() - 1) as nat;
        lemma_output_layout(labels, init);
        let head = output_lines(labels, init)->Ok_0;
        let out = output_lines(labels, lines)->Ok_0;
        assert(head.is_prefix_of(out));
        assert forall|i: int| 0 <= i < lines.len() implies {
            let at = output_position(labels, i as nat) as int;
            &&& at < out.len()
            &&& instruction(labels, i as nat, #[trigger] lines[i]) == Ok::<
                Seq<char>,
                TransformError,
            >(out[at])
            &&& declaration(labels, i as nat) is Some ==> at >= 1 && declaration(
                labels,
                i as nat,
            ) == Some(out[at - 1])
        } by {
            let at = output_position(labels, i as nat) as int;
            if i < last {
                assert(lines[i] == init[i]);
                lemma_declared_before_grows(labels, (i + 1) as nat, last);
                assert(out[at] == head[at]);
                if declaration(labels, i as nat) is Some {
                    assert(out[at - 1] == head[at - 1]);
                }
            }
        }
    }
}

/// A line that the pattern did not match stands in the output as it is, at its
/// place in the order of the lines.
pub proof fn lemma_plain_line_passes(labels: Seq<Seq<char>>, lines: Seq<LineModel>, i: int)
    requires
        output_lines(labels, lines) is Ok,
        0 <= i < lines.len(),
        lines[i].found is None,
    ensures
        output_position(labels, i as nat) < output_lines(labels, lines)->Ok_0.len(),
        output_lines(labels, lines)->Ok_0[output_position(labels, i as nat) as int]
            == lines[i].text,
{
    lemma_output_layout(labels, lines);
}

/// A rewritten jump addresses the label that is declared in front of its
/// target: where line `i` jumps to the line `k` of the input, the output has at
/// the place of line `i` the jump with the name of a label, and directly in
/// front of the place of line `k` the declaration of the label of that name.
pub proof fn lemma_jump_meets_declaration(
    labels: Seq<Seq<char>>,
    lines: Seq<LineModel>,
    i: int,
    k: int,
)
    requires
        output_lines(labels, lines) is Ok,
        0 <= i < lines.len(),
        0 <= k < lines.len(),
        line_target(lines[i]) == Some(decimal(k as nat)),
    ensures
        label_of(labels, decimal(k as nat)) is Some,
        lines[i].found->0.arguments is Some,
        ({
            let out = output_lines(labels, lines)->Ok_0;
            let id = label_of(labels, decimal(k as nat))->0;
            let from = output_position(labels, i as nat) as int;
            let to = output_position(labels, k as nat) as int;
            &&& from < out.len() && 1 <= to < out.len()
            &&& out[from] == "jump "@ + label_name(id) + " "@ + lines[i].found->0.arguments->0
            &&& out[to - 1] == label_name(id) + ":"@
        }),
{
    lemma_output_layout(labels, lines);
    assert(instruction(labels, i as nat, lines[i]) is Ok);
    assert(instruction(labels, k as nat, lines[k]) is Ok);
}

/// Under the mapping that the lines themselves give, no jump lacks a label.
pub proof fn lemma_own_labels_suffice(lines: Seq<LineModel>)
    ensures
        !(output_lines(discovered(lines), lines) matches Err(
            TransformError::MissingLabel { .. },
        )),
{
    lemma_labels_unique(lines);
    lemma_held_targets_suffice(discovered(lines), lines);
}

/// Under a mapping that holds the target of every line, no jump lacks a label.
pub proof fn lemma_held_targets_suffice(labels: Seq<Seq<char>>, lines: Seq<LineModel>)
    requires
        forall|i: int|
            0 <= i < lines.len() && line_target(#[trigger] lines[i]) is Some ==> label_of(
                labels,
                line_target(lines[i])->0,
            ) is Some,
    ensures
        !(output_lines(labels, lines) matches Err(TransformError::MissingLabel { .. })),
    decreases lines.len(),
{
    if lines.len() > 0 {
        let init = lines.drop_last();
        assert forall|i: int| 0 <= i < init.len() && line_target(#[trigger] init[i]) is Some implies label_of(
            labels,
            line_target(init[i])->0,
        ) is Some by {
            assert(init[i] == lines[i]);
        }
        lemma_held_targets_suffice(labels, init);
        assert(lines.last() == lines[lines.len() - 1]);
    }
}

/// The rewrite succeeds exactly where every line can be rewritten, and else
/// fails with the error of the first line that cannot.
pub proof fn lemma_first_failure(labels: Seq<Seq<char>>, lines: Seq<LineModel>)
    ensures
        match output_lines(labels, lines) {
            Ok(_) => forall|i: int|
                0 <= i < lines.len() ==> instruction(labels, i as nat, #[trigger] lines[i]) is Ok,
            Err(e) => exists|k: int|
                {
                    &&& 0 <= k < lines.len()
                    &&& instruction(labels, k as nat, #[trigger] lines[k]) == Err::<
                        Seq<char>,
                        TransformError,
                    >(e)
                    &&& forall|j: int|
                        0 <= j < k ==> instruction(labels, j as nat, #[trigger] lines[j]) is Ok
                },
        },
    decreases lines.len(),
{
    if lines.len() > 0 {
        let init = lines.drop_last();
        let last = lines.len() - 1;
        lemma_first_failure(labels, init);
        assert(forall|i: int| 0 <= i < init.len() ==> init[i] == lines[i]);
        match output_lines(labels, init) {
            Ok(_) => {
                match output_lines(labels, lines) {
                    Ok(_) => {},
                    Err(e) => {
                        assert(instruction(labels, last as nat, lines[last]) == Err::<
                            Seq<char>,
                            TransformError,
                        >(e));
                    },
                }
            },
            Err(e) => {
                let k = choose|k: int|
                    {
                        &&& 0 <= k < init.len()
                        &&& instruction(labels, k as nat, #[trigger] init[k]) == Err::<
                            Seq<char>,
                            TransformError,
                        >(e)
                        &&& forall|j: int|
                            0 <= j < k ==> instruction(labels, j as nat, #[trigger] init[j]) is Ok
                    };
                assert(instruction(labels, k as nat, lines[k]) == Err::<
                    Seq<char>,
                    TransformError,
                >(e));
                assert forall|j: int| 0 <= j < k implies instruction(
                    labels,
                    j as nat,
                    #[trigger] lines[j],
                ) is Ok by {
                    assert(init[j] == lines[j]);
                }
            },
        }
    }
}

/// Under the mapping that the lines themselves give, the rewrite succeeds
/// exactly where every match captured both groups.
pub proof fn lemma_own_labels_succeed(lines: Seq<LineModel>)
    ensures
        output_lines(discovered(lines), lines) is Ok <==> forall|i: int|
            0 <= i < lines.len() ==> complete(#[trigger] lines[i]),
{
    let labels = discovered(lines);
    lemma_labels_unique(lines);
    lemma_first_failure(labels, lines);
    if output_lines(labels, lines) is Ok {
        assert forall|i: int| 0 <= i < lines.len() implies complete(#[trigger] lines[i]) by {
            assert(instruction(labels, i as nat, lines[i]) is Ok);
        }
    } else {
        let e = output_lines(labels, lines)->Err_0;
        let k = choose|k: int|
            0 <= k < lines.len() && instruction(labels, k as nat, #[trigger] lines[k]) == Err::<
                Seq<char>,
                TransformError,
            >(e);
        if complete(lines[k]) {
            assert(line_target(lines[k]) is Some ==> label_of(
                labels,
                line_target(lines[k])->0,
            ) is Some);
            assert(false);
        }
    }
}

/// A line of the text in which the pattern finds nothing stands in the output
/// of both passes as it is, at its place in the order of the lines.
pub proof fn lemma_unmatched_line_passes(pattern: regex::Regex, input: Seq<char>, i: int)
    requires
        0 <= i < lines_of(input).len(),
        captured(pattern, lines_of(input)[i]) is None,
        output_lines(discovered(scanned(pattern, input)), scanned(pattern, input)) is Ok,
    ensures
        ({
            let lines = scanned(pattern, input);
            let labels = discovered(lines);
            let out = output_lines(labels, lines)->Ok_0;
            let at = output_position(labels, i as nat) as int;
            at < out.len() && out[at] == lines_of(input)[i]
        }),
{
    let lines = scanned(pattern, input);
    lemma_plain_line_passes(discovered(lines), lines, i);
}

/// Different numbers have different numerals.
pub proof fn lemma_decimal_distinct(a: nat, b: nat)
    requires
        decimal(a) == decimal(b),
    ensures
        a == b,
    decreases a,
{
    if a < 10 && b < 10 {
        assert(decimal(a)[0] == digit(a));
        assert(decimal(b)[0] == digit(b));
        assert(digit(a) == digit(b));
    } else if a < 10 {
        lemma_decimal_nonempty(b / 10);
        assert(decimal(a).len() == 1);
        assert(decimal(b).len() == decimal(b / 10).len() + 1);
    } else if b < 10 {
        lemma_decimal_nonempty(a / 10);
        assert(decimal(b).len() == 1);
        assert(decimal(a).len() == decimal(a / 10).len() + 1);
    } else {
        let x = decimal(a / 10);
        let y = decimal(b / 10);
        assert(decimal(a) == x.push(digit(a % 10)));
        assert(decimal(b) == y.push(digit(b % 10)));
        assert(x.push(digit(a % 10)).drop_last() =~= x);
        assert(y.push(digit(b % 10)).drop_last() =~= y);
        assert(x.push(digit(a % 10)).last() == digit(a % 10));
        assert(y.push(digit(b % 10)).last() == digit(b % 10));
        assert(x == y);
        lemma_decimal_distinct(a / 10, b / 10);
        assert(digit(a % 10) == digit(b % 10));
        assert(a % 10 == b % 10);
        assert(a == 10 * (a / 10) + a % 10);
        assert(b == 10 * (b / 10) + b % 10);
    }
}

/// Different identifiers have different label names.
pub proof fn lemma_label_names_distinct(a: nat, b: nat)
    requires
        label_name(a) == label_name(b),
    ensures
        a == b,
{
    let prefix = "jump_"@;
    assert((prefix + decimal(a)).skip(prefix.len() as int) =~= decimal(a));
    assert((prefix + decimal(b)).skip(prefix.len() as int) =~= decimal(b));
    lemma_decimal_distinct(a, b);
}

} // verus!
