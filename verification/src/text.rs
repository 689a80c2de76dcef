//! Lines of a text and decimal numerals.

use vstd::prelude::*;

verus! {

/// The position of the first line feed in `s`, or the length of `s` where it
/// holds none.
pub open spec fn first_line_feed(s: Seq<char>) -> nat
    decreases s.len(),
{
    if s.len() == 0 || s[0] == '\n' {
        0
    } else {
        1 + first_line_feed(s.drop_first())
    }
}

/// A line without the carriage return that stood in front of its line feed.
pub open spec fn without_carriage_return(line: Seq<char>) -> Seq<char> {
    if line.len() > 0 && line.last() == '\r' {
        line.drop_last()
    } else {
        line
    }
}

/// The lines of a text. A line ends at a line feed, or at a carriage return
/// directly followed by one; the ending is not part of the line. The last
/// line needs no ending, and a text that ends with one has no empty line
/// after it. A carriage return elsewhere belongs to its line.
pub open spec fn lines_of(s: Seq<char>) -> Seq<Seq<char>>
    decreases s.len(),
{
    if s.len() == 0 {
        Seq::empty()
    } else {
        let k = first_line_feed(s);
        if k >= s.len() {
            seq![s]
        } else {
            seq![without_carriage_return(s.take(k as int))] + lines_of(s.skip(k as int + 1))
        }
    }
}

/// `String::push` puts the character at the end of the string and changes
/// nothing else of it.
pub assume_specification[ String::push ](s: &mut String, c: char)
    ensures
        final(s)@ == old(s)@.push(c),
;

/// The values of a sequence of strings.
pub open spec fn texts(pieces: Seq<String>) -> Seq<Seq<char>> {
    Seq::new(pieces.len(), |i: int| pieces[i]@)
}

/// The first line feed is where a line feed stands with none before it, and
/// the end of a text that holds none.
pub proof fn lemma_first_line_feed(s: Seq<char>, k: int)
    requires
        0 <= k <= s.len(),
        forall|j: int| 0 <= j < k ==> s[j] != '\n',
        k < s.len() ==> s[k] == '\n',
    ensures
        first_line_feed(s) == k,
    decreases k,
{
    if k > 0 {
        let rest = s.drop_first();
        assert forall|j: int| 0 <= j < k - 1 implies rest[j] != '\n' by {
            assert(rest[j] == s[j + 1]);
        }
        lemma_first_line_feed(rest, k - 1);
    }
}

/// What of the line under way is not yet written to it: a carriage return
/// that waits for the character after it.
pub open spec fn held_back(held: bool) -> Seq<char> {
    if held {
        seq!['\r']
    } else {
        Seq::empty()
    }
}

/// Splits a text into its lines, in one pass over its characters. A carriage
/// return is held back until the next character shows whether it belongs to
/// a line ending.
pub fn split_lines(text: &str) -> (pieces: Vec<String>)
    ensures
        texts(pieces@) == lines_of(text@),
{
    let mut pieces: Vec<String> = Vec::new();
    let mut current = String::new();
    let mut held = false;
    let mut open = false;
    let ghost s = text@;
    let ghost mut start: int = 0;
    broadcast use vstd::string::group_string_axioms;
    proof {
        assert(s.skip(0) =~= s);
        assert(texts(pieces@) + lines_of(s) =~= lines_of(s));
    }
    for c in it: text.chars()
        invariant
            it.seq() == s,
            s == text@,
            0 <= start <= it.index() <= s.len(),
            forall|j: int| start <= j < it.index() ==> s[j] != '\n',
            texts(pieces@) + lines_of(s.skip(start)) == lines_of(s),
            current@ + held_back(held) == s.subrange(start, it.index() as int),
            !held ==> current@.len() == 0 || current@.last() != '\r',
            open <==> start < it.index(),
    {
        let ghost n = it.index() as int;
        assert(c == s[n]);
        if c == '\n' {
            proof {
                let rest = s.skip(start);
                assert forall|j: int| 0 <= j < n - start implies rest[j] != '\n' by {
                    assert(rest[j] == s[start + j]);
                }
                lemma_first_line_feed(rest, n - start);
                assert(rest.take(n - start) =~= s.subrange(start, n));
                assert(rest.skip(n - start + 1) =~= s.skip(n + 1));
                let whole = s.subrange(start, n);
                if held {
                    assert(whole.last() == '\r');
                    assert(whole.drop_last() =~= current@);
                } else {
                    assert(whole =~= current@);
                }
                assert(without_carriage_return(whole) == current@);
                assert(texts(pieces@.push(current)) =~= texts(pieces@) + seq![current@]);
                assert(lines_of(rest) == seq![current@] + lines_of(s.skip(n + 1)));
                assert(texts(pieces@.push(current)) + lines_of(s.skip(n + 1)) =~= texts(pieces@)
                    + lines_of(rest));
                start = n + 1;
            }
            pieces.push(current);
            current = String::new();
            held = false;
            open = false;
            assert(s.subrange(start, n + 1) =~= Seq::<char>::empty());
        } else {
            if held {
                current.push('\r');
            }
            if c == '\r' {
                held = true;
            } else {
                current.push(c);
                held = false;
            }
            open = true;
            assert(s.subrange(start, n + 1) =~= s.subrange(start, n).push(c));
            assert(current@ + held_back(held) =~= s.subrange(start, n + 1));
        }
    }
    proof {
        let rest = s.skip(start);
        assert(rest =~= s.subrange(start, s.len() as int));
        if open {
            assert forall|j: int| 0 <= j < rest.len() implies rest[j] != '\n' by {
                assert(rest[j] == s[start + j]);
            }
            lemma_first_line_feed(rest, rest.len() as int);
            assert(lines_of(rest) =~= seq![rest]);
        } else {
            assert(rest.len() == 0);
            assert(lines_of(rest) =~= Seq::<Seq<char>>::empty());
        }
    }
    if held {
        current.push('\r');
    }
    if open {
        proof {
            assert(current@ =~= s.skip(start));
            assert(texts(pieces@.push(current)) =~= texts(pieces@) + seq![current@]);
        }
        pieces.push(current);
    } else {
        assert(texts(pieces@) + Seq::<Seq<char>>::empty() =~= texts(pieces@));
    }
    pieces
}

/// The character of a decimal digit.
pub open spec fn digit(d: nat) -> char {
    if d == 0 {
        '0'
    } else if d == 1 {
        '1'
    } else if d == 2 {
        '2'
    } else if d == 3 {
        '3'
    } else if d == 4 {
        '4'
    } else if d == 5 {
        '5'
    } else if d == 6 {
        '6'
    } else if d == 7 {
        '7'
    } else if d == 8 {
        '8'
    } else {
        '9'
    }
}

/// The decimal numeral of `n`, without leading zeros.
pub open spec fn decimal(n: nat) -> Seq<char>
    decreases n,
{
    if n < 10 {
        seq![digit(n)]
    } else {
        decimal(n / 10).push(digit(n % 10))
    }
}

fn digit_text(d: usize) -> (r: &'static str)
    requires
        d < 10,
    ensures
        r@ == seq![digit(d as nat)],
{
    proof {
        reveal_strlit("0");
        reveal_strlit("1");
        reveal_strlit("2");
        reveal_strlit("3");
        reveal_strlit("4");
        reveal_strlit("5");
        reveal_strlit("6");
        reveal_strlit("7");
        reveal_strlit("8");
        reveal_strlit("9");
    }
    let r = if d == 0 {
        "0"
    } else if d == 1 {
        "1"
    } else if d == 2 {
        "2"
    } else if d == 3 {
        "3"
    } else if d == 4 {
        "4"
    } else if d == 5 {
        "5"
    } else if d == 6 {
        "6"
    } else if d == 7 {
        "7"
    } else if d == 8 {
        "8"
    } else {
        "9"
    };
    assert(r@ =~= seq![digit(d as nat)]);
    r
}

/// Writes `n` as a decimal numeral.
pub fn decimal_string(n: usize) -> (r: String)
    ensures
        r@ == decimal(n as nat),
    decreases n,
{
    if n < 10 {
        String::from_str(digit_text(n))
    } else {
        let mut r = decimal_string(n / 10);
        r.append(digit_text(n % 10));
        assert(r@ =~= decimal(n as nat));
        r
    }
}

/// A numeral is never empty.
pub proof fn lemma_decimal_nonempty(n: nat)
    ensures
        decimal(n).len() > 0,
    decreases n,
{
    if n >= 10 {
        lemma_decimal_nonempty(n / 10);
    }
}

} // verus!
