//! The names of the input and of the output, as the words of a command line
//! select them.
//!
//! `-i` makes the next word the input's name, `-o` makes the next word the
//! output's name, `--help` asks for help wherever it stands, and any other
//! word is passed over. Every word counts, the first one too.

use vstd::prelude::*;
use crate::text::texts;

verus! {

/// The input's name where no word selects one.
pub const DEFAULT_INPUT: &'static str = "input.mlog";

/// The output's name where no word selects one.
pub const DEFAULT_OUTPUT: &'static str = "output.mlog";

/// What the next word is taken for.
#[derive(Debug, Clone, Copy, PartialEq, Eq)]
pub enum Waiting {
    /// A flag, or a word to pass over.
    Flag,
    /// The input's name: `-i` came last.
    Input,
    /// The output's name: `-o` came last.
    Output,
}

/// What the words have selected so far.
pub struct Selection {
    /// The input's name.
    pub input: String,
    /// The output's name.
    pub output: String,
    /// How often help was asked for.
    pub help: usize,
    /// What the next word would be taken for.
    pub waiting: Waiting,
}

/// The mathematical value of a `Selection`.
pub struct SelectionModel {
    pub input: Seq<char>,
    pub output: Seq<char>,
    pub help: nat,
    pub waiting: Waiting,
}

impl View for Selection {
    type V = SelectionModel;

    open spec fn view(&self) -> SelectionModel {
        SelectionModel {
            input: self.input@,
            output: self.output@,
            help: self.help as nat,
            waiting: self.waiting,
        }
    }
}

impl Selection {
    /// Whether the words ended where a flag could stand: neither `-i` nor `-o`
    /// is left without its name.
    pub fn is_complete(&self) -> (b: bool)
        ensures
            b == (self@.waiting == Waiting::Flag),
    {
        match self.waiting {
            Waiting::Flag => true,
            _ => false,
        }
    }
}

/// The selection before any word.
pub open spec fn unselected() -> SelectionModel {
    SelectionModel {
        input: DEFAULT_INPUT@,
        output: DEFAULT_OUTPUT@,
        help: 0,
        waiting: Waiting::Flag,
    }
}

/// The selection after one more word.
pub open spec fn after_word(state: SelectionModel, word: Seq<char>) -> SelectionModel {
    if word == "--help"@ {
        SelectionModel { help: state.help + 1, ..state }
    } else {
        match state.waiting {
            Waiting::Input => SelectionModel { input: word, waiting: Waiting::Flag, ..state },
            Waiting::Output => SelectionModel { output: word, waiting: Waiting::Flag, ..state },
            Waiting::Flag => if word == "-i"@ {
                SelectionModel { waiting: Waiting::Input, ..state }
            } else if word == "-o"@ {
                SelectionModel { waiting: Waiting::Output, ..state }
            } else {
                state
            },
        }
    }
}

/// The selection after all of `words`, taken from first to last.
pub open spec fn selected(words: Seq<Seq<char>>) -> SelectionModel
    decreases words.len(),
{
    if words.len() == 0 {
        unselected()
    } else {
        after_word(selected(words.drop_last()), words.last())
    }
}

/// Goes through the words of a command line and returns what they select.
pub fn parse_args(args: &Vec<String>) -> (selection: Selection)
    ensures
        selection@ == selected(texts(args@)),
{
    let help_word = String::from_str("--help");
    let input_word = String::from_str("-i");
    let output_word = String::from_str("-o");
    let mut selection = Selection {
        input: String::from_str(DEFAULT_INPUT),
        output: String::from_str(DEFAULT_OUTPUT),
        help: 0,
        waiting: Waiting::Flag,
    };
    let mut i: usize = 0;
    assert(texts(args@).take(0) =~= Seq::<Seq<char>>::empty());
    while i < args.len()
        invariant
            i <= args.len(),
            help_word@ == "--help"@,
            input_word@ == "-i"@,
            output_word@ == "-o"@,
            selection.help <= i,
            selection@ == selected(texts(args@).take(i as int)),
        decreases args.len() - i,
    {
        proof {
            let next = texts(args@).take(i + 1);
            assert(next.drop_last() =~= texts(args@).take(i as int));
            assert(next.last() == args@[i as int]@);
        }
        let word = &args[i];
        if *word == help_word {
            selection.help += 1;
        } else {
            match selection.waiting {
                Waiting::Input => {
                    selection.input = word.clone();
                    selection.waiting = Waiting::Flag;
                },
                Waiting::Output => {
                    selection.output = word.clone();
                    selection.waiting = Waiting::Flag;
                },
                Waiting::Flag => {
                    if *word == input_word {
                        selection.waiting = Waiting::Input;
                    } else if *word == output_word {
                        selection.waiting = Waiting::Output;
                    }
                },
            }
        }
        i += 1;
    }
    assert(texts(args@).take(args@.len() as int) =~= texts(args@));
    selection
}

} // verus!
