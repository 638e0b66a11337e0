//! The command language: one line of input, split at whitespace, names a
//! command by its first word and carries the command's arguments after it.

use crate::text::{
    index_value, is_word, lemma_tokens_are_words, parse_index, tokenize, tokens, views,
};
use vstd::prelude::*;

verus! {

/// The words that name a command.
#[derive(Debug, Clone, Copy, PartialEq, Eq, Structural)]
pub enum Keyword {
    Start,
    Status,
    Remove,
    Logs,
    Quit,
}

/// A command, ready to be carried out.
#[derive(Debug, Clone, PartialEq, Eq)]
pub enum Command {
    /// Launch `file_name` as a worker called `logical_name`.
    Start { file_name: Vec<u8>, logical_name: Vec<u8> },
    /// List the workers.
    Status,
    /// Stop the worker at `index` and forget it.
    Remove { index: usize },
    /// Show the log of the worker at `index`.
    Logs { index: usize },
    /// Leave.
    Quit,
}

/// A command as a mathematical value.
pub enum CommandModel {
    Start { file_name: Seq<u8>, logical_name: Seq<u8> },
    Status,
    Remove { index: usize },
    Logs { index: usize },
    Quit,
}

impl View for Command {
    type V = CommandModel;

    open spec fn view(&self) -> CommandModel {
        match *self {
            Command::Start { file_name, logical_name } => CommandModel::Start {
                file_name: file_name@,
                logical_name: logical_name@,
            },
            Command::Status => CommandModel::Status,
            Command::Remove { index } => CommandModel::Remove { index },
            Command::Logs { index } => CommandModel::Logs { index },
            Command::Quit => CommandModel::Quit,
        }
    }
}

/// Why a line is no command.
#[derive(Debug, Clone, Copy, PartialEq, Eq, Structural)]
pub enum Rejection {
    /// `start` without exactly a file and a name.
    NotEnoughArgs,
    /// `remove` or `logs` without exactly one argument.
    MissingIndex,
    /// The argument of `remove` or `logs` writes no index.
    BadIndex,
    /// The first word names no command, or the line holds no word.
    UnknownCommand,
}

/// The command that `w` names, if any: `start`, `status`, `remove`, `logs`
/// or `quit`, written in lower case.
pub open spec fn keyword_value(w: Seq<u8>) -> Option<Keyword> {
    if w == seq![115u8, 116u8, 97u8, 114u8, 116u8] {
        // s t a r t
        Some(Keyword::Start)
    } else if w == seq![115u8, 116u8, 97u8, 116u8, 117u8, 115u8] {
        // s t a t u s
        Some(Keyword::Status)
    } else if w == seq![114u8, 101u8, 109u8, 111u8, 118u8, 101u8] {
        // r e m o v e
        Some(Keyword::Remove)
    } else if w == seq![108u8, 111u8, 103u8, 115u8] {
        // l o g s
        Some(Keyword::Logs)
    } else if w == seq![113u8, 117u8, 105u8, 116u8] {
        // q u i t
        Some(Keyword::Quit)
    } else {
        None
    }
}

/// What the argument of `remove` or `logs` stands for.
pub open spec fn index_argument(t: Seq<Seq<u8>>) -> Result<usize, Rejection> {
    if t.len() != 2 {
        Err(Rejection::MissingIndex)
    } else {
        match index_value(t[1]) {
            Some(index) => Ok(index),
            None => Err(Rejection::BadIndex),
        }
    }
}

/// The command that the words `t` of a line make.
pub open spec fn command_of(t: Seq<Seq<u8>>) -> Result<CommandModel, Rejection> {
    if t.len() == 0 {
        Err(Rejection::UnknownCommand)
    } else {
        match keyword_value(t[0]) {
            Some(Keyword::Start) => if t.len() == 3 {
                Ok(CommandModel::Start { file_name: t[1], logical_name: t[2] })
            } else {
                Err(Rejection::NotEnoughArgs)
            },
            Some(Keyword::Status) => Ok(CommandModel::Status),
            Some(Keyword::Remove) => match index_argument(t) {
                Ok(index) => Ok(CommandModel::Remove { index }),
                Err(e) => Err(e),
            },
            Some(Keyword::Logs) => match index_argument(t) {
                Ok(index) => Ok(CommandModel::Logs { index }),
                Err(e) => Err(e),
            },
            Some(Keyword::Quit) => Ok(CommandModel::Quit),
            None => Err(Rejection::UnknownCommand),
        }
    }
}

impl Rejection {
    /// The message shown for this rejection.
    pub fn text(&self) -> (r: &'static str)
        ensures
            r@ == match *self {
                Rejection::NotEnoughArgs => "Not enough args"@,
                Rejection::MissingIndex => "Missing process index"@,
                Rejection::BadIndex => "Invalid process index"@,
                Rejection::UnknownCommand => "Unknown command"@,
            },
    {
        match self {
            Rejection::NotEnoughArgs => "Not enough args",
            Rejection::MissingIndex => "Missing process index",
            Rejection::BadIndex => "Invalid process index",
            Rejection::UnknownCommand => "Unknown command",
        }
    }
}

/// Recognises the word that names a command.
pub fn keyword_of(w: &[u8]) -> (r: Option<Keyword>)
    ensures
        r == keyword_value(w@),
{
    let n: usize = w.len();
    if n == 5 && w[0] == 115 && w[1] == 116 && w[2] == 97 && w[3] == 114 && w[4] == 116 {
        proof {
            assert(w@ =~= seq![115u8, 116u8, 97u8, 114u8, 116u8]);
        }
        Some(Keyword::Start)
    } else if n == 6 && w[0] == 115 && w[1] == 116 && w[2] == 97 && w[3] == 116 && w[4] == 117
        && w[5] == 115 {
        proof {
            assert(w@ =~= seq![115u8, 116u8, 97u8, 116u8, 117u8, 115u8]);
        }
        Some(Keyword::Status)
    } else if n == 6 && w[0] == 114 && w[1] == 101 && w[2] == 109 && w[3] == 111 && w[4] == 118
        && w[5] == 101 {
        proof {
            assert(w@ =~= seq![114u8, 101u8, 109u8, 111u8, 118u8, 101u8]);
        }
        Some(Keyword::Remove)
    } else if n == 4 && w[0] == 108 && w[1] == 111 && w[2] == 103 && w[3] == 115 {
        proof {
            assert(w@ =~= seq![108u8, 111u8, 103u8, 115u8]);
        }
        Some(Keyword::Logs)
    } else if n == 4 && w[0] == 113 && w[1] == 117 && w[2] == 105 && w[3] == 116 {
        proof {
            assert(w@ =~= seq![113u8, 117u8, 105u8, 116u8]);
        }
        Some(Keyword::Quit)
    } else {
        proof {
            let a = seq![115u8, 116u8, 97u8, 114u8, 116u8];
            let b = seq![115u8, 116u8, 97u8, 116u8, 117u8, 115u8];
            let c = seq![114u8, 101u8, 109u8, 111u8, 118u8, 101u8];
            let d = seq![108u8, 111u8, 103u8, 115u8];
            let e = seq![113u8, 117u8, 105u8, 116u8];
            assert(w@ != a) by {
                if w@ == a {
                    assert(a.len() == 5 && a[0] == 115 && a[1] == 116 && a[2] == 97 && a[3] == 114
                        && a[4] == 116);
                }
            }
            assert(w@ != b) by {
                if w@ == b {
                    assert(b.len() == 6 && b[0] == 115 && b[1] == 116 && b[2] == 97 && b[3] == 116
                        && b[4] == 117 && b[5] == 115);
                }
            }
            assert(w@ != c) by {
                if w@ == c {
                    assert(c.len() == 6 && c[0] == 114 && c[1] == 101 && c[2] == 109 && c[3] == 111
                        && c[4] == 118 && c[5] == 101);
                }
            }
            assert(w@ != d) by {
                if w@ == d {
                    assert(d.len() == 4 && d[0] == 108 && d[1] == 111 && d[2] == 103 && d[3] == 115);
                }
            }
            assert(w@ != e) by {
                if w@ == e {
                    assert(e.len() == 4 && e[0] == 113 && e[1] == 117 && e[2] == 105 && e[3] == 116);
                }
            }
        }
        None
    }
}

/// Reads the index argument of `remove` or `logs` from the words of a line.
pub fn read_index_argument(words: &Vec<Vec<u8>>) -> (r: Result<usize, Rejection>)
    ensures
        r == index_argument(views(words@)),
{
    if words.len() != 2 {
        return Err(Rejection::MissingIndex);
    }
    match parse_index(words[1].as_slice()) {
        Some(index) => Ok(index),
        None => Err(Rejection::BadIndex),
    }
}

/// Reads one line of input as a command.
pub fn parse_command(line: &[u8]) -> (r: Result<Command, Rejection>)
    ensures
        match r {
            Ok(command) => command_of(tokens(line@)) == Ok::<CommandModel, Rejection>(command@),
            Err(e) => command_of(tokens(line@)) == Err::<CommandModel, Rejection>(e),
        },
        match r {
            Ok(Command::Start { file_name, logical_name }) => is_word(file_name@) && is_word(
                logical_name@,
            ),
            _ => true,
        },
{
    let mut words = tokenize(line);
    let ghost t = tokens(line@);
    proof {
        lemma_tokens_are_words(line@);
    }
    if words.len() == 0 {
        return Err(Rejection::UnknownCommand);
    }
    proof {
        assert(t[0] == words@[0]@);
    }
    match keyword_of(words[0].as_slice()) {
        Some(Keyword::Start) => {
            if words.len() == 3 {
                let logical_name = words.pop().unwrap();
                let file_name = words.pop().unwrap();
                proof {
                    assert(t[1] == file_name@);
                    assert(t[2] == logical_name@);
                    assert(is_word(t[1]) && is_word(t[2]));
                }
                Ok(Command::Start { file_name, logical_name })
            } else {
                Err(Rejection::NotEnoughArgs)
            }
        },
        Some(Keyword::Status) => Ok(Command::Status),
        Some(Keyword::Remove) => match read_index_argument(&words) {
            Ok(index) => Ok(Command::Remove { index }),
            Err(e) => Err(e),
        },
        Some(Keyword::Logs) => match read_index_argument(&words) {
            Ok(index) => Ok(Command::Logs { index }),
            Err(e) => Err(e),
        },
        Some(Keyword::Quit) => Ok(Command::Quit),
        None => Err(Rejection::UnknownCommand),
    }
}

} // verus!
