//! Shell-word splitting of a command string: whitespace separates words,
//! single quotes take everything literally, double quotes group a word and
//! honor `\"` and `\\`, and a backslash outside quotes escapes the next
//! character. The string is never handed to a shell; the first word names the
//! executable and the rest are its arguments.

use vstd::prelude::*;

use crate::chars::{chars_of, is_blank, string_from_chars};

verus! {

/// The tokenizer's quoting state.
#[derive(Clone, Copy, PartialEq, Eq, Structural, Debug)]
pub enum QuoteMode {
    Outside,
    Single,
    Double,
}

/// One step per character (two per escape) of the word splitter, carrying the
/// position, the quoting state, the word being built (`started` says whether
/// it exists yet: an empty quoted word still counts) and the finished words.
/// `None` means an unterminated quote or a dangling escape.
pub open spec fn tokenize_rec(
    s: Seq<char>,
    i: int,
    mode: QuoteMode,
    cur: Seq<char>,
    started: bool,
    acc: Seq<Seq<char>>,
) -> Option<Seq<Seq<char>>>
    decreases s.len() - i,
{
    if i < 0 || i >= s.len() {
        match mode {
            QuoteMode::Outside => Some(
                if started {
                    acc.push(cur)
                } else {
                    acc
                },
            ),
            _ => None,
        }
    } else {
        let c = s[i];
        match mode {
            QuoteMode::Outside => {
                if c == '\\' {
                    if i + 1 >= s.len() {
                        None
                    } else {
                        tokenize_rec(s, i + 2, QuoteMode::Outside, cur.push(s[i + 1]), true, acc)
                    }
                } else if c == '\'' {
                    tokenize_rec(s, i + 1, QuoteMode::Single, cur, true, acc)
                } else if c == '"' {
                    tokenize_rec(s, i + 1, QuoteMode::Double, cur, true, acc)
                } else if is_blank(c) {
                    if started {
                        tokenize_rec(s, i + 1, QuoteMode::Outside, Seq::empty(), false, acc.push(cur))
                    } else {
                        tokenize_rec(s, i + 1, QuoteMode::Outside, cur, false, acc)
                    }
                } else {
                    tokenize_rec(s, i + 1, QuoteMode::Outside, cur.push(c), true, acc)
                }
            },
            QuoteMode::Single => {
                if c == '\'' {
                    tokenize_rec(s, i + 1, QuoteMode::Outside, cur, true, acc)
                } else {
                    tokenize_rec(s, i + 1, QuoteMode::Single, cur.push(c), true, acc)
                }
            },
            QuoteMode::Double => {
                if c == '\\' && i + 1 < s.len() && (s[i + 1] == '"' || s[i + 1] == '\\') {
                    tokenize_rec(s, i + 2, QuoteMode::Double, cur.push(s[i + 1]), true, acc)
                } else if c == '"' {
                    tokenize_rec(s, i + 1, QuoteMode::Outside, cur, true, acc)
                } else {
                    tokenize_rec(s, i + 1, QuoteMode::Double, cur.push(c), true, acc)
                }
            },
        }
    }
}

/// The words of a command string under shell-word-splitting rules, or `None`
/// on an unterminated quote or dangling escape.
pub open spec fn shell_split(s: Seq<char>) -> Option<Seq<Seq<char>>> {
    tokenize_rec(s, 0, QuoteMode::Outside, Seq::empty(), false, Seq::empty())
}

/// Splits a command string into its words; the result's first word is the
/// executable to spawn and the rest are its arguments.
pub fn split_command(command: &str) -> (r: Option<Vec<String>>)
    ensures
        match r {
            Some(tokens) => {
                &&& shell_split(command@) matches Some(ts)
                &&& tokens@.len() == ts.len()
                &&& (forall|k: int| 0 <= k < ts.len() ==> (#[trigger] tokens@[k])@ == ts[k])
            },
            None => shell_split(command@) is None,
        },
{
    let v = chars_of(command);
    let n = v.len();
    let mut i: usize = 0;
    let mut mode = QuoteMode::Outside;
    let mut cur: Vec<char> = Vec::new();
    let mut started = false;
    let mut acc: Vec<String> = Vec::new();
    let ghost mut accs: Seq<Seq<char>> = Seq::empty();
    loop
        invariant
            i <= n,
            n == v@.len(),
            v@ == command@,
            accs.len() == acc@.len(),
            forall|k: int| 0 <= k < accs.len() ==> (#[trigger] acc@[k])@ == accs[k],
            (mode == QuoteMode::Single || mode == QuoteMode::Double) ==> started,
            shell_split(command@) == tokenize_rec(v@, i as int, mode, cur@, started, accs),
        decreases n - i,
    {
        proof {
            reveal_with_fuel(tokenize_rec, 3);
        }
        if i >= n {
            match mode {
                QuoteMode::Outside => {
                    if started {
                        let t = string_from_chars(&cur);
                        acc.push(t);
                        proof {
                            accs = accs.push(cur@);
                        }
                    }
                    return Some(acc);
                },
                _ => {
                    return None;
                },
            }
        }
        let c = v[i];
        match mode {
            QuoteMode::Outside => {
                if c == '\\' {
                    if i + 1 >= n {
                        return None;
                    }
                    cur.push(v[i + 1]);
                    started = true;
                    i = i + 2;
                } else if c == '\'' {
                    mode = QuoteMode::Single;
                    started = true;
                    i = i + 1;
                } else if c == '"' {
                    mode = QuoteMode::Double;
                    started = true;
                    i = i + 1;
                } else if c == ' ' || c == '\t' {
                    if started {
                        let t = string_from_chars(&cur);
                        acc.push(t);
                        proof {
                            accs = accs.push(cur@);
                        }
                        cur = Vec::new();
                        started = false;
                    }
                    i = i + 1;
                } else {
                    cur.push(c);
                    started = true;
                    i = i + 1;
                }
            },
            QuoteMode::Single => {
                if c == '\'' {
                    mode = QuoteMode::Outside;
                    i = i + 1;
                } else {
                    cur.push(c);
                    i = i + 1;
                }
            },
            QuoteMode::Double => {
                if c == '\\' && i + 1 < n && (v[i + 1] == '"' || v[i + 1] == '\\') {
                    cur.push(v[i + 1]);
                    i = i + 2;
                } else if c == '"' {
                    mode = QuoteMode::Outside;
                    i = i + 1;
                } else {
                    cur.push(c);
                    i = i + 1;
                }
            },
        }
    }
}

} // verus!
