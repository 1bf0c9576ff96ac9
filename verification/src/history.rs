//! History records: one line per executed job, `name,millis,status,message`,
//! with the status token `SUCCESS` or `ERROR`. The core renders lines for the
//! append-only history sink; the reader side parses them back, skipping
//! malformed lines.

use vstd::prelude::*;

use crate::chars::{
    chars_of, dec_str, digits_val, find_char, first_index, parse_i64_digits, string_from_chars,
    subvec, u64_to_string, valid_i64_digits,
};
use crate::job::{lemma_split_lines_len, split_lines, strip_cr};

verus! {

/// One recorded execution outcome.
#[derive(Debug, Clone, PartialEq, Eq)]
pub struct HistoryStatement {
    pub name: String,
    /// Milliseconds since the Unix epoch at which the job fired.
    pub timestamp: i64,
    pub status: String,
    pub error_message: String,
}

pub type History = Vec<HistoryStatement>;

/// The status token written for a successful execution.
pub open spec fn success_token() -> Seq<char> {
    seq!['S', 'U', 'C', 'C', 'E', 'S', 'S']
}

/// The status token written for a failed execution.
pub open spec fn error_token() -> Seq<char> {
    seq!['E', 'R', 'R', 'O', 'R']
}

/// A history line's text: the four fields joined by commas. The message may
/// itself contain commas; readers split at the first three only.
pub open spec fn history_render(
    name: Seq<char>,
    ts: int,
    status: Seq<char>,
    msg: Seq<char>,
) -> Seq<char> {
    name + seq![','] + dec_str(ts) + seq![','] + status + seq![','] + msg
}

/// Renders one record as its history line (no trailing line feed).
pub fn render_history_line(e: &HistoryStatement) -> (r: String)
    requires
        e.timestamp >= 0,
    ensures
        r@ == history_render(e.name@, e.timestamp as int, e.status@, e.error_message@),
{
    proof {
        reveal_strlit(",");
    }
    let mut s = String::new();
    s.append(e.name.as_str());
    s.append(",");
    let ts = u64_to_string(e.timestamp as u64);
    s.append(ts.as_str());
    s.append(",");
    s.append(e.status.as_str());
    s.append(",");
    s.append(e.error_message.as_str());
    assert(s@ =~= history_render(e.name@, e.timestamp as int, e.status@, e.error_message@));
    s
}

/// The four parts of a history line, split at its first three commas; the
/// timestamp must be a decimal number. `None` on any other shape.
pub open spec fn history_line_sem(s: Seq<char>) -> Option<(Seq<char>, int, Seq<char>, Seq<char>)> {
    let c1 = first_index(s, ',');
    if c1 < 0 {
        None
    } else {
        let name = s.take(c1);
        let rest1 = s.skip(c1 + 1);
        let c2 = first_index(rest1, ',');
        if c2 < 0 {
            None
        } else {
            let ts = rest1.take(c2);
            let rest2 = rest1.skip(c2 + 1);
            let c3 = first_index(rest2, ',');
            if c3 < 0 {
                None
            } else {
                let status = rest2.take(c3);
                let msg = rest2.skip(c3 + 1);
                if valid_i64_digits(ts) {
                    Some((name, digits_val(ts), status, msg))
                } else {
                    None
                }
            }
        }
    }
}

/// The record holds exactly the line's four parts.
pub open spec fn line_entry_ok(line: Seq<char>, e: HistoryStatement) -> bool {
    &&& history_line_sem(line) matches Some((n, ts, st, msg)) && e.name@ == n && e.timestamp == ts
        && e.status@ == st && e.error_message@ == msg
}

/// The indices of the text's well-formed history lines, in line order.
pub open spec fn history_indices(lines: Seq<Seq<char>>) -> Seq<int>
    decreases lines.len(),
{
    if lines.len() == 0 {
        Seq::empty()
    } else if history_line_sem(lines.last()) is Some {
        history_indices(lines.drop_last()).push(lines.len() - 1)
    } else {
        history_indices(lines.drop_last())
    }
}

fn parse_history_line(v: &Vec<char>, lo: usize, hi: usize) -> (r: Option<HistoryStatement>)
    requires
        lo <= hi <= v@.len(),
    ensures
        match r {
            Some(e) => line_entry_ok(v@.subrange(lo as int, hi as int), e),
            None => history_line_sem(v@.subrange(lo as int, hi as int)) is None,
        },
{
    let ghost s = v@.subrange(lo as int, hi as int);
    let c1 = match find_char(v, lo, hi, ',') {
        Some(c) => c,
        None => {
            return None;
        },
    };
    proof {
        assert(s.take(c1 - lo) =~= v@.subrange(lo as int, c1 as int));
        assert(s.skip(c1 - lo + 1) =~= v@.subrange(c1 as int + 1, hi as int));
    }
    let c2 = match find_char(v, c1 + 1, hi, ',') {
        Some(c) => c,
        None => {
            return None;
        },
    };
    let ghost rest1 = s.skip(c1 - lo + 1);
    proof {
        assert(rest1.take(c2 - c1 - 1) =~= v@.subrange(c1 as int + 1, c2 as int));
        assert(rest1.skip((c2 - c1 - 1) + 1) =~= v@.subrange(c2 as int + 1, hi as int));
    }
    let c3 = match find_char(v, c2 + 1, hi, ',') {
        Some(c) => c,
        None => {
            return None;
        },
    };
    let ghost rest2 = rest1.skip(c2 - c1);
    proof {
        assert(rest2.take(c3 - c2 - 1) =~= v@.subrange(c2 as int + 1, c3 as int));
        assert(rest2.skip((c3 - c2 - 1) + 1) =~= v@.subrange(c3 as int + 1, hi as int));
    }
    let ts = match parse_i64_digits(v, c1 + 1, c2) {
        Some(ts) => ts,
        None => {
            return None;
        },
    };
    let name = string_from_chars(&subvec(v, lo, c1));
    let status = string_from_chars(&subvec(v, c2 + 1, c3));
    let error_message = string_from_chars(&subvec(v, c3 + 1, hi));
    Some(HistoryStatement { name, timestamp: ts, status, error_message })
}

/// Parses a history file's content, one record per well-formed line, in line
/// order. Malformed lines are skipped.
#[verifier::rlimit(100)]
pub fn parse_history(file_content: String) -> (r: History)
    ensures
        r@.len() == history_indices(split_lines(file_content@)).len(),
        forall|k: int|
            0 <= k < r@.len() ==> {
                let lines = split_lines(file_content@);
                let picks = history_indices(lines);
                0 <= picks[k] < lines.len() && line_entry_ok(lines[picks[k]], #[trigger] r@[k])
            },
{
    let v = chars_of(file_content.as_str());
    let n = v.len();
    let ghost lines = split_lines(file_content@);
    assert(v@.subrange(0, n as int) =~= file_content@);
    proof {
        lemma_split_lines_len(file_content@);
        assert(lines.skip(0) =~= lines);
    }
    let mut r: History = Vec::new();
    let mut pos: usize = 0;
    let ghost mut done: int = 0;
    let ghost mut picks: Seq<int> = Seq::empty();
    loop
        invariant
            pos <= n == v@.len(),
            v@ == file_content@,
            lines == split_lines(file_content@),
            0 <= done < lines.len(),
            split_lines(v@.subrange(pos as int, n as int)) =~= lines.skip(done),
            picks == history_indices(lines.take(done)),
            r@.len() == picks.len(),
            forall|k: int| 0 <= k < r@.len() ==> 0 <= #[trigger] picks[k] < done,
            forall|k: int|
                0 <= k < r@.len() ==> line_entry_ok(lines[picks[k]], #[trigger] r@[k]),
        decreases n - pos,
    {
        let ghost cur = v@.subrange(pos as int, n as int);
        let (line_end, next_pos, is_last): (usize, usize, bool) = match find_char(
            &v,
            pos,
            n,
            '\n',
        ) {
            Some(c) => (c, c + 1, false),
            None => (n, n, true),
        };
        proof {
            if !is_last {
                assert(cur.take(line_end - pos) =~= v@.subrange(pos as int, line_end as int));
                assert(cur.skip(line_end - pos + 1) =~= v@.subrange(
                    next_pos as int,
                    n as int,
                ));
            }
        }
        let stripped_end: usize = if line_end > pos && v[line_end - 1] == '\r' {
            line_end - 1
        } else {
            line_end
        };
        let ghost raw_line = if is_last {
            cur
        } else {
            cur.take(line_end - pos)
        };
        proof {
            assert(raw_line =~= v@.subrange(pos as int, line_end as int));
            assert(strip_cr(raw_line) =~= v@.subrange(pos as int, stripped_end as int));
            if is_last {
                assert(split_lines(cur) == seq![strip_cr(raw_line)]);
            } else {
                assert(split_lines(cur) == seq![strip_cr(raw_line)] + split_lines(
                    cur.skip(line_end - pos + 1),
                ));
                lemma_split_lines_len(cur.skip(line_end - pos + 1));
            }
            assert(lines.skip(done)[0] == lines[done]);
            assert(lines[done] == strip_cr(raw_line));
        }
        let ghost line = strip_cr(raw_line);
        match parse_history_line(&v, pos, stripped_end) {
            Some(e) => {
                proof {
                    lemma_history_step(lines, done, true);
                    picks = picks.push(done);
                }
                r.push(e);
            },
            None => {
                proof {
                    lemma_history_step(lines, done, false);
                }
            },
        }
        proof {
            done = done + 1;
        }
        if is_last {
            proof {
                assert(lines.skip(done - 1).len() == 1);
                assert(lines.take(done) =~= lines);
            }
            return r;
        }
        proof {
            assert(done < lines.len()) by {
                assert(lines.skip(done - 1).len() >= 2);
            }
            assert(split_lines(v@.subrange(next_pos as int, n as int)) =~= lines.skip(done)) by {
                assert(lines.skip(done - 1).skip(1) =~= lines.skip(done));
            }
        }
        pos = next_pos;
    }
}

proof fn lemma_history_step(lines: Seq<Seq<char>>, i: int, ok: bool)
    requires
        0 <= i < lines.len(),
        ok == (history_line_sem(lines[i]) is Some),
    ensures
        history_indices(lines.take(i + 1)) == if ok {
            history_indices(lines.take(i)).push(i)
        } else {
            history_indices(lines.take(i))
        },
{
    assert(lines.take(i + 1).drop_last() =~= lines.take(i));
    assert(lines.take(i + 1).last() == lines[i]);
}

} // verus!
