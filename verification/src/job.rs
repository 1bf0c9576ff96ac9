//! Jobs and the job definition lines that produce them.
//!
//! A job definition line reads `name: <5-field cron expression> <command>`:
//! a nonempty name of letters, underscores and hyphens, optional blanks, a
//! colon, optional blanks, the five space-separated cron fields, a space, and
//! the command (the rest of the line, leading blanks dropped). A line that
//! does not follow this shape, or whose schedule does not parse or never
//! fires, is rejected individually; the other lines still load.

use vstd::prelude::*;

use crate::calendar::{DateTime, MAX_YEAR};
use crate::chars::{
    chars_of, find_char, find_nth, first_index, leading_blanks, lemma_leading_blanks,
    lemma_nth_index_bounds, lemma_trimmed_len, nth_index, skip_blanks, string_from_chars, subvec,
    trim_end_blanks, trimmed_len,
};
use crate::errors::CronError;
use crate::parser::{ScheduleSpec, cron_err, cron_parse_ok, parse};
use crate::schedule::{
    LOOP_LIMIT, lemma_ok_not_unsat, next_run_at, next_run_found, next_run_ok, next_run_unsat,
    nth_candidate,
};

verus! {

/// A job name character: a letter, an underscore or a hyphen.
pub open spec fn is_name_char(c: char) -> bool {
    ||| (97 <= c as u32 && c as u32 <= 122)
    ||| (65 <= c as u32 && c as u32 <= 90)
    ||| c == '_'
    ||| c == '-'
}

pub open spec fn all_name_chars(s: Seq<char>) -> bool {
    forall|i: int| 0 <= i < s.len() ==> is_name_char(#[trigger] s[i])
}

/// The three parts of a job definition line: name, schedule text, command.
/// `None` when the line does not follow the shape described above.
pub open spec fn job_line_sem(s: Seq<char>) -> Option<(Seq<char>, Seq<char>, Seq<char>)> {
    let ci = first_index(s, ':');
    if ci < 0 {
        None
    } else {
        let raw_name = s.take(ci);
        let name = raw_name.take(trimmed_len(raw_name));
        let after = s.skip(ci + 1);
        let rest = after.skip(leading_blanks(after));
        let c5 = nth_index(rest, ' ', 5);
        if name.len() == 0 || !all_name_chars(name) {
            None
        } else if c5 < 0 {
            None
        } else {
            let cron = rest.take(c5);
            let tail = rest.skip(c5 + 1);
            let command = tail.skip(leading_blanks(tail));
            if command.len() == 0 {
                None
            } else {
                Some((name, cron, command))
            }
        }
    }
}

/// A named command with its parsed schedule and cached next firing instant.
#[derive(Debug, Clone, PartialEq, Eq)]
pub struct Job {
    pub name: String,
    pub cron: String,
    pub schedule: ScheduleSpec,
    pub command: String,
    pub next_run: DateTime,
}

impl Job {
    /// The schedule is well formed, was parsed from the stored schedule text,
    /// and the cached instant is a valid instant.
    pub open spec fn wf(&self) -> bool {
        &&& self.schedule.wf()
        &&& self.next_run.wf()
        &&& cron_parse_ok(self.schedule, self.cron@)
    }

    /// Builds a job from its parts, computing the first firing instant at or
    /// after `from`. Fails with the parse error of a bad schedule text, or
    /// with `ScheduleUnsatisfiable` when the search exhausts its budget.
    pub fn new(name: String, cron: String, command: String, from: &DateTime) -> (r: Result<
        Job,
        CronError,
    >)
        requires
            from.wf(),
            from.year + 130 <= MAX_YEAR,
        ensures
            match r {
                Ok(j) => {
                    &&& j.name == name
                    &&& j.cron == cron
                    &&& j.command == command
                    &&& j.wf()
                    &&& cron_err(cron@) is None
                    &&& next_run_found(j.schedule, *from, j.next_run)
                    &&& next_run_ok(cron@, *from, j.next_run)
                },
                Err(e) => match cron_err(cron@) {
                    Some(pe) => e == pe,
                    None => e == CronError::ScheduleUnsatisfiable && next_run_unsat(cron@, *from),
                },
            },
    {
        let schedule = match parse(cron.as_str()) {
            Ok(sp) => sp,
            Err(e) => {
                return Err(e);
            },
        };
        match next_run_at(&schedule, from) {
            Ok(next_run) => {
                assert(cron_parse_ok(schedule, cron@));
                Ok(Job { name, cron, schedule, command, next_run })
            },
            Err(e) => {
                assert(cron_parse_ok(schedule, cron@));
                Err(e)
            },
        }
    }

    /// Recomputes the cached next firing instant from `now` on. On failure
    /// the job is unchanged and the schedule has no instant within the probe
    /// budget.
    pub fn get_next_run(&mut self, now: &DateTime) -> (r: Result<(), CronError>)
        requires
            old(self).wf(),
            now.wf(),
            now.year + 130 <= MAX_YEAR,
        ensures
            final(self).name == old(self).name,
            final(self).cron == old(self).cron,
            final(self).schedule == old(self).schedule,
            final(self).command == old(self).command,
            match r {
                Ok(()) => final(self).wf() && next_run_found(
                    old(self).schedule,
                    *now,
                    final(self).next_run,
                ),
                Err(e) => {
                    &&& e == CronError::ScheduleUnsatisfiable
                    &&& *final(self) == *old(self)
                    &&& (forall|n: nat|
                        n <= LOOP_LIMIT ==> !crate::schedule::fires_at(
                            old(self).schedule,
                            #[trigger] nth_candidate(old(self).schedule, *now, n),
                        ))
                },
            },
    {
        match next_run_at(&self.schedule, now) {
            Ok(next_run) => {
                self.next_run = next_run;
                Ok(())
            },
            Err(e) => Err(e),
        }
    }
}

/// The line yields this job: the line's parts are the job's fields, the
/// schedule text parses, and the cached instant is the next firing instant at
/// or after `from`.
pub open spec fn line_job_ok(line: Seq<char>, from: DateTime, j: Job) -> bool {
    &&& job_line_sem(line) matches Some((n, c, cmd)) && j.name@ == n && j.cron@ == c
        && j.command@ == cmd
    &&& j.wf()
    &&& cron_err(j.cron@) is None
    &&& next_run_ok(j.cron@, from, j.next_run)
}

/// The line is rejected: it does not follow the job line shape, its schedule
/// text does not parse, or the schedule has no instant within the budget.
pub open spec fn line_rejected(line: Seq<char>, from: DateTime) -> bool {
    match job_line_sem(line) {
        None => true,
        Some((n, c, cmd)) => cron_err(c) is Some || next_run_unsat(c, from),
    }
}

/// Parses one job definition line; `None` exactly on rejected lines.
pub fn parse_job(content: &str, from: &DateTime) -> (r: Option<Job>)
    requires
        from.wf(),
        from.year + 130 <= MAX_YEAR,
    ensures
        match r {
            Some(j) => line_job_ok(content@, *from, j),
            None => line_rejected(content@, *from),
        },
{
    let v = chars_of(content);
    let n = v.len();
    assert(v@.subrange(0, n as int) =~= content@);
    parse_job_vec(&v, 0, n, from)
}

/// Parses one job definition line held in `v[lo..hi]`.
fn parse_job_vec(v: &Vec<char>, lo: usize, hi: usize, from: &DateTime) -> (r: Option<Job>)
    requires
        lo <= hi <= v@.len(),
        from.wf(),
        from.year + 130 <= MAX_YEAR,
    ensures
        match r {
            Some(j) => line_job_ok(v@.subrange(lo as int, hi as int), *from, j),
            None => line_rejected(v@.subrange(lo as int, hi as int), *from),
        },
{
    let ghost s = v@.subrange(lo as int, hi as int);
    let ci = match find_char(v, lo, hi, ':') {
        Some(ci) => ci,
        None => {
            return None;
        },
    };
    let ghost raw_name = s.take(ci - lo);
    proof {
        assert(raw_name =~= v@.subrange(lo as int, ci as int));
    }
    let name_end = trim_end_blanks(v, lo, ci);
    let ghost name = raw_name.take(trimmed_len(raw_name));
    proof {
        lemma_trimmed_len(raw_name);
        assert(name =~= v@.subrange(lo as int, name_end as int));
    }
    if name_end == lo {
        return None;
    }
    // every name character must be a letter, an underscore or a hyphen
    let mut i: usize = lo;
    #[verifier::loop_isolation(false)]
    while i < name_end
        invariant
            lo <= i <= name_end <= v@.len(),
            name == v@.subrange(lo as int, name_end as int),
            forall|j: int| 0 <= j < i - lo ==> is_name_char(#[trigger] name[j]),
        decreases name_end - i,
    {
        let c = v[i];
        let cv = c as u32;
        let ok = (97 <= cv && cv <= 122) || (65 <= cv && cv <= 90) || c == '_' || c == '-';
        if !ok {
            assert(!is_name_char(name[i - lo]));
            return None;
        }
        assert(is_name_char(name[i - lo]));
        i = i + 1;
    }
    assert(all_name_chars(name));

    let ghost after = s.skip(ci - lo + 1);
    proof {
        assert(after =~= v@.subrange(ci as int + 1, hi as int));
    }
    let rest_start = skip_blanks(v, ci + 1, hi);
    let ghost rest = after.skip(leading_blanks(after));
    proof {
        lemma_leading_blanks(after);
        assert(rest =~= v@.subrange(rest_start as int, hi as int));
    }
    let c5 = match find_nth(v, rest_start, hi, ' ', 5) {
        Some(c5) => c5,
        None => {
            return None;
        },
    };
    proof {
        lemma_nth_index_bounds(rest, ' ', 5);
    }
    let ghost cron_s = rest.take(c5 - rest_start);
    let ghost tail = rest.skip(c5 - rest_start + 1);
    proof {
        assert(cron_s =~= v@.subrange(rest_start as int, c5 as int));
        assert(tail =~= v@.subrange(c5 as int + 1, hi as int));
    }
    let cmd_start = skip_blanks(v, c5 + 1, hi);
    let ghost command_s = tail.skip(leading_blanks(tail));
    proof {
        lemma_leading_blanks(tail);
        assert(command_s =~= v@.subrange(cmd_start as int, hi as int));
    }
    if cmd_start == hi {
        return None;
    }
    assert(job_line_sem(s) == Some((name, cron_s, command_s)));

    let name_chars = subvec(v, lo, name_end);
    let cron_chars = subvec(v, rest_start, c5);
    let cmd_chars = subvec(v, cmd_start, hi);
    let name_str = string_from_chars(&name_chars);
    let cron_str = string_from_chars(&cron_chars);
    let cmd_str = string_from_chars(&cmd_chars);
    match Job::new(name_str, cron_str, cmd_str, from) {
        Ok(j) => Some(j),
        Err(e) => None,
    }
}

/// One carriage return at a line's end (a Windows line ending) is dropped.
pub open spec fn strip_cr(s: Seq<char>) -> Seq<char> {
    if s.len() > 0 && s.last() == '\r' {
        s.drop_last()
    } else {
        s
    }
}

/// The lines of a text, split on line feeds, each without a trailing
/// carriage return.
pub open spec fn split_lines(s: Seq<char>) -> Seq<Seq<char>>
    decreases s.len(),
{
    let c = first_index(s, '\n');
    if 0 <= c < s.len() {
        seq![strip_cr(s.take(c))] + split_lines(s.skip(c + 1))
    } else {
        seq![strip_cr(s)]
    }
}

pub proof fn lemma_split_lines_len(s: Seq<char>)
    ensures
        split_lines(s).len() >= 1,
{
}

/// The indices of the lines a load from `from` accepts, in line order.
pub open spec fn accepted_indices(lines: Seq<Seq<char>>, from: DateTime) -> Seq<int>
    decreases lines.len(),
{
    if lines.len() == 0 {
        Seq::empty()
    } else if line_rejected(lines.last(), from) {
        accepted_indices(lines.drop_last(), from)
    } else {
        accepted_indices(lines.drop_last(), from).push(lines.len() - 1)
    }
}

/// Loads jobs from a job definition file's content, one line each.
///
/// Rejected lines are skipped; they never abort loading of the valid ones.
/// The result holds exactly one job per accepted line, in line order, each
/// produced by its own line.
#[verifier::rlimit(100)]
pub fn parse_jobs(file_content: String, from: &DateTime) -> (r: Vec<Job>)
    requires
        from.wf(),
        from.year + 130 <= MAX_YEAR,
    ensures
        r@.len() == accepted_indices(split_lines(file_content@), *from).len(),
        forall|k: int|
            0 <= k < r@.len() ==> {
                let lines = split_lines(file_content@);
                let picks = accepted_indices(lines, *from);
                0 <= picks[k] < lines.len() && line_job_ok(lines[picks[k]], *from, #[trigger] r@[k])
            },
{
    let v = chars_of(file_content.as_str());
    let n = v.len();
    let ghost lines = split_lines(file_content@);
    assert(v@.subrange(0, n as int) =~= file_content@);
    proof {
        lemma_split_lines_len(file_content@);
        assert(lines.skip(0) =~= lines);
    }
    let mut r: Vec<Job> = Vec::new();
    let mut pos: usize = 0;
    let ghost mut done: int = 0;
    let ghost mut picks: Seq<int> = Seq::empty();
    loop
        invariant
            pos <= n == v@.len(),
            v@ == file_content@,
            from.wf(),
            from.year + 130 <= MAX_YEAR,
            lines == split_lines(file_content@),
            0 <= done < lines.len(),
            split_lines(v@.subrange(pos as int, n as int)) =~= lines.skip(done),
            picks == accepted_indices(lines.take(done), *from),
            r@.len() == picks.len(),
            forall|k: int| 0 <= k < r@.len() ==> 0 <= #[trigger] picks[k] < done,
            forall|k: int|
                0 <= k < r@.len() ==> line_job_ok(lines[picks[k]], *from, #[trigger] r@[k]),
        decreases n - pos,
    {
        let ghost cur = v@.subrange(pos as int, n as int);
        let (line_end, next_pos, is_last): (usize, usize, bool) = match find_char(
            &v,
            pos,
            n,
            '\n',
        ) {
            Some(c) => (c, c + 1, false),
            None => (n, n, true),
        };
        proof {
            if !is_last {
                assert(cur.take(line_end - pos) =~= v@.subrange(pos as int, line_end as int));
                assert(cur.skip(line_end - pos + 1) =~= v@.subrange(
                    next_pos as int,
                    n as int,
                ));
            }
        }
        // drop one trailing carriage return
        let stripped_end: usize = if line_end > pos && v[line_end - 1] == '\r' {
            line_end - 1
        } else {
            line_end
        };
        let ghost raw_line = if is_last {
            cur
        } else {
            cur.take(line_end - pos)
        };
        proof {
            assert(raw_line =~= v@.subrange(pos as int, line_end as int));
            assert(strip_cr(raw_line) =~= v@.subrange(pos as int, stripped_end as int));
            if is_last {
                assert(split_lines(cur) == seq![strip_cr(raw_line)]);
            } else {
                assert(split_lines(cur) == seq![strip_cr(raw_line)] + split_lines(
                    cur.skip(line_end - pos + 1),
                ));
                lemma_split_lines_len(cur.skip(line_end - pos + 1));
            }
            assert(lines.skip(done)[0] == lines[done]);
            assert(lines[done] == strip_cr(raw_line));
        }
        let ghost line = strip_cr(raw_line);
        match parse_job_vec(&v, pos, stripped_end, from) {
            Some(j) => {
                proof {
                    assert(!line_rejected(line, *from)) by {
                        lemma_ok_not_unsat(j.cron@, *from, j.next_run);
                    }
                    lemma_accept_step(lines, done, *from, false);
                    picks = picks.push(done);
                }
                r.push(j);
            },
            None => {
                proof {
                    lemma_accept_step(lines, done, *from, true);
                }
            },
        }
        proof {
            done = done + 1;
        }
        if is_last {
            proof {
                assert(lines.skip(done - 1).len() == 1);
                assert(lines.take(done) =~= lines);
            }
            return r;
        }
        proof {
            assert(done < lines.len()) by {
                assert(lines.skip(done - 1).len() >= 2);
            }
            assert(split_lines(v@.subrange(next_pos as int, n as int)) =~= lines.skip(done)) by {
                assert(lines.skip(done - 1).skip(1) =~= lines.skip(done));
            }
        }
        pos = next_pos;
    }
}

proof fn lemma_accept_step(lines: Seq<Seq<char>>, i: int, from: DateTime, rejected: bool)
    requires
        0 <= i < lines.len(),
        rejected == line_rejected(lines[i], from),
    ensures
        accepted_indices(lines.take(i + 1), from) == if rejected {
            accepted_indices(lines.take(i), from)
        } else {
            accepted_indices(lines.take(i), from).push(i)
        },
{
    assert(lines.take(i + 1).drop_last() =~= lines.take(i));
    assert(lines.take(i + 1).last() == lines[i]);
}

/// One job rendered as a definition line, `name: cron command`.
pub open spec fn job_render(j: Job) -> Seq<char> {
    j.name@ + seq![':', ' '] + j.cron@ + seq![' '] + j.command@
}

/// The definition lines of all jobs, joined with line feeds.
pub open spec fn jobs_render(list: Seq<Job>) -> Seq<char>
    decreases list.len(),
{
    if list.len() == 0 {
        Seq::empty()
    } else if list.len() == 1 {
        job_render(list[0])
    } else {
        jobs_render(list.drop_last()) + seq!['\n'] + job_render(list.last())
    }
}

/// Renders jobs as the job definition file's content.
pub fn render_jobs(jobs: &Vec<Job>) -> (r: String)
    ensures
        r@ == jobs_render(jobs@),
{
    let mut s = String::new();
    let n = jobs.len();
    let mut i: usize = 0;
    while i < n
        invariant
            i <= n,
            n == jobs@.len(),
            s@ =~= jobs_render(jobs@.take(i as int)),
        decreases n - i,
    {
        proof {
            reveal_strlit(": ");
            reveal_strlit(" ");
            reveal_strlit("\n");
        }
        if i > 0 {
            s.append("\n");
        }
        s.append(jobs[i].name.as_str());
        s.append(": ");
        s.append(jobs[i].cron.as_str());
        s.append(" ");
        s.append(jobs[i].command.as_str());
        i = i + 1;
        proof {
            assert(jobs@.take(i as int).drop_last() =~= jobs@.take(i as int - 1));
            assert(jobs@.take(i as int).last() == jobs@[i as int - 1]);
            assert(s@ =~= jobs_render(jobs@.take(i as int)));
        }
    }
    assert(jobs@.take(n as int) =~= jobs@);
    s
}

} // verus!
