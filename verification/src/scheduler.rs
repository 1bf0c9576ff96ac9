//! The scheduling loop's state: all jobs ordered by their next firing
//! instant.
//!
//! One tick fires the earliest job: the caller waits until the job is due,
//! runs its command, and hands the outcome back to `complete_tick`, which
//! builds the history record, recomputes the job's next firing instant and
//! re-inserts it in order. A job whose schedule has become unsatisfiable is
//! removed from the active set and reported, never silently dropped; no
//! outcome ever stalls the loop for the other jobs.

use vstd::prelude::*;

use crate::calendar::{DateTime, MAX_YEAR, epoch_millis_of, minute_index_of};
use crate::errors::CronError;
use crate::history::{HistoryStatement, error_token, success_token};
use crate::job::Job;
use crate::schedule::{LOOP_LIMIT, fires_at, next_run_found, nth_candidate};

verus! {

/// What became of one attempt to run a job's command.
pub enum ExecOutcome {
    /// The command was launched and ran to completion.
    Launched { exit_zero: bool, stderr: String },
    /// The command could not be launched at all.
    LaunchFailed { message: String },
}

/// The scheduling loop's state: jobs sorted ascending by next firing instant.
pub struct SchedulerLoop {
    pub jobs: Vec<Job>,
}

impl SchedulerLoop {
    /// Every job is well formed and the vector is sorted by `next_run`.
    pub open spec fn wf(&self) -> bool {
        &&& (forall|i: int| 0 <= i < self.jobs@.len() ==> (#[trigger] self.jobs@[i]).wf())
        &&& (forall|i: int, j: int|
            0 <= i < j < self.jobs@.len() ==> self.jobs@[i].next_run.minute_index()
                <= self.jobs@[j].next_run.minute_index())
    }

    /// Orders a freshly loaded job list by next firing instant. The same jobs
    /// come out that went in.
    pub fn new(jobs: Vec<Job>) -> (r: SchedulerLoop)
        requires
            forall|i: int| 0 <= i < jobs@.len() ==> (#[trigger] jobs@[i]).wf(),
        ensures
            r.wf(),
            r.jobs@.to_multiset() == jobs@.to_multiset(),
    {
        let ghost input = jobs@;
        let mut rest = jobs;
        let mut sorted: Vec<Job> = Vec::new();
        proof {
            broadcast use vstd::seq_lib::group_to_multiset_ensures;

            assert(sorted@.to_multiset().add(rest@.to_multiset()) =~= input.to_multiset());
        }
        while rest.len() > 0
            invariant
                forall|i: int| 0 <= i < rest@.len() ==> (#[trigger] rest@[i]).wf(),
                forall|i: int| 0 <= i < sorted@.len() ==> (#[trigger] sorted@[i]).wf(),
                forall|i: int, j: int|
                    0 <= i < j < sorted@.len() ==> sorted@[i].next_run.minute_index()
                        <= sorted@[j].next_run.minute_index(),
                sorted@.to_multiset().add(rest@.to_multiset()) == input.to_multiset(),
            decreases rest@.len(),
        {
            let ghost rest_before = rest@;
            let ghost sorted_before = sorted@;
            let x = rest.remove(0);
            proof {
                broadcast use vstd::seq_lib::group_to_multiset_ensures;

                assert(rest@.to_multiset() == rest_before.to_multiset().remove(x));
                assert(rest_before.to_multiset().count(x) >= 1) by {
                    assert(rest_before.contains(x)) by {
                        assert(rest_before[0] == x);
                    }
                }
            }
            insert_job_sorted(&mut sorted, x);
            proof {
                assert(sorted@.to_multiset().add(rest@.to_multiset()) =~= input.to_multiset());
            }
        }
        proof {
            assert(sorted@.to_multiset().add(rest@.to_multiset()) =~= sorted@.to_multiset());
        }
        SchedulerLoop { jobs: sorted }
    }

    /// The job the loop fires next: the one with the smallest next firing
    /// instant, `None` only when no jobs are active. Returns its name, its
    /// command and the instant it is due.
    pub fn due_job(&self) -> (r: Option<(String, String, DateTime)>)
        requires
            self.wf(),
        ensures
            match r {
                Some(t) => {
                    &&& self.jobs@.len() > 0
                    &&& t.0 == self.jobs@[0].name
                    &&& t.1 == self.jobs@[0].command
                    &&& t.2 == self.jobs@[0].next_run
                    &&& (forall|i: int|
                        0 <= i < self.jobs@.len() ==> t.2.minute_index()
                            <= (#[trigger] self.jobs@[i]).next_run.minute_index())
                },
                None => self.jobs@.len() == 0,
            },
    {
        if self.jobs.len() == 0 {
            return None;
        }
        let j = &self.jobs[0];
        Some((j.name.clone(), j.command.clone(), j.next_run))
    }

    /// Finishes one tick after the due job's command ran (or failed to
    /// launch): builds the history record for the outcome, recomputes the
    /// job's next firing instant from `now`, and re-inserts it in order. When
    /// the recomputation exhausts its probe budget, the job is removed from
    /// the active set and the failure reported in the result's second part.
    pub fn complete_tick(&mut self, outcome: ExecOutcome, now: &DateTime) -> (r: (
        HistoryStatement,
        Option<CronError>,
    ))
        requires
            old(self).wf(),
            old(self).jobs@.len() > 0,
            now.wf(),
            now.year + 130 <= MAX_YEAR,
        ensures
            final(self).wf(),
            ({
                let fired = old(self).jobs@[0];
                let (entry, removed) = r;
                &&& entry.name == fired.name
                &&& entry.timestamp == now.epoch_millis()
                &&& match outcome {
                    ExecOutcome::Launched { exit_zero, stderr } => entry.status@ == (if exit_zero {
                        success_token()
                    } else {
                        error_token()
                    }) && entry.error_message == stderr,
                    ExecOutcome::LaunchFailed { message } => entry.status@ == error_token()
                        && entry.error_message == message,
                }
                &&& match removed {
                    None => exists|p: int, nr: DateTime|
                        {
                            &&& 0 <= p <= old(self).jobs@.len() - 1
                            &&& next_run_found(fired.schedule, *now, nr)
                            &&& final(self).jobs@ == #[trigger] old(self).jobs@.remove(0).insert(
                                p,
                                (Job { next_run: nr, ..fired }),
                            )
                        },
                    Some(e) => {
                        &&& e == CronError::ScheduleUnsatisfiable
                        &&& final(self).jobs@ == old(self).jobs@.remove(0)
                        &&& (forall|n: nat|
                            n <= LOOP_LIMIT ==> !fires_at(
                                fired.schedule,
                                #[trigger] nth_candidate(fired.schedule, *now, n),
                            ))
                    },
                }
            }),
    {
        let ghost fired_v = self.jobs@[0];
        let mut fired = self.jobs.remove(0);
        let entry_status: String = match &outcome {
            ExecOutcome::Launched { exit_zero, stderr } => {
                if *exit_zero {
                    status_success()
                } else {
                    status_error()
                }
            },
            ExecOutcome::LaunchFailed { message } => status_error(),
        };
        let entry_message: String = match outcome {
            ExecOutcome::Launched { exit_zero, stderr } => stderr,
            ExecOutcome::LaunchFailed { message } => message,
        };
        let entry = HistoryStatement {
            name: fired.name.clone(),
            timestamp: epoch_millis_of(now),
            status: entry_status,
            error_message: entry_message,
        };
        match fired.get_next_run(now) {
            Ok(()) => {
                let ghost before_insert = self.jobs@;
                let p = insert_job_sorted(&mut self.jobs, fired);
                proof {
                    assert(final(self).jobs@ == old(self).jobs@.remove(0).insert(
                        p as int,
                        (Job { next_run: fired.next_run, ..fired_v }),
                    ));
                }
                (entry, None)
            },
            Err(e) => (entry, Some(e)),
        }
    }
}

fn status_success() -> (r: String)
    ensures
        r@ == success_token(),
{
    proof {
        reveal_strlit("SUCCESS");
    }
    let r = String::from_str("SUCCESS");
    assert(r@ =~= success_token());
    r
}

fn status_error() -> (r: String)
    ensures
        r@ == error_token(),
{
    proof {
        reveal_strlit("ERROR");
    }
    let r = String::from_str("ERROR");
    assert(r@ =~= error_token());
    r
}

/// Inserts a job into a vector sorted by next firing instant, after any jobs
/// due at the same minute, and returns the insertion position.
fn insert_job_sorted(v: &mut Vec<Job>, x: Job) -> (p: usize)
    requires
        forall|i: int| 0 <= i < old(v)@.len() ==> (#[trigger] old(v)@[i]).wf(),
        forall|i: int, j: int|
            0 <= i < j < old(v)@.len() ==> old(v)@[i].next_run.minute_index()
                <= old(v)@[j].next_run.minute_index(),
        x.wf(),
    ensures
        p <= old(v)@.len(),
        final(v)@ == old(v)@.insert(p as int, x),
        forall|i: int| 0 <= i < final(v)@.len() ==> (#[trigger] final(v)@[i]).wf(),
        forall|i: int, j: int|
            0 <= i < j < final(v)@.len() ==> final(v)@[i].next_run.minute_index()
                <= final(v)@[j].next_run.minute_index(),
        final(v)@.to_multiset() == old(v)@.to_multiset().insert(x),
{
    let n = v.len();
    let mi = minute_index_of(&x.next_run);
    let mut p: usize = 0;
    loop
        invariant
            p <= n,
            n == v@.len(),
            v@ == old(v)@,
            x.wf(),
            mi == x.next_run.minute_index(),
            forall|i: int| 0 <= i < v@.len() ==> (#[trigger] v@[i]).wf(),
            forall|i: int, j: int|
                0 <= i < j < v@.len() ==> v@[i].next_run.minute_index()
                    <= v@[j].next_run.minute_index(),
            forall|j: int| 0 <= j < p ==> v@[j].next_run.minute_index() <= mi,
        ensures
            p <= n,
            forall|j: int| 0 <= j < p ==> v@[j].next_run.minute_index() <= mi,
            p < n ==> v@[p as int].next_run.minute_index() > mi,
        decreases n - p,
    {
        if p >= n {
            break ;
        }
        let cur = minute_index_of(&v[p].next_run);
        if cur > mi {
            break ;
        }
        p = p + 1;
    }
    proof {
        assert forall|j: int| p <= j < v@.len() implies v@[j].next_run.minute_index() > mi by {
            if j > p {
                assert(v@[p as int].next_run.minute_index() <= v@[j].next_run.minute_index());
            }
        }
    }
    let ghost before = v@;
    v.insert(p, x);
    assert(v@ == before.insert(p as int, x));
    proof {
        before.insert_ensures(p as int, x);
        assert forall|i: int| 0 <= i < v@.len() implies (#[trigger] v@[i]).wf() by {
            if i < p {
                assert(v@[i] == before[i]);
            } else if i > p {
                assert(v@[i] == before[i - 1]);
            }
        }
        assert forall|i: int, j: int|
            0 <= i < j < v@.len() implies v@[i].next_run.minute_index()
            <= v@[j].next_run.minute_index() by {
            if j < p {
                assert(v@[i] == before[i] && v@[j] == before[j]);
            } else if i > p {
                assert(v@[i] == before[i - 1] && v@[j] == before[j - 1]);
            } else if i < p && j == p {
                assert(v@[i] == before[i]);
            } else if i < p && j > p {
                assert(v@[i] == before[i] && v@[j] == before[j - 1]);
            } else if i == p {
                assert(v@[j] == before[j - 1]);
            }
        }
        broadcast use vstd::seq_lib::group_to_multiset_ensures;

        assert(before.insert(p as int, x) =~= before.take(p as int).push(x) + before.skip(
            p as int,
        ));
        vstd::seq_lib::lemma_multiset_commutative(before.take(p as int).push(x), before.skip(
            p as int,
        ));
        assert(before =~= before.take(p as int) + before.skip(p as int));
        vstd::seq_lib::lemma_multiset_commutative(before.take(p as int), before.skip(p as int));
        assert(v@.to_multiset() =~= before.to_multiset().insert(x));
    }
    p
}

/// How long the loop suspends before firing a job due at `due` (epoch
/// milliseconds) when the clock reads `now`: the remaining time, or nothing
/// when the instant has already passed.
pub fn wait_millis(due: i64, now: i64) -> (r: u64)
    requires
        0 <= due,
        0 <= now,
    ensures
        r == if due > now {
            due - now
        } else {
            0
        },
{
    if due > now {
        (due - now) as u64
    } else {
        0
    }
}

} // verus!
