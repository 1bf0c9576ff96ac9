use job_scheduler::calendar::{epoch_millis_of, DateTime};
use job_scheduler::command::split_command;
use job_scheduler::errors::CronError;
use job_scheduler::history::render_history_line;
use job_scheduler::job::Job;
use job_scheduler::scheduler::{wait_millis, ExecOutcome, SchedulerLoop};
use job_scheduler::{parse_history, parse_job, parse_jobs, render_jobs};

fn dt(year: u32, month: u32, day: u32, hour: u32, minute: u32) -> DateTime {
    DateTime { year, month, day, hour, minute }
}

#[test]
fn job_line_parses_into_a_job() {
    let from = dt(2024, 5, 1, 0, 0);
    let j = parse_job("backup: 5 4 * * 6 /usr/bin/backup --all", &from).unwrap();
    assert_eq!(j.name, "backup");
    assert_eq!(j.cron, "5 4 * * 6");
    assert_eq!(j.command, "/usr/bin/backup --all");
    assert_eq!(j.next_run, dt(2024, 5, 5, 4, 5));
}

#[test]
fn blanks_around_the_colon_are_accepted() {
    let from = dt(2024, 5, 1, 0, 0);
    let j = parse_job("tidy-up  :   0 12 * * * echo hi", &from).unwrap();
    assert_eq!(j.name, "tidy-up");
    assert_eq!(j.command, "echo hi");
}

#[test]
fn bad_job_lines_are_rejected() {
    let from = dt(2024, 5, 1, 0, 0);
    assert!(parse_job("no colon here", &from).is_none());
    assert!(parse_job(": 5 4 * * 6 cmd", &from).is_none());
    assert!(parse_job("bad!name: 5 4 * * 6 cmd", &from).is_none());
    assert!(parse_job("short: 5 4 * * cmd", &from).is_none());
    assert!(parse_job("outofrange: 99 4 * * 6 cmd", &from).is_none());
    assert!(parse_job("nocmd: 5 4 * * 6", &from).is_none());
    assert!(parse_job("feb: 0 0 31 2 * cmd", &from).is_none());
}

#[test]
fn bad_lines_never_abort_loading_the_rest() {
    let from = dt(2024, 5, 1, 0, 0);
    let content = "one: 0 1 * * * echo one\nbroken line\ntwo: 0 2 * * * echo two\n";
    let jobs = parse_jobs(content.to_string(), &from);
    assert_eq!(jobs.len(), 2);
    assert_eq!(jobs[0].name, "one");
    assert_eq!(jobs[1].name, "two");
    assert_eq!(jobs[1].next_run, dt(2024, 5, 1, 2, 0));
}

#[test]
fn rendered_jobs_load_back() {
    let from = dt(2024, 5, 1, 0, 0);
    let jobs = parse_jobs(
        "one: 0 1 * * * echo one\ntwo: 0 2 * * * echo two".to_string(),
        &from,
    );
    let text = render_jobs(&jobs);
    assert_eq!(text, "one: 0 1 * * * echo one\ntwo: 0 2 * * * echo two");
    let again = parse_jobs(text, &from);
    assert_eq!(again.len(), 2);
    assert_eq!(again[0].command, "echo one");
}

#[test]
fn ticks_fire_jobs_in_next_run_order() {
    let from = dt(2024, 1, 1, 0, 0);
    let a = Job::new("a".to_string(), "0 1 * * *".to_string(), "echo a".to_string(), &from)
        .unwrap();
    let b = Job::new("b".to_string(), "0 2 * * *".to_string(), "echo b".to_string(), &from)
        .unwrap();
    let c = Job::new("c".to_string(), "0 3 * * *".to_string(), "echo c".to_string(), &from)
        .unwrap();
    assert!(a.next_run == dt(2024, 1, 1, 1, 0));

    // handed over unordered, the loop still fires them in next_run order
    let mut sl = SchedulerLoop::new(vec![c, a, b]);
    let mut fired: Vec<String> = Vec::new();
    for hour in [1u32, 2, 3] {
        let (name, command, due) = sl.due_job().unwrap();
        assert_eq!(due, dt(2024, 1, 1, hour, 0));
        assert!(command.starts_with("echo"));
        let now = dt(2024, 1, 1, hour, 1);
        let (entry, removed) = sl.complete_tick(
            ExecOutcome::Launched { exit_zero: true, stderr: String::new() },
            &now,
        );
        assert_eq!(entry.name, name);
        assert_eq!(entry.status, "SUCCESS");
        assert!(removed.is_none());
        fired.push(entry.name);
    }
    assert_eq!(fired, vec!["a", "b", "c"]);
    // each job was re-inserted with a fresh next_run: the order is
    // re-established for the next day
    let (name, _, due) = sl.due_job().unwrap();
    assert_eq!(name, "a");
    assert_eq!(due, dt(2024, 1, 2, 1, 0));
    assert_eq!(sl.jobs.len(), 3);
}

#[test]
fn failed_launches_are_recorded_and_the_loop_goes_on() {
    let from = dt(2024, 1, 1, 0, 0);
    let a = Job::new("a".to_string(), "0 1 * * *".to_string(), "nosuch".to_string(), &from)
        .unwrap();
    let mut sl = SchedulerLoop::new(vec![a]);
    let now = dt(2024, 1, 1, 1, 0);
    let (entry, removed) = sl.complete_tick(
        ExecOutcome::LaunchFailed { message: "executable not found".to_string() },
        &now,
    );
    assert_eq!(entry.status, "ERROR");
    assert_eq!(entry.error_message, "executable not found");
    assert!(removed.is_none());
    assert_eq!(sl.jobs.len(), 1);

    let (entry2, _) = sl.complete_tick(
        ExecOutcome::Launched { exit_zero: false, stderr: "boom".to_string() },
        &dt(2024, 1, 2, 1, 0),
    );
    assert_eq!(entry2.status, "ERROR");
    assert_eq!(entry2.error_message, "boom");
}

#[test]
fn history_lines_round_trip() {
    let e_millis = epoch_millis_of(&dt(2024, 5, 5, 4, 5));
    let from = dt(2024, 1, 1, 0, 0);
    let job = Job::new("j".to_string(), "5 4 * * *".to_string(), "echo".to_string(), &from)
        .unwrap();
    let mut sl = SchedulerLoop::new(vec![job]);
    let (entry, _) = sl.complete_tick(
        ExecOutcome::Launched { exit_zero: true, stderr: String::new() },
        &dt(2024, 5, 5, 4, 5),
    );
    let line = render_history_line(&entry);
    assert_eq!(line, format!("j,{},SUCCESS,", e_millis));

    let parsed = parse_history(format!("{}\nnot a history line\nk,12,ERROR,oh, no\n", line));
    assert_eq!(parsed.len(), 2);
    assert_eq!(parsed[0].name, "j");
    assert_eq!(parsed[0].timestamp, e_millis);
    assert_eq!(parsed[0].status, "SUCCESS");
    assert_eq!(parsed[1].name, "k");
    assert_eq!(parsed[1].timestamp, 12);
    // the message keeps its commas: only the first three split
    assert_eq!(parsed[1].error_message, "oh, no");
}

#[test]
fn wait_is_the_remaining_time_or_nothing() {
    assert_eq!(wait_millis(1_000, 400), 600);
    assert_eq!(wait_millis(1_000, 1_000), 0);
    assert_eq!(wait_millis(1_000, 2_000), 0);
}

#[test]
fn command_tokenization_respects_quotes() {
    let words = split_command("echo \"a b\" c").unwrap();
    assert_eq!(words, vec!["echo", "a b", "c"]);
}

#[test]
fn command_tokenization_edge_cases() {
    assert_eq!(split_command("").unwrap(), Vec::<String>::new());
    assert_eq!(split_command("  one   two ").unwrap(), vec!["one", "two"]);
    assert_eq!(split_command("a\\ b").unwrap(), vec!["a b"]);
    assert_eq!(split_command("'x \"y\" z'").unwrap(), vec!["x \"y\" z"]);
    assert_eq!(split_command("\"esc \\\" quote\"").unwrap(), vec!["esc \" quote"]);
    assert_eq!(split_command("''").unwrap(), vec![""]);
    assert_eq!(split_command("\"unterminated"), None);
    assert_eq!(split_command("dangling\\"), None);
}
