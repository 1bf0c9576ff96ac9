use job_scheduler::calendar::DateTime;
use job_scheduler::editor::{App, Input, InputMode, JobList, State};
use job_scheduler::{parse_jobs, Job};

fn dt(year: u32, month: u32, day: u32, hour: u32, minute: u32) -> DateTime {
    DateTime { year, month, day, hour, minute }
}

fn input_of(text: &str) -> Input {
    let mut i = Input::new();
    for c in text.chars() {
        i.enter_char(c);
    }
    i
}

#[test]
fn entering_characters_moves_the_cursor() {
    let i = input_of("abc");
    assert_eq!(i.input, vec!['a', 'b', 'c']);
    assert_eq!(i.cursor_position, 3);
    assert_eq!(i.input_mode, InputMode::Normal);
}

#[test]
fn cursor_movement_is_clamped() {
    let mut i = input_of("ab");
    i.move_cursor_right();
    assert_eq!(i.cursor_position, 2);
    i.move_cursor_left();
    i.move_cursor_left();
    i.move_cursor_left();
    assert_eq!(i.cursor_position, 0);
    assert_eq!(i.clamp_cursor(17), 2);
}

#[test]
fn backspace_removes_before_the_cursor() {
    let mut i = input_of("abc");
    i.backspace_char();
    assert_eq!(i.input, vec!['a', 'b']);
    assert_eq!(i.cursor_position, 2);
    i.reset_cursor();
    i.backspace_char();
    assert_eq!(i.input, vec!['a', 'b']);
}

#[test]
fn delete_removes_under_the_cursor() {
    let mut i = input_of("abc");
    i.reset_cursor();
    i.delete_char();
    assert_eq!(i.input, vec!['b', 'c']);
    assert_eq!(i.cursor_position, 0);
    let mut j = input_of("x");
    j.delete_char();
    assert_eq!(j.input, vec!['x']);
}

#[test]
fn insertion_happens_at_the_cursor() {
    let mut i = input_of("ac");
    i.move_cursor_left();
    i.enter_char('b');
    assert_eq!(i.input, vec!['a', 'b', 'c']);
}

#[test]
fn selection_cycles_forward_and_back() {
    let mut l: JobList<u32> = JobList::with_items(vec![10, 20, 30]);
    assert_eq!(l.selected, Some(0));
    l.next();
    l.next();
    assert_eq!(l.selected, Some(2));
    l.next();
    assert_eq!(l.selected, Some(0));
    l.previous();
    assert_eq!(l.selected, Some(2));
    l.previous();
    assert_eq!(l.selected, Some(1));

    let mut empty: JobList<u32> = JobList::with_items(vec![]);
    assert_eq!(empty.selected, None);
    empty.next();
    assert_eq!(empty.selected, None);
}

#[test]
fn appending_a_job_selects_it() {
    let from = dt(2024, 5, 1, 0, 0);
    let jobs: Vec<Job> = parse_jobs("one: 0 1 * * * echo one".to_string(), &from);
    let mut app = App::new(Vec::new(), jobs);
    assert_eq!(app.current_state, State::NotEditing);
    app.name_input = input_of("two");
    app.cron_input = input_of("0 2 * * * echo two");
    assert_eq!(app.append_job(&from), Some(()));
    assert_eq!(app.jobs.items.len(), 2);
    assert_eq!(app.jobs.selected, Some(1));
    assert_eq!(app.jobs.items[1].name, "two");

    // a rejected line changes nothing
    app.cron_input = input_of("nonsense");
    assert_eq!(app.append_job(&from), None);
    assert_eq!(app.jobs.items.len(), 2);
}

#[test]
fn modifying_replaces_the_selected_job() {
    let from = dt(2024, 5, 1, 0, 0);
    let jobs = parse_jobs("one: 0 1 * * * echo one\ntwo: 0 2 * * * echo two".to_string(), &from);
    let mut app = App::new(Vec::new(), jobs);
    app.jobs.next();
    app.name_input = input_of("two-renamed");
    app.cron_input = input_of("30 2 * * * echo two");
    assert_eq!(app.modify_job(&from), Some(()));
    assert_eq!(app.jobs.items.len(), 2);
    assert_eq!(app.jobs.items[1].name, "two-renamed");
    assert_eq!(app.jobs.items[1].next_run, dt(2024, 5, 1, 2, 30));
}

#[test]
fn deleting_moves_the_selection_back() {
    let from = dt(2024, 5, 1, 0, 0);
    let jobs = parse_jobs("one: 0 1 * * * echo one\ntwo: 0 2 * * * echo two".to_string(), &from);
    let mut app = App::new(Vec::new(), jobs);
    app.jobs.next();
    app.delete_job();
    assert_eq!(app.jobs.items.len(), 1);
    assert_eq!(app.jobs.selected, Some(0));
    app.delete_job();
    assert_eq!(app.jobs.items.len(), 0);
    assert_eq!(app.jobs.selected, None);
}

#[test]
fn selected_job_as_strings_joins_cron_and_command() {
    let from = dt(2024, 5, 1, 0, 0);
    let jobs = parse_jobs("one: 0 1 * * * echo one".to_string(), &from);
    let app = App::new(Vec::new(), jobs);
    let (name, rest) = app.get_selected_job_as_strings();
    assert_eq!(name, "one");
    assert_eq!(rest, "0 1 * * * echo one");
}
