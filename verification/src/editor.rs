//! The job editor's state: the selectable job list, the text-entry fields and
//! the editing modes. Only the state logic lives here; drawing and key events
//! belong to the surrounding program.

use vstd::prelude::*;

use crate::calendar::{DateTime, MAX_YEAR};
use crate::chars::string_from_chars;
use crate::history::History;
use crate::job::{Job, line_job_ok, line_rejected, parse_job};

verus! {

#[derive(PartialEq, Eq, Structural, Clone, Copy, Debug)]
pub enum InputMode {
    Normal,
    Editing,
    Error,
}

#[derive(PartialEq, Eq, Structural, Clone, Copy, Debug)]
pub enum InputSwitch {
    NameInput,
    CronInput,
}

#[derive(PartialEq, Eq, Structural, Clone, Copy, Debug)]
pub enum State {
    NotEditing,
    EditingJob,
    AddingJob(InputSwitch),
    DeletingJob,
}

/// A text-entry field: its characters, the cursor position and the mode the
/// field is displayed in.
pub struct Input {
    pub input: Vec<char>,
    pub cursor_position: usize,
    pub input_mode: InputMode,
}

impl Input {
    /// The cursor sits between characters: never past the end.
    pub open spec fn wf(&self) -> bool {
        self.cursor_position <= self.input@.len()
    }

    /// An empty field in normal mode.
    pub fn new() -> (r: Input)
        ensures
            r.input@ == Seq::<char>::empty(),
            r.cursor_position == 0,
            r.input_mode == InputMode::Normal,
            r.wf(),
    {
        Input { input: Vec::new(), cursor_position: 0, input_mode: InputMode::Normal }
    }

    /// Clamps a cursor position into the field.
    pub fn clamp_cursor(&self, new_cursor_pos: usize) -> (r: usize)
        ensures
            r == if new_cursor_pos <= self.input@.len() {
                new_cursor_pos as int
            } else {
                self.input@.len() as int
            },
    {
        if new_cursor_pos <= self.input.len() {
            new_cursor_pos
        } else {
            self.input.len()
        }
    }

    /// Moves the cursor one place left, stopping at the start.
    pub fn move_cursor_left(&mut self)
        requires
            old(self).wf(),
        ensures
            final(self).input == old(self).input,
            final(self).input_mode == old(self).input_mode,
            final(self).wf(),
            final(self).cursor_position == if old(self).cursor_position > 0 {
                old(self).cursor_position - 1
            } else {
                0int
            },
    {
        if self.cursor_position > 0 {
            self.cursor_position = self.cursor_position - 1;
        }
    }

    /// Moves the cursor one place right, stopping at the end.
    pub fn move_cursor_right(&mut self)
        requires
            old(self).wf(),
        ensures
            final(self).input == old(self).input,
            final(self).input_mode == old(self).input_mode,
            final(self).wf(),
            final(self).cursor_position == if old(self).cursor_position < old(
                self,
            ).input@.len() {
                old(self).cursor_position + 1
            } else {
                old(self).input@.len() as int
            },
    {
        if self.cursor_position < self.input.len() {
            self.cursor_position = self.cursor_position + 1;
        }
    }

    /// Inserts a character at the cursor and moves the cursor past it.
    pub fn enter_char(&mut self, new_char: char)
        requires
            old(self).wf(),
        ensures
            final(self).wf(),
            final(self).input_mode == old(self).input_mode,
            final(self).input@ == old(self).input@.insert(
                old(self).cursor_position as int,
                new_char,
            ),
            final(self).cursor_position == old(self).cursor_position + 1,
    {
        let pos = self.cursor_position;
        self.input.insert(pos, new_char);
        let len = self.input.len();
        assert(pos < len);
        self.cursor_position = pos + 1;
    }

    /// Deletes the character left of the cursor, if any, and moves the cursor
    /// back onto its place.
    pub fn backspace_char(&mut self)
        requires
            old(self).wf(),
        ensures
            final(self).wf(),
            final(self).input_mode == old(self).input_mode,
            if old(self).cursor_position > 0 {
                final(self).input@ == old(self).input@.remove(old(self).cursor_position - 1)
                    && final(self).cursor_position == old(self).cursor_position - 1
            } else {
                *final(self) == *old(self)
            },
    {
        if self.cursor_position > 0 {
            let pos = self.cursor_position - 1;
            self.input.remove(pos);
            self.cursor_position = pos;
        }
    }

    /// Deletes the character under the cursor, if any.
    pub fn delete_char(&mut self)
        requires
            old(self).wf(),
        ensures
            final(self).wf(),
            final(self).input_mode == old(self).input_mode,
            if old(self).cursor_position < old(self).input@.len() {
                final(self).input@ == old(self).input@.remove(old(self).cursor_position as int)
                    && final(self).cursor_position == old(self).cursor_position
            } else {
                *final(self) == *old(self)
            },
    {
        if self.cursor_position < self.input.len() {
            let pos = self.cursor_position;
            self.input.remove(pos);
        }
    }

    /// Puts the cursor back at the start of the field.
    pub fn reset_cursor(&mut self)
        ensures
            final(self).input == old(self).input,
            final(self).input_mode == old(self).input_mode,
            final(self).cursor_position == 0,
    {
        self.cursor_position = 0;
    }
}

/// A selectable list: its items and the index of the selected one, if any.
pub struct JobList<T> {
    pub items: Vec<T>,
    pub selected: Option<usize>,
}

impl<T> JobList<T> {
    /// A selection always points at an item.
    pub open spec fn wf(&self) -> bool {
        self.selected matches Some(i) ==> i < self.items@.len()
    }

    /// Builds a list with the first item selected (nothing when empty).
    pub fn with_items(items: Vec<T>) -> (r: JobList<T>)
        ensures
            r.items@ == items@,
            r.wf(),
            r.selected == if items@.len() > 0 {
                Some(0usize)
            } else {
                None::<usize>
            },
    {
        let mut list = JobList { items, selected: None };
        list.next();
        list
    }

    /// Selects the next item, wrapping to the first past the end.
    pub fn next(&mut self)
        requires
            old(self).wf(),
        ensures
            final(self).items == old(self).items,
            final(self).wf(),
            final(self).selected == if old(self).items@.len() == 0 {
                None::<usize>
            } else {
                match old(self).selected {
                    None => Some(0usize),
                    Some(i) => Some(
                        if i + 1 >= old(self).items@.len() {
                            0usize
                        } else {
                            (i + 1) as usize
                        },
                    ),
                }
            },
    {
        if self.items.len() == 0 {
            self.selected = None;
            return ;
        }
        let i = match self.selected {
            Some(i) => {
                if i >= self.items.len() - 1 {
                    0
                } else {
                    i + 1
                }
            },
            None => 0,
        };
        self.selected = Some(i);
    }

    /// Selects the previous item, wrapping to the last before the first.
    pub fn previous(&mut self)
        requires
            old(self).wf(),
        ensures
            final(self).items == old(self).items,
            final(self).wf(),
            final(self).selected == if old(self).items@.len() == 0 {
                None::<usize>
            } else {
                match old(self).selected {
                    None => Some(0usize),
                    Some(i) => Some(
                        if i == 0 {
                            (old(self).items@.len() - 1) as usize
                        } else {
                            (i - 1) as usize
                        },
                    ),
                }
            },
    {
        if self.items.len() == 0 {
            self.selected = None;
            return ;
        }
        let i = match self.selected {
            Some(i) => {
                if i == 0 {
                    self.items.len() - 1
                } else {
                    i - 1
                }
            },
            None => 0,
        };
        self.selected = Some(i);
    }
}

/// The editor's whole state.
pub struct App {
    pub jobs: JobList<Job>,
    pub history: History,
    pub name_input: Input,
    pub cron_input: Input,
    pub current_state: State,
}

/// The job definition line the editor's two fields describe: the name field,
/// a colon and a space, then the schedule-and-command field.
pub open spec fn job_input_line(app: App) -> Seq<char> {
    app.name_input.input@ + seq![':', ' '] + app.cron_input.input@
}

impl App {
    pub open spec fn wf(&self) -> bool {
        &&& self.jobs.wf()
        &&& self.name_input.wf()
        &&& self.cron_input.wf()
        &&& (forall|i: int|
            0 <= i < self.jobs.items@.len() ==> (#[trigger] self.jobs.items@[i]).wf())
    }

    /// A fresh editor over the given history and jobs, not editing anything.
    pub fn new(history: History, jobs: Vec<Job>) -> (r: App)
        ensures
            r.jobs.items@ == jobs@,
            r.history == history,
            r.current_state == State::NotEditing,
            (forall|i: int| 0 <= i < jobs@.len() ==> (#[trigger] jobs@[i]).wf()) ==> r.wf(),
    {
        App {
            jobs: JobList::with_items(jobs),
            history,
            name_input: Input::new(),
            cron_input: Input::new(),
            current_state: State::NotEditing,
        }
    }

    /// The selected job's name, schedule text and command, cloned.
    pub fn get_selected_job(&self) -> (r: Option<(String, String, String)>)
        requires
            self.wf(),
        ensures
            match r {
                Some(t) => {
                    &&& self.jobs.selected matches Some(i)
                    &&& t.0 == self.jobs.items@[self.jobs.selected.unwrap() as int].name
                    &&& t.1 == self.jobs.items@[self.jobs.selected.unwrap() as int].cron
                    &&& t.2 == self.jobs.items@[self.jobs.selected.unwrap() as int].command
                },
                None => self.jobs.selected is None,
            },
    {
        match self.selected_index() {
            Some(i) => {
                let name = self.jobs.items[i].name.clone();
                let cron = self.jobs.items[i].cron.clone();
                let command = self.jobs.items[i].command.clone();
                Some((name, cron, command))
            },
            None => None,
        }
    }

    fn selected_index(&self) -> (r: Option<usize>)
        requires
            self.wf(),
        ensures
            r == self.jobs.selected,
            r matches Some(i) ==> i < self.jobs.items@.len(),
    {
        match self.jobs.selected {
            Some(i) => Some(i),
            None => None,
        }
    }

    /// The selected job as the editor's two field texts: the name, and the
    /// schedule text and command joined by a space. Empty texts when nothing
    /// is selected.
    pub fn get_selected_job_as_strings(&self) -> (r: (String, String))
        requires
            self.wf(),
        ensures
            match self.jobs.selected {
                Some(i) => r.0@ == self.jobs.items@[i as int].name@ && r.1@
                    == self.jobs.items@[i as int].cron@ + seq![' ']
                    + self.jobs.items@[i as int].command@,
                None => r.0@ == Seq::<char>::empty() && r.1@ == Seq::<char>::empty(),
            },
    {
        proof {
            reveal_strlit(" ");
            reveal_strlit("");
        }
        match self.get_selected_job() {
            Some((name, cron, command)) => {
                let mut text = cron;
                text.append(" ");
                text.append(command.as_str());
                let ghost i = self.jobs.selected.unwrap() as int;
                assert(text@ =~= self.jobs.items@[i].cron@ + seq![' ']
                    + self.jobs.items@[i].command@);
                (name, text)
            },
            None => (String::from_str(""), String::from_str("")),
        }
    }

    /// Appends the job the two input fields describe, selecting it; rejected
    /// input leaves the editor unchanged.
    pub fn append_job(&mut self, from: &DateTime) -> (r: Option<()>)
        requires
            old(self).wf(),
            from.wf(),
            from.year + 130 <= MAX_YEAR,
        ensures
            final(self).wf(),
            final(self).name_input == old(self).name_input,
            final(self).cron_input == old(self).cron_input,
            final(self).history == old(self).history,
            final(self).current_state == old(self).current_state,
            match r {
                Some(_) => exists|j: Job|
                    {
                        &&& #[trigger] line_job_ok(job_input_line(*old(self)), *from, j)
                        &&& final(self).jobs.items@ == old(self).jobs.items@.push(j)
                        &&& final(self).jobs.selected == Some(
                            old(self).jobs.items@.len() as usize,
                        )
                    },
                None => line_rejected(job_input_line(*old(self)), *from) && *final(self) == *old(
                    self,
                ),
            },
    {
        proof {
            reveal_strlit(": ");
        }
        let mut line = string_from_chars(&self.name_input.input);
        line.append(": ");
        let tail = string_from_chars(&self.cron_input.input);
        line.append(tail.as_str());
        assert(line@ =~= job_input_line(*self));
        match parse_job(line.as_str(), from) {
            Some(new_job) => {
                self.jobs.items.push(new_job);
                let sel = self.jobs.items.len() - 1;
                self.jobs.selected = Some(sel);
                Some(())
            },
            None => None,
        }
    }

    /// Replaces the selected job with the one the input fields describe;
    /// rejected input leaves the editor unchanged.
    pub fn modify_job(&mut self, from: &DateTime) -> (r: Option<()>)
        requires
            old(self).wf(),
            old(self).jobs.selected is Some,
            from.wf(),
            from.year + 130 <= MAX_YEAR,
        ensures
            final(self).wf(),
            final(self).name_input == old(self).name_input,
            final(self).cron_input == old(self).cron_input,
            final(self).history == old(self).history,
            final(self).current_state == old(self).current_state,
            final(self).jobs.selected == old(self).jobs.selected,
            match r {
                Some(_) => exists|j: Job|
                    {
                        &&& #[trigger] line_job_ok(job_input_line(*old(self)), *from, j)
                        &&& final(self).jobs.items@ == old(self).jobs.items@.update(
                            old(self).jobs.selected.unwrap() as int,
                            j,
                        )
                    },
                None => line_rejected(job_input_line(*old(self)), *from) && *final(self) == *old(
                    self,
                ),
            },
    {
        proof {
            reveal_strlit(": ");
        }
        let mut line = string_from_chars(&self.name_input.input);
        line.append(": ");
        let tail = string_from_chars(&self.cron_input.input);
        line.append(tail.as_str());
        assert(line@ =~= job_input_line(*self));
        match parse_job(line.as_str(), from) {
            Some(modified_job) => {
                let index = match self.jobs.selected {
                    Some(i) => i,
                    None => {
                        return None;
                    },
                };
                self.jobs.items.set(index, modified_job);
                Some(())
            },
            None => None,
        }
    }

    /// Removes the selected job, moving the selection to the previous one
    /// (or clearing it at the start of the list). No selection: no change.
    pub fn delete_job(&mut self)
        requires
            old(self).wf(),
        ensures
            final(self).wf(),
            final(self).name_input == old(self).name_input,
            final(self).cron_input == old(self).cron_input,
            final(self).history == old(self).history,
            final(self).current_state == old(self).current_state,
            match old(self).jobs.selected {
                Some(i) => {
                    &&& final(self).jobs.items@ == old(self).jobs.items@.remove(i as int)
                    &&& final(self).jobs.selected == if i > 0 {
                        Some((i - 1) as usize)
                    } else {
                        None::<usize>
                    }
                },
                None => *final(self) == *old(self),
            },
    {
        if let Some(index) = self.jobs.selected {
            self.jobs.items.remove(index);
            if index > 0 {
                self.jobs.selected = Some(index - 1);
            } else {
                self.jobs.selected = None;
            }
        }
    }
}

} // verus!
