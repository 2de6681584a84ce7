//! One keyboard event at a time: what it asks for, and what that does to the
//! store and to the highlighted row.
//!
//! The caller owns the terminal. It draws the store and the highlight, waits
//! for an event, hands it to [`App::handle`], rewrites the file if the store
//! is left unsaved, and goes round again until it is told to stop.

use vstd::prelude::*;
use crate::database::Database;
use crate::widgets::StatefulList;
use crate::widgets::clamped_selection;
use crate::widgets::next_selection;
use crate::widgets::previous_selection;
use crate::widgets::selection_in_range;

verus! {

/// A key of the keyboard, as far as the commands tell keys apart.
#[derive(Clone, Copy, Debug, PartialEq, Eq)]
pub enum Key {
    Char(char),
    Down,
    Up,
    Left,
    Esc,
    Other,
}

/// What happened to the key.
#[derive(Clone, Copy, Debug, PartialEq, Eq)]
pub enum KeyKind {
    Press,
    Repeat,
    Release,
}

/// An event from the terminal.
#[derive(Clone, Copy, Debug, PartialEq, Eq)]
pub enum Input {
    /// Something happened to a key.
    Key { key: Key, kind: KeyKind },
    /// Anything else: the mouse, a resize, a paste.
    Other,
}

/// What an event asks for.
#[derive(Clone, Copy, Debug, PartialEq, Eq)]
pub enum Command {
    Quit,
    Create,
    Delete,
    Next,
    Previous,
    Unselect,
    Nothing,
}

/// Whether the caller goes on to the next event.
#[derive(Clone, Copy, Debug, PartialEq, Eq)]
pub enum Flow {
    Continue,
    Quit,
}

/// The highlighted row is not a row of the store: row `index` was asked for
/// and the store has `len` records.
#[derive(Clone, Copy, Debug, PartialEq, Eq)]
pub struct StaleSelection {
    pub index: usize,
    pub len: usize,
}

/// The command that an event stands for. Only a key going down counts:
/// `q` quits, `c` creates, `d` deletes, the arrows down and up move the
/// highlight, the arrow left and escape remove it.
pub open spec fn command_of(input: Input) -> Command {
    match input {
        Input::Key { key, kind: KeyKind::Press } => match key {
            Key::Char(c) => if c == 'q' {
                Command::Quit
            } else if c == 'c' {
                Command::Create
            } else if c == 'd' {
                Command::Delete
            } else {
                Command::Nothing
            },
            Key::Down => Command::Next,
            Key::Up => Command::Previous,
            Key::Left => Command::Unselect,
            Key::Esc => Command::Unselect,
            Key::Other => Command::Nothing,
        },
        _ => Command::Nothing,
    }
}

/// The command that an event stands for.
pub fn command_for(input: Input) -> (command: Command)
    ensures
        command == command_of(input),
{
    match input {
        Input::Key { key, kind } => match kind {
            KeyKind::Press => match key {
                Key::Char('q') => Command::Quit,
                Key::Char('c') => Command::Create,
                Key::Char('d') => Command::Delete,
                Key::Down => Command::Next,
                Key::Up => Command::Previous,
                Key::Left | Key::Esc => Command::Unselect,
                _ => Command::Nothing,
            },
            _ => Command::Nothing,
        },
        Input::Other => Command::Nothing,
    }
}

/// The store and the highlight over its records.
pub struct App {
    pub db: Database,
    pub stateful_list: StatefulList,
}

impl App {
    /// The name that a record created from the keyboard gets.
    pub open spec fn placeholder_name() -> Seq<char> {
        "TestName"@
    }

    /// The secret that a record created from the keyboard gets.
    pub open spec fn placeholder_content() -> Seq<char> {
        "TestContent"@
    }

    /// Whether the highlight, if there is one, lies on a record of the store.
    pub open spec fn selection_valid(&self) -> bool {
        selection_in_range(self.stateful_list@, self.db@.records.len() as int)
    }

    /// How `after` and `outcome` follow from `before` when the highlighted
    /// record is deleted.
    ///
    /// Without a highlight nothing happens. With a highlight on row `i` of
    /// the store, the id on that row is looked up and the first record that
    /// carries it is deleted; the highlight stays on row `i` while there is
    /// one and else moves to the last row, or goes where no row is left.
    /// A highlight beyond the store changes nothing and is reported.
    pub open spec fn deletes_selected(
        before: App,
        after: App,
        outcome: Result<(), StaleSelection>,
    ) -> bool {
        match before.stateful_list.selected {
            None => outcome is Ok && after == before,
            Some(i) => if i < before.db.passwords.len() {
                &&& outcome is Ok
                &&& after.db@ == before.db@.delete(before.db@.records[i as int].id)
                &&& after.db.unsaved
                &&& after.stateful_list@ == clamped_selection(
                    Some(i as int),
                    after.db@.records.len() as int,
                )
            } else {
                &&& outcome == Err::<(), StaleSelection>(
                    StaleSelection { index: i, len: before.db.passwords.len() },
                )
                &&& after == before
            },
        }
    }

    /// Whether `after` has the records of `before` without the highlighted
    /// one, where a record was highlighted.
    pub open spec fn removes_selected_row(before: App, after: App) -> bool {
        match before.stateful_list.selected {
            Some(i) if i < before.db.passwords.len() => after.db@.records
                == before.db@.records.remove(i as int),
            _ => true,
        }
    }

    /// An application over `db` with no row highlighted.
    pub fn new(db: Database) -> (app: App)
        ensures
            app.db == db,
            app.stateful_list@ == None::<int>,
            app.selection_valid(),
    {
        App { db, stateful_list: StatefulList::new() }
    }

    /// Creates a record with the placeholder name and secret.
    pub fn create_password(&mut self)
        requires
            old(self).db.id_counter < u64::MAX,
        ensures
            final(self).db@ == old(self).db@.create(
                Self::placeholder_name(),
                Self::placeholder_content(),
            ),
            final(self).db.unsaved,
            final(self).stateful_list == old(self).stateful_list,
            old(self).selection_valid() ==> final(self).selection_valid(),
    {
        self.db.create_password("TestName".to_owned(), "TestContent".to_owned());
    }

    /// Deletes the highlighted record.
    pub fn delete_password(&mut self) -> (outcome: Result<(), StaleSelection>)
        ensures
            Self::deletes_selected(*old(self), *final(self), outcome),
            outcome is Ok ==> final(self).selection_valid(),
            old(self).selection_valid() ==> outcome is Ok,
            old(self).db@.ids_distinct() ==> Self::removes_selected_row(*old(self), *final(self)),
    {
        match self.stateful_list.selected() {
            None => Ok(()),
            Some(index) => match self.db.id_at(index) {
                None => Err(StaleSelection { index, len: self.db.passwords.len() }),
                Some(id) => {
                    proof {
                        if self.db@.ids_distinct() {
                            self.db@.lemma_delete_at(index as int);
                        }
                    }
                    self.db.delete_password(id);
                    self.stateful_list.clamp(self.db.passwords.len());
                    Ok(())
                },
            },
        }
    }

    /// Carries out what `input` asks for and says whether to go on.
    pub fn handle(&mut self, input: Input) -> (outcome: Result<Flow, StaleSelection>)
        requires
            command_of(input) is Create ==> old(self).db.id_counter < u64::MAX,
        ensures
            match command_of(input) {
                Command::Quit => outcome == Ok::<Flow, StaleSelection>(Flow::Quit) && *final(self)
                    == *old(self),
                Command::Create => {
                    &&& outcome == Ok::<Flow, StaleSelection>(Flow::Continue)
                    &&& final(self).db@ == old(self).db@.create(
                        Self::placeholder_name(),
                        Self::placeholder_content(),
                    )
                    &&& final(self).db.unsaved
                    &&& final(self).stateful_list == old(self).stateful_list
                },
                Command::Delete => {
                    &&& Self::deletes_selected(
                        *old(self),
                        *final(self),
                        match outcome {
                            Ok(_) => Ok(()),
                            Err(stale) => Err(stale),
                        },
                    )
                    &&& outcome is Ok ==> outcome == Ok::<Flow, StaleSelection>(Flow::Continue)
                },
                Command::Next => {
                    &&& outcome == Ok::<Flow, StaleSelection>(Flow::Continue)
                    &&& final(self).db == old(self).db
                    &&& final(self).stateful_list@ == next_selection(
                        old(self).stateful_list@,
                        old(self).db@.records.len() as int,
                    )
                },
                Command::Previous => {
                    &&& outcome == Ok::<Flow, StaleSelection>(Flow::Continue)
                    &&& final(self).db == old(self).db
                    &&& final(self).stateful_list@ == previous_selection(
                        old(self).stateful_list@,
                        old(self).db@.records.len() as int,
                    )
                },
                Command::Unselect => {
                    &&& outcome == Ok::<Flow, StaleSelection>(Flow::Continue)
                    &&& final(self).db == old(self).db
                    &&& final(self).stateful_list@ == None::<int>
                },
                Command::Nothing => outcome == Ok::<Flow, StaleSelection>(Flow::Continue)
                    && *final(self) == *old(self),
            },
            old(self).selection_valid() ==> outcome is Ok && final(self).selection_valid(),
            command_of(input) is Delete && old(self).db@.ids_distinct()
                ==> Self::removes_selected_row(*old(self), *final(self)),
    {
        match command_for(input) {
            Command::Quit => Ok(Flow::Quit),
            Command::Create => {
                self.create_password();
                Ok(Flow::Continue)
            },
            Command::Delete => match self.delete_password() {
                Ok(()) => Ok(Flow::Continue),
                Err(stale) => Err(stale),
            },
            Command::Next => {
                self.stateful_list.next(self.db.passwords.len());
                Ok(Flow::Continue)
            },
            Command::Previous => {
                self.stateful_list.previous(self.db.passwords.len());
                Ok(Flow::Continue)
            },
            Command::Unselect => {
                self.stateful_list.unselect();
                Ok(Flow::Continue)
            },
            Command::Nothing => Ok(Flow::Continue),
        }
    }
}

} // verus!
