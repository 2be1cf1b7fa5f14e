//! The commands of the tracker and what each does to a store.
//!
//! One run of the tracker reads the stored document, if there is one,
//! applies one command and writes the whole store back. Reading and writing
//! the file is the caller's part; what lies between is [`run`].

use crate::date::Date;
use crate::habit::{DeserializationError, Habit, HabitView, Habits, HabitsView};
use crate::json::pretty_text;
use vstd::prelude::*;

verus! {

/// A command of the tracker.
#[derive(Debug)]
pub enum Command {
    /// Start tracking a habit of this name, from today on.
    New { name: String },
    /// Mark the habit of this name as completed on a date.
    Done { name: String, date: Date },
}

/// What a command is.
pub enum CommandView {
    New { name: Seq<char> },
    Done { name: Seq<char>, date: Date },
}

impl View for Command {
    type V = CommandView;

    open spec fn view(&self) -> CommandView {
        match *self {
            Command::New { name } => CommandView::New { name: name@ },
            Command::Done { name, date } => CommandView::Done { name: name@, date },
        }
    }
}

/// How a command ended.
#[derive(Clone, Copy, Debug, PartialEq, Eq, Structural)]
pub enum Outcome {
    /// A habit was added to the store.
    Created,
    /// A completion date was recorded.
    Completed,
    /// The store has no habit of the name; it stays as it was.
    HabitNotFound,
    /// The date is earlier than the habit's start date; the store stays as
    /// it was.
    InvalidCompletionDate,
}

impl Outcome {
    /// The exit code of a run that ended this way.
    pub open spec fn code(self) -> u8 {
        match self {
            Outcome::Created => 0,
            Outcome::Completed => 0,
            Outcome::InvalidCompletionDate => 1,
            Outcome::HabitNotFound => 2,
        }
    }

    /// The exit code of a run that ended this way: 0 where the command took
    /// effect, 1 for a refused date, 2 for a habit that was not found.
    pub fn exit_code(&self) -> (code: u8)
        ensures
            code == self.code(),
    {
        match self {
            Outcome::Created => 0,
            Outcome::Completed => 0,
            Outcome::InvalidCompletionDate => 1,
            Outcome::HabitNotFound => 2,
        }
    }
}

impl HabitsView {
    /// The store with one more habit at its end, named `name`, starting on
    /// `start_date` and never completed.
    pub open spec fn created(self, name: Seq<char>, start_date: Date) -> HabitsView {
        HabitsView {
            habits: self.habits.push(HabitView { name, start_date, completed_on: Set::empty() }),
        }
    }

    /// The store after the first habit named `name` was marked as completed
    /// on `date`, and how that ended.
    pub open spec fn completed(self, name: Seq<char>, date: Date) -> (HabitsView, Outcome) {
        match self.position(name) {
            None => (self, Outcome::HabitNotFound),
            Some(i) => if date.before(self.habits[i].start_date) {
                (self, Outcome::InvalidCompletionDate)
            } else {
                (
                    HabitsView {
                        habits: self.habits.update(i, self.habits[i].with_completion(date)),
                    },
                    Outcome::Completed,
                )
            },
        }
    }

    /// The store after a command, where today is `today`, and how the
    /// command ended.
    pub open spec fn applied(self, command: CommandView, today: Date) -> (HabitsView, Outcome) {
        match command {
            CommandView::New { name } => (self.created(name, today), Outcome::Created),
            CommandView::Done { name, date } => self.completed(name, date),
        }
    }

    /// The store that a run starts from: the one that the stored document
    /// holds, or an empty one where nothing is stored yet.
    pub open spec fn loaded(stored: Option<Seq<char>>) -> Result<HabitsView, DeserializationError> {
        match stored {
            Some(text) => HabitsView::from_text(text),
            None => Ok(HabitsView { habits: Seq::empty() }),
        }
    }
}

/// The document to write back after a run, and how the command ended; or
/// the error for a stored document that cannot be read, in which case
/// nothing is to be written.
pub open spec fn ran(stored: Option<Seq<char>>, command: CommandView, today: Date) -> Result<
    (Seq<char>, Outcome),
    DeserializationError,
> {
    match HabitsView::loaded(stored) {
        Ok(store) => {
            let (store, outcome) = store.applied(command, today);
            Ok((pretty_text(store.to_json()), outcome))
        },
        Err(error) => Err(error),
    }
}

/// What a run hands back: the document to write, and how the command ended.
#[derive(Debug)]
pub struct Report {
    pub document: String,
    pub outcome: Outcome,
}

impl Habits {
    /// Adds a habit named `name` that starts on `today`.
    pub fn create(&mut self, name: String, today: Date)
        ensures
            final(self)@ == old(self)@.created(name@, today),
    {
        self.add(Habit::new(name, today));
    }

    /// Marks the first habit named `name` as completed on `date`. Where
    /// there is no such habit, or the date is before its start date, the
    /// store stays as it was.
    pub fn complete(&mut self, name: &str, date: Date) -> (outcome: Outcome)
        ensures
            (final(self)@, outcome) == old(self)@.completed(name@, date),
    {
        let outcome = match self.return_mut_by_name(name) {
            Some(habit) => match habit.add_completed_day(date) {
                Ok(()) => Outcome::Completed,
                Err(_) => Outcome::InvalidCompletionDate,
            },
            None => Outcome::HabitNotFound,
        };
        proof {
            if let Some(i) = old(self)@.position(name@) {
                if date.before(old(self)@.habits[i].start_date) {
                    assert(self@.habits =~= old(self)@.habits);
                }
            }
        }
        outcome
    }

    /// Applies a command, where today is `today`.
    pub fn apply(&mut self, command: Command, today: Date) -> (outcome: Outcome)
        ensures
            (final(self)@, outcome) == old(self)@.applied(command@, today),
    {
        match command {
            Command::New { name } => {
                self.create(name, today);
                Outcome::Created
            },
            Command::Done { name, date } => self.complete(name.as_str(), date),
        }
    }

    /// Applies a command, taking today from this machine's clock. The
    /// clock is read only for a new habit.
    pub fn apply_now(&mut self, command: Command) -> (outcome: Outcome)
        ensures
            exists|today: Date|
                today.is_valid() && (final(self)@, outcome) == #[trigger] old(self)@.applied(
                    command@,
                    today,
                ),
    {
        match command {
            Command::New { name } => {
                let today = Date::today();
                self.create(name, today);
                assert((self@, Outcome::Created) == old(self)@.applied(command@, today));
                Outcome::Created
            },
            Command::Done { name, date } => {
                let outcome = self.complete(name.as_str(), date);
                proof {
                    use_type_invariant(&date);
                    assert((self@, outcome) == old(self)@.applied(command@, date));
                }
                outcome
            },
        }
    }

    /// The store that a run starts from.
    pub fn load(stored: Option<&str>) -> (r: Result<Habits, DeserializationError>)
        ensures
            match r {
                Ok(store) => HabitsView::loaded(text_of(stored)) == Ok::<_, DeserializationError>(
                    store@,
                ),
                Err(error) => HabitsView::loaded(text_of(stored)) == Err::<HabitsView, _>(error),
            },
    {
        match stored {
            Some(text) => Habits::from_json(text),
            None => Ok(Habits::new()),
        }
    }
}

/// The characters of a stored document, if there is one.
pub open spec fn text_of(stored: Option<&str>) -> Option<Seq<char>> {
    match stored {
        Some(text) => Some(text@),
        None => None,
    }
}

/// One run of the tracker, where today is `today`: reads the stored
/// document, applies the command and returns the document to write back.
/// The document is returned whether or not the command changed the store.
pub fn run(stored: Option<&str>, command: Command, today: Date) -> (r: Result<
    Report,
    DeserializationError,
>)
    ensures
        match r {
            Ok(report) => ran(text_of(stored), command@, today) == Ok::<_, DeserializationError>(
                (report.document@, report.outcome),
            ),
            Err(error) => ran(text_of(stored), command@, today) == Err::<
                (Seq<char>, Outcome),
                _,
            >(error),
        },
{
    let mut store = match Habits::load(stored) {
        Ok(store) => store,
        Err(error) => return Err(error),
    };
    let outcome = store.apply(command, today);
    Ok(Report { document: store.to_json(), outcome })
}

/// One run of the tracker, taking today from this machine's clock.
pub fn run_now(stored: Option<&str>, command: Command) -> (r: Result<Report, DeserializationError>)
    ensures
        exists|today: Date|
            today.is_valid() && match r {
                Ok(report) => #[trigger] ran(text_of(stored), command@, today) == Ok::<
                    _,
                    DeserializationError,
                >((report.document@, report.outcome)),
                Err(error) => ran(text_of(stored), command@, today) == Err::<
                    (Seq<char>, Outcome),
                    _,
                >(error),
            },
{
    let mut store = match Habits::load(stored) {
        Ok(store) => store,
        Err(error) => {
            let today = Date::today();
            assert(ran(text_of(stored), command@, today) == Err::<(Seq<char>, Outcome), _>(error));
            return Err(error);
        },
    };
    let ghost before = store@;
    let outcome = store.apply_now(command);
    let document = store.to_json();
    proof {
        let today = choose|today: Date|
            today.is_valid() && (store@, outcome) == #[trigger] before.applied(command@, today);
        assert(ran(text_of(stored), command@, today) == Ok::<_, DeserializationError>(
            (document@, outcome),
        ));
    }
    Ok(Report { document, outcome })
}

} // verus!
