//! Habits and the store that holds them.
//!
//! A [`Habit`] has a name, a start date and the set of dates on which it was
//! completed; no completion date is earlier than the start date. A
//! [`Habits`] store keeps habits in the order in which they were added.

use crate::date::{lemma_date_key, Date};
use crate::document::{
    date_texts, habit_jsons, json_date, json_dates, json_habits, lemma_habit_reads_back,
    lemma_habits_read_back, lemma_json_dates_fail, lemma_json_habits_fail,
    lemma_member_names_differ,
};
use crate::json::{
    compact_text, entries_of, json_of, jsons_of, lemma_lookup_finds, parse_value, pretty_text,
    value_as_array, value_as_str, value_from_entries, value_from_string, value_from_vec,
    value_get, value_to_string, value_to_string_pretty, Json,
};
use crate::keys::{ascending_keys, insert_key, key_before};
use crate::listing::{
    ascending, lemma_ascending_is, lemma_ascending_lists, lemma_ascending_no_duplicates, lists,
};
use std::collections::BTreeSet;
use vstd::prelude::*;

verus! {

/// A completion date was refused because it is earlier than the habit's
/// start date.
#[derive(Clone, Copy, Debug, PartialEq, Eq, Structural)]
pub struct InvalidCompletionDate;

/// Why a text is not the JSON document of a habit or of a store.
#[derive(Clone, Copy, Debug, PartialEq, Eq, Structural)]
pub enum DeserializationError {
    /// The text is not well-formed JSON.
    Syntax,
    /// The JSON value has not the shape of the document: a member is
    /// missing or of the wrong type, or a date cannot be read.
    Shape,
    /// A habit's completion date is earlier than its start date.
    CompletionBeforeStart,
}

/// What a habit is: its name, its start date and the dates on which it was
/// completed.
pub struct HabitView {
    pub name: Seq<char>,
    pub start_date: Date,
    pub completed_on: Set<Date>,
}

impl HabitView {
    /// Whether the habit keeps the rules of the data model: its dates exist
    /// in the calendar, it was completed on finitely many of them, and on
    /// none before its start date.
    pub open spec fn is_valid(self) -> bool {
        &&& self.start_date.is_valid()
        &&& self.completed_on.finite()
        &&& forall|date: Date| #[trigger]
            self.completed_on.contains(date) ==> date.is_valid() && self.start_date.not_after(date)
    }

    /// The habit with one more completion date.
    pub open spec fn with_completion(self, date: Date) -> HabitView {
        HabitView { completed_on: self.completed_on.insert(date), ..self }
    }
}

/// A single habit to be tracked.
#[derive(Debug, PartialEq)]
pub struct Habit {
    name: String,
    start_date: Date,
    completed_on: BTreeSet<(i32, u32, u32)>,
}

/// The dates that a set of keys stands for.
spec fn dates_of(keys: Set<(i32, u32, u32)>) -> Set<Date> {
    Set::new(|date: Date| keys.contains(date.key()))
}

impl View for Habit {
    type V = HabitView;

    closed spec fn view(&self) -> HabitView {
        HabitView {
            name: self.name@,
            start_date: self.start_date,
            completed_on: dates_of(self.completed_on@),
        }
    }
}

impl Habit {
    /// Every habit that a program holds keeps the rules of the data model.
    #[verifier::type_invariant]
    pub open spec fn keeps_rules(self) -> bool {
        self@.is_valid()
    }

    /// A habit that starts on `start_date` and was never completed.
    pub fn new(name: String, start_date: Date) -> (habit: Habit)
        ensures
            habit@ == (HabitView { name: name@, start_date, completed_on: Set::empty() }),
            habit@.is_valid(),
    {
        proof {
            use_type_invariant(&start_date);
        }
        let completed_on = BTreeSet::new();
        assert(dates_of(completed_on@) =~= Set::empty());
        Habit { name, start_date, completed_on }
    }

    /// A habit that starts today, by this machine's clock, and was never
    /// completed.
    pub fn start_today(name: String) -> (habit: Habit)
        ensures
            habit@.name == name@,
            habit@.completed_on == Set::<Date>::empty(),
            habit@.is_valid(),
    {
        Habit::new(name, Date::today())
    }

    /// The habit's name.
    pub fn name(&self) -> (name: &str)
        ensures
            name@ == self@.name,
    {
        self.name.as_str()
    }

    /// The first date on which the habit can be completed.
    pub fn start_date(&self) -> (date: Date)
        ensures
            date == self@.start_date,
    {
        self.start_date
    }

    /// The dates on which the habit was completed, each once, earliest
    /// first.
    pub fn completed_days(&self) -> (days: Vec<Date>)
        ensures
            days@ == ascending(self@.completed_on),
            lists(days@, self@.completed_on),
    {
        proof {
            use_type_invariant(self);
        }
        let keys = ascending_keys(&self.completed_on);
        let mut days: Vec<Date> = Vec::new();
        let mut i: usize = 0;
        while i < keys.len()
            invariant
                i <= keys.len(),
                days@.len() == i,
                keys@.to_set() == self.completed_on@,
                self@.is_valid(),
                forall|j: int| 0 <= j < i ==> days@[j] == Date::of_key(#[trigger] keys@[j]),
            decreases keys.len() - i,
        {
            let key = keys[i];
            proof {
                assert(keys@.to_set().contains(keys@[i as int]));
                lemma_date_key(Date::of_key(key), key);
                assert(self@.completed_on.contains(Date::of_key(key)));
            }
            days.push(Date::from_key(key));
            i += 1;
        }
        proof {
            lemma_keys_list_dates(keys@, days@);
            lemma_ascending_is(days@, self@.completed_on);
        }
        days
    }

    /// The habit as a JSON value. Reading the value back gives the same
    /// habit.
    pub fn to_value(&self) -> (value: serde_json::Value)
        ensures
            json_of(value) == self@.to_json(),
            HabitView::from_json(json_of(value)) == Ok::<_, DeserializationError>(self@),
    {
        proof {
            use_type_invariant(self);
        }
        let days = self.completed_days();
        let mut items: Vec<serde_json::Value> = Vec::new();
        let mut i: usize = 0;
        while i < days.len()
            invariant
                i <= days.len(),
                items@.len() == i,
                forall|j: int|
                    0 <= j < i ==> json_of(#[trigger] items@[j]) == Json::Text(days@[j].iso_text()),
                forall|j: int|
                    0 <= j < i ==> Date::parsed((#[trigger] days@[j]).iso_text()) == Some(days@[j]),
            decreases days.len() - i,
        {
            let text = days[i].to_iso_string();
            items.push(value_from_string(text));
            i += 1;
        }
        let start = self.start_date.to_iso_string();
        let mut entries: Vec<(String, serde_json::Value)> = Vec::new();
        entries.push(("name".to_owned(), value_from_string(self.name.clone())));
        entries.push(("start_date".to_owned(), value_from_string(start)));
        entries.push(("completed_on".to_owned(), value_from_vec(items)));
        proof {
            lemma_member_names_differ();
            assert(jsons_of(items@) =~= date_texts(days@));
            assert(entries_of(entries@) =~= seq![
                ("name"@, Json::Text(self@.name)),
                ("start_date"@, Json::Text(self@.start_date.iso_text())),
                ("completed_on"@, Json::List(date_texts(ascending(self@.completed_on)))),
            ]);
            assert forall|date: Date| #[trigger]
                self@.completed_on.contains(date) implies Date::parsed(date.iso_text()) == Some(
                date,
            ) by {
                assert(days@.contains(date));
                let j = choose|j: int| 0 <= j < days@.len() && days@[j] == date;
                assert(Date::parsed(days@[j].iso_text()) == Some(days@[j]));
            }
            lemma_habit_reads_back(self@);
        }
        value_from_entries(entries)
    }

    /// The habit that a JSON value holds, or why it holds none.
    pub fn from_value(value: &serde_json::Value) -> (r: Result<Habit, DeserializationError>)
        ensures
            match r {
                Ok(habit) => HabitView::from_json(json_of(*value)) == Ok::<_, DeserializationError>(
                    habit@,
                ),
                Err(error) => HabitView::from_json(json_of(*value)) == Err::<HabitView, _>(error),
            },
    {
        let name = match value_get(value, "name") {
            Some(member) => match value_as_str(member) {
                Some(text) => text.to_owned(),
                None => return Err(DeserializationError::Shape),
            },
            None => return Err(DeserializationError::Shape),
        };
        let start_date = match value_get(value, "start_date") {
            Some(member) => match read_date(member) {
                Some(date) => date,
                None => return Err(DeserializationError::Shape),
            },
            None => return Err(DeserializationError::Shape),
        };
        let items = match value_get(value, "completed_on") {
            Some(member) => match value_as_array(member) {
                Some(items) => items,
                None => return Err(DeserializationError::Shape),
            },
            None => return Err(DeserializationError::Shape),
        };
        let ghost jsons = jsons_of(items@);
        let ghost held = HabitView::from_json(json_of(*value));
        let mut completed_on: BTreeSet<(i32, u32, u32)> = BTreeSet::new();
        proof {
            use_type_invariant(&start_date);
            assert(dates_of(completed_on@) =~= Set::empty());
        }
        let mut i: usize = 0;
        while i < items.len()
            invariant
                i <= items.len(),
                jsons == jsons_of(items@),
                start_date.is_valid(),
                held == HabitView::from_json(json_of(*value)),
                held == match json_dates(jsons, start_date) {
                    Ok(dates) => Ok::<_, DeserializationError>(
                        HabitView { name: name@, start_date, completed_on: dates },
                    ),
                    Err(error) => Err(error),
                },
                json_dates(jsons.take(i as int), start_date) == Ok::<_, DeserializationError>(
                    dates_of(completed_on@),
                ),
                dates_of(completed_on@).finite(),
                forall|date: Date| #[trigger]
                    dates_of(completed_on@).contains(date) ==> date.is_valid()
                        && start_date.not_after(date),
            decreases items.len() - i,
        {
            proof {
                assert(jsons.take(i + 1).drop_last() =~= jsons.take(i as int));
                assert(jsons.take(i + 1).last() == json_of(items@[i as int]));
            }
            let date = match read_date(&items[i]) {
                Some(date) => date,
                None => {
                    proof {
                        lemma_json_dates_fail(jsons, i + 1, start_date);
                    }
                    return Err(DeserializationError::Shape);
                },
            };
            if date.is_before(&start_date) {
                proof {
                    lemma_json_dates_fail(jsons, i + 1, start_date);
                }
                return Err(DeserializationError::CompletionBeforeStart);
            }
            proof {
                use_type_invariant(&date);
                lemma_dates_of_insert(completed_on@, date);
            }
            insert_key(&mut completed_on, date.to_key());
            i += 1;
        }
        proof {
            assert(jsons.take(items.len() as int) =~= jsons);
        }
        Ok(Habit { name, start_date, completed_on })
    }

    /// The habit as a line of JSON text.
    pub fn to_json(&self) -> (text: String)
        ensures
            text@ == compact_text(self@.to_json()),
    {
        let value = self.to_value();
        value_to_string(&value)
    }

    /// The habit that a JSON text holds, or why it holds none.
    pub fn from_json(serialized: &str) -> (r: Result<Habit, DeserializationError>)
        ensures
            match r {
                Ok(habit) => HabitView::from_text(serialized@) == Ok::<_, DeserializationError>(
                    habit@,
                ),
                Err(error) => HabitView::from_text(serialized@) == Err::<HabitView, _>(error),
            },
    {
        match parse_value(serialized) {
            Ok(value) => Habit::from_value(&value),
            Err(_) => Err(DeserializationError::Syntax),
        }
    }

    /// Records that the habit was completed on `date`. A date before the
    /// start date is refused, and the habit stays as it was.
    pub fn add_completed_day(&mut self, date: Date) -> (r: Result<(), InvalidCompletionDate>)
        ensures
            date.before(old(self)@.start_date) ==> r == Err::<(), _>(InvalidCompletionDate)
                && final(self)@ == old(self)@,
            !date.before(old(self)@.start_date) ==> r == Ok::<_, InvalidCompletionDate>(())
                && final(self)@ == old(self)@.with_completion(date),
            final(self)@.is_valid(),
    {
        proof {
            use_type_invariant(&*self);
            use_type_invariant(&date);
        }
        if date.is_before(&self.start_date) {
            return Err(InvalidCompletionDate);
        }
        // The set is taken out of the habit while it changes: the habit has
        // to keep its rules at every step, and with an empty set it does.
        let ghost before = self.completed_on@;
        let mut completed_on = BTreeSet::new();
        assert(dates_of(completed_on@) =~= Set::empty());
        std::mem::swap(&mut completed_on, &mut self.completed_on);
        insert_key(&mut completed_on, date.to_key());
        proof {
            lemma_dates_of_insert(before, date);
        }
        self.completed_on = completed_on;
        Ok(())
    }
}

/// What a store is: its habits, in the order in which they were added.
pub struct HabitsView {
    pub habits: Seq<HabitView>,
}

impl HabitsView {
    /// Whether `i` is the place of the first habit named `name`.
    pub open spec fn is_first_named(self, name: Seq<char>, i: int) -> bool {
        &&& 0 <= i < self.habits.len()
        &&& self.habits[i].name == name
        &&& forall|j: int| 0 <= j < i ==> (#[trigger] self.habits[j]).name != name
    }

    /// The place of the first habit named `name`, if there is one. Names
    /// are compared exactly, character by character.
    pub open spec fn position(self, name: Seq<char>) -> Option<int> {
        if exists|i: int| self.is_first_named(name, i) {
            Some(choose|i: int| self.is_first_named(name, i))
        } else {
            None
        }
    }

    /// Whether every habit of the store keeps the rules of the data model.
    pub open spec fn is_valid(self) -> bool {
        forall|i: int| 0 <= i < self.habits.len() ==> (#[trigger] self.habits[i]).is_valid()
    }
}

/// A store of habits.
#[derive(Debug)]
pub struct Habits {
    habits: Vec<Habit>,
}

impl View for Habits {
    type V = HabitsView;

    closed spec fn view(&self) -> HabitsView {
        HabitsView { habits: Seq::new(self.habits@.len(), |i: int| self.habits@[i]@) }
    }
}

impl Habits {
    /// A store without habits.
    pub fn new() -> (store: Habits)
        ensures
            store@.habits == Seq::<HabitView>::empty(),
    {
        let store = Habits { habits: Vec::new() };
        assert(store@.habits =~= Seq::empty());
        store
    }

    /// Adds a habit at the end of the store. A habit of the same name may
    /// be there already; lookups then find the earlier one.
    pub fn add(&mut self, habit: Habit)
        ensures
            final(self)@.habits == old(self)@.habits.push(habit@),
    {
        self.habits.push(habit);
        assert(self@.habits =~= old(self)@.habits.push(habit@));
    }

    /// The number of habits in the store.
    pub fn len(&self) -> (len: usize)
        ensures
            len == self@.habits.len(),
    {
        self.habits.len()
    }

    /// The habit at place `index`, counted from 0, if there is one.
    pub fn get(&self, index: usize) -> (r: Option<&Habit>)
        ensures
            match r {
                Some(habit) => index < self@.habits.len() && habit@ == self@.habits[index as int],
                None => index >= self@.habits.len(),
            },
    {
        if index < self.habits.len() {
            Some(&self.habits[index])
        } else {
            None
        }
    }

    /// The store as a JSON value. Reading the value back gives the same
    /// store.
    pub fn to_value(&self) -> (value: serde_json::Value)
        ensures
            json_of(value) == self@.to_json(),
            HabitsView::from_json(json_of(value)) == Ok::<_, DeserializationError>(self@),
    {
        let mut items: Vec<serde_json::Value> = Vec::new();
        let mut i: usize = 0;
        while i < self.habits.len()
            invariant
                i <= self.habits.len(),
                items@.len() == i,
                forall|j: int|
                    0 <= j < i ==> json_of(#[trigger] items@[j]) == self@.habits[j].to_json(),
                forall|j: int|
                    0 <= j < i ==> HabitView::from_json((#[trigger] self@.habits[j]).to_json())
                        == Ok::<_, DeserializationError>(self@.habits[j]),
            decreases self.habits.len() - i,
        {
            items.push(self.habits[i].to_value());
            i += 1;
        }
        let mut entries: Vec<(String, serde_json::Value)> = Vec::new();
        entries.push(("habits".to_owned(), value_from_vec(items)));
        proof {
            assert(jsons_of(items@) =~= habit_jsons(self@.habits));
            assert(entries_of(entries@) =~= seq![
                ("habits"@, Json::List(habit_jsons(self@.habits))),
            ]);
            lemma_lookup_finds(entries_of(entries@), 0);
            lemma_habits_read_back(self@.habits);
        }
        value_from_entries(entries)
    }

    /// The store that a JSON value holds, or why it holds none.
    pub fn from_value(value: &serde_json::Value) -> (r: Result<Habits, DeserializationError>)
        ensures
            match r {
                Ok(store) => HabitsView::from_json(json_of(*value)) == Ok::<
                    _,
                    DeserializationError,
                >(store@),
                Err(error) => HabitsView::from_json(json_of(*value)) == Err::<HabitsView, _>(error),
            },
    {
        let items = match value_get(value, "habits") {
            Some(member) => match value_as_array(member) {
                Some(items) => items,
                None => return Err(DeserializationError::Shape),
            },
            None => return Err(DeserializationError::Shape),
        };
        let ghost jsons = jsons_of(items@);
        let mut store = Habits::new();
        let mut i: usize = 0;
        while i < items.len()
            invariant
                i <= items.len(),
                jsons == jsons_of(items@),
                json_of(*value).member("habits"@) == Some(Json::List(jsons)),
                json_habits(jsons.take(i as int)) == Ok::<_, DeserializationError>(store@.habits),
            decreases items.len() - i,
        {
            proof {
                assert(jsons.take(i + 1).drop_last() =~= jsons.take(i as int));
                assert(jsons.take(i + 1).last() == json_of(items@[i as int]));
            }
            match Habit::from_value(&items[i]) {
                Ok(habit) => store.add(habit),
                Err(error) => {
                    proof {
                        lemma_json_habits_fail(jsons, i + 1);
                    }
                    return Err(error);
                },
            }
            i += 1;
        }
        proof {
            assert(jsons.take(items.len() as int) =~= jsons);
        }
        Ok(store)
    }

    /// The store as a JSON document, laid out for reading.
    pub fn to_json(&self) -> (text: String)
        ensures
            text@ == pretty_text(self@.to_json()),
    {
        let value = self.to_value();
        value_to_string_pretty(&value)
    }

    /// The store that a JSON document holds, or why it holds none.
    pub fn from_json(serialized: &str) -> (r: Result<Habits, DeserializationError>)
        ensures
            match r {
                Ok(store) => HabitsView::from_text(serialized@) == Ok::<_, DeserializationError>(
                    store@,
                ),
                Err(error) => HabitsView::from_text(serialized@) == Err::<HabitsView, _>(error),
            },
    {
        match parse_value(serialized) {
            Ok(value) => Habits::from_value(&value),
            Err(_) => Err(DeserializationError::Syntax),
        }
    }

    /// The first habit named `name`, for changing it in place; `None` where
    /// the store has no habit of that name.
    pub fn return_mut_by_name(&mut self, name: &str) -> (r: Option<&mut Habit>)
        ensures
            match r {
                Some(habit) => {
                    &&& old(self)@.position(name@) matches Some(i)
                    &&& habit@ == old(self)@.habits[i]
                    &&& final(self)@.habits == old(self)@.habits.update(i, final(habit)@)
                },
                None => old(self)@.position(name@) is None && final(self)@ == old(self)@,
            },
    {
        let wanted = name.to_owned();
        let mut i: usize = 0;
        while i < self.habits.len()
            invariant
                i <= self.habits.len(),
                *self == *old(self),
                wanted@ == name@,
                forall|j: int| 0 <= j < i ==> (#[trigger] self@.habits[j]).name != name@,
            decreases self.habits.len() - i,
        {
            if self.habits[i].name == wanted {
                proof {
                    lemma_position_is(self@, name@, i as int);
                }
                return Some(&mut self.habits[i]);
            }
            i += 1;
        }
        None
    }
}

/// Completing a habit on a date a second time changes nothing: the date is
/// among the completion dates once, however often it was added.
pub proof fn lemma_completion_is_idempotent(habit: HabitView, date: Date)
    requires
        habit.is_valid(),
    ensures
        habit.with_completion(date).with_completion(date) == habit.with_completion(date),
        ascending(habit.with_completion(date).completed_on).contains(date),
        ascending(habit.with_completion(date).completed_on).no_duplicates(),
{
    let once = habit.with_completion(date);
    assert(once.completed_on.insert(date) =~= once.completed_on);
    lemma_ascending_lists(once.completed_on);
    lemma_ascending_no_duplicates(ascending(once.completed_on));
}

/// What `position` finds: the first habit of the name, and nothing only
/// where no habit has the name.
pub proof fn lemma_position(store: HabitsView, name: Seq<char>)
    ensures
        match store.position(name) {
            Some(i) => store.is_first_named(name, i),
            None => forall|i: int|
                0 <= i < store.habits.len() ==> (#[trigger] store.habits[i]).name != name,
        },
{
    if store.position(name) is None {
        assert forall|i: int| 0 <= i < store.habits.len() implies (#[trigger] store.habits[i]).name
            != name by {
            if store.habits[i].name == name {
                lemma_first_named_exists(store, name, i);
            }
        }
    }
}

/// Where some habit up to place `i` has the name, a first one has it.
proof fn lemma_first_named_exists(store: HabitsView, name: Seq<char>, i: int)
    requires
        0 <= i < store.habits.len(),
        store.habits[i].name == name,
    ensures
        exists|k: int| store.is_first_named(name, k),
    decreases i,
{
    if exists|j: int| 0 <= j < i && (#[trigger] store.habits[j]).name == name {
        let j = choose|j: int| 0 <= j < i && (#[trigger] store.habits[j]).name == name;
        lemma_first_named_exists(store, name, j);
    } else {
        assert(store.is_first_named(name, i));
    }
}

/// The place of the first habit of a name is the place that `position`
/// gives.
pub proof fn lemma_position_is(store: HabitsView, name: Seq<char>, i: int)
    requires
        store.is_first_named(name, i),
    ensures
        store.position(name) == Some(i),
{
    let chosen = choose|k: int| store.is_first_named(name, k);
    if chosen < i {
        assert(store.habits[chosen].name != name);
    } else if i < chosen {
        assert(store.habits[i].name != name);
    }
}

/// The date that a JSON value holds, if it holds one.
fn read_date(value: &serde_json::Value) -> (r: Option<Date>)
    ensures
        r == json_date(json_of(*value)),
{
    match value_as_str(value) {
        Some(text) => Date::parse(text),
        None => None,
    }
}

/// The dates of an ascending sequence of keys list the dates of its keys.
proof fn lemma_keys_list_dates(keys: Seq<(i32, u32, u32)>, days: Seq<Date>)
    requires
        forall|i: int, j: int|
            0 <= i < j < keys.len() ==> key_before(#[trigger] keys[i], #[trigger] keys[j]),
        days.len() == keys.len(),
        forall|j: int| 0 <= j < keys.len() ==> days[j] == Date::of_key(#[trigger] keys[j]),
    ensures
        lists(days, dates_of(keys.to_set())),
{
    assert forall|i: int, j: int| 0 <= i < j < days.len() implies (#[trigger] days[i]).before(
        #[trigger] days[j],
    ) by {
        assert(key_before(keys[i], keys[j]));
        lemma_date_key(days[i], keys[i]);
        lemma_date_key(days[j], keys[j]);
    }
    assert forall|date: Date| dates_of(keys.to_set()).contains(date) <==> #[trigger] days.contains(
        date,
    ) by {
        lemma_date_key(date, date.key());
        if dates_of(keys.to_set()).contains(date) {
            assert(keys.contains(date.key()));
            let i = choose|i: int| 0 <= i < keys.len() && keys[i] == date.key();
            assert(days[i] == date);
        }
        if days.contains(date) {
            let i = choose|i: int| 0 <= i < days.len() && days[i] == date;
            lemma_date_key(date, keys[i]);
            assert(keys.contains(keys[i]));
        }
    }
}

/// Adding a date's key to a set of keys adds the date to its dates.
proof fn lemma_dates_of_insert(keys: Set<(i32, u32, u32)>, date: Date)
    ensures
        dates_of(keys.insert(date.key())) == dates_of(keys).insert(date),
{
    assert forall|other: Date|
        dates_of(keys.insert(date.key())).contains(other) <==> dates_of(keys).insert(
            date,
        ).contains(other) by {
        lemma_date_key(other, other.key());
        lemma_date_key(date, date.key());
    }
    assert(dates_of(keys.insert(date.key())) =~= dates_of(keys).insert(date));
}

} // verus!
