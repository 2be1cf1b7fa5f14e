//! The JSON form of habits and stores.
//!
//! A habit is a JSON object with the members `name`, `start_date` and
//! `completed_on`; a store is a JSON object whose member `habits` is the
//! array of its habits. Dates are ISO 8601 texts. The functions here say
//! which JSON value a habit or a store is written as, and which habit or
//! store a JSON value holds.

use crate::date::Date;
use crate::habit::{DeserializationError, HabitView, HabitsView};
use crate::json::{lemma_lookup_finds, distinct_keys, parsed_json, pretty_text, Json};
use crate::listing::{ascending, lemma_ascending_lists};
use vstd::prelude::*;

verus! {

/// The date that a JSON value holds: that of a JSON string which reads as a
/// date.
pub open spec fn json_date(json: Json) -> Option<Date> {
    match json {
        Json::Text(text) => Date::parsed(text),
        _ => None,
    }
}

/// The completion dates that the elements of a JSON array hold, for a habit
/// that starts on `start_date`. The first element, in order, that is no
/// date or is a date before the start date decides the error.
pub open spec fn json_dates(items: Seq<Json>, start_date: Date) -> Result<
    Set<Date>,
    DeserializationError,
>
    decreases items.len(),
{
    if items.len() == 0 {
        Ok(Set::empty())
    } else {
        match json_dates(items.drop_last(), start_date) {
            Err(error) => Err(error),
            Ok(dates) => match json_date(items.last()) {
                None => Err(DeserializationError::Shape),
                Some(date) => if date.before(start_date) {
                    Err(DeserializationError::CompletionBeforeStart)
                } else {
                    Ok(dates.insert(date))
                },
            },
        }
    }
}

/// The JSON strings of the ISO 8601 texts of a sequence of dates.
pub open spec fn date_texts(dates: Seq<Date>) -> Seq<Json> {
    Seq::new(dates.len(), |i: int| Json::Text(dates[i].iso_text()))
}

impl HabitView {
    /// Whether each date of the habit is read back from its own ISO 8601
    /// text. `chrono` documents that it reads what it prints; the verifier
    /// knows it of the dates whose text the program has made.
    pub open spec fn dates_read_back(self) -> bool {
        &&& Date::parsed(self.start_date.iso_text()) == Some(self.start_date)
        &&& forall|date: Date| #[trigger]
            self.completed_on.contains(date) ==> Date::parsed(date.iso_text()) == Some(date)
    }

    /// The JSON object of the habit: its name, its start date and its
    /// completion dates in ascending order, dates as ISO 8601 text.
    pub open spec fn to_json(self) -> Json {
        Json::Record(
            seq![
                ("name"@, Json::Text(self.name)),
                ("start_date"@, Json::Text(self.start_date.iso_text())),
                ("completed_on"@, Json::List(date_texts(ascending(self.completed_on)))),
            ],
        )
    }

    /// The habit that a JSON value holds: an object with a string `name`, a
    /// date `start_date` and an array `completed_on` of dates, none before
    /// the start date. Other members are passed over.
    pub open spec fn from_json(json: Json) -> Result<HabitView, DeserializationError> {
        match (json.member("name"@), json.member("start_date"@), json.member("completed_on"@)) {
            (Some(Json::Text(name)), Some(start), Some(Json::List(items))) => match json_date(
                start,
            ) {
                Some(start_date) => match json_dates(items, start_date) {
                    Ok(completed_on) => Ok(HabitView { name, start_date, completed_on }),
                    Err(error) => Err(error),
                },
                None => Err(DeserializationError::Shape),
            },
            _ => Err(DeserializationError::Shape),
        }
    }

    /// The habit that a text holds: that of the JSON value it reads as.
    pub open spec fn from_text(text: Seq<char>) -> Result<HabitView, DeserializationError> {
        match parsed_json(text) {
            Some(json) => HabitView::from_json(json),
            None => Err(DeserializationError::Syntax),
        }
    }
}

/// The JSON objects of a sequence of habits.
pub open spec fn habit_jsons(habits: Seq<HabitView>) -> Seq<Json> {
    Seq::new(habits.len(), |i: int| habits[i].to_json())
}

/// The habits that the elements of a JSON array hold. The first element,
/// in order, that holds no habit decides the error.
pub open spec fn json_habits(items: Seq<Json>) -> Result<Seq<HabitView>, DeserializationError>
    decreases items.len(),
{
    if items.len() == 0 {
        Ok(Seq::empty())
    } else {
        match json_habits(items.drop_last()) {
            Err(error) => Err(error),
            Ok(habits) => match HabitView::from_json(items.last()) {
                Err(error) => Err(error),
                Ok(habit) => Ok(habits.push(habit)),
            },
        }
    }
}

impl HabitsView {
    /// Whether each date in the store is read back from its own ISO 8601
    /// text.
    pub open spec fn dates_read_back(self) -> bool {
        forall|i: int| 0 <= i < self.habits.len() ==> (#[trigger] self.habits[i]).dates_read_back()
    }

    /// The JSON document of the store: an object whose member `habits` is
    /// the array of its habits, in their order.
    pub open spec fn to_json(self) -> Json {
        Json::Record(seq![("habits"@, Json::List(habit_jsons(self.habits)))])
    }

    /// The store that a JSON value holds: an object whose member `habits`
    /// is an array of habits. Other members are passed over.
    pub open spec fn from_json(json: Json) -> Result<HabitsView, DeserializationError> {
        match json.member("habits"@) {
            Some(Json::List(items)) => match json_habits(items) {
                Ok(habits) => Ok(HabitsView { habits }),
                Err(error) => Err(error),
            },
            _ => Err(DeserializationError::Shape),
        }
    }

    /// The store that a text holds: that of the JSON value it reads as.
    pub open spec fn from_text(text: Seq<char>) -> Result<HabitsView, DeserializationError> {
        match parsed_json(text) {
            Some(json) => HabitsView::from_json(json),
            None => Err(DeserializationError::Syntax),
        }
    }
}

/// The names of a habit's three members differ from each other.
pub(crate) proof fn lemma_member_names_differ()
    ensures
        "name"@ != "start_date"@,
        "name"@ != "completed_on"@,
        "start_date"@ != "completed_on"@,
{
    reveal_strlit("name");
    reveal_strlit("start_date");
    reveal_strlit("completed_on");
    assert("name"@.len() == 4);
    assert("start_date"@.len() == 10);
    assert("completed_on"@.len() == 12);
}

/// Where the first `k` elements of a JSON array already fail as completion
/// dates, the whole array fails in the same way.
pub(crate) proof fn lemma_json_dates_fail(items: Seq<Json>, k: int, start_date: Date)
    requires
        0 <= k <= items.len(),
        json_dates(items.take(k), start_date) is Err,
    ensures
        json_dates(items, start_date) == json_dates(items.take(k), start_date),
    decreases items.len() - k,
{
    if k == items.len() {
        assert(items.take(k) =~= items);
    } else {
        assert(items.drop_last().take(k) =~= items.take(k));
        lemma_json_dates_fail(items.drop_last(), k, start_date);
    }
}

/// Where the first `k` elements of a JSON array already fail as habits, the
/// whole array fails in the same way.
pub(crate) proof fn lemma_json_habits_fail(items: Seq<Json>, k: int)
    requires
        0 <= k <= items.len(),
        json_habits(items.take(k)) is Err,
    ensures
        json_habits(items) == json_habits(items.take(k)),
    decreases items.len() - k,
{
    if k == items.len() {
        assert(items.take(k) =~= items);
    } else {
        assert(items.drop_last().take(k) =~= items.take(k));
        lemma_json_habits_fail(items.drop_last(), k);
    }
}

/// The JSON array of the texts of dates that read back, none before the
/// start date, holds those dates.
pub proof fn lemma_dates_read_back(dates: Seq<Date>, start_date: Date)
    requires
        forall|i: int|
            0 <= i < dates.len() ==> Date::parsed((#[trigger] dates[i]).iso_text()) == Some(
                dates[i],
            ) && start_date.not_after(dates[i]),
    ensures
        json_dates(date_texts(dates), start_date) == Ok::<_, DeserializationError>(dates.to_set()),
    decreases dates.len(),
{
    if dates.len() == 0 {
        assert(dates.to_set() =~= Set::empty());
    } else {
        lemma_dates_read_back(dates.drop_last(), start_date);
        assert(date_texts(dates).drop_last() =~= date_texts(dates.drop_last()));
        assert(date_texts(dates).last() == Json::Text(dates.last().iso_text()));
        assert(dates.drop_last().to_set().insert(dates.last()) =~= dates.to_set()) by {
            assert forall|date: Date|
                dates.drop_last().to_set().insert(dates.last()).contains(date)
                    <==> dates.to_set().contains(date) by {
                if dates.drop_last().contains(date) {
                    let i = choose|i: int| 0 <= i < dates.drop_last().len() && dates.drop_last()[i]
                        == date;
                    assert(dates[i] == date);
                }
                if dates.contains(date) {
                    let i = choose|i: int| 0 <= i < dates.len() && dates[i] == date;
                    if i < dates.len() - 1 {
                        assert(dates.drop_last()[i] == date);
                    }
                }
            }
        }
    }
}

/// Reading the JSON object of a habit gives the habit back, where its dates
/// are read back from their texts.
pub proof fn lemma_habit_reads_back(habit: HabitView)
    requires
        habit.is_valid(),
        habit.dates_read_back(),
    ensures
        HabitView::from_json(habit.to_json()) == Ok::<_, DeserializationError>(habit),
{
    lemma_member_names_differ();
    let dates = ascending(habit.completed_on);
    lemma_ascending_lists(habit.completed_on);
    let entries = seq![
        ("name"@, Json::Text(habit.name)),
        ("start_date"@, Json::Text(habit.start_date.iso_text())),
        ("completed_on"@, Json::List(date_texts(dates))),
    ];
    assert(distinct_keys(entries));
    lemma_lookup_finds(entries, 0);
    lemma_lookup_finds(entries, 1);
    lemma_lookup_finds(entries, 2);
    assert forall|i: int| 0 <= i < dates.len() implies Date::parsed(
        (#[trigger] dates[i]).iso_text(),
    ) == Some(dates[i]) && habit.start_date.not_after(dates[i]) by {
        assert(dates.contains(dates[i]));
    }
    lemma_dates_read_back(dates, habit.start_date);
    assert(dates.to_set() =~= habit.completed_on);
}

/// The JSON array of habits that each read back holds those habits.
pub proof fn lemma_habits_read_back(habits: Seq<HabitView>)
    requires
        forall|i: int|
            0 <= i < habits.len() ==> HabitView::from_json((#[trigger] habits[i]).to_json()) == Ok::<
                _,
                DeserializationError,
            >(habits[i]),
    ensures
        json_habits(habit_jsons(habits)) == Ok::<_, DeserializationError>(habits),
    decreases habits.len(),
{
    if habits.len() == 0 {
        assert(habits =~= Seq::empty());
    } else {
        lemma_habits_read_back(habits.drop_last());
        assert(habit_jsons(habits).drop_last() =~= habit_jsons(habits.drop_last()));
        assert(habit_jsons(habits).last() == habits.last().to_json());
        assert(habits.drop_last().push(habits.last()) =~= habits);
    }
}

/// Reading the JSON document of a store gives the store back, where its
/// dates are read back from their texts.
pub proof fn lemma_store_reads_back(store: HabitsView)
    requires
        store.is_valid(),
        store.dates_read_back(),
    ensures
        HabitsView::from_json(store.to_json()) == Ok::<_, DeserializationError>(store),
{
    assert forall|i: int| 0 <= i < store.habits.len() implies HabitView::from_json(
        (#[trigger] store.habits[i]).to_json(),
    ) == Ok::<_, DeserializationError>(store.habits[i]) by {
        lemma_habit_reads_back(store.habits[i]);
    }
    lemma_habits_read_back(store.habits);
    let entries = seq![("habits"@, Json::List(habit_jsons(store.habits)))];
    lemma_lookup_finds(entries, 0);
}

/// Reading the document that is written for a store gives the store back,
/// where `serde_json` reads the written text as the JSON value that was
/// printed and the store's dates are read back from their texts.
pub proof fn lemma_document_reads_back(store: HabitsView)
    requires
        store.is_valid(),
        store.dates_read_back(),
        parsed_json(pretty_text(store.to_json())) == Some(store.to_json()),
    ensures
        HabitsView::from_text(pretty_text(store.to_json())) == Ok::<_, DeserializationError>(store),
{
    lemma_store_reads_back(store);
}

} // verus!
