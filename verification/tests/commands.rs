use habit_tracker::command::{run, run_now, Command, Outcome};
use habit_tracker::date::Date;
use habit_tracker::habit::{DeserializationError, Habit, Habits};

fn day(year: i32, month: u32, day: u32) -> Date {
    Date::from_ymd(year, month, day).unwrap()
}

fn new(name: &str) -> Command {
    Command::New { name: String::from(name) }
}

fn done(name: &str, date: Date) -> Command {
    Command::Done { name: String::from(name), date }
}

const AFTER_NEW: &str = "{
  \"habits\": [
    {
      \"name\": \"Reading\",
      \"start_date\": \"2022-10-31\",
      \"completed_on\": []
    }
  ]
}";

const AFTER_DONE: &str = "{
  \"habits\": [
    {
      \"name\": \"Reading\",
      \"start_date\": \"2022-10-31\",
      \"completed_on\": [
        \"2022-11-01\"
      ]
    }
  ]
}";

#[test]
fn new_on_an_empty_store_adds_a_habit_starting_today() {
    let mut habits = Habits::new();
    let outcome = habits.apply(new("Reading"), day(2022, 10, 31));

    assert_eq!(outcome, Outcome::Created);
    assert_eq!(habits.len(), 1);
    let habit = habits.get(0).unwrap();
    assert_eq!(habit.name(), "Reading");
    assert_eq!(habit.start_date(), day(2022, 10, 31));
    assert!(habit.completed_days().is_empty());

    let report = run(None, new("Reading"), day(2022, 10, 31)).unwrap();
    assert_eq!(report.outcome, Outcome::Created);
    assert_eq!(report.document, AFTER_NEW);
}

#[test]
fn done_records_the_date_for_the_habit() {
    let mut habits = Habits::from_json(AFTER_NEW).unwrap();
    let outcome = habits.apply(done("Reading", day(2022, 11, 1)), day(2022, 11, 2));

    assert_eq!(outcome, Outcome::Completed);
    assert_eq!(habits.len(), 1);
    assert_eq!(habits.get(0).unwrap().completed_days(), vec![day(2022, 11, 1)]);

    let report = run(Some(AFTER_NEW), done("Reading", day(2022, 11, 1)), day(2022, 11, 2)).unwrap();
    assert_eq!(report.outcome, Outcome::Completed);
    assert_eq!(report.document, AFTER_DONE);
}

#[test]
fn done_before_the_start_date_is_refused_and_changes_nothing() {
    let mut habits = Habits::from_json(AFTER_DONE).unwrap();
    let outcome = habits.apply(done("Reading", day(2022, 10, 30)), day(2022, 11, 2));

    assert_eq!(outcome, Outcome::InvalidCompletionDate);
    assert_ne!(outcome.exit_code(), 0);
    assert_eq!(habits.get(0).unwrap().completed_days(), vec![day(2022, 11, 1)]);
    assert_eq!(habits.to_json(), AFTER_DONE);

    let report = run(Some(AFTER_DONE), done("Reading", day(2022, 10, 30)), day(2022, 11, 2)).unwrap();
    assert_eq!(report.outcome, Outcome::InvalidCompletionDate);
    assert_eq!(report.document, AFTER_DONE);
}

#[test]
fn done_for_an_unknown_habit_is_reported_and_changes_nothing() {
    let mut habits = Habits::from_json(AFTER_DONE).unwrap();
    let outcome = habits.apply(done("Meditation", day(2022, 11, 1)), day(2022, 11, 2));

    assert_eq!(outcome, Outcome::HabitNotFound);
    assert_eq!(habits.to_json(), AFTER_DONE);

    let report = run(Some(AFTER_DONE), done("Meditation", day(2022, 11, 1)), day(2022, 11, 2)).unwrap();
    assert_eq!(report.outcome, Outcome::HabitNotFound);
    assert_eq!(report.document, AFTER_DONE);

    let report = run(None, done("Meditation", day(2022, 11, 1)), day(2022, 11, 2)).unwrap();
    assert_eq!(report.outcome, Outcome::HabitNotFound);
    assert_eq!(report.document, "{\n  \"habits\": []\n}");
}

#[test]
fn exit_codes_tell_the_outcomes_apart() {
    assert_eq!(Outcome::Created.exit_code(), 0);
    assert_eq!(Outcome::Completed.exit_code(), 0);
    assert_eq!(Outcome::InvalidCompletionDate.exit_code(), 1);
    assert_eq!(Outcome::HabitNotFound.exit_code(), 2);
}

#[test]
fn new_allows_a_name_that_is_taken_and_done_goes_to_the_first() {
    let mut habits = Habits::new();
    assert_eq!(habits.apply(new("Reading"), day(2022, 10, 31)), Outcome::Created);
    assert_eq!(habits.apply(new("Reading"), day(2022, 11, 5)), Outcome::Created);
    assert_eq!(habits.len(), 2);

    assert_eq!(habits.apply(done("Reading", day(2022, 11, 1)), day(2022, 11, 6)), Outcome::Completed);
    assert_eq!(habits.get(0).unwrap().completed_days(), vec![day(2022, 11, 1)]);
    assert!(habits.get(1).unwrap().completed_days().is_empty());
}

#[test]
fn create_and_complete_are_the_two_commands() {
    let mut habits = Habits::new();
    habits.create(String::from("Reading"), day(2022, 10, 31));
    assert_eq!(habits.complete("Reading", day(2022, 10, 31)), Outcome::Completed);
    assert_eq!(habits.complete("Reading", day(2022, 10, 31)), Outcome::Completed);
    assert_eq!(habits.complete("Reading", day(2022, 10, 1)), Outcome::InvalidCompletionDate);
    assert_eq!(habits.complete("Writing", day(2022, 10, 31)), Outcome::HabitNotFound);
    assert_eq!(habits.get(0), Some(&Habit::from_json(
        "{\"name\":\"Reading\",\"start_date\":\"2022-10-31\",\"completed_on\":[\"2022-10-31\"]}",
    ).unwrap()));
}

#[test]
fn run_refuses_a_stored_document_that_cannot_be_read() {
    let today = day(2022, 11, 2);
    assert_eq!(run(Some("{"), new("Reading"), today).unwrap_err(), DeserializationError::Syntax);
    assert_eq!(run(Some("{}"), new("Reading"), today).unwrap_err(), DeserializationError::Shape);
    assert_eq!(
        run(Some("[]"), done("Reading", today), today).unwrap_err(),
        DeserializationError::Shape
    );
    let early = "{\"habits\": [{\"name\": \"a\", \"start_date\": \"2022-10-31\", \"completed_on\": [\"2022-10-01\"]}]}";
    assert_eq!(
        run(Some(early), done("a", today), today).unwrap_err(),
        DeserializationError::CompletionBeforeStart
    );
    assert_eq!(run_now(Some("{"), new("Reading")).unwrap_err(), DeserializationError::Syntax);
}

#[test]
fn load_starts_empty_where_nothing_is_stored() {
    assert_eq!(Habits::load(None).unwrap().len(), 0);
    assert_eq!(Habits::load(Some(AFTER_DONE)).unwrap().len(), 1);
    assert_eq!(Habits::load(Some("")).unwrap_err(), DeserializationError::Syntax);
}

#[test]
fn run_now_starts_a_new_habit_on_the_date_of_the_clock() {
    let before = Date::today();
    let report = run_now(Some(AFTER_DONE), new("Walking")).unwrap();
    let after = Date::today();

    assert_eq!(report.outcome, Outcome::Created);
    let habits = Habits::from_json(&report.document).unwrap();
    assert_eq!(habits.len(), 2);
    assert_eq!(habits.get(0).unwrap().completed_days(), vec![day(2022, 11, 1)]);
    let walking = habits.get(1).unwrap();
    assert_eq!(walking.name(), "Walking");
    assert!(walking.completed_days().is_empty());
    assert!(!walking.start_date().is_before(&before));
    assert!(!after.is_before(&walking.start_date()));
}

#[test]
fn run_now_needs_no_clock_for_done() {
    let report = run_now(Some(AFTER_NEW), done("Reading", day(2022, 11, 1))).unwrap();
    assert_eq!(report.outcome, Outcome::Completed);
    assert_eq!(report.document, AFTER_DONE);

    let mut habits = Habits::from_json(AFTER_NEW).unwrap();
    assert_eq!(habits.apply_now(done("Reading", day(2022, 10, 1))), Outcome::InvalidCompletionDate);
    assert_eq!(habits.apply_now(done("Nothing", day(2022, 11, 1))), Outcome::HabitNotFound);
    assert_eq!(habits.to_json(), AFTER_NEW);
}
