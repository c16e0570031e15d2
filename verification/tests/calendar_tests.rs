use calendar_app::calendar::Calendar;
use calendar_app::calendar::Task;
use calendar_app::render::day_color;
use calendar_app::render::day_label;
use calendar_app::render::day_name;
use calendar_app::render::task_row;

fn empty() -> Calendar {
    Calendar { days: Vec::new() }
}

#[test]
fn add_item_appends_under_the_normalized_day() {
    let mut cal = empty();
    cal.add_item("W", "Dentist", Some(String::from("Clinic")), false);
    assert_eq!(cal.days.len(), 1);
    assert_eq!(cal.days[0].day, "wednesday");
    assert_eq!(cal.days[0].tasks.len(), 1);
    assert_eq!(cal.days[0].tasks[0].description, "Dentist");
    assert_eq!(cal.days[0].tasks[0].location.as_deref(), Some("Clinic"));
    assert!(!cal.days[0].tasks[0].recurring);
}

#[test]
fn add_item_keeps_insertion_order_within_a_day() {
    let mut cal = empty();
    cal.add_item("m", "first", None, false);
    cal.add_item("monday", "second", None, true);
    cal.add_item("M", "third", None, false);
    assert_eq!(cal.days.len(), 1);
    let tasks = &cal.days[0].tasks;
    assert_eq!(tasks.len(), 3);
    assert_eq!(tasks[0].description, "first");
    assert_eq!(tasks[1].description, "second");
    assert_eq!(tasks[2].description, "third");
}

#[test]
fn unknown_day_names_are_stored_verbatim() {
    let mut cal = empty();
    cal.add_item("Someday", "daydream", None, false);
    assert_eq!(cal.days[0].day, "someday");
    assert!(cal.tasks_for("someday").is_some());
    assert!(cal.tasks_for("monday").is_none());
}

#[test]
fn clear_day_empties_an_existing_day() {
    let mut cal = empty();
    cal.add_item("su", "one", None, false);
    cal.add_item("su", "two", None, false);
    cal.add_item("su", "three", None, false);
    cal.clear_day("su");
    assert_eq!(cal.days.len(), 1);
    assert_eq!(cal.days[0].day, "sunday");
    assert!(cal.days[0].tasks.is_empty());
}

#[test]
fn clear_day_creates_an_empty_entry_for_an_absent_day() {
    let mut cal = empty();
    cal.clear_day("f");
    assert_eq!(cal.days.len(), 1);
    assert_eq!(cal.days[0].day, "friday");
    assert!(cal.days[0].tasks.is_empty());
}

#[test]
fn tasks_for_finds_only_the_asked_day() {
    let mut cal = empty();
    cal.add_item("m", "a", None, false);
    cal.add_item("t", "b", None, false);
    let monday = cal.tasks_for("monday").unwrap();
    assert_eq!(monday.len(), 1);
    assert_eq!(monday[0].description, "a");
    assert!(cal.tasks_for("wednesday").is_none());
}

#[test]
fn task_new_carries_its_fields() {
    let t = Task::new(String::from("call"), None, true);
    assert_eq!(t.description, "call");
    assert_eq!(t.location, None);
    assert!(t.recurring);
}

#[test]
fn day_names_run_monday_through_sunday() {
    let expected = ["monday", "tuesday", "wednesday", "thursday", "friday", "saturday", "sunday"];
    for (i, want) in expected.iter().enumerate() {
        assert_eq!(day_name(i), *want);
    }
}

#[test]
fn day_colors_follow_the_custom_mapping() {
    assert_eq!(day_color("monday"), "green");
    assert_eq!(day_color("tuesday"), "blue");
    assert_eq!(day_color("wednesday"), "red");
    assert_eq!(day_color("thursday"), "yellow");
    assert_eq!(day_color("friday"), "magenta");
    assert_eq!(day_color("saturday"), "cyan");
    assert_eq!(day_color("sunday"), "white");
    assert_eq!(day_color("someday"), "white");
}

#[test]
fn task_rows_show_description_marker_and_location() {
    let plain = Task::new(String::from("Dentist"), Some(String::from("Clinic")), false);
    assert_eq!(task_row(&plain), "  \u{2022} Dentist (at Clinic)");
    let recurring = Task::new(String::from("Gym"), None, true);
    assert_eq!(task_row(&recurring), "  \u{2022} Gym \u{21bb}");
    let both = Task::new(String::from("Standup"), Some(String::from("Office")), true);
    assert_eq!(task_row(&both), "  \u{2022} Standup \u{21bb} (at Office)");
}

#[test]
fn day_labels_are_capitalized_with_a_colon() {
    assert_eq!(day_label("monday"), "Monday:");
    assert_eq!(day_label("sunday"), "Sunday:");
}
