use calendar_app::calendar::Calendar;

fn empty() -> Calendar {
    Calendar { days: Vec::new() }
}

#[test]
fn added_task_surfaces_under_wednesday_without_marker() {
    let mut cal = empty();
    cal.add_item("W", "Dentist", Some(String::from("Clinic")), false);
    let rows = cal.day_rows("wednesday");
    assert_eq!(rows, vec![String::from("  \u{2022} Dentist (at Clinic)")]);
    let lines = cal.render_lines();
    let label_at = lines.iter().position(|l| l == "Wednesday:").unwrap();
    assert_eq!(lines[label_at + 1], "  \u{2022} Dentist (at Clinic)");
    assert!(!lines[label_at + 1].contains('\u{21bb}'));
}

#[test]
fn cleared_sunday_renders_the_placeholder() {
    let mut cal = empty();
    cal.add_item("su", "one", None, false);
    cal.add_item("su", "two", None, false);
    cal.add_item("su", "three", None, false);
    cal.clear_day("su");
    assert_eq!(cal.day_rows("sunday"), vec![String::from("  (no items)")]);
    let lines = cal.render_lines();
    let label_at = lines.iter().position(|l| l == "Sunday:").unwrap();
    assert_eq!(lines[label_at + 1], "  (no items)");
}

#[test]
fn the_listing_shows_all_seven_days_in_fixed_order() {
    let cal = empty();
    let lines = cal.render_lines();
    assert_eq!(lines[0], "Weekly Calendar:");
    assert_eq!(lines[1], "================");
    let labels: Vec<&String> = lines.iter().filter(|l| l.ends_with(':') && *l != "Weekly Calendar:").collect();
    assert_eq!(
        labels,
        vec!["Monday:", "Tuesday:", "Wednesday:", "Thursday:", "Friday:", "Saturday:", "Sunday:"]
    );
    // every day of the empty week shows the placeholder
    assert_eq!(lines.iter().filter(|l| *l == "  (no items)").count(), 7);
}

#[test]
fn recurring_task_carries_the_marker_in_the_listing() {
    let mut cal = empty();
    cal.add_item("m", "Standup", None, true);
    let rows = cal.day_rows("monday");
    assert_eq!(rows, vec![String::from("  \u{2022} Standup \u{21bb}")]);
}

#[test]
fn a_day_stored_under_an_unknown_name_never_shows() {
    let mut cal = empty();
    cal.add_item("Someday", "invisible", None, false);
    let lines = cal.render_lines();
    assert!(!lines.iter().any(|l| l.contains("invisible")));
    assert_eq!(lines.iter().filter(|l| *l == "  (no items)").count(), 7);
}
