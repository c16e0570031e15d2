use calendar_app::archive::ArchivedWeek;
use calendar_app::archive::archive_week;
use calendar_app::archive::collect_recurring;
use calendar_app::calendar::Calendar;

fn empty() -> Calendar {
    Calendar { days: Vec::new() }
}

fn assert_same_week(a: &Calendar, b: &Calendar) {
    assert_eq!(a.days.len(), b.days.len());
    for (ea, eb) in a.days.iter().zip(b.days.iter()) {
        assert_eq!(ea.day, eb.day);
        assert_eq!(ea.tasks.len(), eb.tasks.len());
        for (ta, tb) in ea.tasks.iter().zip(eb.tasks.iter()) {
            assert_eq!(ta.description, tb.description);
            assert_eq!(ta.location, tb.location);
            assert_eq!(ta.recurring, tb.recurring);
        }
    }
}

#[test]
fn archiving_appends_one_snapshot_of_the_whole_week() {
    let mut cal = empty();
    cal.add_item("m", "Standup", None, true);
    cal.add_item("m", "Dentist", Some(String::from("Clinic")), false);
    cal.add_item("t", "Review", None, false);
    let mut log: Vec<ArchivedWeek> = Vec::new();
    let preserved = archive_week(&cal, &mut log);
    assert_eq!(log.len(), 1);
    assert_same_week(&log[0].week, &cal);
    // the week itself is untouched by archiving
    assert_eq!(cal.days.len(), 2);
    assert_eq!(cal.days[0].tasks.len(), 2);
    // only the recurring task is preserved
    assert_eq!(preserved.len(), 1);
    assert_eq!(preserved[0].day, "monday");
    assert_eq!(preserved[0].tasks.len(), 1);
    assert_eq!(preserved[0].tasks[0].description, "Standup");
    assert!(preserved[0].tasks[0].recurring);
}

#[test]
fn archiving_twice_keeps_appending() {
    let mut cal = empty();
    cal.add_item("f", "Retro", None, false);
    let mut log: Vec<ArchivedWeek> = Vec::new();
    archive_week(&cal, &mut log);
    cal.add_item("sa", "Hike", None, false);
    archive_week(&cal, &mut log);
    assert_eq!(log.len(), 2);
    assert_eq!(log[0].week.days.len(), 1);
    assert_eq!(log[1].week.days.len(), 2);
}

#[test]
fn collect_recurring_keeps_groups_and_order() {
    let mut cal = empty();
    cal.add_item("m", "a", None, true);
    cal.add_item("m", "b", None, false);
    cal.add_item("m", "c", None, true);
    cal.add_item("t", "d", None, false);
    cal.add_item("w", "e", Some(String::from("home")), true);
    let groups = collect_recurring(&cal);
    assert_eq!(groups.len(), 2);
    assert_eq!(groups[0].day, "monday");
    let monday: Vec<&str> = groups[0].tasks.iter().map(|t| t.description.as_str()).collect();
    assert_eq!(monday, vec!["a", "c"]);
    assert_eq!(groups[1].day, "wednesday");
    assert_eq!(groups[1].tasks.len(), 1);
    assert_eq!(groups[1].tasks[0].description, "e");
    assert_eq!(groups[1].tasks[0].location.as_deref(), Some("home"));
}

#[test]
fn collect_recurring_of_a_week_without_recurring_tasks_is_empty() {
    let mut cal = empty();
    cal.add_item("m", "a", None, false);
    cal.add_item("t", "b", None, false);
    assert!(collect_recurring(&cal).is_empty());
}

#[test]
fn rebuilding_after_archiving_keeps_exactly_the_recurring_task() {
    let mut cal = empty();
    cal.add_item("m", "Standup", None, true);
    cal.add_item("m", "Dentist", Some(String::from("Clinic")), false);
    let mut log: Vec<ArchivedWeek> = Vec::new();
    let preserved = archive_week(&cal, &mut log);
    cal.reset_week(&preserved);
    assert_eq!(cal.days.len(), 1);
    assert_eq!(cal.days[0].day, "monday");
    assert_eq!(cal.days[0].tasks.len(), 1);
    assert_eq!(cal.days[0].tasks[0].description, "Standup");
    assert!(cal.days[0].tasks[0].recurring);
}

#[test]
fn rebuilding_from_no_groups_leaves_the_week_empty() {
    let mut cal = empty();
    cal.add_item("th", "once", None, false);
    let mut log: Vec<ArchivedWeek> = Vec::new();
    let preserved = archive_week(&cal, &mut log);
    cal.reset_week(&preserved);
    assert!(cal.days.is_empty());
}

#[test]
fn archive_timestamps_have_the_rfc3339_utc_shape() {
    let mut cal = empty();
    cal.add_item("m", "a", None, false);
    let mut log: Vec<ArchivedWeek> = Vec::new();
    archive_week(&cal, &mut log);
    let ts = &log[0].timestamp;
    assert!(ts.ends_with("+00:00"));
    let t_at = ts.find('T').unwrap();
    let date = &ts[..t_at];
    assert_eq!(date.len(), 10);
    assert!(date[0..4].chars().all(|c| c.is_ascii_digit()));
    assert_eq!(&date[4..5], "-");
    assert!(date[5..7].chars().all(|c| c.is_ascii_digit()));
    assert_eq!(&date[7..8], "-");
    assert!(date[8..10].chars().all(|c| c.is_ascii_digit()));
    let time = &ts[t_at + 1..ts.len() - 6];
    assert!(time.len() == 8 || (time.len() > 8 && &time[8..9] == "."));
    assert!(time[0..2].chars().all(|c| c.is_ascii_digit()));
    assert_eq!(&time[2..3], ":");
    assert!(time[3..5].chars().all(|c| c.is_ascii_digit()));
    assert_eq!(&time[5..6], ":");
    assert!(time[6..8].chars().all(|c| c.is_ascii_digit()));
    if time.len() > 8 {
        let frac = &time[9..];
        assert!(frac.len() == 3 || frac.len() == 6 || frac.len() == 9);
        assert!(frac.chars().all(|c| c.is_ascii_digit()));
    }
}
