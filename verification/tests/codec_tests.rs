use calendar_app::archive::ArchivedWeek;
use calendar_app::calendar::Calendar;
use calendar_app::codec::decode_archive_log;
use calendar_app::codec::decode_calendar;
use calendar_app::codec::encode_archive_log;
use calendar_app::codec::encode_calendar;

fn empty() -> Calendar {
    Calendar { days: Vec::new() }
}

fn assert_same_week(a: &Calendar, b: &Calendar) {
    assert_eq!(a.days.len(), b.days.len());
    for (ea, eb) in a.days.iter().zip(b.days.iter()) {
        assert_eq!(ea.day, eb.day);
        assert_eq!(ea.tasks.len(), eb.tasks.len());
        for (ta, tb) in ea.tasks.iter().zip(eb.tasks.iter()) {
            assert_eq!(ta.description, tb.description);
            assert_eq!(ta.location, tb.location);
            assert_eq!(ta.recurring, tb.recurring);
        }
    }
}

#[test]
fn an_empty_week_encodes_to_the_bare_record() {
    assert_eq!(encode_calendar(&empty()), "{\"days\":{}}");
}

#[test]
fn one_task_encodes_field_for_field() {
    let mut cal = empty();
    cal.add_item("m", "A", None, false);
    assert_eq!(
        encode_calendar(&cal),
        "{\"days\":{\"monday\":[{\"description\":\"A\",\"location\":null,\"recurring\":false}]}}"
    );
}

#[test]
fn a_located_recurring_task_encodes_field_for_field() {
    let mut cal = empty();
    cal.add_item("t", "Gym", Some(String::from("Hall")), true);
    assert_eq!(
        encode_calendar(&cal),
        "{\"days\":{\"tuesday\":[{\"description\":\"Gym\",\"location\":\"Hall\",\"recurring\":true}]}}"
    );
}

#[test]
fn saving_then_loading_reproduces_the_week() {
    let mut cal = empty();
    cal.add_item("m", "Standup", None, true);
    cal.add_item("m", "Dentist", Some(String::from("Clinic")), false);
    cal.add_item("w", "say \"hi\" to \\everyone\\", Some(String::from("caf\u{00e9}")), false);
    cal.add_item("Someday", "", None, true);
    let text = encode_calendar(&cal);
    let back = decode_calendar(&text).unwrap();
    assert_same_week(&back, &cal);
}

#[test]
fn saving_then_loading_reproduces_the_empty_week() {
    let text = encode_calendar(&empty());
    let back = decode_calendar(&text).unwrap();
    assert!(back.days.is_empty());
}

#[test]
fn corrupt_text_is_rejected() {
    assert!(decode_calendar("").is_none());
    assert!(decode_calendar("not a record").is_none());
    assert!(decode_calendar("{\"days\":{}").is_none());
    assert!(decode_calendar("{\"days\":{}}junk").is_none());
    assert!(decode_calendar("{\"days\":{\"m\":[]}").is_none());
    assert!(decode_calendar(
        "{\"days\":{\"monday\":[{\"description\":\"A\",\"location\":null,\"recurring\":maybe}]}}"
    ).is_none());
}

#[test]
fn a_repeated_day_name_counts_as_corrupt() {
    let text = "{\"days\":{\"monday\":[],\"monday\":[]}}";
    assert!(decode_calendar(text).is_none());
}

#[test]
fn the_archive_log_round_trips() {
    let mut week1 = empty();
    week1.add_item("m", "a", None, true);
    let mut week2 = empty();
    week2.add_item("su", "b", Some(String::from("x")), false);
    let log = vec![
        ArchivedWeek { timestamp: String::from("2024-01-01T00:00:00+00:00"), week: week1 },
        ArchivedWeek { timestamp: String::from("2024-01-08T09:30:00+00:00"), week: week2 },
    ];
    let text = encode_archive_log(&log);
    let back = decode_archive_log(&text).unwrap();
    assert_eq!(back.len(), 2);
    assert_eq!(back[0].timestamp, log[0].timestamp);
    assert_eq!(back[1].timestamp, log[1].timestamp);
    assert_same_week(&back[0].week, &log[0].week);
    assert_same_week(&back[1].week, &log[1].week);
}

#[test]
fn the_empty_archive_log_round_trips() {
    let log: Vec<ArchivedWeek> = Vec::new();
    let text = encode_archive_log(&log);
    assert_eq!(text, "[]");
    assert!(decode_archive_log(&text).unwrap().is_empty());
}

#[test]
fn corrupt_archive_text_is_rejected() {
    assert!(decode_archive_log("").is_none());
    assert!(decode_archive_log("{}").is_none());
    assert!(decode_archive_log("[").is_none());
    assert!(decode_archive_log("[]trailing").is_none());
}
