use calendar_app::utils::capitalize_first;
use calendar_app::utils::normalize_day;

#[test]
fn shorthands_map_to_canonical_days() {
    assert_eq!(normalize_day("m"), "monday");
    assert_eq!(normalize_day("t"), "tuesday");
    assert_eq!(normalize_day("w"), "wednesday");
    assert_eq!(normalize_day("th"), "thursday");
    assert_eq!(normalize_day("f"), "friday");
    assert_eq!(normalize_day("sa"), "saturday");
    assert_eq!(normalize_day("su"), "sunday");
}

#[test]
fn the_bare_s_means_saturday() {
    assert_eq!(normalize_day("s"), "saturday");
}

#[test]
fn shorthands_are_case_insensitive() {
    assert_eq!(normalize_day("M"), "monday");
    assert_eq!(normalize_day("W"), "wednesday");
    assert_eq!(normalize_day("TH"), "thursday");
    assert_eq!(normalize_day("Su"), "sunday");
}

#[test]
fn other_inputs_pass_through_lower_cased() {
    assert_eq!(normalize_day("monday"), "monday");
    assert_eq!(normalize_day("MONDAY"), "monday");
    assert_eq!(normalize_day("fri"), "fri");
    assert_eq!(normalize_day("someday"), "someday");
    assert_eq!(normalize_day(""), "");
}

#[test]
fn capitalize_first_upper_cases_only_the_first_character() {
    assert_eq!(capitalize_first("monday"), "Monday");
    assert_eq!(capitalize_first("a"), "A");
    assert_eq!(capitalize_first("already Upper"), "Already Upper");
    assert_eq!(capitalize_first(""), "");
}
