//! Tests of the human-date forms, the tooltip parser, the reconciler
//! and the series windowing.
use gh_board::contrib::{human_date, ordinal, parse_tooltip, Contributions, ReconcileIssue};
use gh_board::dates::Weekday;

fn strings(texts: &[&str]) -> Vec<String> {
    texts.iter().map(|t| String::from(*t)).collect()
}

fn pairs(c: &Contributions) -> Vec<(String, u32)> {
    c.to_pairs()
}

#[test]
fn ordinal_suffix_table() {
    assert_eq!(ordinal(1), Some("1st"));
    assert_eq!(ordinal(2), Some("2nd"));
    assert_eq!(ordinal(3), Some("3rd"));
    assert_eq!(ordinal(4), Some("4th"));
    assert_eq!(ordinal(11), Some("11th"));
    assert_eq!(ordinal(12), Some("12th"));
    assert_eq!(ordinal(13), Some("13th"));
    assert_eq!(ordinal(20), Some("20th"));
    assert_eq!(ordinal(21), Some("21st"));
    assert_eq!(ordinal(22), Some("22nd"));
    assert_eq!(ordinal(23), Some("23rd"));
    assert_eq!(ordinal(24), Some("24th"));
    assert_eq!(ordinal(30), Some("30th"));
    assert_eq!(ordinal(31), Some("31st"));
    assert_eq!(ordinal(0), None);
    assert_eq!(ordinal(32), None);
}

#[test]
fn human_date_composes_month_and_ordinal() {
    assert_eq!(human_date(6, 3).unwrap(), "June 3rd");
    assert_eq!(human_date(1, 1).unwrap(), "January 1st");
    assert_eq!(human_date(12, 31).unwrap(), "December 31st");
}

#[test]
fn human_date_rejects_out_of_range() {
    assert_eq!(human_date(0, 3).unwrap_err(), "invalid month");
    assert_eq!(human_date(13, 3).unwrap_err(), "invalid month");
    assert_eq!(human_date(6, 0).unwrap_err(), "invalid day");
    assert_eq!(human_date(6, 32).unwrap_err(), "invalid day");
}

#[test]
fn tooltip_zero_singular_and_plural_forms() {
    let zero = parse_tooltip("No contributions on June 3rd.").unwrap();
    assert_eq!(zero.human_date, "June 3rd");
    assert_eq!(zero.count, 0);

    let one = parse_tooltip("1 contribution on May 1st.").unwrap();
    assert_eq!(one.human_date, "May 1st");
    assert_eq!(one.count, 1);

    let five = parse_tooltip("5 contributions on July 4th.").unwrap();
    assert_eq!(five.human_date, "July 4th");
    assert_eq!(five.count, 5);
}

#[test]
fn tooltip_whitespace_and_dots_normalize() {
    let f = parse_tooltip("  No \n contributions\n   on   June 3rd.  ").unwrap();
    assert_eq!(f.human_date, "June 3rd");
    assert_eq!(f.count, 0);
}

#[test]
fn tooltip_unicode_whitespace_collapses() {
    let f = parse_tooltip("No\u{a0}contributions on\u{2009}June 3rd.").unwrap();
    assert_eq!(f.human_date, "June 3rd");
    assert_eq!(f.count, 0);
}

#[test]
fn github_user_url_names_the_profile_page() {
    assert_eq!(gh_board::contrib::github_user_url("octocat"), "https://github.com/octocat");
}

#[test]
fn tooltip_of_other_shape_parses_to_nothing() {
    assert!(parse_tooltip("Learn how we count contributions").is_none());
    assert!(parse_tooltip("").is_none());
    assert!(parse_tooltip("many contributions on June 3rd.").is_none());
    assert!(parse_tooltip("99999999999 contributions on June 3rd.").is_none());
}

#[test]
fn end_to_end_single_day() {
    let (series, issues) = Contributions::from_document_parts(
        &strings(&["5 contributions on June 3rd."]),
        &strings(&["2023-06-03"]),
    );
    assert!(issues.is_empty());
    let latest = series.latest(10);
    assert_eq!(pairs(&latest), vec![(String::from("2023-06-03, Sat"), 5)]);
}

#[test]
fn latest_windows_the_series() {
    let (series, issues) = Contributions::from_document_parts(
        &strings(&[
            "No contributions on June 1st.",
            "1 contribution on June 2nd.",
            "5 contributions on June 3rd.",
        ]),
        &strings(&["2023-06-01", "2023-06-02", "2023-06-03"]),
    );
    assert!(issues.is_empty());
    assert_eq!(pairs(&series).len(), 3);

    let all = series.latest(99);
    assert_eq!(pairs(&all), pairs(&series));

    let none = series.latest(0);
    assert!(pairs(&none).is_empty());

    let last_two = series.latest(2);
    assert_eq!(
        pairs(&last_two),
        vec![
            (String::from("2023-06-02, Fri"), 1),
            (String::from("2023-06-03, Sat"), 5),
        ]
    );
}

#[test]
fn series_is_ordered_by_key_whatever_the_input_order() {
    let (series, issues) = Contributions::from_document_parts(
        &strings(&[
            "No contributions on June 1st.",
            "1 contribution on June 2nd.",
            "5 contributions on June 3rd.",
        ]),
        &strings(&["2023-06-03", "2023-06-01", "2023-06-02"]),
    );
    assert!(issues.is_empty());
    assert_eq!(
        pairs(&series),
        vec![
            (String::from("2023-06-01, Thu"), 0),
            (String::from("2023-06-02, Fri"), 1),
            (String::from("2023-06-03, Sat"), 5),
        ]
    );
}

#[test]
fn reconcile_reports_unmatched_day_and_keeps_the_rest() {
    let (series, issues) = Contributions::from_document_parts(
        &strings(&["5 contributions on June 3rd."]),
        &strings(&["2023-06-03", "2023-06-04"]),
    );
    assert_eq!(pairs(&series), vec![(String::from("2023-06-03, Sat"), 5)]);
    assert_eq!(issues.len(), 1);
    assert!(matches!(
        &issues[0],
        ReconcileIssue::NoTooltipMatch { iso_date, human_date }
            if iso_date == "2023-06-04" && human_date == "June 4th"
    ));
}

#[test]
fn reconcile_reports_invalid_dates() {
    let (series, issues) = Contributions::from_document_parts(
        &strings(&[]),
        &strings(&["2023-13-01", "2023-02-30", "junk"]),
    );
    assert!(pairs(&series).is_empty());
    assert_eq!(issues.len(), 3);
    assert!(matches!(&issues[0], ReconcileIssue::InvalidDate { iso_date } if iso_date == "2023-13-01"));
    assert!(matches!(&issues[1], ReconcileIssue::InvalidDate { iso_date } if iso_date == "2023-02-30"));
    assert!(matches!(&issues[2], ReconcileIssue::InvalidDate { iso_date } if iso_date == "junk"));
}

#[test]
fn empty_date_cells_are_passed_over() {
    let (series, issues) = Contributions::from_document_parts(
        &strings(&["No contributions on June 3rd."]),
        &strings(&["", "2023-06-03"]),
    );
    assert!(issues.is_empty());
    assert_eq!(pairs(&series), vec![(String::from("2023-06-03, Sat"), 0)]);
}

#[test]
fn duplicate_tooltip_key_last_wins() {
    let (series, issues) = Contributions::from_document_parts(
        &strings(&[
            "2 contributions on June 3rd.",
            "7 contributions on June 3rd.",
        ]),
        &strings(&["2023-06-03"]),
    );
    assert!(issues.is_empty());
    assert_eq!(pairs(&series), vec![(String::from("2023-06-03, Sat"), 7)]);
}

#[test]
fn duplicate_cell_date_keeps_one_entry() {
    let (series, issues) = Contributions::from_document_parts(
        &strings(&["5 contributions on June 3rd."]),
        &strings(&["2023-06-03", "2023-06-03"]),
    );
    assert!(issues.is_empty());
    assert_eq!(pairs(&series), vec![(String::from("2023-06-03, Sat"), 5)]);
}

#[test]
fn reconciling_twice_yields_identical_series() {
    let tooltips = strings(&[
        "No contributions on June 1st.",
        "5 contributions on June 3rd.",
    ]);
    let dates = strings(&["2023-06-01", "2023-06-03", "2023-06-04"]);
    let (first, first_issues) = Contributions::from_document_parts(&tooltips, &dates);
    let (second, second_issues) = Contributions::from_document_parts(&tooltips, &dates);
    assert_eq!(pairs(&first), pairs(&second));
    assert_eq!(first_issues.len(), second_issues.len());
}

#[test]
fn latest_of_empty_series_is_empty() {
    let (series, issues) = Contributions::from_document_parts(&strings(&[]), &strings(&[]));
    assert!(issues.is_empty());
    assert!(pairs(&series.latest(5)).is_empty());
}

#[test]
fn entry_key_string_joins_date_and_weekday() {
    let fact = gh_board::contrib::day_fact_from_cell("2023-06-03");
    assert_eq!(fact.key_string(), "2023-06-03, Sat");
}

#[test]
fn day_fact_weekday_comes_from_the_calendar() {
    let fact = gh_board::contrib::day_fact_from_cell("2023-06-03");
    assert_eq!(fact.weekday, Weekday::Sat);
    let leap = gh_board::contrib::day_fact_from_cell("2024-02-29");
    assert_eq!(leap.weekday, Weekday::Thu);
}
