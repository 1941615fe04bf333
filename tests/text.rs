use mensa_api::date::{build_date_string, upcoming_working_days, Date};
use mensa_api::text::{decode_entities, parse_components, strip_label_sep, trim_text};

#[test]
fn components_are_deduplicated_in_order() {
    assert_eq!(parse_components("A · B · A"), vec!["A".to_string(), "B".to_string()]);
}

#[test]
fn empty_components_blob_gives_no_components() {
    assert_eq!(parse_components(""), Vec::<String>::new());
}

#[test]
fn components_are_decoded_after_trimming() {
    assert_eq!(
        parse_components(" Senf&nbsp;mild ·Salz &amp; Pfeffer· Senf&nbsp;mild"),
        vec!["Senf mild".to_string(), "Salz & Pfeffer".to_string()]
    );
}

#[test]
fn entities_are_decoded() {
    assert_eq!(decode_entities("Pommes&nbsp;&amp;&nbsp;Ketchup"), "Pommes & Ketchup");
    assert_eq!(decode_entities("&amp;nbsp;"), "&nbsp;");
}

#[test]
fn text_is_trimmed() {
    assert_eq!(trim_text("\n\t 2,50 € \u{a0}"), "2,50 €");
}

#[test]
fn label_separator_is_stripped_once() {
    assert_eq!(strip_label_sep(": A, G: x"), "A, G: x");
    assert_eq!(strip_label_sep("A, G"), "A, G");
}

#[test]
fn date_string_is_iso() {
    assert_eq!(build_date_string(&Date::new(2024, 7, 5).unwrap()), "2024-07-05");
    assert_eq!(build_date_string(&Date::new(987, 12, 31).unwrap()), "0987-12-31");
}

#[test]
fn calendar_dates_are_checked() {
    assert!(Date::new(2024, 2, 29).is_some());
    assert!(Date::new(2023, 2, 29).is_none());
    assert!(Date::new(1900, 2, 29).is_none());
    assert!(Date::new(2000, 2, 29).is_some());
    assert!(Date::new(2024, 4, 31).is_none());
    assert!(Date::new(2024, 13, 1).is_none());
    assert!(Date::new(2024, 1, 0).is_none());
    assert!(Date::new(10000, 1, 1).is_none());
}

#[test]
fn next_dates_follow_the_calendar() {
    assert_eq!(Date::new(2024, 2, 28).unwrap().succ(), Date::new(2024, 2, 29));
    assert_eq!(Date::new(2023, 2, 28).unwrap().succ(), Date::new(2023, 3, 1));
    assert_eq!(Date::new(2023, 12, 31).unwrap().succ(), Date::new(2024, 1, 1));
    assert_eq!(Date::new(2024, 4, 30).unwrap().succ(), Date::new(2024, 5, 1));
    assert_eq!(Date::new(9999, 12, 31).unwrap().succ(), None);
}

#[test]
fn weekdays_count_from_monday() {
    assert_eq!(Date::new(2024, 7, 15).unwrap().weekday(), 0);
    assert_eq!(Date::new(2024, 7, 11).unwrap().weekday(), 3);
    assert_eq!(Date::new(2024, 7, 14).unwrap().weekday(), 6);
}

#[test]
fn weekends_are_not_fetched() {
    let today = Date::new(2024, 7, 11).unwrap();
    let days: Vec<Date> = [11, 12, 15, 16, 17].iter().map(|d| Date::new(2024, 7, *d).unwrap()).collect();
    assert_eq!(upcoming_working_days(&today, 7), days);
    assert_eq!(upcoming_working_days(&today, 0), Vec::<Date>::new());
    let last = Date::new(9999, 12, 31).unwrap();
    assert_eq!(upcoming_working_days(&last, 7).len(), 1);
}
