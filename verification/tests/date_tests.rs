use tampio::chars::chars_of;
use tampio::date::Date;

#[test]
fn calendar_dates() {
    assert_eq!(Date::from_calendar_date(2024, 2, 29), Some(Date { year: 2024, month: 2, day: 29 }));
    assert_eq!(Date::from_calendar_date(2023, 2, 29), None);
    assert_eq!(Date::from_calendar_date(1900, 2, 29), None);
    assert_eq!(Date::from_calendar_date(2000, 2, 29), Some(Date { year: 2000, month: 2, day: 29 }));
    assert_eq!(Date::from_calendar_date(0, 2, 29), Some(Date { year: 0, month: 2, day: 29 }));
    assert_eq!(Date::from_calendar_date(2024, 4, 31), None);
    assert_eq!(Date::from_calendar_date(2024, 13, 1), None);
    assert_eq!(Date::from_calendar_date(2024, 0, 1), None);
    assert_eq!(Date::from_calendar_date(2024, 1, 0), None);
    assert_eq!(Date::from_calendar_date(10000, 1, 1), None);
    assert_eq!(Date::from_calendar_date(-9999, 1, 1), Some(Date::earliest()));
    assert_eq!(Date::from_calendar_date(-10000, 1, 1), None);
}

#[test]
fn date_literals_round_trip() {
    for text in ["10.1.2024", "1.12.1999", "29.2.2024", "31.12.9999", "5.5.5", "1.1.0"] {
        let date = Date::parse(&chars_of(text)).unwrap();
        assert_eq!(date.format(), text);
    }
    let date = Date { year: 2024, month: 1, day: 10 };
    assert_eq!(Date::parse(&chars_of(&date.format())), Some(date));
}

#[test]
fn date_literal_forms() {
    assert_eq!(Date::parse(&chars_of("10.1.24")), Some(Date { year: 24, month: 1, day: 10 }));
    assert_eq!(Date::parse(&chars_of("01.02.2024")), Some(Date { year: 2024, month: 2, day: 1 }));
    assert_eq!(Date::parse(&chars_of("10.1.")), Some(Date { year: 0, month: 1, day: 10 }));
    assert_eq!(Date::parse(&chars_of("10.1")), None);
    assert_eq!(Date::parse(&chars_of("10..2024")), None);
    assert_eq!(Date::parse(&chars_of(".1.2024")), None);
    assert_eq!(Date::parse(&chars_of("100.1.2024")), None);
    assert_eq!(Date::parse(&chars_of("10.100.2024")), None);
    assert_eq!(Date::parse(&chars_of("10.1.20245")), None);
    assert_eq!(Date::parse(&chars_of("10.1.2024.")), None);
    assert_eq!(Date::parse(&chars_of("1a.1.2024")), None);
    assert_eq!(Date::parse(&chars_of("30.2.2024")), None);
}

#[test]
fn dates_are_ordered_and_written() {
    let a = Date { year: 2024, month: 1, day: 31 };
    let b = Date { year: 2024, month: 2, day: 1 };
    assert!(a.is_le(b));
    assert!(!b.is_le(a));
    assert!(a.is_le(a));
    assert!(Date::earliest().is_le(a));
    assert_eq!(Date::earliest().format(), "1.1.-9999");
    assert_eq!(a.replace_year(2023), Some(Date { year: 2023, month: 1, day: 31 }));
    assert_eq!(Date { year: 2024, month: 2, day: 29 }.replace_year(2023), None);
}
