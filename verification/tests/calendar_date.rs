use hockeyscraper::calendar_date::{CalendarDate, DATE_FORMAT_ERROR};
use std::cmp::Ordering;

#[test]
fn new_keeps_day_month_year() {
    let d = CalendarDate::new(16, 1, 2020);
    assert_eq!(d.year, 2020);
    assert_eq!(d.month, 1);
    assert_eq!(d.day, 16);
}

#[test]
fn compare_orders_by_year_month_day() {
    let a = CalendarDate::new(31, 12, 2019);
    let b = CalendarDate::new(1, 1, 2020);
    let c = CalendarDate::new(2, 1, 2020);
    assert_eq!(a.compare(&b), Ordering::Less);
    assert_eq!(b.compare(&a), Ordering::Greater);
    assert_eq!(b.compare(&c), Ordering::Less);
    assert_eq!(c.compare(&c), Ordering::Equal);
    let m1 = CalendarDate::new(28, 2, 2020);
    let m2 = CalendarDate::new(1, 3, 2020);
    assert_eq!(m1.compare(&m2), Ordering::Less);
}

#[test]
fn partial_cmp_and_cmp_agree_with_compare() {
    let dates = [
        CalendarDate::new(1, 1, 2020),
        CalendarDate::new(2, 1, 2020),
        CalendarDate::new(1, 2, 2020),
        CalendarDate::new(1, 1, 2021),
        CalendarDate::new(31, 12, 2019),
    ];
    for a in dates.iter() {
        for b in dates.iter() {
            assert_eq!(a.partial_cmp(b), Some(a.compare(b)));
            assert_eq!(a.cmp(b), a.compare(b));
            assert_eq!(a.is_before(b), a.compare(b) == Ordering::Less);
            assert_eq!(a == b, a.compare(b) == Ordering::Equal);
        }
    }
}

#[test]
fn date_ordering_total_order_on_examples() {
    let a = CalendarDate::new(5, 3, 2019);
    let b = CalendarDate::new(6, 3, 2019);
    let c = CalendarDate::new(1, 4, 2019);
    assert_eq!(a.compare(&b), Ordering::Less);
    assert_eq!(b.compare(&c), Ordering::Less);
    assert_eq!(a.compare(&c), Ordering::Less);
    assert_eq!(c.compare(&a), Ordering::Greater);
}

#[test]
fn try_from_reads_yyyymmdd() {
    let d = CalendarDate::try_from(String::from("20200116")).unwrap();
    assert_eq!(d, CalendarDate::new(16, 1, 2020));
    let d = CalendarDate::try_from(String::from("20211231")).unwrap();
    assert_eq!(d, CalendarDate::new(31, 12, 2021));
}

#[test]
fn try_from_reads_signed_pieces_like_str_parse() {
    let d = CalendarDate::try_from(String::from("2020+1+1")).unwrap();
    assert_eq!(d, CalendarDate::new(1, 1, 2020));
    let d = CalendarDate::try_from(String::from("20200100007")).unwrap();
    assert_eq!(d, CalendarDate::new(7, 1, 2020));
}

#[test]
fn try_from_rejects_bad_text_with_message() {
    let e = CalendarDate::try_from(String::from("2020-1-16")).unwrap_err();
    assert_eq!(e, format!("{}{}", DATE_FORMAT_ERROR, "2020-1-16"));
    assert_eq!(
        e,
        "Parsing of date string failed, must be in format yyyymmdd - provided value was: 2020-1-16"
    );
    assert!(CalendarDate::try_from(String::from("20201356x")).is_err());
    assert!(CalendarDate::try_from(String::from("2020011")).is_ok());
    assert!(CalendarDate::try_from(String::from("202001")).is_err());
    assert!(CalendarDate::try_from(String::from("20200199999")).is_err());
}

#[test]
fn try_from_rejects_text_that_cannot_be_cut() {
    for s in ["2021", "", "20200", "202\u{e9}0116", "20201\u{e9}16"] {
        assert_eq!(CalendarDate::try_from(s.to_string()), Err(format!("{}{}", DATE_FORMAT_ERROR, s)));
    }
    assert_eq!(
        CalendarDate::try_from(String::from("2021")),
        Err(String::from("Parsing of date string failed, must be in format yyyymmdd - provided value was: 2021"))
    );
}

#[test]
fn non_ascii_month_is_rejected() {
    let e = CalendarDate::try_from(String::from("2020\u{e9}16"));
    assert!(e.is_err());
}

#[test]
fn display_pads_month_and_day() {
    assert_eq!(CalendarDate::new(16, 1, 2020).to_display_string(), "2020-01-16");
    assert_eq!(CalendarDate::new(5, 12, 2021).to_display_string(), "2021-12-05");
    assert_eq!(CalendarDate::new(0, 0, 0).to_display_string(), "0-00-00");
    assert_eq!(CalendarDate::new(200, 100, 65535).to_display_string(), "65535-100-200");
}

#[test]
fn from_ymd_parts_cuts_to_field_width() {
    let d = CalendarDate::from_ymd_parts(2021, 3, 9);
    assert_eq!(d, CalendarDate::new(9, 3, 2021));
    let d = CalendarDate::from_ymd_parts(70000, 300, 257);
    assert_eq!(d.year, 70000u32 as u16);
    assert_eq!(d.month, 44);
    assert_eq!(d.day, 1);
}

#[test]
fn date_from_os_is_a_calendar_day() {
    let d = CalendarDate::get_date_from_os().unwrap();
    assert!(1 <= d.month && d.month <= 12);
    assert!(1 <= d.day && d.day <= 31);
    assert!(d.year >= 2020);
}
