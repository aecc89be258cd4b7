use tinytools::cal::Month::{April, February, January, May};
use tinytools::cal::{days_in_month, format_month, last_day_in_month, weekday_sunday0, Date, Month};

#[test]
fn test_month_from_str() {
    // Valid spellings and abbreviations
    let res = Month::from_str("January");
    assert_eq!(res, Ok(Month::January));
    let res = Month::from_str("s");
    assert_eq!(res, Ok(Month::September));
    let res = Month::from_str("3");
    assert_eq!(res, Ok(Month::March));
    let res = Month::from_str("apr");
    assert_eq!(res, Ok(Month::April));
    let res = Month::from_str("jUnE");
    assert_eq!(res, Ok(Month::June));
    // Invalid abbreviation => ambiguous
    let res = Month::from_str("ju");
    assert!(res.is_err());
    // Invalid string
    let res = Month::from_str("blargh");
    assert!(res.is_err());
}

#[test]
fn test_month_error_messages() {
    let res = Month::from_str("ju");
    assert_eq!(res.unwrap_err().msg, "Ambiguous abbreviation 'ju'");
    let res = Month::from_str("M");
    assert_eq!(res.unwrap_err().msg, "Ambiguous abbreviation 'M'");
    let res = Month::from_str("blargh");
    assert_eq!(res.unwrap_err().msg, "Unreckognized string 'blargh'");
}

#[test]
fn test_last_day_in_month() {
    assert_eq!(
        last_day_in_month(2020, &January),
        Date { year: 2020, month: 1, day: 31 }
    );
    assert_eq!(
        last_day_in_month(2020, &February),
        Date { year: 2020, month: 2, day: 29 }
    );
    assert_eq!(
        last_day_in_month(2020, &April),
        Date { year: 2020, month: 4, day: 30 }
    );
}

#[test]
fn test_days_in_month() {
    assert_eq!(days_in_month(2023, 2), 28);
    assert_eq!(days_in_month(2024, 2), 29);
    assert_eq!(days_in_month(1900, 2), 28);
    assert_eq!(days_in_month(2000, 2), 29);
    assert_eq!(days_in_month(2021, 12), 31);
    assert_eq!(days_in_month(2021, 11), 30);
}

#[test]
fn test_weekday() {
    // The first day of 2000 was a Saturday.
    assert_eq!(weekday_sunday0(2000, 1, 1), 6);
    // February 2020 started on a Saturday; May 2020 on a Friday.
    assert_eq!(weekday_sunday0(2020, 2, 1), 6);
    assert_eq!(weekday_sunday0(2020, 5, 1), 5);
    // April 2021 started on a Thursday.
    assert_eq!(weekday_sunday0(2021, 4, 1), 4);
}

#[test]
fn test_format_month() {
    let today = Date { year: 0, month: 1, day: 1 };
    let leap_february = vec![
        "   February 2020      ",
        "Su Mo Tu We Th Fr Sa  ",
        "                   1  ",
        " 2  3  4  5  6  7  8  ",
        " 9 10 11 12 13 14 15  ",
        "16 17 18 19 20 21 22  ",
        "23 24 25 26 27 28 29  ",
        "                      ",
    ];
    assert_eq!(format_month(2020, &February, true, today), leap_february);
    let may = vec![
        "        May           ",
        "Su Mo Tu We Th Fr Sa  ",
        "                1  2  ",
        " 3  4  5  6  7  8  9  ",
        "10 11 12 13 14 15 16  ",
        "17 18 19 20 21 22 23  ",
        "24 25 26 27 28 29 30  ",
        "31                    ",
    ];
    assert_eq!(format_month(2020, &May, false, today), may);
    let april_hl = vec![
        "     April 2021       ",
        "Su Mo Tu We Th Fr Sa  ",
        "             1  2  3  ",
        " 4  5  6 \u{1b}[7m 7\u{1b}[0m  8  9 10  ",
        "11 12 13 14 15 16 17  ",
        "18 19 20 21 22 23 24  ",
        "25 26 27 28 29 30     ",
        "                      ",
    ];
    let today = Date { year: 2021, month: 4, day: 7 };
    assert_eq!(format_month(2021, &April, true, today), april_hl);
}
