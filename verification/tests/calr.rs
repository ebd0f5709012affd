use chrono::{Datelike, NaiveDate};
use textutils::calr::{
    format_month, format_title, format_year, layout_month, layout_year, parse_month, parse_year,
    plan, run, starts_with, Config, MonthError, Plan, YearError,
};

const MONTH_NAMES: [&str; 12] = [
    "January",
    "February",
    "March",
    "April",
    "May",
    "June",
    "July",
    "August",
    "September",
    "October",
    "November",
    "December",
];

fn expected_month(year: i32, month: u32, print_year: bool) -> Vec<String> {
    let month_year = NaiveDate::from_ymd_opt(year, month, 1).unwrap();
    let mut counter = 0;
    let mut line = String::from("");
    let mut result = vec![];
    let month_name = MONTH_NAMES[month_year.month0() as usize];
    let head = if print_year {
        format!("{} {}", month_name, month_year.year_ce().1)
    } else {
        month_name.to_string()
    };
    result.push(format!("{:^20}  ", head));
    result.push("Su Mo Tu We Th Fr Sa  ".to_string());
    for _day in 1..month_year.weekday().number_from_sunday() {
        line.push_str("   ");
        counter += 1;
    }
    for day in month_year.iter_days() {
        if day.year_ce().1 != year as u32 || day.month0() != month - 1 {
            if !line.is_empty() {
                result.push(format!("{:<22}", line));
            }
            result.push(format!("{:<22}", ""));
            break;
        }
        if counter < 6 {
            line.push_str(format!("{:2} ", day.day0() + 1).as_str());
            counter += 1;
        } else {
            line.push_str(format!("{:2} ", day.day0() + 1).as_str());
            if !line.is_empty() {
                result.push(format!("{:<22}", line));
            }
            line = String::from("");
            counter = 0;
        }
    }
    result
}

#[test]
fn years_outside_the_refused_range_are_read() {
    assert_eq!(parse_year("0"), Ok(0));
    assert_eq!(parse_year("10000"), Ok(10000));
    assert_eq!(parse_year("-5"), Ok(-5));
    assert_eq!(parse_year("+12345"), Ok(12345));
    assert_eq!(parse_year("2147483647"), Ok(2147483647));
    assert_eq!(parse_year("-2147483648"), Ok(-2147483648));
}

#[test]
fn years_that_are_refused() {
    assert_eq!(parse_year("1"), Err(YearError::Refused(1)));
    assert_eq!(parse_year("2024"), Err(YearError::Refused(2024)));
    assert_eq!(parse_year("9999"), Err(YearError::Refused(9999)));
    assert_eq!(parse_year("abc"), Err(YearError::InvalidNumber));
    assert_eq!(parse_year(""), Err(YearError::InvalidNumber));
    assert_eq!(parse_year("2147483648"), Err(YearError::InvalidNumber));
    assert_eq!(parse_year("20 24"), Err(YearError::InvalidNumber));
}

#[test]
fn months_by_number_and_by_name() {
    assert_eq!(parse_month("0"), Ok(0));
    assert_eq!(parse_month("13"), Ok(13));
    assert_eq!(parse_month("4294967295"), Ok(4294967295));
    assert_eq!(parse_month("jan"), Ok(1));
    assert_eq!(parse_month("f"), Ok(2));
    assert_eq!(parse_month("mar"), Ok(3));
    assert_eq!(parse_month("ap"), Ok(4));
    assert_eq!(parse_month("may"), Ok(5));
    assert_eq!(parse_month("jun"), Ok(6));
    assert_eq!(parse_month("jul"), Ok(7));
    assert_eq!(parse_month("au"), Ok(8));
    assert_eq!(parse_month("s"), Ok(9));
    assert_eq!(parse_month("october"), Ok(10));
    assert_eq!(parse_month("n"), Ok(11));
    assert_eq!(parse_month("d"), Ok(12));
}

#[test]
fn months_that_are_refused() {
    assert_eq!(parse_month("1"), Err(MonthError::Refused(1)));
    assert_eq!(parse_month("12"), Err(MonthError::Refused(12)));
    assert_eq!(parse_month("+7"), Err(MonthError::Refused(7)));
    assert_eq!(parse_month(""), Err(MonthError::InvalidMonth));
    assert_eq!(parse_month("j"), Err(MonthError::InvalidMonth));
    assert_eq!(parse_month("ju"), Err(MonthError::InvalidMonth));
    assert_eq!(parse_month("ma"), Err(MonthError::InvalidMonth));
    assert_eq!(parse_month("a"), Err(MonthError::InvalidMonth));
    assert_eq!(parse_month("January"), Err(MonthError::InvalidMonth));
    assert_eq!(parse_month("decemberx"), Err(MonthError::InvalidMonth));
    assert_eq!(parse_month("-1"), Err(MonthError::InvalidMonth));
    assert_eq!(parse_month("4294967296"), Err(MonthError::InvalidMonth));
}

#[test]
fn prefixes() {
    let text: Vec<char> = "october".chars().collect();
    let oct: Vec<char> = "oct".chars().collect();
    let nov: Vec<char> = "nov".chars().collect();
    assert!(starts_with(&text, &oct));
    assert!(starts_with(&text, &text));
    assert!(starts_with(&text, &[]));
    assert!(!starts_with(&text, &nov));
    assert!(!starts_with(&oct, &text));
}

#[test]
fn a_month_is_laid_out_in_weeks() {
    let got = format_month(2024, 2, true);
    let expected = vec![
        "   February 2024      ",
        "Su Mo Tu We Th Fr Sa  ",
        "             1  2  3  ",
        " 4  5  6  7  8  9 10  ",
        "11 12 13 14 15 16 17  ",
        "18 19 20 21 22 23 24  ",
        "25 26 27 28 29        ",
        "                      ",
    ];
    assert_eq!(got, expected);
    assert_eq!(format_title(2024, 2, false), "      February        ");
    assert_eq!(format_title(0, 12, true), "     December 1       ");
    assert_eq!(format_title(-5, 1, true), "     January 6        ");
}

#[test]
fn months_agree_with_a_walk_through_the_days() {
    let mut years: Vec<i32> = (1990..2060).collect();
    years.extend([1, 2, 4, 100, 400, 1582, 1900, 2000, 2100, 9999, 10000, 262141, 0, -1, -4, -400, -262143]);
    for year in years {
        for month in 1..=12u32 {
            for print_year in [false, true] {
                assert_eq!(
                    format_month(year, month, print_year),
                    expected_month(year, month, print_year),
                    "{} {}",
                    year,
                    month
                );
            }
        }
    }
    for month in 1..=12u32 {
        assert_eq!(format_month(262142, month, true), expected_month(262142, month, true));
    }
}

#[test]
fn a_month_laid_out_from_its_first_day_and_its_length() {
    let got = layout_month("title".to_string(), 7, 30, true);
    assert_eq!(
        got,
        vec![
            "title",
            "Su Mo Tu We Th Fr Sa  ",
            "                   1  ",
            " 2  3  4  5  6  7  8  ",
            " 9 10 11 12 13 14 15  ",
            "16 17 18 19 20 21 22  ",
            "23 24 25 26 27 28 29  ",
            "30                    ",
            "                      ",
        ]
    );
    let exact = layout_month("t".to_string(), 1, 28, true);
    assert_eq!(exact.len(), 7);
    assert_eq!(exact[5], "22 23 24 25 26 27 28  ");
    assert_eq!(exact[6], "                      ");
    let open = layout_month("t".to_string(), 1, 31, false);
    assert_eq!(open.len(), 6);
    assert_eq!(open[5], "22 23 24 25 26 27 28  ");
    let empty = layout_month("t".to_string(), 3, 0, true);
    assert_eq!(empty, vec!["t", "Su Mo Tu We Th Fr Sa  ", "                      ", "                      "]);
    let none = layout_month("t".to_string(), 1, 0, true);
    assert_eq!(none, vec!["t", "Su Mo Tu We Th Fr Sa  ", "                      "]);
}

#[test]
fn a_year_is_set_in_rows_of_three_months() {
    let lines = format_year(2024).unwrap();
    assert_eq!(lines.len(), 36);
    assert_eq!(lines[0], format!("{:>32}", 2024));
    let months: Vec<Vec<String>> = (1..=12).map(|m| expected_month(2024, m, false)).collect();
    let mut expected = vec![format!("{:>32}", 2024)];
    for trimester in 0..4 {
        for line in 0..8 {
            expected.push(format!(
                "{}{}{}",
                months[trimester * 3][line],
                months[trimester * 3 + 1][line],
                months[trimester * 3 + 2][line]
            ));
        }
        if trimester < 3 {
            expected.push(String::new());
        }
    }
    assert_eq!(lines, expected);
    assert_eq!(layout_year(2024, &months), expected);
    assert_eq!(layout_year(-7, &months)[0], format!("{:>32}", -7));
}

#[test]
fn a_year_with_a_short_month_cannot_be_set() {
    // February 2026 starts on a Sunday and has four weeks: seven lines.
    assert_eq!(expected_month(2026, 2, false).len(), 7);
    assert_eq!(format_year(2026), None);
    assert_eq!(format_year(0), None);
}

#[test]
fn what_to_show() {
    let none = Config { year: None, month: None, show_current_year: false };
    assert_eq!(
        plan(&none, 2024, 5),
        Plan { year: 2024, month: 5, print_year: false, whole_year: false }
    );
    let flag = Config { year: None, month: None, show_current_year: true };
    assert_eq!(
        plan(&flag, 2024, 5),
        Plan { year: 2024, month: 5, print_year: true, whole_year: true }
    );
    let month = Config { year: None, month: Some(3), show_current_year: false };
    assert_eq!(
        plan(&month, 2024, 5),
        Plan { year: 2024, month: 3, print_year: false, whole_year: false }
    );
    let year = Config { year: Some(10000), month: None, show_current_year: false };
    assert_eq!(
        plan(&year, 2024, 5),
        Plan { year: 10000, month: 5, print_year: true, whole_year: true }
    );
    let both = Config { year: Some(2024), month: Some(2), show_current_year: false };
    assert_eq!(
        plan(&both, 2024, 5),
        Plan { year: 2024, month: 2, print_year: false, whole_year: false }
    );
    let other = Config { year: Some(2023), month: Some(2), show_current_year: false };
    assert_eq!(
        plan(&other, 2024, 5),
        Plan { year: 2023, month: 2, print_year: true, whole_year: false }
    );
}

#[test]
fn a_run_shows_a_month_or_a_year() {
    let month = Plan { year: 2024, month: 2, print_year: true, whole_year: false };
    assert_eq!(run(&month), Some(expected_month(2024, 2, true)));
    let year = Plan { year: 2024, month: 2, print_year: true, whole_year: true };
    assert_eq!(run(&year), format_year(2024));
    let short = Plan { year: 2026, month: 2, print_year: true, whole_year: true };
    assert_eq!(run(&short), None);
}
