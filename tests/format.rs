use chrono::NaiveDate;
use date_formatter::error::FormatError;
use date_formatter::render::Date;
use date_formatter::tokenize::split_format;
use date_formatter::tokens::{FormatPart, Section, Separator};
use date_formatter::format_date;

fn naive(y: i32, m: u32, d: u32) -> NaiveDate {
    NaiveDate::from_ymd_opt(y, m, d).unwrap()
}

fn date(y: i32, m: u32, d: u32) -> Date {
    Date::new(y, m, d).unwrap()
}

#[test]
fn unsupported_token_is_reported() {
    let r = date_formatter::format(&naive(2024, 3, 2), "yy-qq");
    assert_eq!(r, Err(FormatError::PartNotSupported("qq".to_string())));
}

#[test]
fn empty_pattern_has_no_part() {
    let r = date_formatter::format(&naive(2024, 3, 2), "");
    assert_eq!(r, Err(FormatError::NoPartFound));
}

#[test]
fn iso_like_pattern() {
    let r = date_formatter::format(&naive(2024, 3, 2), "yyyy-mm-dd");
    assert_eq!(r, Ok("2024-03-02".to_string()));
}

#[test]
fn short_pattern_with_month_name() {
    let r = date_formatter::format(&naive(2024, 3, 2), "d mmm yy");
    assert_eq!(r, Ok("2 Mar 24".to_string()));
}

#[test]
fn adjacent_separators_stay_apart() {
    let parts = split_format("yyyy--mm");
    assert_eq!(parts, vec!["yyyy", "-", "-", "mm"]);
    let r = date_formatter::format(&naive(2024, 3, 2), "yyyy--mm");
    assert_eq!(r, Ok("2024--03".to_string()));
}

#[test]
fn pieces_concatenate_to_the_pattern() {
    for p in ["yyyy-mm-dd", "d mmm yy", "dd/mm/yyyy", "yy.m.d", "a  b/-c", "", "---", "xyz"] {
        let parts = split_format(p);
        assert_eq!(parts.concat(), p);
    }
}

#[test]
fn split_keeps_runs_and_separators() {
    assert_eq!(split_format("dd/mm/yyyy"), vec!["dd", "/", "mm", "/", "yyyy"]);
    assert_eq!(split_format(" d."), vec![" ", "d", "."]);
    assert_eq!(split_format("mmmm"), vec!["mmmm"]);
    assert!(split_format("").is_empty());
}

#[test]
fn two_character_sections_keep_their_width() {
    for (y, m, d) in [(2005, 1, 9), (2024, 12, 31), (1900, 10, 1), (2000, 2, 29), (-2024, 6, 7), (-7, 3, 3)] {
        let dt = date(y, m, d);
        for s in [Section::DD, Section::MM, Section::YY] {
            let text = s.format(&dt);
            assert_eq!(text.chars().count(), 2);
            assert!(text.chars().all(|c| c.is_ascii_digit()));
        }
    }
}

#[test]
fn one_character_sections_drop_leading_zero() {
    let dt = date(2024, 3, 2);
    assert_eq!(Section::D.format(&dt), "2");
    assert_eq!(Section::M.format(&dt), "3");
    let dt = date(2024, 11, 25);
    assert_eq!(Section::D.format(&dt), "25");
    assert_eq!(Section::M.format(&dt), "11");
}

#[test]
fn every_section_for_one_date() {
    let dt = date(2005, 1, 9);
    assert_eq!(Section::YY.format(&dt), "05");
    assert_eq!(Section::YYYY.format(&dt), "2005");
    assert_eq!(Section::M.format(&dt), "1");
    assert_eq!(Section::MM.format(&dt), "01");
    assert_eq!(Section::MMM.format(&dt), "Jan");
    assert_eq!(Section::D.format(&dt), "9");
    assert_eq!(Section::DD.format(&dt), "09");
}

#[test]
fn month_abbreviations_in_order() {
    let names = ["Jan", "Feb", "Mar", "Apr", "May", "Jun", "Jul", "Aug", "Sep", "Oct", "Nov", "Dec"];
    for (i, n) in names.iter().enumerate() {
        let dt = date(2024, i as u32 + 1, 1);
        assert_eq!(Section::MMM.format(&dt), *n);
    }
}

#[test]
fn years_outside_four_digits() {
    assert_eq!(format_date(&date(5, 6, 7), "yy yyyy"), Ok("05 5".to_string()));
    assert_eq!(format_date(&date(-5, 6, 7), "yy yyyy"), Ok("95 -5".to_string()));
    assert_eq!(format_date(&date(-2024, 6, 7), "yy/yyyy"), Ok("76/-2024".to_string()));
    assert_eq!(format_date(&date(12345, 6, 7), "yy.yyyy"), Ok("45.12345".to_string()));
}

#[test]
fn chrono_date_components_are_read() {
    let r = date_formatter::format(&naive(1999, 12, 31), "dd.mm.yyyy m d");
    assert_eq!(r, Ok("31.12.1999 12 31".to_string()));
    let dt = Date::from_naive(&naive(-308, 3, 14));
    assert_eq!(dt, date(-308, 3, 14));
}

#[test]
fn first_unsupported_piece_wins() {
    let r = format_date(&date(2024, 3, 2), "dd/x/zz");
    assert_eq!(r, Err(FormatError::PartNotSupported("x".to_string())));
    let r = format_date(&date(2024, 3, 2), "mmmm");
    assert_eq!(r, Err(FormatError::PartNotSupported("mmmm".to_string())));
    let r = format_date(&date(2024, 3, 2), "YY");
    assert_eq!(r, Err(FormatError::PartNotSupported("YY".to_string())));
}

#[test]
fn separators_alone_have_no_part() {
    assert_eq!(format_date(&date(2024, 3, 2), "/. -"), Err(FormatError::NoPartFound));
    let r = date_formatter::format(&naive(2024, 3, 2), "-");
    assert_eq!(r, Err(FormatError::NoPartFound));
    assert_eq!(format_date(&date(2024, 3, 2), " d "), Ok(" 2 ".to_string()));
}

#[test]
fn two_digit_year_for_negative_years() {
    assert_eq!(Section::YY.format(&date(-2024, 6, 7)), "76");
    assert_eq!(Section::YY.format(&date(-100, 6, 7)), "00");
    assert_eq!(Section::YY.format(&date(-1, 6, 7)), "99");
    assert_eq!(Section::YY.format(&date(-99, 6, 7)), "01");
    let r = date_formatter::format(&naive(-262000, 1, 1), "yy");
    assert_eq!(r, Ok("00".to_string()));
}

#[test]
fn resolver_matches_exact_spellings() {
    assert_eq!(FormatPart::resolve("yyyy"), Ok(FormatPart::Section(Section::YYYY)));
    assert_eq!(FormatPart::resolve(" "), Ok(FormatPart::Separator(Separator::Space)));
    assert_eq!(FormatPart::resolve("ddd"), Err(FormatError::PartNotSupported("ddd".to_string())));
    for p in [
        FormatPart::Section(Section::YY),
        FormatPart::Section(Section::MMM),
        FormatPart::Section(Section::DD),
        FormatPart::Separator(Separator::Slash),
        FormatPart::Separator(Separator::Period),
        FormatPart::Separator(Separator::Hyphen),
    ] {
        assert_eq!(FormatPart::resolve(p.value()), Ok(p));
    }
}

#[test]
fn error_messages() {
    assert_eq!(FormatError::PartNotSupported("qq".to_string()).message(), "Part not supported: qq");
    assert_eq!(FormatError::NoPartFound.message(), "No part found");
}

#[test]
fn date_components_are_range_checked() {
    assert!(Date::new(2024, 0, 1).is_none());
    assert!(Date::new(2024, 13, 1).is_none());
    assert!(Date::new(2024, 1, 0).is_none());
    assert!(Date::new(2024, 1, 32).is_none());
    assert_eq!(Date::new(2024, 2, 31), Some(Date { year: 2024, month: 2, day: 31 }));
}
