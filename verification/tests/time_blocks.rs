use logic_mesh::calendar::{calendar_matches, civil_from_days, format_date, list_contains};
use logic_mesh::schedule::{parse_days, parse_hhmm, schedule_occupied, schedule_window_occupied};
use logic_mesh::text::{parse_u32, trim_str};

#[test]
fn test_civil_from_days_epoch() {
    assert_eq!(civil_from_days(0), (1970, 1, 1));
}

#[test]
fn test_civil_from_days_known_dates() {
    // 2000-01-01 = 10957 days after epoch
    assert_eq!(civil_from_days(10_957), (2000, 1, 1));
    // 2024-02-29 (leap day)
    assert_eq!(civil_from_days(19_782), (2024, 2, 29));
    // 1969-12-31
    assert_eq!(civil_from_days(-1), (1969, 12, 31));
}

#[test]
fn test_parse_hhmm_ok() {
    assert_eq!(parse_hhmm("00:00"), Some(0));
    assert_eq!(parse_hhmm("08:30"), Some(8 * 60 + 30));
    assert_eq!(parse_hhmm("23:59"), Some(23 * 60 + 59));
}

#[test]
fn test_parse_hhmm_invalid() {
    assert_eq!(parse_hhmm("24:00"), None);
    assert_eq!(parse_hhmm("12:60"), None);
    assert_eq!(parse_hhmm("nope"), None);
    assert_eq!(parse_hhmm(""), None);
}

#[test]
fn test_parse_days_weekdays() {
    let m = parse_days("MTWRF");
    assert_eq!(m, 0b0011111);
}

#[test]
fn test_parse_days_full_week() {
    let m = parse_days("MTWRFSU");
    assert_eq!(m, 0b1111111);
}

#[test]
fn test_parse_days_weekend() {
    let m = parse_days("SU");
    assert_eq!(m, 0b1100000);
}

#[test]
fn test_parse_days_ignores_unknown() {
    assert_eq!(parse_days("M, T, W"), parse_days("MTW"));
}

#[test]
fn civil_from_days_far_dates() {
    assert_eq!(civil_from_days(-719_468), (0, 3, 1));
    assert_eq!(civil_from_days(2_932_896), (9999, 12, 31));
    assert_eq!(civil_from_days(-719_469), (0, 2, 29));
    assert_eq!(civil_from_days(11_016), (2000, 2, 29));
    assert_eq!(civil_from_days(47_540), (2100, 2, 28));
    assert_eq!(civil_from_days(47_541), (2100, 3, 1));
}

#[test]
fn parse_hhmm_trims_and_accepts_plus() {
    assert_eq!(parse_hhmm(" 7 : 05 "), Some(7 * 60 + 5));
    assert_eq!(parse_hhmm("+7:+5"), Some(7 * 60 + 5));
    assert_eq!(parse_hhmm("7:5:0"), None);
    assert_eq!(parse_hhmm("-1:00"), None);
    assert_eq!(parse_hhmm("99999999999:00"), None);
}

#[test]
fn parse_u32_matches_std() {
    for s in ["0", "+0", "+", "-0", "", "12a", "4294967295", "4294967296", "007", " 1"] {
        assert_eq!(parse_u32(s), s.parse::<u32>().ok(), "input {:?}", s);
    }
}

#[test]
fn trim_matches_std() {
    for s in ["", "  ", " a b ", "\u{3000}x\u{85}", "\tq\n"] {
        assert_eq!(trim_str(s), s.trim());
    }
}

#[test]
fn parse_days_lowercase_and_repeats() {
    assert_eq!(parse_days("mtwrfsu"), 0b1111111);
    assert_eq!(parse_days("MMMM"), 0b0000001);
    assert_eq!(parse_days("xyz"), 0);
}

#[test]
fn window_same_day_and_overnight() {
    // 08:00..17:00 on weekdays
    let weekdays = parse_days("MTWRF");
    assert!(schedule_window_occupied(480, 1020, weekdays, 0, 600));
    assert!(!schedule_window_occupied(480, 1020, weekdays, 0, 1020));
    assert!(!schedule_window_occupied(480, 1020, weekdays, 5, 600));
    // 22:00..06:00 opened on Friday: Saturday 02:00 belongs to Friday
    let friday = parse_days("F");
    assert!(schedule_window_occupied(1320, 360, friday, 5, 120));
    assert!(!schedule_window_occupied(1320, 360, friday, 4, 120));
    assert!(schedule_window_occupied(1320, 360, friday, 4, 1380));
    // empty window
    assert!(!schedule_window_occupied(600, 600, 0b1111111, 3, 600));
}

#[test]
fn schedule_occupied_uses_local_clock() {
    // 1970-01-05 was a Monday; 10:00 UTC on that day.
    let monday_10h = (4 * 86_400 + 10 * 3600) * 1000;
    assert!(schedule_occupied(Some("09:00"), Some("17:00"), Some("M"), 0, monday_10h));
    // With a -2h zone the local time is 08:00: not yet open.
    assert!(!schedule_occupied(Some("09:00"), Some("17:00"), Some("M"), -120, monday_10h));
    assert!(!schedule_occupied(Some("9"), Some("17:00"), Some("M"), 0, monday_10h));
    assert!(!schedule_occupied(None, Some("17:00"), Some("M"), 0, monday_10h));
}

#[test]
fn format_date_pads_fields() {
    assert_eq!(format_date(2024, 2, 9), "2024-02-09");
    assert_eq!(format_date(7, 12, 31), "0007-12-31");
    assert_eq!(format_date(-5, 1, 1), format!("{:04}-{:02}-{:02}", -5, 1, 1));
    assert_eq!(format_date(12345, 1, 1), "12345-01-01");
}

#[test]
fn list_contains_whole_entries_only() {
    assert!(list_contains("2024-01-01, 2024-12-25;2025-01-01", "2024-12-25"));
    assert!(list_contains("  2024-12-25  ", "2024-12-25"));
    assert!(!list_contains("2024-12-251", "2024-12-25"));
    assert!(!list_contains("", "2024-12-25"));
    assert!(!list_contains(",,;", ""));
}

#[test]
fn calendar_matches_today() {
    // 2024-02-29 00:30 UTC
    let ms = (19_782i64 * 86_400 + 1800) * 1000;
    assert!(calendar_matches(Some("2024-02-28,2024-02-29"), 0, ms));
    // one hour west, it is still the 28th
    assert!(!calendar_matches(Some("2024-02-29"), -60, ms));
    assert!(calendar_matches(Some("2024-02-28"), -60, ms));
    assert!(!calendar_matches(None, 0, ms));
}

#[test]
fn consecutive_days_are_consecutive_dates() {
    assert_eq!(civil_from_days(59), (1970, 3, 1));
    assert_eq!(civil_from_days(58), (1970, 2, 28));
    assert_eq!(civil_from_days(11_016), (2000, 2, 29));
    assert_eq!(civil_from_days(11_017), (2000, 3, 1));
    assert_eq!(civil_from_days(10_956), (1999, 12, 31));
    assert_eq!(civil_from_days(10_957), (2000, 1, 1));
}
