use pdf_link::calendar::{civil_from_days, CivilDate};
use pdf_link::stamp::{log_line, now_stamp, stamp_since_epoch, stamp_text};
use pdf_link::text::{decimal_text, push_padded};

fn date(year: i64, month: i64, day: i64) -> CivilDate {
    CivilDate { year, month, day }
}

#[test]
fn days_become_dates() {
    assert_eq!(civil_from_days(0), date(1970, 1, 1));
    assert_eq!(civil_from_days(58), date(1970, 2, 28));
    assert_eq!(civil_from_days(59), date(1970, 3, 1));
    assert_eq!(civil_from_days(11016), date(2000, 2, 29));
    assert_eq!(civil_from_days(11017), date(2000, 3, 1));
    assert_eq!(civil_from_days(19782), date(2024, 2, 29));
    assert_eq!(civil_from_days(47540), date(2100, 2, 28));
    assert_eq!(civil_from_days(47541), date(2100, 3, 1));
    assert_eq!(civil_from_days(2932896), date(9999, 12, 31));
    assert_eq!(civil_from_days(2932897), date(10000, 1, 1));
}

#[test]
fn dates_follow_one_another() {
    let mut last = civil_from_days(0);
    for days in 1..200_000u64 {
        let next = civil_from_days(days);
        let same_month = next.year == last.year && next.month == last.month;
        let next_month = next.day == 1
            && ((next.year == last.year && next.month == last.month + 1)
                || (next.year == last.year + 1 && next.month == 1 && last.month == 12));
        assert!((same_month && next.day == last.day + 1) || next_month, "day {}", days);
        last = next;
    }
}

#[test]
fn stamps_are_written_in_utc() {
    assert_eq!(stamp_text(0, 0), "1970-01-01 00:00:00.000");
    assert_eq!(stamp_text(1_700_000_000, 123), "2023-11-14 22:13:20.123");
    assert_eq!(stamp_text(951_782_399, 9), "2000-02-28 23:59:59.009");
    assert_eq!(stamp_text(253_402_300_799, 999), "9999-12-31 23:59:59.999");
}

#[test]
fn years_past_four_digits_are_not_cut() {
    assert_eq!(stamp_text(253_402_300_800, 0), "10000-01-01 00:00:00.000");
    assert_eq!(stamp_text(u64::MAX, 999), "584554051223-11-09 07:00:15.999");
}

#[test]
fn stamps_sort_by_time() {
    let times = [(0, 0), (0, 1), (59, 999), (60, 0), (86_399, 5), (86_400, 0), (951_782_400, 0), (4_102_444_800, 7)];
    for pair in times.windows(2) {
        assert!(stamp_text(pair[0].0, pair[0].1) < stamp_text(pair[1].0, pair[1].1));
    }
}

#[test]
fn a_clock_before_the_epoch_counts_as_the_epoch() {
    assert_eq!(stamp_since_epoch(None), "1970-01-01 00:00:00.000");
    assert_eq!(stamp_since_epoch(Some((1, 2))), "1970-01-01 00:00:01.002");
}

#[test]
fn the_present_is_later_than_this_test() {
    let stamp = now_stamp();
    assert_eq!(stamp.len(), 23);
    assert!(stamp.as_str() > "2024-01-01 00:00:00.000");
    assert!(now_stamp() >= stamp);
}

#[test]
fn log_lines_have_stamp_level_and_message() {
    assert_eq!(log_line("2024-02-29 01:02:03.004", "I", "hello"), "[2024-02-29 01:02:03.004][I] hello");
    assert_eq!(log_line("", "", ""), "[][] ");
}

#[test]
fn numerals() {
    assert_eq!(decimal_text(0), "0");
    assert_eq!(decimal_text(10), "10");
    assert_eq!(decimal_text(u64::MAX), "18446744073709551615");
    let mut out = String::from("x");
    push_padded(&mut out, 7, 3);
    push_padded(&mut out, 1234, 2);
    assert_eq!(out, "x0071234");
}

#[test]
fn different_times_have_different_stamps() {
    let times = [(0, 0), (0, 1), (1, 0), (253_402_300_799, 0), (253_402_300_800, 0), (u64::MAX - 86_400, 0), (u64::MAX, 0)];
    for a in times {
        for b in times {
            assert_eq!(stamp_text(a.0, a.1) == stamp_text(b.0, b.1), a == b);
        }
    }
}
