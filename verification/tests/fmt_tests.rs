use matching_engine::bench::harness::{row_line, section_line, Reporter};
use matching_engine::fmt::{days_to_ymd, fmt_depth, fmt_num, fmt_utc, fmt_utc_timestamp_at, push_decimal, push_padded};

#[test]
fn depth_labels() {
    assert_eq!(fmt_depth(0), "0");
    assert_eq!(fmt_depth(999), "999");
    assert_eq!(fmt_depth(1_000), "1K");
    assert_eq!(fmt_depth(10_000), "10K");
    assert_eq!(fmt_depth(100_000), "100K");
    assert_eq!(fmt_depth(1_999_999), "1M");
    assert_eq!(fmt_depth(u64::MAX), "18446744073709M");
}

#[test]
fn grouped_counts() {
    assert_eq!(fmt_num(0), "0");
    assert_eq!(fmt_num(999), "999");
    assert_eq!(fmt_num(1_000), "1,000");
    assert_eq!(fmt_num(1_000_000), "1,000,000");
    assert_eq!(fmt_num(1_234_567), "1,234,567");
    assert_eq!(fmt_num(10_005), "10,005");
    assert_eq!(fmt_num(u64::MAX), "18,446,744,073,709,551,615");
}

#[test]
fn decimal_and_padding() {
    let mut s = String::from("x");
    push_decimal(&mut s, 90210);
    assert_eq!(s, "x90210");
    let mut p = String::new();
    push_padded(&mut p, 7, 3);
    push_padded(&mut p, 12345, 2);
    push_padded(&mut p, 0, 0);
    assert_eq!(p, "007123450");
}

#[test]
fn calendar_dates() {
    assert_eq!(days_to_ymd(0), (1970, 1, 1));
    assert_eq!(days_to_ymd(59), (1970, 3, 1));
    assert_eq!(days_to_ymd(11_016), (2000, 2, 29));
    assert_eq!(days_to_ymd(20_517), (2026, 3, 5));
}

#[test]
fn utc_stamps() {
    assert_eq!(fmt_utc(0), "19700101T000000");
    assert_eq!(fmt_utc(1_772_741_268), "20260305T200748");
    assert_eq!(fmt_utc(u64::MAX), "19691231T235959");
    assert_eq!(fmt_utc_timestamp_at(1_772_741_268), "20260305T200748");
    assert_eq!(fmt_utc_timestamp_at(59), "19700101T000059");
}

#[test]
fn reporter_collects_lines() {
    let mut r = Reporter::new();
    assert_eq!(r.output(), "");
    r.header("first");
    r.header("");
    r.footer("third");
    assert_eq!(r.output(), "first\n\nthird\n");
}

fn expected_section(title: &str) -> String {
    let pad = 80usize.saturating_sub(title.len() + 4);
    format!(
        "\n── {} {}\n  {:<22} {:>8} {:>8} {:>8} {:>8} {:>8} {:>8}\n  {}",
        title,
        "─".repeat(pad),
        "",
        "p50",
        "p99",
        "p99.9",
        "p99.99",
        "min",
        "max",
        "─".repeat(70),
    )
}

#[test]
fn section_line_matches_table_layout() {
    for title in ["Passive insert (depth 10K)", "", "é wide title", &"x".repeat(90)] {
        assert_eq!(section_line(title), expected_section(title));
    }
    let line = section_line("abc");
    assert!(line.starts_with("\n── abc "));
    assert_eq!(line.matches('─').count(), 2 + 73 + 70);
}

#[test]
fn row_line_aligns_cells() {
    let cells = [
        "12ns".to_string(),
        "1.5us".to_string(),
        "250us".to_string(),
        "123456789ns".to_string(),
        "".to_string(),
        "9ns".to_string(),
    ];
    let expected = format!(
        "  {:<22} {:>8} {:>8} {:>8} {:>8} {:>8} {:>8}",
        "cancel", cells[0], cells[1], cells[2], cells[3], cells[4], cells[5]
    );
    assert_eq!(row_line("cancel", &cells), expected);
    let long = "a label longer than twenty-two";
    assert!(row_line(long, &cells).starts_with("  a label longer than twenty-two "));
}

#[test]
fn reporter_records_sections_and_rows() {
    let mut r = Reporter::new();
    let s = r.section("T");
    let cells = [
        "1ns".to_string(),
        "2ns".to_string(),
        "3ns".to_string(),
        "4ns".to_string(),
        "5ns".to_string(),
        "6ns".to_string(),
    ];
    let row = r.row("x", &cells);
    assert_eq!(s, expected_section("T"));
    assert_eq!(r.output(), format!("{s}\n{row}\n"));
}

fn leap(y: u64) -> bool {
    y % 4 == 0 && (y % 100 != 0 || y % 400 == 0)
}

fn month_len(y: u64, m: u64) -> u64 {
    match m {
        2 => if leap(y) { 29 } else { 28 },
        4 | 6 | 9 | 11 => 30,
        _ => 31,
    }
}

#[test]
fn days_follow_the_calendar() {
    let mut prev = days_to_ymd(0);
    assert_eq!(prev, (1970, 1, 1));
    for n in 1..200_000u64 {
        let (y, m, d) = prev;
        assert!(d >= 1 && d <= month_len(y, m));
        let expected = if d < month_len(y, m) { (y, m, d + 1) } else if m < 12 { (y, m + 1, 1) } else { (y + 1, 1, 1) };
        let cur = days_to_ymd(n);
        assert_eq!(cur, expected, "day {n}");
        prev = cur;
    }
    assert_eq!(days_to_ymd(11_016), (2000, 2, 29));
    assert_eq!(days_to_ymd(47_540), (2100, 2, 28));
    assert_eq!(days_to_ymd(47_541), (2100, 3, 1));
}
