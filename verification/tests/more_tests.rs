use stdate::DateTime;

fn full(y: i64, mo: i64, d: i64, h: i64, mi: i64, s: i64) -> DateTime {
    DateTime::new(y, mo, d, h, mi, s).unwrap()
}

#[test]
fn new_rejects_invalid_fields() {
    assert!(DateTime::new_date(1969, 12, 31).is_none());
    assert!(DateTime::new_date(2025, 0, 1).is_none());
    assert!(DateTime::new_date(2025, 13, 1).is_none());
    assert!(DateTime::new_date(2025, 4, 31).is_none());
    assert!(DateTime::new_date(2025, 4, 0).is_none());
    assert!(DateTime::new_date(2023, 2, 29).is_none());
    assert!(DateTime::new_date(2024, 2, 29).is_some());
    assert!(DateTime::new(2025, 1, 1, 24, 0, 0).is_none());
    assert!(DateTime::new(2025, 1, 1, 0, 60, 0).is_none());
    assert!(DateTime::new(2025, 1, 1, 0, 0, 60).is_none());
    assert!(DateTime::new(2025, 1, 1, -1, 0, 0).is_none());
    assert!(DateTime::new(2025, 1, 1, 23, 59, 59).is_some());
}

#[test]
fn getters_and_asarray() {
    let d = full(2025, 5, 29, 13, 45, 7);
    assert_eq!(d.year(), 2025);
    assert_eq!(d.month(), 5);
    assert_eq!(d.day(), 29);
    assert_eq!(d.hour(), 13);
    assert_eq!(d.minute(), 45);
    assert_eq!(d.second(), 7);
    assert_eq!(d.asarray(), [2025, 5, 29, 13, 45, 7]);
}

#[test]
fn from_anchor_epoch_and_negative() {
    assert_eq!(DateTime::from_anchor(0), Some(full(1970, 1, 1, 0, 0, 0)));
    assert_eq!(DateTime::from_anchor(-1), None);
    assert_eq!(DateTime::from_anchor(i64::MIN), None);
    assert_eq!(DateTime::from_anchor(86399), Some(full(1970, 1, 1, 23, 59, 59)));
}

#[test]
fn from_anchor_known_instants() {
    assert_eq!(DateTime::from_anchor(951782400), Some(full(2000, 2, 29, 0, 0, 0)));
    assert_eq!(DateTime::from_anchor(1748476800), Some(full(2025, 5, 29, 0, 0, 0)));
    assert_eq!(DateTime::from_anchor(4102444800), Some(full(2100, 1, 1, 0, 0, 0)));
    assert_eq!(DateTime::from_anchor(253402300799), Some(full(9999, 12, 31, 23, 59, 59)));
}

#[test]
fn from_anchor_largest() {
    let d = DateTime::from_anchor(i64::MAX).unwrap();
    assert_eq!(d.str_full(), "292277026596-12-04 15:30:07");
}

#[test]
fn text_forms() {
    let d = full(2025, 5, 9, 3, 4, 5);
    assert_eq!(d.str_date(), "2025-05-09");
    assert_eq!(d.str_full(), "2025-05-09 03:04:05");
    let e = full(1999, 12, 31, 23, 59, 10);
    assert_eq!(e.str_full(), "1999-12-31 23:59:10");
}

#[test]
fn month_and_year_lengths() {
    assert_eq!(DateTime::new_date(2024, 2, 1).unwrap().month_days(), 29);
    assert_eq!(DateTime::new_date(2023, 2, 1).unwrap().month_days(), 28);
    assert_eq!(DateTime::new_date(2023, 9, 1).unwrap().month_days(), 30);
    assert_eq!(DateTime::new_date(2023, 12, 1).unwrap().month_days(), 31);
    assert_eq!(DateTime::new_date(2024, 6, 1).unwrap().year_days(), 366);
    assert_eq!(DateTime::new_date(2100, 6, 1).unwrap().year_days(), 365);
}

#[test]
fn semester_of_each_month() {
    for month in 1..=12 {
        let exp = if month > 6 { 2 } else { 1 };
        assert_eq!(DateTime::new_date(2024, month, 1).unwrap().semester(), exp);
    }
}

#[test]
fn day_steps_across_boundaries() {
    let d = full(2024, 12, 31, 10, 20, 30);
    assert_eq!(d.next_day(), Some(full(2025, 1, 1, 10, 20, 30)));
    assert_eq!(full(2024, 3, 1, 0, 0, 0).prev_day(), Some(full(2024, 2, 29, 0, 0, 0)));
    assert_eq!(full(1970, 1, 1, 12, 0, 0).prev_day(), None);
    assert_eq!(full(1970, 1, 7, 12, 0, 0).prev_week(), None);
    assert_eq!(full(1970, 1, 8, 12, 0, 0).prev_week(), Some(full(1970, 1, 1, 12, 0, 0)));
}

#[test]
fn next_then_prev_day_round_trip() {
    let d = full(2028, 2, 28, 1, 2, 3);
    let n = d.next_day().unwrap();
    assert_eq!(n, full(2028, 2, 29, 1, 2, 3));
    assert_eq!(n.prev_day(), Some(d));
    assert_eq!(d.next_week().unwrap().prev_week(), Some(d));
}

#[test]
fn weekday_advances_with_days() {
    let d = full(2025, 5, 29, 0, 0, 0);
    let n = d.next_day().unwrap();
    assert_eq!(n.weekday(), (d.weekday() + 1) % 7);
    assert_eq!(DateTime::new_date(1970, 1, 1).unwrap().weekday(), 3);
}

#[test]
fn month_steps_clamp_the_day() {
    assert_eq!(full(2025, 1, 31, 5, 0, 0).next_month(), Some(full(2025, 2, 28, 5, 0, 0)));
    assert_eq!(full(2024, 1, 31, 5, 0, 0).next_month(), Some(full(2024, 2, 29, 5, 0, 0)));
    assert_eq!(full(2025, 3, 31, 0, 0, 0).prev_month(), Some(full(2025, 2, 28, 0, 0, 0)));
    assert_eq!(full(2025, 5, 31, 0, 0, 0).prev_month(), Some(full(2025, 4, 30, 0, 0, 0)));
    assert_eq!(full(2025, 12, 31, 0, 0, 0).next_month(), Some(full(2026, 1, 31, 0, 0, 0)));
    assert_eq!(full(2025, 1, 15, 0, 0, 0).prev_month(), Some(full(2024, 12, 15, 0, 0, 0)));
    assert_eq!(full(1970, 1, 15, 0, 0, 0).prev_month(), None);
}

#[test]
fn year_steps_handle_leap_day() {
    assert_eq!(full(2024, 2, 29, 0, 0, 0).next_year(), Some(full(2025, 2, 28, 0, 0, 0)));
    assert_eq!(full(2024, 2, 29, 0, 0, 0).prev_year(), Some(full(2023, 2, 28, 0, 0, 0)));
    assert_eq!(full(1970, 6, 1, 0, 0, 0).prev_year(), None);
    let d = full(2023, 7, 4, 8, 9, 10);
    assert_eq!(d.next_year().unwrap().prev_year(), Some(d));
}

#[test]
fn month_and_year_bounds() {
    let d = full(2024, 2, 10, 6, 7, 8);
    assert_eq!(d.start_of_month(), Some(full(2024, 2, 1, 6, 7, 8)));
    assert_eq!(d.end_of_month(), Some(full(2024, 2, 29, 6, 7, 8)));
    assert_eq!(d.start_of_year(), Some(full(2024, 1, 1, 6, 7, 8)));
    assert_eq!(d.end_of_year(), Some(full(2024, 12, 31, 6, 7, 8)));
}

#[test]
fn week_bounds() {
    let d = full(2025, 5, 29, 9, 0, 0);
    let s = d.start_of_week().unwrap();
    let e = d.end_of_week().unwrap();
    assert_eq!(s.weekday(), 0);
    assert_eq!(e.weekday(), 6);
    assert_eq!(s, full(2025, 5, 26, 9, 0, 0));
    assert_eq!(e, full(2025, 6, 1, 9, 0, 0));
    assert_eq!(full(1970, 1, 1, 0, 0, 0).start_of_week(), None);
    assert_eq!(full(1970, 1, 5, 0, 0, 0).start_of_week(), Some(full(1970, 1, 5, 0, 0, 0)));
}

#[test]
fn order_follows_time() {
    let a = full(2025, 5, 29, 10, 0, 0);
    let b = full(2025, 5, 29, 10, 0, 1);
    let c = full(2026, 1, 1, 0, 0, 0);
    assert!(a < b);
    assert!(b < c);
    assert!(a <= a);
    assert!(c > a);
    assert_eq!(a.partial_cmp(&a), Some(std::cmp::Ordering::Equal));
    assert!(a < a.next_day().unwrap());
}

#[test]
fn now_reads_a_recent_date() {
    let d = DateTime::now().unwrap();
    assert!(d.year() >= 2024);
    assert_eq!(DateTime::from_anchor(0).unwrap().str_full(), "1970-01-01 00:00:00");
}

#[test]
fn from_unix_secs_values() {
    assert_eq!(DateTime::from_unix_secs(0), DateTime::from_anchor(0));
    assert_eq!(DateTime::from_unix_secs(1748476800), DateTime::new_date(2025, 5, 29));
    assert_eq!(DateTime::from_unix_secs(u64::MAX), None);
    assert_eq!(DateTime::from_unix_secs(9223372036854775808), None);
    assert!(DateTime::from_unix_secs(9223372036854775807).is_some());
}
