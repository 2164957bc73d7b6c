use stdate::DateTime;

#[test]
fn test_is_leap_year() {
    let res = DateTime::new_date(2000, 1, 1).unwrap().is_leap_year();
    let exp = true;
    assert_eq!(res, exp);
    let res = DateTime::new_date(2004, 1, 1).unwrap().is_leap_year();
    let exp = true;
    assert_eq!(res, exp);
    let res = DateTime::new_date(2100, 1, 1).unwrap().is_leap_year();
    let exp = false;
    assert_eq!(res, exp);
    let res = DateTime::new_date(2400, 1, 1).unwrap().is_leap_year();
    let exp = true;
    assert_eq!(res, exp);
    let res = DateTime::new_date(1999, 1, 1).unwrap().is_leap_year();
    let exp = false;
    assert_eq!(res, exp);
}

#[test]
fn test_weekday() {
    let res = DateTime::new_date(2025, 5, 29).unwrap().weekday();
    let exp = 3;
    assert_eq!(res, exp);
    let res = DateTime::new_date(2025, 5, 30).unwrap().weekday();
    let exp = 4;
    assert_eq!(res, exp);
    let res = DateTime::new_date(2025, 5, 31).unwrap().weekday();
    let exp = 5;
    assert_eq!(res, exp);
    let res = DateTime::new_date(2025, 6, 1).unwrap().weekday();
    let exp = 6;
    assert_eq!(res, exp);
    let res = DateTime::new_date(2025, 6, 2).unwrap().weekday();
    let exp = 0;
    assert_eq!(res, exp);
    let res = DateTime::new_date(2025, 6, 3).unwrap().weekday();
    let exp = 1;
    assert_eq!(res, exp);
    let res = DateTime::new_date(2025, 6, 4).unwrap().weekday();
    let exp = 2;
    assert_eq!(res, exp);
    let res = DateTime::new_date(2025, 6, 5).unwrap().weekday();
    let exp = 3;
    assert_eq!(res, exp);
}

#[test]
fn test_prev_day() {
    let res = DateTime::new_date(2025, 5, 26).unwrap().prev_day().unwrap();
    let exp = DateTime::new_date(2025, 5, 25).unwrap();
    assert_eq!(res, exp);
}

#[test]
fn test_next_day() {
    let res = DateTime::new_date(2025, 5, 26).unwrap().next_day().unwrap();
    let exp = DateTime::new_date(2025, 5, 27).unwrap();
    assert_eq!(res, exp);
}

#[test]
fn test_prev_week() {
    let res = DateTime::new_date(2025, 5, 27)
        .unwrap()
        .prev_week()
        .unwrap();
    let exp = DateTime::new_date(2025, 5, 20).unwrap();
    assert_eq!(res, exp);
}

#[test]
fn test_next_week() {
    let res = DateTime::new_date(2025, 5, 20)
        .unwrap()
        .next_week()
        .unwrap();
    let exp = DateTime::new_date(2025, 5, 27).unwrap();
    assert_eq!(res, exp);
}

#[test]
fn test_prev_month() {
    let res = DateTime::new_date(2025, 6, 20)
        .unwrap()
        .prev_month()
        .unwrap();
    let exp = DateTime::new_date(2025, 5, 20).unwrap();
    assert_eq!(res, exp);
}

#[test]
fn test_next_month() {
    let res = DateTime::new_date(2025, 4, 20)
        .unwrap()
        .next_month()
        .unwrap();
    let exp = DateTime::new_date(2025, 5, 20).unwrap();
    assert_eq!(res, exp);
}

#[test]
fn test_prev_year() {
    let res = DateTime::new_date(2025, 5, 20)
        .unwrap()
        .prev_year()
        .unwrap();
    let exp = DateTime::new_date(2024, 5, 20).unwrap();
    assert_eq!(res, exp);
}

#[test]
fn test_next_year() {
    let res = DateTime::new_date(2024, 4, 20)
        .unwrap()
        .next_year()
        .unwrap();
    let exp = DateTime::new_date(2025, 4, 20).unwrap();
    assert_eq!(res, exp);
}

#[test]
fn test_quarter() {
    let exps = [1, 1, 1, 2, 2, 2, 3, 3, 3, 4, 4, 4];
    for month in 1..=12 {
        let res = DateTime::new_date(2024, month, 20).unwrap().quarter();
        let exp = exps[(month - 1) as usize];
        assert_eq!(res, exp);
    }
}

#[test]
fn test_start_of_month() {
    let res = DateTime::new_date(2025, 4, 20)
        .unwrap()
        .start_of_month()
        .unwrap();
    let exp = DateTime::new_date(2025, 4, 1).unwrap();
    assert_eq!(res, exp);
}

#[test]
fn test_end_of_month() {
    let res = DateTime::new_date(2025, 4, 20)
        .unwrap()
        .end_of_month()
        .unwrap();
    let exp = DateTime::new_date(2025, 4, 30).unwrap();
    assert_eq!(res, exp);
}

#[test]
fn test_start_of_week() {
    let res = DateTime::new_date(2025, 5, 29)
        .unwrap()
        .start_of_week()
        .unwrap();
    let exp = DateTime::new_date(2025, 5, 26).unwrap();
    assert_eq!(res, exp);
}

#[test]
fn test_end_of_week() {
    let res = DateTime::new_date(2025, 5, 29)
        .unwrap()
        .end_of_week()
        .unwrap();
    let exp = DateTime::new_date(2025, 6, 1).unwrap();
    assert_eq!(res, exp);
}

#[test]
fn test_ord() {
    let d = DateTime::new_date(2025, 5, 29).unwrap();
    let res = d < d.next_week().unwrap();
    let exp = true;
    assert_eq!(res, exp);
}
