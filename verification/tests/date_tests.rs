use useful_api::dates::{current_date, is_future_date, Date};

fn today() -> Date {
    Date { year: 2024, month: 6, day: 15 }
}

#[test]
fn classifies_future_date() {
    assert!(is_future_date("verfügbar ab 01.07.2024", &today()));
}

#[test]
fn classifies_past_date() {
    assert!(!is_future_date("ab 01.01.2024", &today()));
}

#[test]
fn defaults_to_not_future_without_three_runs() {
    assert!(!is_future_date("ab bald", &today()));
}

#[test]
fn same_day_is_not_future() {
    assert!(!is_future_date("15.06.2024", &today()));
}

#[test]
fn next_day_is_future() {
    assert!(is_future_date("16.06.2024", &today()));
}

#[test]
fn earlier_month_of_later_year_is_future() {
    assert!(is_future_date("01.01.2025", &today()));
}

#[test]
fn later_month_of_earlier_year_is_not_future() {
    assert!(!is_future_date("01.12.2023", &today()));
}

#[test]
fn oversized_digit_run_is_not_future() {
    assert!(!is_future_date("01.07.99999999999", &today()));
}

#[test]
fn only_first_three_runs_count() {
    assert!(!is_future_date("1.2.2020 oder 3.4.2099", &today()));
    assert!(is_future_date("1.2.2099 oder 3.4.2020", &today()));
}

#[test]
fn leading_zeros_read_as_plain_numbers() {
    assert!(is_future_date("016.06.02024", &today()));
}

#[test]
fn current_date_is_well_formed() {
    let d = current_date();
    assert!((1..=12).contains(&d.month));
    assert!((1..=31).contains(&d.day));
}
