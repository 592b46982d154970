use useful_api::stock::{i32_string, quantity_for, stock_message, stock_report, StockRecord};

fn rec(store: &str, item: &str, qty: Option<i32>) -> StockRecord {
    StockRecord {
        class_unit_code: store.to_string(),
        item_no: item.to_string(),
        quantity: qty,
    }
}

#[test]
fn both_zero_gives_none_in_stock_message() {
    assert_eq!(
        stock_message(0, 0),
        "Der IKEA Godorf hat aktuell überhaupt keine sharks auf lager :("
    );
}

#[test]
fn one_and_zero_gives_singular_and_keine_without_marker() {
    assert_eq!(
        stock_message(1, 0),
        "Der IKEA Godorf hat aktuell 1 beeghaj und keine smolhajs auf Lager"
    );
}

#[test]
fn both_positive_gives_marker() {
    assert_eq!(
        stock_message(2, 3),
        "Der IKEA Godorf hat aktuell 2 beeghajs und 3 smolhajs auf Lager :D"
    );
}

#[test]
fn zero_and_one_swaps_the_tokens() {
    assert_eq!(
        stock_message(0, 1),
        "Der IKEA Godorf hat aktuell keine beeghajs und 1 smolhaj auf Lager"
    );
}

#[test]
fn report_reads_quantities_from_matching_records() {
    let records = vec![
        rec("147", "30373588", Some(1)),
        rec("999", "20540663", Some(9)),
        rec("147", "20540663", None),
    ];
    let data = stock_report(&records);
    assert_eq!(data.beeghaj, 1);
    assert_eq!(data.smolhaj, 0);
    assert!(data.message.contains("1 beeghaj und"));
    assert!(data.message.contains("keine smolhajs"));
    assert!(!data.message.contains(":D"));
}

#[test]
fn report_with_no_records_reports_none_in_stock() {
    let data = stock_report(&Vec::new());
    assert_eq!(data.beeghaj, 0);
    assert_eq!(data.smolhaj, 0);
    assert_eq!(
        data.message,
        "Der IKEA Godorf hat aktuell überhaupt keine sharks auf lager :("
    );
}

#[test]
fn quantity_for_takes_first_match_and_defaults_zero() {
    let records = vec![rec("147", "x", Some(5)), rec("147", "x", Some(7))];
    assert_eq!(quantity_for(&records, "147", "x"), 5);
    assert_eq!(quantity_for(&records, "147", "y"), 0);
    assert_eq!(quantity_for(&records, "148", "x"), 0);
}

#[test]
fn decimal_rendering_is_exact() {
    assert_eq!(i32_string(0), "0");
    assert_eq!(i32_string(7), "7");
    assert_eq!(i32_string(10), "10");
    assert_eq!(i32_string(305), "305");
    assert_eq!(i32_string(-4), "-4");
    assert_eq!(i32_string(2147483647), "2147483647");
    assert_eq!(i32_string(-2147483648), "-2147483648");
}
