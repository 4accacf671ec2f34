use statvec::percent::{add_percent, sub_percent};

#[test]
fn add_by_fifteen_percent() {
    let value = add_percent(100, 15);
    assert_eq!(value, 115);
}

#[test]
fn subtract_by_fifteen_percent() {
    let value = sub_percent(100, 15);
    assert_eq!(value, 85);
}

#[test]
fn percent_rounds_down() {
    assert_eq!(add_percent(7, 15), 8);
    assert_eq!(sub_percent(7, 15), 6);
}

#[test]
fn percent_edges() {
    assert_eq!(add_percent(0, 50), 0);
    assert_eq!(add_percent(40, 0), 40);
    assert_eq!(sub_percent(40, 100), 0);
    assert_eq!(add_percent(40, 100), 80);
}
