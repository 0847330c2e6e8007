use fake::text::{decimal, repeat};

#[test]
fn decimal_writes_numbers_without_leading_zeros() {
    assert_eq!(decimal(0), "0");
    assert_eq!(decimal(7), "7");
    assert_eq!(decimal(10), "10");
    assert_eq!(decimal(4294967295), "4294967295");
}

#[test]
fn repeat_joins_copies() {
    assert_eq!(repeat("../", 0), "");
    assert_eq!(repeat("../", 3), "../../../");
}
