use transactions::money::{i64_as_money_string, money_string_to_u64};
use transactions::transaction::TransactionError::TransactionAmountImproperlyFormatted;

#[test]
fn test_i64_as_money_string() {
    assert_eq!(i64_as_money_string(10000), "1.0000");
    assert_eq!(i64_as_money_string(-10000), "-1.0000");
    assert_eq!(i64_as_money_string(-1234500), "-123.4500");
    assert_eq!(i64_as_money_string(0), "0.0000");
}

#[test]
fn test_money_string_to_u64() {
    assert_eq!(money_string_to_u64("10".to_string()).unwrap(), 100000);
    assert_eq!(money_string_to_u64("10.".to_string()).unwrap(), 100000);
    assert_eq!(money_string_to_u64("10.1".to_string()).unwrap(), 101000);
    assert_eq!(money_string_to_u64("10.01".to_string()).unwrap(), 100100);
    assert_eq!(money_string_to_u64("10.001".to_string()).unwrap(), 100010);
    assert_eq!(money_string_to_u64("10.0001".to_string()).unwrap(), 100001);
    assert_eq!(
        money_string_to_u64("10.00001".to_string()),
        Err(TransactionAmountImproperlyFormatted)
    );
}

#[test]
fn money_string_rejects_malformed_text() {
    for text in ["", ".5", "1.2.3", "1..2", "abc", "1a", "1.a", "-1", "+1", "1,5", " 1"] {
        assert_eq!(
            money_string_to_u64(text.to_string()),
            Err(TransactionAmountImproperlyFormatted),
            "{text}"
        );
    }
}

#[test]
fn money_string_largest_amount() {
    assert_eq!(
        money_string_to_u64("1844674407370955.1615".to_string()),
        Ok(u64::MAX)
    );
    assert_eq!(
        money_string_to_u64("1844674407370955.1616".to_string()),
        Err(TransactionAmountImproperlyFormatted)
    );
    assert_eq!(
        money_string_to_u64("99999999999999999999999".to_string()),
        Err(TransactionAmountImproperlyFormatted)
    );
}

#[test]
fn money_string_leading_zeros_and_zero() {
    assert_eq!(money_string_to_u64("0".to_string()), Ok(0));
    assert_eq!(money_string_to_u64("007.5".to_string()), Ok(75000));
    assert_eq!(money_string_to_u64("0.0001".to_string()), Ok(1));
}

#[test]
fn money_string_formats_extremes() {
    assert_eq!(i64_as_money_string(1), "0.0001");
    assert_eq!(i64_as_money_string(-1), "-0.0001");
    assert_eq!(i64_as_money_string(12345), "1.2345");
    assert_eq!(i64_as_money_string(-12345), "-1.2345");
    assert_eq!(i64_as_money_string(i64::MAX), "922337203685477.5807");
    assert_eq!(i64_as_money_string(i64::MIN), "-922337203685477.5808");
}

#[test]
fn format_of_parse_is_canonical() {
    let cases = [
        ("10", "10.0000"),
        ("10.", "10.0000"),
        ("10.5", "10.5000"),
        ("0.25", "0.2500"),
        ("007.1234", "7.1234"),
        ("123.45", "123.4500"),
    ];
    for (text, canonical) in cases {
        let units = money_string_to_u64(text.to_string()).unwrap();
        assert_eq!(i64_as_money_string(units as i64), canonical);
    }
}
