use orderbook::book::Book;
use orderbook::decimal::{power_of_ten, Decimal};
use orderbook::ranked::Rank;

fn dec(mantissa: i128, scale: u32) -> Decimal {
    Decimal { mantissa, scale }
}

#[test]
fn parse_keeps_mantissa_and_scale() {
    assert_eq!(Decimal::parse("1.0"), Some(dec(10, 1)));
    assert_eq!(Decimal::parse("3"), Some(dec(3, 0)));
    assert_eq!(Decimal::parse("-0.25"), Some(dec(-25, 2)));
    assert_eq!(Decimal::parse("0.00000001"), Some(dec(1, 8)));
}

#[test]
fn parse_refuses_what_is_no_decimal() {
    assert_eq!(Decimal::parse(""), None);
    assert_eq!(Decimal::parse("abc"), None);
    assert_eq!(Decimal::parse("1.2.3"), None);
}

#[test]
fn parse_agrees_with_the_decimal_library() {
    for text in ["0", "1.0", "19.50", "-7.125", "79228162514264337593543950335", "0.0000000000000000000000000001"] {
        let theirs: rust_decimal::Decimal = text.parse().expect("a decimal");
        let ours = Decimal::parse(text).expect("a decimal");
        assert_eq!(ours.mantissa, theirs.mantissa());
        assert_eq!(ours.scale, theirs.scale());
    }
}

#[test]
fn new_checks_the_limits() {
    assert_eq!(Decimal::new(5, 28), Some(dec(5, 28)));
    assert_eq!(Decimal::new(5, 29), None);
    let limit: i128 = 79228162514264337593543950336;
    assert_eq!(Decimal::new(limit, 0), None);
    assert_eq!(Decimal::new(-limit, 0), None);
    assert_eq!(Decimal::new(limit - 1, 0), Some(dec(limit - 1, 0)));
    assert_eq!(Decimal::new(1 - limit, 0), Some(dec(1 - limit, 0)));
    assert_eq!(Decimal::zero(), dec(0, 0));
}

#[test]
fn checked_sub_subtracts() {
    assert_eq!(dec(30, 1).checked_sub(dec(10, 1)), Some(dec(20, 1)));
    assert_eq!(dec(19, 0).checked_sub(dec(205, 1)), Some(dec(-15, 1)));
    let limit: i128 = 79228162514264337593543950335;
    assert_eq!(dec(limit, 0).checked_sub(dec(-limit, 0)), None);
}

#[test]
fn abs_and_neg_change_the_sign_only() {
    assert_eq!(dec(-15, 1).abs(), dec(15, 1));
    assert_eq!(dec(15, 1).abs(), dec(15, 1));
    assert_eq!(dec(15, 1).neg(), dec(-15, 1));
    assert_eq!(dec(0, 3).neg(), dec(0, 3));
}

#[test]
fn normalize_strips_trailing_zeros() {
    assert_eq!(dec(20, 1).normalize(), dec(2, 0));
    assert_eq!(dec(3100, 3).normalize(), dec(31, 1));
    assert_eq!(dec(-500, 2).normalize(), dec(-5, 0));
    assert_eq!(dec(0, 5).normalize(), dec(0, 0));
    assert_eq!(dec(100, 0).normalize(), dec(100, 0));
    assert_eq!(dec(15, 1).normalize(), dec(15, 1));
}

#[test]
fn normalize_agrees_with_the_decimal_library() {
    for (m, s) in [(20i128, 1u32), (3100, 3), (-500, 2), (0, 5), (100, 0), (123456000, 9)] {
        let theirs = rust_decimal::Decimal::from_i128_with_scale(m, s).normalize();
        let ours = dec(m, s).normalize();
        assert_eq!(ours.mantissa, theirs.mantissa());
        assert_eq!(ours.scale, theirs.scale());
    }
}

#[test]
fn to_text_writes_the_decimal() {
    assert_eq!(dec(2, 0).to_text(), "2");
    assert_eq!(dec(20, 1).to_text(), "2.0");
    assert_eq!(dec(-15, 1).to_text(), "-1.5");
    assert_eq!(dec(1, 8).to_text(), "0.00000001");
}

#[test]
fn to_text_pads_the_fraction_to_the_scale() {
    assert_eq!(dec(5, 3).to_text(), "0.005");
    assert_eq!(dec(0, 2).to_text(), "0.00");
    assert_eq!(dec(0, 0).to_text(), "0");
    assert_eq!(dec(100, 0).to_text(), "100");
    assert_eq!(dec(1234, 2).to_text(), "12.34");
    assert_eq!(dec(-1234, 4).to_text(), "-0.1234");
    assert_eq!(dec(-5, 0).to_text(), "-5");
    assert_eq!(dec(120, 1).to_text(), "12.0");
    assert_eq!(dec(1, 28).to_text(), "0.0000000000000000000000000001");
    assert_eq!(
        dec(79228162514264337593543950335, 0).to_text(),
        "79228162514264337593543950335"
    );
    assert_eq!(
        dec(-79228162514264337593543950335, 28).to_text(),
        "-7.9228162514264337593543950335"
    );
}

#[test]
fn power_of_ten_values() {
    assert_eq!(power_of_ten(0), 1);
    assert_eq!(power_of_ten(3), 1000);
    assert_eq!(power_of_ten(28), 10000000000000000000000000000);
}

#[test]
fn key_splits_whole_and_fraction() {
    let unit: u128 = 10000000000000000000000000000;
    assert_eq!(dec(25, 1).key(), (2, unit / 2));
    assert_eq!(dec(-25, 1).key(), (-3, unit / 2));
    assert_eq!(dec(-3, 0).key(), (-3, 0));
    assert_eq!(dec(0, 7).key(), (0, 0));
    assert_eq!(dec(1, 28).key(), (0, 1));
    assert_eq!(dec(-1, 28).key(), (-1, unit - 1));
}

#[test]
fn keys_order_decimals_as_the_decimal_library_does() {
    let values = [
        (0i128, 0u32),
        (1, 0),
        (10, 1),
        (-1, 0),
        (15, 1),
        (-15, 1),
        (149, 2),
        (1, 28),
        (-1, 28),
        (79228162514264337593543950335, 0),
        (-79228162514264337593543950335, 0),
        (79228162514264337593543950335, 28),
    ];
    for a in values {
        for b in values {
            let ours = dec(a.0, a.1).key().cmp(&dec(b.0, b.1).key());
            let theirs = rust_decimal::Decimal::from_i128_with_scale(a.0, a.1)
                .cmp(&rust_decimal::Decimal::from_i128_with_scale(b.0, b.1));
            assert_eq!(ours, theirs);
        }
    }
}

#[test]
fn rank_puts_larger_amounts_lower_and_then_larger_prices_higher() {
    let rank = |price: &str, amount: &str| -> Rank {
        Book::rank_of(Decimal::parse(price).unwrap(), Decimal::parse(amount).unwrap())
    };
    assert!(rank("1", "2") < rank("1", "1"));
    assert!(rank("100", "2") < rank("1", "1"));
    assert!(rank("1", "1") < rank("2", "1"));
    assert!(rank("1", "1.0") < rank("2", "1"));
    assert_eq!(rank("2.0", "1.0"), rank("2", "1"));
    let unit: u128 = 10000000000000000000000000000;
    assert_eq!(rank("3.1", "0.1"), (-1, unit / 10 * 9, 3, unit / 10));
}
