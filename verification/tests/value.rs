use rlox::value::{Value, SIGN_BIT};

fn number(x: f64) -> Value {
    Value::Number(x.to_bits())
}

#[test]
fn negation_is_the_negation_of_the_number() {
    for x in [0.0f64, -0.0, 1.0, -1.0, 1.2, -3.4, 5.6e300, -7.8e-300, f64::MAX, f64::MIN_POSITIVE]
    {
        assert_eq!(number(x).neg(), number(-x));
        assert_eq!(f64::from_bits(number(x).neg().to_bits()), -x);
    }
    assert_eq!(number(f64::INFINITY).neg(), number(f64::NEG_INFINITY));
    assert_eq!(number(f64::NEG_INFINITY).neg(), number(f64::INFINITY));
    assert_eq!(number(f64::NAN).neg(), number(-f64::NAN));
    assert!(f64::from_bits(number(f64::NAN).neg().to_bits()).is_nan());
}

#[test]
fn negation_flips_the_sign_bit_only() {
    assert_eq!(Value::Number(0).neg(), Value::Number(SIGN_BIT));
    assert_eq!(Value::Number(SIGN_BIT).neg(), Value::Number(0));
    assert_eq!(Value::Number(0x3ff3333333333333).neg(), Value::Number(0xbff3333333333333));
    assert_eq!(Value::Number(u64::MAX).neg(), Value::Number(u64::MAX >> 1));
}

#[test]
fn negating_twice_gives_the_value_back() {
    for bits in [0u64, 1, SIGN_BIT, SIGN_BIT - 1, SIGN_BIT + 1, u64::MAX, 0x4012666666666666] {
        let value = Value::Number(bits);
        assert_eq!(value.neg().neg(), value);
        assert_ne!(value.neg(), value);
    }
}

#[test]
fn values_are_equal_when_their_bits_are() {
    assert_eq!(number(1.2), number(1.2));
    assert_ne!(number(0.0), number(-0.0));
    assert_eq!(number(1.2).to_bits(), 0x3ff3333333333333);
}
