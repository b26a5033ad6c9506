use slight::error::Error;
use slight::input::{Input, Quantity, Sign};
use slight::number::parse_decimal;

#[test]
fn parse_forms() {
    assert_eq!(Input::parse(b"50"), Ok(Input::To(Quantity::Absolute(50))));
    assert_eq!(Input::parse(b"25%"), Ok(Input::To(Quantity::Relative(2500))));
    assert_eq!(Input::parse(b"+10"), Ok(Input::By(Sign::Plus, Quantity::Absolute(10))));
    assert_eq!(Input::parse(b"-10"), Ok(Input::By(Sign::Minus, Quantity::Absolute(10))));
    assert_eq!(Input::parse(b"+10%"), Ok(Input::By(Sign::Plus, Quantity::Relative(1000))));
    assert_eq!(Input::parse(b"-5%"), Ok(Input::By(Sign::Minus, Quantity::Relative(500))));
}

#[test]
fn parse_fractional_percent() {
    assert_eq!(Input::parse(b"+2.5%"), Ok(Input::By(Sign::Plus, Quantity::Relative(250))));
    assert_eq!(Input::parse(b"10.25%"), Ok(Input::To(Quantity::Relative(1025))));
    assert_eq!(Input::parse(b"-0.5%"), Ok(Input::By(Sign::Minus, Quantity::Relative(50))));
    assert_eq!(Input::parse(b"+10.0%"), Ok(Input::By(Sign::Plus, Quantity::Relative(1000))));
    assert_eq!(Input::parse(b"7.05%"), Ok(Input::To(Quantity::Relative(705))));
}

#[test]
fn parse_rejects_malformed() {
    for bad in [&b""[..], b"+", b"%", b"-%", b"1.5", b"10%%", b"ten", b"+-3", b"1.234%", b".5%", b"1.%", b"1.2.3%", b"+2.5", b"99999999999999999999"] {
        assert_eq!(Input::parse(bad), Err(Error::ParseError));
    }
}

#[test]
fn decimal_limits() {
    assert_eq!(parse_decimal(b"0", 5), Some(0));
    assert_eq!(parse_decimal(b"5", 5), Some(5));
    assert_eq!(parse_decimal(b"6", 5), None);
    assert_eq!(parse_decimal(b"18446744073709551615", usize::MAX), Some(usize::MAX));
    assert_eq!(parse_decimal(b"18446744073709551616", usize::MAX), None);
}
