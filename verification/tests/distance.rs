use transport::ascii::ParseIntError;
use transport::distance::{Distance, ParseDistanceError};

#[test]
fn test_from_u32_1() {
    let dist = Distance::new(12);
    assert!(matches!(dist, Distance::Finite(12)));
}

#[test]
fn test_from_u32_2() {
    let dist = Distance::new(Distance::MAX_DISTANCE);
    assert!(matches!(dist, Distance::Finite(Distance::MAX_DISTANCE)));
}

#[test]
fn test_from_u32_infinite_1() {
    let dist = Distance::new(Distance::MAX_DISTANCE + 1);
    assert!(matches!(dist, Distance::Infinite));
}

#[test]
fn test_from_u32_infinite_2() {
    let dist = Distance::new(Distance::INFINITY_ENCODING);
    assert!(matches!(dist, Distance::Infinite));
}

#[test]
fn distance_from_text() {
    assert_eq!(Distance::try_from("7"), Ok(Distance::Finite(7)));
    assert_eq!(Distance::try_from("+7"), Ok(Distance::Finite(7)));
    assert_eq!(Distance::try_from("100"), Ok(Distance::Finite(100)));
    assert_eq!(Distance::try_from("101"), Ok(Distance::Infinite));
    assert_eq!(Distance::try_from("4294967295"), Ok(Distance::Infinite));
    assert_eq!(
        Distance::try_from("4294967296"),
        Err(ParseDistanceError(ParseIntError::Overflow))
    );
    assert_eq!(
        Distance::try_from(""),
        Err(ParseDistanceError(ParseIntError::InvalidDigit))
    );
    assert_eq!(
        Distance::try_from("1x"),
        Err(ParseDistanceError(ParseIntError::InvalidDigit))
    );
}

#[test]
fn distance_encoding_round_trip() {
    assert_eq!(Distance::Finite(42).to_u32(), 42);
    assert_eq!(Distance::Infinite.to_u32(), u32::MAX);
    for d in 0..=100u32 {
        assert_eq!(Distance::new(Distance::Finite(d).to_u32()), Distance::Finite(d));
    }
    assert_eq!(Distance::new(Distance::Infinite.to_u32()), Distance::Infinite);
}

#[test]
fn distance_order() {
    assert!(Distance::Finite(1).le(&Distance::Finite(2)));
    assert!(!Distance::Finite(3).le(&Distance::Finite(2)));
    assert!(Distance::Finite(100).le(&Distance::Infinite));
    assert!(!Distance::Infinite.le(&Distance::Finite(0)));
    assert!(Distance::Infinite.le(&Distance::Infinite));
}
