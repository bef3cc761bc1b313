use transport::ascii::ParseIntError;
use transport::route::RouteUdpPacket;
use transport::distance::Distance;
use transport::subnet_mask::{ParseSubNetMaskError, SubNetMask};

#[test]
fn test_subnet_valid() {
    for i in 0..=32 {
        assert!(matches!(SubNetMask::new(i), Some(_)));
    }
}

#[test]
fn test_subnet_invalid() {
    assert!(matches!(SubNetMask::new(33), None));
}

#[test]
fn test_subnet_from_str_invalid_repr() {
    assert!(matches!(
        SubNetMask::try_from("foobar"),
        Err(ParseSubNetMaskError::EncodingErr(_))
    ))
}

#[test]
fn test_subnet_from_str_invalid_value() {
    assert!(matches!(
        SubNetMask::try_from("33"),
        Err(ParseSubNetMaskError::ValueOutOfRange(33u8))
    ))
}

#[test]
fn subnet_from_text() {
    assert_eq!(SubNetMask::try_from("24").map(|m| m.value()), Ok(24));
    assert_eq!(SubNetMask::try_from("0").map(|m| m.value()), Ok(0));
    assert_eq!(SubNetMask::try_from("32").map(|m| m.value()), Ok(32));
    assert_eq!(
        SubNetMask::try_from("256"),
        Err(ParseSubNetMaskError::EncodingErr(ParseIntError::Overflow))
    );
    assert_eq!(
        SubNetMask::try_from("255"),
        Err(ParseSubNetMaskError::ValueOutOfRange(255))
    );
}

#[test]
fn subnet_truncation() {
    assert_eq!(SubNetMask::with_truncation(24).value(), 24);
    assert_eq!(SubNetMask::with_truncation(32).value(), 32);
    assert_eq!(SubNetMask::with_truncation(33).value(), 1);
    assert_eq!(SubNetMask::with_truncation(64).value(), 0);
    assert_eq!(SubNetMask::with_truncation(255).value(), 31);
}

#[test]
fn subnet_address_range() {
    assert_eq!(SubNetMask::new(0).unwrap().address_range(), 1);
    assert_eq!(SubNetMask::new(8).unwrap().address_range(), 256);
    assert_eq!(SubNetMask::new(31).unwrap().address_range(), 2147483648);
}

#[test]
fn route_packet_distance() {
    let packet = RouteUdpPacket::from_bytes([10, 0, 0, 0, 8, 0, 0, 0, 5]);
    assert_eq!(packet.distance(), Distance::Finite(5));
    let packet = RouteUdpPacket::from_bytes([10, 0, 0, 0, 8, 0, 0, 1, 0]);
    assert_eq!(packet.distance(), Distance::Infinite);
    let packet = RouteUdpPacket::from_bytes([10, 0, 0, 0, 8, 255, 255, 255, 255]);
    assert_eq!(packet.distance(), Distance::Infinite);
    let packet = RouteUdpPacket::from_bytes([1, 2, 3, 4, 24, 0, 0, 0, 100]);
    assert_eq!(packet.distance(), Distance::Finite(100));
}
