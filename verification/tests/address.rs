use wible::BluetoothAddress;
use wible::BluetoothAddressParseError;

#[test]
fn test_parse_mac() {
    let input = "C8:FD:19:12:7F:CD";
    let expected = Ok(BluetoothAddress(220989372923853));
    let parsed = input.parse();
    assert_eq!(parsed, expected, "unable to parse MAC address");

    let input = "test";
    let expected = Err::<BluetoothAddress, _>(BluetoothAddressParseError::IncorrectSegments);
    let parsed = input.parse();
    assert_eq!(parsed, expected, "invalid mac was accepted");

    let input = "C8:FD:ZZ:12:7F:CD";
    let expected = Err::<BluetoothAddress, _>(BluetoothAddressParseError::InvalidNumber);
    let parsed = input.parse();
    assert_eq!(parsed, expected, "invalid mac was accepted");
}

#[test]
fn parse_known_vector() {
    let parsed = BluetoothAddress::parse("C8:FD:19:12:7F:CD").expect("valid address");
    assert_eq!(parsed.0, 220989372923853);
}

#[test]
fn format_round_trips_to_uppercase() {
    let parsed = BluetoothAddress::parse("c8:fd:19:12:7f:cd").expect("valid address");
    assert_eq!(parsed.hex_string(), "C8:FD:19:12:7F:CD");

    let parsed = BluetoothAddress::parse("00:11:22:AA:bb:Cc").expect("valid address");
    assert_eq!(parsed.hex_string(), "00:11:22:AA:BB:CC");
}

#[test]
fn parse_undoes_format() {
    for value in [0u64, 1, 0xC8FD19127FCD, 0xFFFF_FFFF_FFFF] {
        let addr = BluetoothAddress(value);
        let parsed = BluetoothAddress::parse(&addr.hex_string()).expect("formatted address");
        assert_eq!(parsed, addr);
    }
}

#[test]
fn hex_string_known_vector() {
    let addr = BluetoothAddress(220989372923853);
    assert_eq!(addr.hex_string(), "C8:FD:19:12:7F:CD");
}

#[test]
fn bytes_most_significant_first() {
    let addr = BluetoothAddress(220989372923853);
    assert_eq!(addr.bytes(), [0xC8, 0xFD, 0x19, 0x12, 0x7F, 0xCD]);
}

#[test]
fn wrong_segment_counts_rejected() {
    let five = BluetoothAddress::parse("C8:FD:19:12:7F");
    assert_eq!(five, Err(BluetoothAddressParseError::IncorrectSegments));

    let seven = BluetoothAddress::parse("C8:FD:19:12:7F:CD:00");
    assert_eq!(seven, Err(BluetoothAddressParseError::IncorrectSegments));

    let empty = BluetoothAddress::parse("");
    assert_eq!(empty, Err(BluetoothAddressParseError::IncorrectSegments));
}

#[test]
fn bad_segments_rejected() {
    let empty_segment = BluetoothAddress::parse("C8::19:12:7F:CD");
    assert_eq!(empty_segment, Err(BluetoothAddressParseError::InvalidNumber));

    let over_byte = BluetoothAddress::parse("1C8:00:00:00:00:00");
    assert_eq!(over_byte, Err(BluetoothAddressParseError::InvalidNumber));

    let stray_sign = BluetoothAddress::parse("C8:FD:19:12:7F:+D");
    assert_eq!(stray_sign, Err(BluetoothAddressParseError::InvalidNumber));
}

#[test]
fn leading_zeros_accepted() {
    let parsed = BluetoothAddress::parse("0C8:00:00:00:00:01").expect("value fits a byte");
    assert_eq!(parsed.0, 0xC8_00_00_00_00_01);
}

#[test]
fn error_messages() {
    assert_eq!(
        BluetoothAddressParseError::IncorrectSegments.message(),
        "MAC address has incorrect number of segments"
    );
    assert_eq!(
        BluetoothAddressParseError::InvalidNumber.message(),
        "MAC segment was not valid base-16 number"
    );
}
