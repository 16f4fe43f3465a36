use wible::Capability;
use wible::CharacteristicProperties;

const ALL: [Capability; 10] = [
    Capability::Broadcast,
    Capability::Read,
    Capability::WriteWithoutResponse,
    Capability::Write,
    Capability::Notify,
    Capability::Indicate,
    Capability::AuthenticatedSignedWrites,
    Capability::ExtendedProperties,
    Capability::ReliableWrites,
    Capability::WritableAuxiliaries,
];

#[test]
fn decode_read_only() {
    let props = CharacteristicProperties::from_bits(2).expect("a defined bit");
    for c in ALL {
        assert_eq!(props.contains(c), c == Capability::Read);
    }
}

#[test]
fn decode_read_and_notify() {
    let props = CharacteristicProperties::from_bits(18).expect("defined bits");
    for c in ALL {
        assert_eq!(
            props.contains(c),
            c == Capability::Read || c == Capability::Notify
        );
    }
}

#[test]
fn unrecognized_bits_rejected() {
    assert!(CharacteristicProperties::from_bits(1024).is_none());
    assert!(CharacteristicProperties::from_bits(1026).is_none());
    assert!(CharacteristicProperties::from_bits(u32::MAX).is_none());
    assert!(CharacteristicProperties::from_bits(1023).is_some());
    assert!(CharacteristicProperties::from_bits(0).is_some());
}

#[test]
fn bit_values_are_fixed() {
    let expected: [u32; 10] = [1, 2, 4, 8, 16, 32, 64, 128, 256, 512];
    for (c, bit) in ALL.iter().zip(expected.iter()) {
        assert_eq!(c.bit(), *bit);
    }
}
