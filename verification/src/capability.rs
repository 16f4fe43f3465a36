//! Characteristic capability flags: a bitmask-backed set over the ten named
//! capabilities a GATT characteristic can advertise.

use vstd::prelude::*;

verus! {

/// A named capability of a characteristic, each standing for one fixed bit of
/// the platform's property mask.
#[derive(Clone, Copy, Debug, PartialEq, Eq, Structural)]
pub enum Capability {
    Broadcast,
    Read,
    WriteWithoutResponse,
    Write,
    Notify,
    Indicate,
    AuthenticatedSignedWrites,
    ExtendedProperties,
    ReliableWrites,
    WritableAuxiliaries,
}

impl Capability {
    /// The fixed bit this capability occupies in the platform's property mask.
    pub open spec fn bit_spec(self) -> u32 {
        match self {
            Capability::Broadcast => 1,
            Capability::Read => 2,
            Capability::WriteWithoutResponse => 4,
            Capability::Write => 8,
            Capability::Notify => 16,
            Capability::Indicate => 32,
            Capability::AuthenticatedSignedWrites => 64,
            Capability::ExtendedProperties => 128,
            Capability::ReliableWrites => 256,
            Capability::WritableAuxiliaries => 512,
        }
    }

    /// The bit value of this capability.
    pub fn bit(self) -> (r: u32)
        ensures
            r == self.bit_spec(),
    {
        match self {
            Capability::Broadcast => 1,
            Capability::Read => 2,
            Capability::WriteWithoutResponse => 4,
            Capability::Write => 8,
            Capability::Notify => 16,
            Capability::Indicate => 32,
            Capability::AuthenticatedSignedWrites => 64,
            Capability::ExtendedProperties => 128,
            Capability::ReliableWrites => 256,
            Capability::WritableAuxiliaries => 512,
        }
    }
}

/// Every bit the ten capabilities together occupy.
pub const VALID_PROPERTY_BITS: u32 = 0x3FF;

/// The decoded property mask of a characteristic: which named capabilities it
/// advertises.
#[derive(Clone, Copy, Debug, PartialEq, Eq, Structural)]
pub struct CharacteristicProperties {
    pub bits: u32,
}

impl CharacteristicProperties {
    /// Whether the capability's bit is set in this mask.
    pub open spec fn has(self, c: Capability) -> bool {
        self.bits & c.bit_spec() != 0
    }

    /// Decode a raw platform mask.  A mask holding any bit outside the ten
    /// defined capabilities is rejected rather than silently truncated, so an
    /// observed flag can be trusted to be meaningful.
    pub fn from_bits(raw: u32) -> (r: Option<CharacteristicProperties>)
        ensures
            r is Some <==> raw <= VALID_PROPERTY_BITS,
            r is Some ==> r == Some((CharacteristicProperties { bits: raw })),
    {
        if raw <= VALID_PROPERTY_BITS {
            Some(CharacteristicProperties { bits: raw })
        } else {
            None
        }
    }

    /// Whether this set of properties contains the given capability.
    pub fn contains(&self, c: Capability) -> (r: bool)
        ensures
            r == self.has(c),
    {
        self.bits & c.bit() != 0
    }
}

} // verus!
