//! One raw reading of a kit's peripheral.
use vstd::prelude::*;

verus! {

/// Identifies a channel within a kit: (peripheral, quantity type).
pub type PeripheralQuantityType = (i32, i32);

/// A raw reading for one channel of a kit.
///
/// The reading itself is carried as the bit pattern of an IEEE-754 double;
/// nothing here reads it.
#[derive(Clone, Copy, Debug, PartialEq, Eq, Structural)]
pub struct RawMeasurement {
    /// Milliseconds since the Unix epoch at which the reading was taken.
    pub datetime: u64,
    pub peripheral: i32,
    pub quantity_type: i32,
    /// Bit pattern of the reading (`f64::to_bits`).
    pub value_bits: u64,
}

/// The channel that a measurement belongs to.
pub open spec fn key_of(m: RawMeasurement) -> PeripheralQuantityType {
    (m.peripheral, m.quantity_type)
}

impl RawMeasurement {
    /// The channel of this measurement.
    pub fn key(&self) -> (r: PeripheralQuantityType)
        ensures
            r == key_of(*self),
    {
        (self.peripheral, self.quantity_type)
    }

    /// Whether this measurement belongs to channel `key`.
    pub fn has_key(&self, key: PeripheralQuantityType) -> (r: bool)
        ensures
            r == (key_of(*self) == key),
    {
        self.peripheral == key.0 && self.quantity_type == key.1
    }
}

} // verus!
