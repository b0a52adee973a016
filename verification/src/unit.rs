//! Units of computer storage measurement.

use vstd::prelude::*;
use vstd::std_specs::convert::FromSpecImpl;

verus! {

/// A convenience type for pretty-printing units of computer storage
/// measurement.
///
/// Each variant holds the number of bytes, which are shown as a multiple of the
/// unit.
#[derive(Clone, Copy, Debug, PartialEq, Eq, Structural)]
pub enum Unit {
    Bytes(u64),
    KiB(u64),
    MiB(u64),
    GiB(u64),
}

/// The unit for the number of bytes: the smallest of which there are not more than
/// 1024, or the largest there is.
pub open spec fn unit_of(bytes: u64) -> Unit {
    if bytes <= 1024 {
        Unit::Bytes(bytes)
    } else if bytes <= 1024 * 1024 {
        Unit::KiB(bytes)
    } else if bytes <= 1024 * 1024 * 1024 {
        Unit::MiB(bytes)
    } else {
        Unit::GiB(bytes)
    }
}

impl Unit {
    /// The number of bytes that are shown.
    pub open spec fn bytes(&self) -> u64 {
        match self {
            Unit::Bytes(bytes) => *bytes,
            Unit::KiB(bytes) => *bytes,
            Unit::MiB(bytes) => *bytes,
            Unit::GiB(bytes) => *bytes,
        }
    }

    /// The number of bytes in one of the unit.
    pub open spec fn scale(&self) -> int {
        match self {
            Unit::Bytes(_) => 1,
            Unit::KiB(_) => 0x400,
            Unit::MiB(_) => 0x10_0000,
            Unit::GiB(_) => 0x4000_0000,
        }
    }

    /// Chooses the unit for the number of bytes.
    pub fn new(bytes: u64) -> (unit: Unit)
        ensures
            unit == unit_of(bytes),
    {
        if bytes <= 1024 {
            Unit::Bytes(bytes)
        } else if bytes <= 1024 * 1024 {
            Unit::KiB(bytes)
        } else if bytes <= 1024 * 1024 * 1024 {
            Unit::MiB(bytes)
        } else {
            Unit::GiB(bytes)
        }
    }

    /// Returns the number of bytes in one of the unit.
    pub fn divisor(&self) -> (bytes: u64)
        ensures
            bytes == self.scale(),
    {
        match self {
            Unit::Bytes(_) => 1,
            Unit::KiB(_) => 0x400,
            Unit::MiB(_) => 0x10_0000,
            Unit::GiB(_) => 0x4000_0000,
        }
    }
}

impl From<u64> for Unit {
    fn from(bytes: u64) -> (unit: Self) {
        Unit::new(bytes)
    }
}

impl FromSpecImpl<u64> for Unit {
    open spec fn obeys_from_spec() -> bool {
        true
    }

    open spec fn from_spec(bytes: u64) -> Self {
        unit_of(bytes)
    }
}

/// The unit keeps the number of bytes, of which more than one of the unit are shown
/// and, unless it is the largest unit, not more than 1024.
pub proof fn law_unit_keeps_bytes(bytes: u64)
    ensures
        unit_of(bytes).bytes() == bytes,
        unit_of(bytes) is Bytes || bytes > unit_of(bytes).scale(),
        unit_of(bytes) is GiB || bytes <= 1024 * unit_of(bytes).scale(),
{
}

/// More bytes are not shown in a smaller unit, and one of a unit is 1024 of the unit
/// below.
pub proof fn law_units_grow(bytes: u64, more: u64)
    requires
        bytes <= more,
    ensures
        unit_of(bytes).scale() <= unit_of(more).scale(),
        (Unit::Bytes(bytes)).scale() == 1,
        (Unit::KiB(bytes)).scale() == 1024 * (Unit::Bytes(bytes)).scale(),
        (Unit::MiB(bytes)).scale() == 1024 * (Unit::KiB(bytes)).scale(),
        (Unit::GiB(bytes)).scale() == 1024 * (Unit::MiB(bytes)).scale(),
{
}

} // verus!
