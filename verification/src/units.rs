//! Scales and ranges of the scaled integers that stand for physical quantities.
//!
//! A configuration value is a count of millionths of its unit: degrees
//! Celsius, seconds, degrees per watt, ohms, volts or amperes at full scale.
//! The running temperatures are counts of millionths of a millionth of a
//! degree, so that one sample's share of a slow time constant is not lost.
//! Gains are millionths of a decibel.
//!
//! A constant has the type of the arithmetic it is used in.

use vstd::prelude::*;

verus! {

/// Parts per unit of a configuration value, and state units per
/// configuration unit of temperature.
pub const MICRO: i128 = 1_000_000;

/// The largest magnitude of a configuration value: a million units.
pub const UNIT_MAX: i64 = 1_000_000_000_000;

/// One degree Celsius in state units.
pub const DEGREE: i128 = 1_000_000_000_000;

/// The largest sense power at full scale that is represented, in
/// millionths of a microwatt: a million watts.
pub const SENSE_POWER_MAX: i128 = 1_000_000_000_000_000_000;

/// The largest product of sense power and a thermal resistance that is
/// represented: a rise of a million degrees at full scale.
pub const RISE_FACTOR_MAX: i128 = 1_000_000_000_000_000_000_000_000;

/// What a product of two samples and a rise factor is divided by to give
/// state units: full scale squared, which is two to the thirtieth, times
/// a million.
pub const RISE_SCALE: i128 = 1_073_741_824_000_000;

/// The largest rise of temperature that one sample can ask for, and the
/// largest margin or window, in state units: a million degrees.
pub const RISE_MAX: i128 = 1_000_000_000_000_000_000;

/// The bound on the magnet estimate, in state units.
pub const MAGNET_MAX: i128 = 2_000_000_000_000_000_000;

/// The bound on the coil estimate, in state units.
pub const COIL_MAX: i128 = 3_000_000_000_000_000_000;

/// A decay factor of one: nothing has decayed.
pub const DECAY_ONE: u64 = 1_000_000_000_000;

/// A gain above this, a hundredth of a decibel below zero, counts as no
/// reduction at all.
pub const GAIN_SNAP: i128 = -10_000;

/// Gain units per millibel, the unit the volume knob is set in.
pub const PER_MILLIBEL: i64 = 10_000;

/// The most samples one frame may hold, all channels together.
pub const MAX_SAMPLES: usize = 0xFFFF_FFFF;

/// The average power below which the sense data is taken to be wrong:
/// a hundredth of a watt below zero, in microwatts.
pub const POWER_FLOOR_MICROWATTS: i64 = -10_000;

/// The same floor in millionths of a microwatt, times full scale squared:
/// what the sum of sample products times the sense power is held against,
/// per frame.
pub const POWER_FLOOR_SCALED: i128 = -10_737_418_240_000_000_000;

/// Whether a configuration value is within the represented range.
pub open spec fn in_unit_range(v: int) -> bool {
    -UNIT_MAX <= v <= UNIT_MAX
}

} // verus!
