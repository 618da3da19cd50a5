//! The conditions that end the supervisor.

use vstd::prelude::*;
use vstd::string::StringExecFns;
use crate::text::{micro_text, push_micro, truncated};

verus! {

/// What is wrong with a configuration value.
#[derive(Clone, Copy, Debug, PartialEq, Eq, Structural)]
pub enum KeyError {
    /// The key is absent from its section, or has no value.
    Missing,
    /// The value is not a number of the expected form.
    Invalid,
    /// The value is a number that cannot be represented or used.
    OutOfBounds,
    /// The value contradicts another value or the channel layout.
    Inconsistent,
}

/// What the thermal model objects to.
#[derive(Clone, Copy, Debug, PartialEq, Eq, Structural)]
pub enum ModelError {
    /// The voice coil estimate rose above the hard limit plus headroom.
    CoilOverheat,
    /// The magnet estimate rose above the hard limit plus headroom.
    MagnetOverheat,
    /// The sensed power averages clearly below zero.
    NegativePower,
}

/// What went wrong with a control knob.
#[derive(Clone, Copy, Debug, PartialEq, Eq, Structural)]
pub enum ControlError {
    Open,
    Lock,
    Read,
    Write,
    /// The knob was read, and holds a value that cannot be used.
    Value,
}

/// A fatal condition. None of them is recovered from: the volume cap is
/// left to fall back into place.
#[derive(Debug)]
pub enum Fault {
    /// The configuration is incomplete, malformed or contradictory.
    Config { section: String, key: String, error: KeyError },
    /// A control knob could not be opened, locked, read or written.
    Control { knob: String, failure: ControlError },
    /// The capture stream failed other than by a suspend.
    Capture,
    /// The model left its safe range. `value` is the reading that did it
    /// and `limit` the bound it crossed, in the units of the model.
    Model { speaker: String, cause: ModelError, value: i64, limit: i64 },
    /// The fatal signal arrived.
    Signal,
    /// The debugging threshold on gain reduction was crossed.
    Debug,
}

impl KeyError {
    /// What is wrong, in words.
    pub open spec fn text_of(self) -> Seq<char> {
        match self {
            KeyError::Missing => "Missing key"@,
            KeyError::Invalid => "Invalid value"@,
            KeyError::OutOfBounds => "Out of bounds"@,
            KeyError::Inconsistent => "Inconsistent value"@,
        }
    }

    /// Says what is wrong.
    pub fn text(&self) -> (r: &'static str)
        ensures
            r@ == self.text_of(),
    {
        match self {
            KeyError::Missing => "Missing key",
            KeyError::Invalid => "Invalid value",
            KeyError::OutOfBounds => "Out of bounds",
            KeyError::Inconsistent => "Inconsistent value",
        }
    }
}

impl ControlError {
    /// What could not be done, in words that the knob's name follows.
    pub open spec fn text_of(self) -> Seq<char> {
        match self {
            ControlError::Open => "Could not open elem "@,
            ControlError::Lock => "Could not lock elem "@,
            ControlError::Read => "Could not read elem value "@,
            ControlError::Write => "Could not write elem value "@,
            ControlError::Value => "Invalid value of "@,
        }
    }

    /// Says what could not be done.
    pub fn text(&self) -> (r: &'static str)
        ensures
            r@ == self.text_of(),
    {
        match self {
            ControlError::Open => "Could not open elem ",
            ControlError::Lock => "Could not lock elem ",
            ControlError::Read => "Could not read elem value ",
            ControlError::Write => "Could not write elem value ",
            ControlError::Value => "Invalid value of ",
        }
    }
}

impl Fault {
    /// The message of a fault, which is also the reason that a preserved
    /// recording gives.
    ///
    /// A fault of the model names the speaker and gives the reading and
    /// the bound it crossed, a temperature in degrees or a power in watts,
    /// to six places.
    pub open spec fn message_of(self) -> Seq<char> {
        match self {
            Fault::Config { section, key, error } => section@ + "/"@ + key@ + ": "@
                + error.text_of(),
            Fault::Control { knob, failure } => failure.text_of() + knob@,
            Fault::Capture => "Capture failed"@,
            Fault::Model { speaker, cause, value, limit } => match cause {
                ModelError::CoilOverheat => speaker@ + ": Coil temperature limit exceeded ("@
                    + micro_text(truncated(value as int, 1_000_000)) + " > "@ + micro_text(
                    truncated(limit as int, 1_000_000),
                ) + ")"@,
                ModelError::MagnetOverheat => speaker@ + ": Magnet temperature limit exceeded ("@
                    + micro_text(truncated(value as int, 1_000_000)) + " > "@ + micro_text(
                    truncated(limit as int, 1_000_000),
                ) + ")"@,
                ModelError::NegativePower => speaker@ + ": Negative power, bad ivsense data? ("@
                    + micro_text(value as int) + ")"@,
            },
            Fault::Signal => "SIGQUIT received"@,
            Fault::Debug => "Gain reduction exceeded threshold"@,
        }
    }

    /// Writes the message of a fault.
    pub fn message(&self) -> (r: String)
        ensures
            r@ == self.message_of(),
    {
        match self {
            Fault::Config { section, key, error } => {
                let mut text = String::from_str(section.as_str());
                text.append("/");
                text.append(key.as_str());
                text.append(": ");
                text.append(error.text());
                text
            },
            Fault::Control { knob, failure } => {
                let mut text = String::from_str(failure.text());
                text.append(knob.as_str());
                text
            },
            Fault::Capture => String::from_str("Capture failed"),
            Fault::Model { speaker, cause, value, limit } => {
                let mut text = String::from_str(speaker.as_str());
                match cause {
                    ModelError::CoilOverheat => {
                        text.append(": Coil temperature limit exceeded (");
                        push_micro(&mut text, *value / 1_000_000);
                        text.append(" > ");
                        push_micro(&mut text, *limit / 1_000_000);
                        text.append(")");
                    },
                    ModelError::MagnetOverheat => {
                        text.append(": Magnet temperature limit exceeded (");
                        push_micro(&mut text, *value / 1_000_000);
                        text.append(" > ");
                        push_micro(&mut text, *limit / 1_000_000);
                        text.append(")");
                    },
                    ModelError::NegativePower => {
                        text.append(": Negative power, bad ivsense data? (");
                        push_micro(&mut text, *value);
                        text.append(")");
                    },
                }
                text
            },
            Fault::Signal => String::from_str("SIGQUIT received"),
            Fault::Debug => String::from_str("Gain reduction exceeded threshold"),
        }
    }
}

} // verus!
