//! What the supervisor says to the audio subsystem apart from gains:
//! which knobs a speaker has, what is written to keep the volume
//! unlocked, and what a failed capture leads to.

use vstd::prelude::*;
use vstd::string::StrSliceExecFns;
use vstd::string::StringExecFns;
use crate::config::{is_key_fault, key_fault};
use crate::fault::{ControlError, Fault, KeyError};
use crate::globals::Globals;

verus! {

/// The value that, written to the unlock knob, lifts the volume cap for
/// one more watchdog interval: the bits `0xDEC1BE15`, as the knob holds
/// them, with a sign.
pub const UNLOCK_MAGIC: i32 = -557_728_235;

/// The knob that reports the playback rate.
pub fn sample_rate_knob() -> (r: String)
    ensures
        r@ == "Speaker Sample Rate"@,
{
    String::from_str("Speaker Sample Rate")
}

/// The knob that lifts the volume cap.
pub fn unlock_knob() -> (r: String)
    ensures
        r@ == "Speaker Volume Unlock"@,
{
    String::from_str("Speaker Volume Unlock")
}

/// The name of a knob of a speaker: the speaker's name, a space and the
/// knob's own name; for the speaker called `Mono`, the knob's own name.
pub open spec fn control_name_of(speaker: Seq<char>, suffix: Seq<char>) -> Seq<char> {
    if speaker == "Mono"@ {
        suffix
    } else {
        speaker + " "@ + suffix
    }
}

/// Whether two strings hold the same characters.
fn same_text(a: &str, b: &str) -> (r: bool)
    ensures
        r == (a@ == b@),
{
    let n: usize = a.unicode_len();
    if n != b.unicode_len() {
        return false;
    }
    let mut i: usize = 0;
    while i < n
        invariant
            i <= n,
            n == a@.len(),
            n == b@.len(),
            forall|j: int| 0 <= j < i ==> a@[j] == b@[j],
        decreases n - i,
    {
        if a.get_char(i) != b.get_char(i) {
            return false;
        }
        i = i + 1;
    }
    proof {
        assert(a@ =~= b@);
    }
    true
}

/// Names a knob of a speaker.
pub fn control_name(speaker: &str, suffix: &str) -> (r: String)
    ensures
        r@ == control_name_of(speaker@, suffix@),
{
    if same_text(speaker, "Mono") {
        String::from_str(suffix)
    } else {
        let mut name = String::from_str(speaker);
        name.append(" ");
        name.append(suffix);
        name
    }
}

/// The names of the four knobs of one speaker.
#[derive(Debug)]
pub struct MixerNames {
    /// The volume knob, which the limiter writes.
    pub volume: String,
    /// The amplifier gain knob, which is set to its maximum once.
    pub amp_gain: String,
    /// The switch that turns the voltage sense channel on.
    pub vsense: String,
    /// The switch that turns the current sense channel on.
    pub isense: String,
}

/// Names the four knobs of a speaker.
pub fn mixer_names(speaker: &str, globals: &Globals) -> (r: MixerNames)
    ensures
        r.volume@ == control_name_of(speaker@, globals.ctl_volume@),
        r.amp_gain@ == control_name_of(speaker@, globals.ctl_amp_gain@),
        r.vsense@ == control_name_of(speaker@, globals.ctl_vsense@),
        r.isense@ == control_name_of(speaker@, globals.ctl_isense@),
{
    MixerNames {
        volume: control_name(speaker, globals.ctl_volume.as_str()),
        amp_gain: control_name(speaker, globals.ctl_amp_gain.as_str()),
        vsense: control_name(speaker, globals.ctl_vsense.as_str()),
        isense: control_name(speaker, globals.ctl_isense.as_str()),
    }
}

/// `fault` reports `failure` of the knob `knob`.
pub open spec fn is_control_fault(fault: Fault, knob: Seq<char>, failure: ControlError) -> bool {
    fault matches Fault::Control { knob: k, failure: f } && k@ == knob && f == failure
}

/// Holds a sense switch to having been turned on: a switch that reads
/// back as off, or not at all, is a fault of that knob.
pub fn sense_enabled(knob: &str, readback: Option<bool>) -> (r: Result<(), Fault>)
    ensures
        r is Ok <==> readback == Some(true),
        r matches Err(fault) ==> is_control_fault(fault, knob@, ControlError::Value),
{
    match readback {
        Some(true) => Ok(()),
        _ => Err(Fault::Control { knob: knob.to_owned(), failure: ControlError::Value }),
    }
}

/// The raw value to pin the amplifier gain to, given what the subsystem
/// converted the top of the knob's range to: that value, if the knob can
/// hold it.
pub fn amp_gain_level(knob: &str, converted: i64) -> (r: Result<i32, Fault>)
    ensures
        match r {
            Ok(level) => level == converted,
            Err(fault) => (converted < i32::MIN || converted > i32::MAX) && is_control_fault(
                fault,
                knob@,
                ControlError::Value,
            ),
        },
{
    if converted < -0x8000_0000 || converted > 0x7FFF_FFFF {
        Err(Fault::Control { knob: knob.to_owned(), failure: ControlError::Value })
    } else {
        Ok(converted as i32)
    }
}

/// What to do about a capture that failed.
#[derive(Debug)]
pub enum CaptureVerdict {
    /// Close the stream, open it anew, and go on.
    Reopen,
    /// Give up.
    Fatal(Fault),
}

/// Decides what a failed capture leads to. If the fatal signal has
/// arrived, that is why the capture was interrupted, and the signal is
/// the fault. A suspended stream is reopened. Anything else is a capture
/// fault.
pub fn capture_failed(signalled: bool, suspended: bool) -> (r: CaptureVerdict)
    ensures
        signalled ==> r matches CaptureVerdict::Fatal(Fault::Signal),
        !signalled && suspended ==> r is Reopen,
        !signalled && !suspended ==> r matches CaptureVerdict::Fatal(Fault::Capture),
{
    if signalled {
        CaptureVerdict::Fatal(Fault::Signal)
    } else if suspended {
        CaptureVerdict::Reopen
    } else {
        CaptureVerdict::Fatal(Fault::Capture)
    }
}

/// The clamp on utilization to ask the scheduler for, if any: nothing
/// where the settings name neither bound, else the bounds named, with zero
/// for a lower bound and 1024 for an upper bound that is not named. Where
/// a bound does not fit thirty-two bits, the key of the first that does not.
pub open spec fn uclamp_of(min: Option<usize>, max: Option<usize>) -> Result<
    Option<(u32, u32)>,
    Seq<char>,
> {
    if min is None && max is None {
        Ok(None)
    } else {
        let low = if min is Some { min->0 } else { 0 };
        let high = if max is Some { max->0 } else { 1024 };
        if low > u32::MAX {
            Err("uclamp_min"@)
        } else if high > u32::MAX {
            Err("uclamp_max"@)
        } else {
            Ok(Some((low as u32, high as u32)))
        }
    }
}

/// Works out the clamp on utilization to ask the scheduler for.
pub fn uclamp_request(globals: &Globals) -> (r: Result<Option<(u32, u32)>, Fault>)
    ensures
        match r {
            Ok(request) => uclamp_of(globals.uclamp_min, globals.uclamp_max) == Ok::<
                Option<(u32, u32)>,
                Seq<char>,
            >(request),
            Err(fault) => uclamp_of(globals.uclamp_min, globals.uclamp_max) matches Err(key)
                && is_key_fault(fault, "Globals"@, key, KeyError::OutOfBounds),
        },
{
    if globals.uclamp_min.is_none() && globals.uclamp_max.is_none() {
        return Ok(None);
    }
    let low: usize = match globals.uclamp_min {
        Some(v) => v,
        None => 0,
    };
    let high: usize = match globals.uclamp_max {
        Some(v) => v,
        None => 1024,
    };
    if low as u64 > 0xFFFF_FFFF {
        return Err(key_fault("Globals", "uclamp_min", KeyError::OutOfBounds));
    }
    if high as u64 > 0xFFFF_FFFF {
        return Err(key_fault("Globals", "uclamp_max", KeyError::OutOfBounds));
    }
    Ok(Some((low as u32, high as u32)))
}

} // verus!
