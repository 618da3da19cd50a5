//! The settings shared by all speakers of a machine.

use vstd::prelude::*;
use configparser::ini::Ini;
use crate::config::{
    first_of, ini_values, issue, issue_if, key_fault, optional_size, parse_float, parse_int,
    parse_opt_int, parse_string, reports, wanted_decimal, wanted_size, wanted_text, KeyIssue,
};
use crate::fault::{Fault, KeyError};
use crate::decimal::lemma_decimal_range;
use crate::units::{in_unit_range, MAX_SAMPLES, UNIT_MAX};

verus! {

/// Machine-wide settings, fixed once loaded.
#[derive(Debug)]
pub struct Globals {
    /// Index of the capture sub-device that carries the sense channels.
    pub visense_pcm: usize,
    /// Channels per captured frame.
    pub channels: usize,
    /// Frames per capture block.
    pub period: usize,
    /// Ambient temperature, in millionths of a degree.
    pub t_ambient: i64,
    /// Width of the limiting band below the hard limit, in millionths of a degree.
    pub t_window: i64,
    /// How far the limiter's input may trail above a falling temperature,
    /// in millionths of a degree.
    pub t_hysteresis: i64,
    /// Name of the voltage-sense switch, without the speaker's prefix.
    pub ctl_vsense: String,
    /// Name of the current-sense switch, without the speaker's prefix.
    pub ctl_isense: String,
    /// Name of the amplifier gain knob, without the speaker's prefix.
    pub ctl_amp_gain: String,
    /// Name of the volume knob, without the speaker's prefix.
    pub ctl_volume: String,
    /// Lower utilization clamp to ask the scheduler for.
    pub uclamp_min: Option<usize>,
    /// Upper utilization clamp to ask the scheduler for.
    pub uclamp_max: Option<usize>,
}

impl Globals {
    /// The settings are usable: the temperatures are representable, the
    /// window can be divided by, and one capture block fits a frame.
    pub open spec fn wf(&self) -> bool {
        &&& in_unit_range(self.t_ambient as int)
        &&& in_unit_range(self.t_window as int)
        &&& in_unit_range(self.t_hysteresis as int)
        &&& self.t_window != 0
        &&& self.period * self.channels <= MAX_SAMPLES
    }

    /// Tells whether the settings are usable.
    pub fn usable(&self) -> (b: bool)
        ensures
            b == self.wf(),
    {
        let fits = match self.period.checked_mul(self.channels) {
            Some(samples) => samples <= MAX_SAMPLES,
            None => false,
        };
        -UNIT_MAX <= self.t_ambient && self.t_ambient <= UNIT_MAX && -UNIT_MAX <= self.t_window
            && self.t_window <= UNIT_MAX && -UNIT_MAX <= self.t_hysteresis && self.t_hysteresis
            <= UNIT_MAX && self.t_window != 0 && fits
    }

    /// The first problem with the keys of a configuration, taken in the
    /// order in which they are read.
    pub open spec fn key_issue(values: Map<(Seq<char>, Seq<char>), Seq<char>>) -> Option<
        KeyIssue,
    > {
        let g = "Globals"@;
        let c = "Controls"@;
        first_of(
            issue(g, "visense_pcm"@, wanted_size(values, g, "visense_pcm"@)),
            first_of(
                issue(g, "channels"@, wanted_size(values, g, "channels"@)),
                first_of(
                    issue(g, "period"@, wanted_size(values, g, "period"@)),
                    first_of(
                        issue(g, "t_ambient"@, wanted_decimal(values, g, "t_ambient"@)),
                        first_of(
                            issue(g, "t_window"@, wanted_decimal(values, g, "t_window"@)),
                            first_of(
                                issue(
                                    g,
                                    "t_hysteresis"@,
                                    wanted_decimal(values, g, "t_hysteresis"@),
                                ),
                                Self::name_issue(values),
                            ),
                        ),
                    ),
                ),
            ),
        )
    }

    /// The first problem with the control names and the optional keys.
    pub open spec fn name_issue(values: Map<(Seq<char>, Seq<char>), Seq<char>>) -> Option<
        KeyIssue,
    > {
        let g = "Globals"@;
        let c = "Controls"@;
        first_of(
            issue(c, "vsense"@, wanted_text(values, c, "vsense"@)),
            first_of(
                issue(c, "isense"@, wanted_text(values, c, "isense"@)),
                first_of(
                    issue(c, "amp_gain"@, wanted_text(values, c, "amp_gain"@)),
                    first_of(
                        issue(c, "volume"@, wanted_text(values, c, "volume"@)),
                        first_of(
                            issue(g, "uclamp_min"@, optional_size(values, g, "uclamp_min"@)),
                            issue(g, "uclamp_max"@, optional_size(values, g, "uclamp_max"@)),
                        ),
                    ),
                ),
            ),
        )
    }

    /// The first problem among values that were each read well: a window
    /// of zero, or a capture block too large for a frame.
    pub open spec fn value_issue(values: Map<(Seq<char>, Seq<char>), Seq<char>>) -> Option<
        KeyIssue,
    > {
        let g = "Globals"@;
        first_of(
            issue_if(
                wanted_decimal(values, g, "t_window"@) == Ok::<i64, KeyError>(0),
                g,
                "t_window"@,
                KeyError::OutOfBounds,
            ),
            issue_if(
                wanted_size(values, g, "period"@)->Ok_0 * wanted_size(values, g, "channels"@)->Ok_0
                    > MAX_SAMPLES,
                g,
                "period"@,
                KeyError::OutOfBounds,
            ),
        )
    }

    /// The first problem with a configuration: with its keys, or else
    /// with their values.
    pub open spec fn problem(values: Map<(Seq<char>, Seq<char>), Seq<char>>) -> Option<KeyIssue> {
        first_of(Self::key_issue(values), Self::value_issue(values))
    }

    /// Each setting is what the configuration holds for its key.
    pub open spec fn read_from(&self, values: Map<(Seq<char>, Seq<char>), Seq<char>>) -> bool {
        let g = "Globals"@;
        let c = "Controls"@;
        &&& wanted_size(values, g, "visense_pcm"@) == Ok::<usize, KeyError>(self.visense_pcm)
        &&& wanted_size(values, g, "channels"@) == Ok::<usize, KeyError>(self.channels)
        &&& wanted_size(values, g, "period"@) == Ok::<usize, KeyError>(self.period)
        &&& wanted_decimal(values, g, "t_ambient"@) == Ok::<i64, KeyError>(self.t_ambient)
        &&& wanted_decimal(values, g, "t_window"@) == Ok::<i64, KeyError>(self.t_window)
        &&& wanted_decimal(values, g, "t_hysteresis"@) == Ok::<i64, KeyError>(self.t_hysteresis)
        &&& wanted_text(values, c, "vsense"@) == Ok::<Seq<char>, KeyError>(self.ctl_vsense@)
        &&& wanted_text(values, c, "isense"@) == Ok::<Seq<char>, KeyError>(self.ctl_isense@)
        &&& wanted_text(values, c, "amp_gain"@) == Ok::<Seq<char>, KeyError>(self.ctl_amp_gain@)
        &&& wanted_text(values, c, "volume"@) == Ok::<Seq<char>, KeyError>(self.ctl_volume@)
        &&& optional_size(values, g, "uclamp_min"@) == Ok::<Option<usize>, KeyError>(
            self.uclamp_min,
        )
        &&& optional_size(values, g, "uclamp_max"@) == Ok::<Option<usize>, KeyError>(
            self.uclamp_max,
        )
    }

    /// Reads the settings from sections `Globals` and `Controls`.
    ///
    /// The keys are read in a fixed order and the first problem ends the
    /// reading. Values that were each read well are then held against each
    /// other. The result is usable settings, or the fault for the first
    /// problem.
    pub fn parse(config: &Ini) -> (r: Result<Globals, Fault>)
        ensures
            match r {
                Ok(globals) => {
                    &&& Self::problem(ini_values(*config)) is None
                    &&& globals.read_from(ini_values(*config))
                    &&& globals.wf()
                },
                Err(fault) => reports(fault, Self::problem(ini_values(*config))),
            },
    {
        let visense_pcm = match parse_int(config, "Globals", "visense_pcm") {
            Ok(v) => v,
            Err(fault) => return Err(fault),
        };
        let channels = match parse_int(config, "Globals", "channels") {
            Ok(v) => v,
            Err(fault) => return Err(fault),
        };
        let period = match parse_int(config, "Globals", "period") {
            Ok(v) => v,
            Err(fault) => return Err(fault),
        };
        let t_ambient = match parse_float(config, "Globals", "t_ambient") {
            Ok(v) => v,
            Err(fault) => return Err(fault),
        };
        let t_window = match parse_float(config, "Globals", "t_window") {
            Ok(v) => v,
            Err(fault) => return Err(fault),
        };
        let t_hysteresis = match parse_float(config, "Globals", "t_hysteresis") {
            Ok(v) => v,
            Err(fault) => return Err(fault),
        };
        let ctl_vsense = match parse_string(config, "Controls", "vsense") {
            Ok(v) => v,
            Err(fault) => return Err(fault),
        };
        let ctl_isense = match parse_string(config, "Controls", "isense") {
            Ok(v) => v,
            Err(fault) => return Err(fault),
        };
        let ctl_amp_gain = match parse_string(config, "Controls", "amp_gain") {
            Ok(v) => v,
            Err(fault) => return Err(fault),
        };
        let ctl_volume = match parse_string(config, "Controls", "volume") {
            Ok(v) => v,
            Err(fault) => return Err(fault),
        };
        let uclamp_min = match parse_opt_int(config, "Globals", "uclamp_min") {
            Ok(v) => v,
            Err(fault) => return Err(fault),
        };
        let uclamp_max = match parse_opt_int(config, "Globals", "uclamp_max") {
            Ok(v) => v,
            Err(fault) => return Err(fault),
        };
        proof {
            let values = ini_values(*config);
            lemma_decimal_range(values[("Globals"@, "t_ambient"@)]);
            lemma_decimal_range(values[("Globals"@, "t_window"@)]);
            lemma_decimal_range(values[("Globals"@, "t_hysteresis"@)]);
        }
        let globals = Globals {
            visense_pcm,
            channels,
            period,
            t_ambient,
            t_window,
            t_hysteresis,
            ctl_vsense,
            ctl_isense,
            ctl_amp_gain,
            ctl_volume,
            uclamp_min,
            uclamp_max,
        };
        if t_window == 0 {
            return Err(key_fault("Globals", "t_window", KeyError::OutOfBounds));
        }
        let fits = match period.checked_mul(channels) {
            Some(samples) => samples <= MAX_SAMPLES,
            None => false,
        };
        if !fits {
            return Err(key_fault("Globals", "period", KeyError::OutOfBounds));
        }
        Ok(globals)
    }
}

impl Clone for Globals {
    fn clone(&self) -> (r: Self)
        ensures
            r == *self,
    {
        Globals {
            visense_pcm: self.visense_pcm,
            channels: self.channels,
            period: self.period,
            t_ambient: self.t_ambient,
            t_window: self.t_window,
            t_hysteresis: self.t_hysteresis,
            ctl_vsense: self.ctl_vsense.clone(),
            ctl_isense: self.ctl_isense.clone(),
            ctl_amp_gain: self.ctl_amp_gain.clone(),
            ctl_volume: self.ctl_volume.clone(),
            uclamp_min: self.uclamp_min,
            uclamp_max: self.uclamp_max,
        }
    }
}

} // verus!
