//! Reading and checking what the configuration says of one driver.

use vstd::prelude::*;
use vstd::string::StringExecFns;
use configparser::ini::Ini;
use crate::config::{
    first_of, ini_values, issue, issue_if, key_fault, parse_float, parse_int, reports,
    wanted_decimal, wanted_size, KeyIssue,
};
use crate::decimal::lemma_decimal_range;
use crate::fault::{Fault, KeyError};
use crate::fixed::div_ceil;
use crate::globals::Globals;
use crate::speaker::Calibration;
use crate::units::{
    in_unit_range, DEGREE, MAGNET_MAX, MICRO, RISE_FACTOR_MAX, SENSE_POWER_MAX, UNIT_MAX,
};

verus! {

/// The name of the section that describes the speaker `name`.
pub open spec fn speaker_section(name: Seq<char>) -> Seq<char> {
    "Speaker/"@ + name
}

/// Whether `v` is outside `-bound ..= bound`.
pub open spec fn exceeds(v: int, bound: int) -> bool {
    v < -bound || v > bound
}

impl Calibration {
    /// The first problem with the keys of a speaker's section, taken in
    /// the order in which they are read.
    pub open spec fn key_issue(
        values: Map<(Seq<char>, Seq<char>), Seq<char>>,
        section: Seq<char>,
    ) -> Option<KeyIssue> {
        first_of(
            issue(section, "group"@, wanted_size(values, section, "group"@)),
            first_of(
                issue(section, "tau_coil"@, wanted_decimal(values, section, "tau_coil"@)),
                first_of(
                    issue(section, "tau_magnet"@, wanted_decimal(values, section, "tau_magnet"@)),
                    first_of(
                        issue(section, "tr_coil"@, wanted_decimal(values, section, "tr_coil"@)),
                        first_of(
                            issue(
                                section,
                                "tr_magnet"@,
                                wanted_decimal(values, section, "tr_magnet"@),
                            ),
                            first_of(
                                issue(
                                    section,
                                    "t_limit"@,
                                    wanted_decimal(values, section, "t_limit"@),
                                ),
                                Self::late_key_issue(values, section),
                            ),
                        ),
                    ),
                ),
            ),
        )
    }

    /// The first problem with the keys that are read last.
    pub open spec fn late_key_issue(
        values: Map<(Seq<char>, Seq<char>), Seq<char>>,
        section: Seq<char>,
    ) -> Option<KeyIssue> {
        first_of(
            issue(section, "t_headroom"@, wanted_decimal(values, section, "t_headroom"@)),
            first_of(
                issue(section, "z_nominal"@, wanted_decimal(values, section, "z_nominal"@)),
                first_of(
                    issue(section, "is_scale"@, wanted_decimal(values, section, "is_scale"@)),
                    first_of(
                        issue(section, "vs_scale"@, wanted_decimal(values, section, "vs_scale"@)),
                        first_of(
                            issue(section, "is_chan"@, wanted_size(values, section, "is_chan"@)),
                            issue(section, "vs_chan"@, wanted_size(values, section, "vs_chan"@)),
                        ),
                    ),
                ),
            ),
        )
    }

    /// The calibration that a section holds, where each key reads well.
    pub open spec fn read(
        values: Map<(Seq<char>, Seq<char>), Seq<char>>,
        section: Seq<char>,
    ) -> Calibration {
        Calibration {
            group: wanted_size(values, section, "group"@)->Ok_0,
            tau_coil: wanted_decimal(values, section, "tau_coil"@)->Ok_0,
            tau_magnet: wanted_decimal(values, section, "tau_magnet"@)->Ok_0,
            tr_coil: wanted_decimal(values, section, "tr_coil"@)->Ok_0,
            tr_magnet: wanted_decimal(values, section, "tr_magnet"@)->Ok_0,
            t_limit: wanted_decimal(values, section, "t_limit"@)->Ok_0,
            t_headroom: wanted_decimal(values, section, "t_headroom"@)->Ok_0,
            z_nominal: wanted_decimal(values, section, "z_nominal"@)->Ok_0,
            is_scale: wanted_decimal(values, section, "is_scale"@)->Ok_0,
            vs_scale: wanted_decimal(values, section, "vs_scale"@)->Ok_0,
            is_chan: wanted_size(values, section, "is_chan"@)->Ok_0,
            vs_chan: wanted_size(values, section, "vs_chan"@)->Ok_0,
        }
    }

    /// The first thing about the values that keeps the model from being
    /// computed with them: a negative time constant, two equal time
    /// constants, thermal resistances that cancel, a power or a rise or a
    /// starting temperature beyond what is represented, a sense channel
    /// that the frames do not have, or a limiting band that does not start
    /// above ambient.
    pub open spec fn flaw(&self, g: &Globals, section: Seq<char>) -> Option<KeyIssue> {
        first_of(
            issue_if(self.tau_coil < 0, section, "tau_coil"@, KeyError::OutOfBounds),
            first_of(
                issue_if(self.tau_magnet < 0, section, "tau_magnet"@, KeyError::OutOfBounds),
                first_of(
                    issue_if(
                        self.tau_coil == self.tau_magnet,
                        section,
                        "tau_magnet"@,
                        KeyError::Inconsistent,
                    ),
                    first_of(
                        issue_if(
                            self.tr_coil + self.tr_magnet == 0,
                            section,
                            "tr_magnet"@,
                            KeyError::Inconsistent,
                        ),
                        first_of(self.power_flaw(section), self.layout_flaw(g, section)),
                    ),
                ),
            ),
        )
    }

    /// The first quantity derived from the values that is beyond what is
    /// represented.
    pub open spec fn power_flaw(&self, section: Seq<char>) -> Option<KeyIssue> {
        first_of(
            issue_if(
                exceeds(self.sense_power(), SENSE_POWER_MAX as int),
                section,
                "vs_scale"@,
                KeyError::OutOfBounds,
            ),
            first_of(
                issue_if(
                    exceeds(self.coil_factor(), RISE_FACTOR_MAX as int),
                    section,
                    "tr_coil"@,
                    KeyError::OutOfBounds,
                ),
                issue_if(
                    exceeds(self.magnet_factor(), RISE_FACTOR_MAX as int),
                    section,
                    "tr_magnet"@,
                    KeyError::OutOfBounds,
                ),
            ),
        )
    }

    /// The first of the values that does not fit the machine's settings.
    pub open spec fn layout_flaw(&self, g: &Globals, section: Seq<char>) -> Option<KeyIssue> {
        first_of(
            issue_if(
                exceeds(self.seed_magnet(g, true), MAGNET_MAX as int) || exceeds(
                    self.seed_magnet(g, false),
                    MAGNET_MAX as int,
                ),
                section,
                "tr_magnet"@,
                KeyError::OutOfBounds,
            ),
            first_of(
                issue_if(self.is_chan >= g.channels, section, "is_chan"@, KeyError::Inconsistent),
                first_of(
                    issue_if(
                        self.vs_chan >= g.channels,
                        section,
                        "vs_chan"@,
                        KeyError::Inconsistent,
                    ),
                    issue_if(
                        self.t_limit - g.t_window <= g.t_ambient,
                        section,
                        "t_limit"@,
                        KeyError::Inconsistent,
                    ),
                ),
            ),
        )
    }

    /// Each decimal value is within the represented range.
    pub open spec fn in_range(&self) -> bool {
        &&& in_unit_range(self.tau_coil as int)
        &&& in_unit_range(self.tau_magnet as int)
        &&& in_unit_range(self.tr_coil as int)
        &&& in_unit_range(self.tr_magnet as int)
        &&& in_unit_range(self.t_limit as int)
        &&& in_unit_range(self.t_headroom as int)
        &&& in_unit_range(self.z_nominal as int)
        &&& in_unit_range(self.is_scale as int)
        &&& in_unit_range(self.vs_scale as int)
    }

    /// Values within range are usable exactly when they have no flaw.
    pub proof fn lemma_flawless(&self, g: &Globals, section: Seq<char>)
        requires
            self.in_range(),
        ensures
            self.flaw(g, section) is None <==> self.wf(g),
    {
        reveal(Calibration::power_representable);
        reveal(Calibration::seed_representable);
    }

    /// The first problem with a speaker's section: with its keys, or else
    /// with their values.
    pub open spec fn problem(
        values: Map<(Seq<char>, Seq<char>), Seq<char>>,
        section: Seq<char>,
        g: &Globals,
    ) -> Option<KeyIssue> {
        first_of(Self::key_issue(values, section), Self::read(values, section).flaw(g, section))
    }

    /// Computes `seed_magnet`.
    pub(crate) fn seed_magnet_of(&self, g: &Globals, cold_boot: bool) -> (r: i128)
        requires
            g.wf(),
            self.in_range(),
            self.tr_coil + self.tr_magnet != 0,
        ensures
            r == self.seed_magnet(g, cold_boot),
    {
        let ambient: i128 = (g.t_ambient as i128) * MICRO;
        let coil: i128 = if cold_boot {
            ((self.t_limit as i128) - (g.t_window as i128)) * MICRO - DEGREE
        } else {
            (self.t_limit as i128) * MICRO
        };
        proof {
            assert(-(6_000_000_000_000_000_000 * 1_000_000_000_000) <= (coil - ambient) * (
            self.tr_magnet as int) <= 6_000_000_000_000_000_000 * 1_000_000_000_000)
                by (nonlinear_arith)
                requires
                    -6_000_000_000_000_000_000 <= coil - ambient <= 6_000_000_000_000_000_000,
                    -1_000_000_000_000 <= self.tr_magnet <= 1_000_000_000_000,
            ;
            crate::fixed::lemma_div_magnitude(
                (coil - ambient) * (self.tr_magnet as int),
                self.tr_magnet + self.tr_coil,
            );
        }
        let share: i128 = div_ceil(
            (coil - ambient) * (self.tr_magnet as i128),
            (self.tr_magnet as i128) + (self.tr_coil as i128),
        );
        ambient + share
    }

    /// Finds the first flaw of values that are within range.
    fn check(&self, g: &Globals, section: &str) -> (r: Option<Fault>)
        requires
            g.wf(),
            self.in_range(),
        ensures
            match r {
                None => self.flaw(g, section@) is None,
                Some(fault) => reports(fault, self.flaw(g, section@)),
            },
    {
        if self.tau_coil < 0 {
            return Some(key_fault(section, "tau_coil", KeyError::OutOfBounds));
        }
        if self.tau_magnet < 0 {
            return Some(key_fault(section, "tau_magnet", KeyError::OutOfBounds));
        }
        if self.tau_coil == self.tau_magnet {
            return Some(key_fault(section, "tau_magnet", KeyError::Inconsistent));
        }
        if self.tr_coil + self.tr_magnet == 0 {
            return Some(key_fault(section, "tr_magnet", KeyError::Inconsistent));
        }
        proof {
            assert(-(1_000_000_000_000 * 1_000_000_000_000) <= (self.vs_scale as int) * (
            self.is_scale as int) <= 1_000_000_000_000 * 1_000_000_000_000) by (nonlinear_arith)
                requires
                    -1_000_000_000_000 <= self.vs_scale <= 1_000_000_000_000,
                    -1_000_000_000_000 <= self.is_scale <= 1_000_000_000_000,
            ;
        }
        let power: i128 = (self.vs_scale as i128) * (self.is_scale as i128);
        if power < -SENSE_POWER_MAX || power > SENSE_POWER_MAX {
            return Some(key_fault(section, "vs_scale", KeyError::OutOfBounds));
        }
        proof {
            assert(-(1_000_000_000_000_000_000 * 1_000_000_000_000) <= (power as int) * (
            self.tr_coil as int) <= 1_000_000_000_000_000_000 * 1_000_000_000_000)
                by (nonlinear_arith)
                requires
                    -1_000_000_000_000_000_000 <= power <= 1_000_000_000_000_000_000,
                    -1_000_000_000_000 <= self.tr_coil <= 1_000_000_000_000,
            ;
            assert(-(1_000_000_000_000_000_000 * 1_000_000_000_000) <= (power as int) * (
            self.tr_magnet as int) <= 1_000_000_000_000_000_000 * 1_000_000_000_000)
                by (nonlinear_arith)
                requires
                    -1_000_000_000_000_000_000 <= power <= 1_000_000_000_000_000_000,
                    -1_000_000_000_000 <= self.tr_magnet <= 1_000_000_000_000,
            ;
        }
        let coil_factor: i128 = power * (self.tr_coil as i128);
        if coil_factor < -RISE_FACTOR_MAX || coil_factor > RISE_FACTOR_MAX {
            return Some(key_fault(section, "tr_coil", KeyError::OutOfBounds));
        }
        let magnet_factor: i128 = power * (self.tr_magnet as i128);
        if magnet_factor < -RISE_FACTOR_MAX || magnet_factor > RISE_FACTOR_MAX {
            return Some(key_fault(section, "tr_magnet", KeyError::OutOfBounds));
        }
        let cold: i128 = self.seed_magnet_of(g, true);
        let warm: i128 = self.seed_magnet_of(g, false);
        if cold < -MAGNET_MAX || cold > MAGNET_MAX || warm < -MAGNET_MAX || warm > MAGNET_MAX {
            return Some(key_fault(section, "tr_magnet", KeyError::OutOfBounds));
        }
        if self.is_chan >= g.channels {
            return Some(key_fault(section, "is_chan", KeyError::Inconsistent));
        }
        if self.vs_chan >= g.channels {
            return Some(key_fault(section, "vs_chan", KeyError::Inconsistent));
        }
        if self.t_limit - g.t_window <= g.t_ambient {
            return Some(key_fault(section, "t_limit", KeyError::Inconsistent));
        }
        None
    }

    /// Tells whether the values can be computed with, given the machine's
    /// settings.
    pub fn usable(&self, g: &Globals) -> (b: bool)
        requires
            g.wf(),
        ensures
            b == self.wf(g),
    {
        let in_range = -UNIT_MAX <= self.tau_coil && self.tau_coil <= UNIT_MAX && -UNIT_MAX
            <= self.tau_magnet && self.tau_magnet <= UNIT_MAX && -UNIT_MAX <= self.tr_coil
            && self.tr_coil <= UNIT_MAX && -UNIT_MAX <= self.tr_magnet && self.tr_magnet
            <= UNIT_MAX && -UNIT_MAX <= self.t_limit && self.t_limit <= UNIT_MAX && -UNIT_MAX
            <= self.t_headroom && self.t_headroom <= UNIT_MAX && -UNIT_MAX <= self.z_nominal
            && self.z_nominal <= UNIT_MAX && -UNIT_MAX <= self.is_scale && self.is_scale
            <= UNIT_MAX && -UNIT_MAX <= self.vs_scale && self.vs_scale <= UNIT_MAX;
        if !in_range {
            return false;
        }
        proof {
            self.lemma_flawless(g, ""@);
        }
        self.check(g, "").is_none()
    }

    /// Reads what the configuration says of the speaker `name`, from the
    /// section `Speaker/` and the name, and checks it against the
    /// machine's settings.
    ///
    /// The keys are read in a fixed order and the first problem ends the
    /// reading. Values that were each read well are then checked for the
    /// first flaw. The result is a usable calibration, or the fault for the
    /// first problem.
    pub fn parse(globals: &Globals, name: &str, config: &Ini) -> (r: Result<Calibration, Fault>)
        requires
            globals.wf(),
        ensures
            match r {
                Ok(cal) => {
                    &&& Self::problem(ini_values(*config), speaker_section(name@), globals) is None
                    &&& cal == Self::read(ini_values(*config), speaker_section(name@))
                    &&& cal.wf(globals)
                },
                Err(fault) => reports(
                    fault,
                    Self::problem(ini_values(*config), speaker_section(name@), globals),
                ),
            },
    {
        let mut section_name = String::from_str("Speaker/");
        section_name.append(name);
        let section: &str = section_name.as_str();
        let group = match parse_int(config, section, "group") {
            Ok(v) => v,
            Err(fault) => return Err(fault),
        };
        let tau_coil = match parse_float(config, section, "tau_coil") {
            Ok(v) => v,
            Err(fault) => return Err(fault),
        };
        let tau_magnet = match parse_float(config, section, "tau_magnet") {
            Ok(v) => v,
            Err(fault) => return Err(fault),
        };
        let tr_coil = match parse_float(config, section, "tr_coil") {
            Ok(v) => v,
            Err(fault) => return Err(fault),
        };
        let tr_magnet = match parse_float(config, section, "tr_magnet") {
            Ok(v) => v,
            Err(fault) => return Err(fault),
        };
        let t_limit = match parse_float(config, section, "t_limit") {
            Ok(v) => v,
            Err(fault) => return Err(fault),
        };
        let t_headroom = match parse_float(config, section, "t_headroom") {
            Ok(v) => v,
            Err(fault) => return Err(fault),
        };
        let z_nominal = match parse_float(config, section, "z_nominal") {
            Ok(v) => v,
            Err(fault) => return Err(fault),
        };
        let is_scale = match parse_float(config, section, "is_scale") {
            Ok(v) => v,
            Err(fault) => return Err(fault),
        };
        let vs_scale = match parse_float(config, section, "vs_scale") {
            Ok(v) => v,
            Err(fault) => return Err(fault),
        };
        let is_chan = match parse_int(config, section, "is_chan") {
            Ok(v) => v,
            Err(fault) => return Err(fault),
        };
        let vs_chan = match parse_int(config, section, "vs_chan") {
            Ok(v) => v,
            Err(fault) => return Err(fault),
        };
        let cal = Calibration {
            group,
            tau_coil,
            tau_magnet,
            tr_coil,
            tr_magnet,
            t_limit,
            t_headroom,
            z_nominal,
            is_scale,
            vs_scale,
            is_chan,
            vs_chan,
        };
        proof {
            let values = ini_values(*config);
            let s = section@;
            lemma_decimal_range(values[(s, "tau_coil"@)]);
            lemma_decimal_range(values[(s, "tau_magnet"@)]);
            lemma_decimal_range(values[(s, "tr_coil"@)]);
            lemma_decimal_range(values[(s, "tr_magnet"@)]);
            lemma_decimal_range(values[(s, "t_limit"@)]);
            lemma_decimal_range(values[(s, "t_headroom"@)]);
            lemma_decimal_range(values[(s, "z_nominal"@)]);
            lemma_decimal_range(values[(s, "is_scale"@)]);
            lemma_decimal_range(values[(s, "vs_scale"@)]);
            cal.lemma_flawless(globals, s);
        }
        match cal.check(globals, section) {
            Some(fault) => Err(fault),
            None => Ok(cal),
        }
    }
}

} // verus!
