//! The two-pole thermal model of one speaker, and the limiter it drives.
//!
//! The voice coil heats into the magnet and the magnet into the air. Each
//! captured sample moves both estimates a small step towards where the
//! sensed power would take them; after each block the limiter turns the
//! hotter of the two into a gain reduction.

use vstd::prelude::*;
use vstd::arithmetic::div_mod::lemma_fundamental_div_mod;
use crate::fault::{Fault, ModelError};
use crate::fixed::{
    ceil_div, div_ceil, div_floor, floor_div, lemma_ceil_div_least, lemma_div_exact,
    lemma_div_magnitude, lemma_div_monotonic, lemma_floor_div_bounds, lemma_share_between,
};
use crate::globals::Globals;
use crate::units::{
    in_unit_range, COIL_MAX, DECAY_ONE, DEGREE, GAIN_SNAP, MAGNET_MAX, MAX_SAMPLES, MICRO,
    PER_MILLIBEL, POWER_FLOOR_MICROWATTS, POWER_FLOOR_SCALED, RISE_FACTOR_MAX, RISE_MAX,
    RISE_SCALE, SENSE_POWER_MAX, UNIT_MAX,
};

verus! {

/// The running state of one speaker. Temperatures are in state units, gains
/// in millionths of a decibel.
#[derive(Clone, Copy, Debug, PartialEq, Eq, Structural)]
pub struct SpeakerState {
    /// Estimated voice coil temperature.
    pub t_coil: i64,
    /// Estimated magnet temperature.
    pub t_magnet: i64,
    /// The coil temperature the limiter sees: it follows a rise at once
    /// and a fall only after the hysteresis margin.
    pub t_coil_hyst: i64,
    /// The magnet temperature the limiter sees.
    pub t_magnet_hyst: i64,
    /// The gain at the hard limit, never above zero.
    pub min_gain: i64,
    /// The gain the limiter last asked for.
    pub gain: i64,
}

impl SpeakerState {
    /// The estimates are within the represented range and the floor is a reduction.
    pub open spec fn wf(&self) -> bool {
        &&& -COIL_MAX <= self.t_coil <= COIL_MAX
        &&& -MAGNET_MAX <= self.t_magnet <= MAGNET_MAX
        &&& self.min_gain <= 0
    }

    /// The two estimates as mathematical integers.
    pub open spec fn thermal(&self) -> Thermal {
        Thermal { coil: self.t_coil as int, magnet: self.t_magnet as int }
    }
}

impl Default for SpeakerState {
    fn default() -> (r: Self)
        ensures
            r == (SpeakerState {
                t_coil: 0,
                t_magnet: 0,
                t_coil_hyst: 0,
                t_magnet_hyst: 0,
                min_gain: 0,
                gain: 0,
            }),
    {
        SpeakerState {
            t_coil: 0,
            t_magnet: 0,
            t_coil_hyst: 0,
            t_magnet_hyst: 0,
            min_gain: 0,
            gain: 0,
        }
    }
}

/// The pair of temperature estimates, in state units.
pub struct Thermal {
    pub coil: int,
    pub magnet: int,
}

/// What is known of one driver, in millionths of each unit.
#[derive(Clone, Copy, Debug, PartialEq, Eq, Structural)]
pub struct Calibration {
    /// The speakers of one group share one gain.
    pub group: usize,
    /// Time constant of the voice coil, in microseconds.
    pub tau_coil: i64,
    /// Time constant of the magnet, in microseconds.
    pub tau_magnet: i64,
    /// Thermal resistance from coil to magnet.
    pub tr_coil: i64,
    /// Thermal resistance from magnet to air.
    pub tr_magnet: i64,
    /// The temperature neither mass may exceed in steady state.
    pub t_limit: i64,
    /// How far above the limit an estimate may go before the model gives up.
    pub t_headroom: i64,
    /// Nominal impedance.
    pub z_nominal: i64,
    /// Amperes at full scale of the current sense channel.
    pub is_scale: i64,
    /// Volts at full scale of the voltage sense channel.
    pub vs_scale: i64,
    /// Index of the current sense channel within a frame.
    pub is_chan: usize,
    /// Index of the voltage sense channel within a frame.
    pub vs_chan: usize,
}

/// The temperature rise, in state units, that the power of one sample would
/// sustain across a thermal resistance. `factor` is full-scale sense power
/// times the resistance; the samples are fractions of full scale.
pub open spec fn rise(factor: int, volts: int, amps: int) -> int {
    ceil_div(volts * amps * factor, RISE_SCALE as int)
}

/// One sample's step of a temperature `t` towards `target`: the share
/// `dt / (tau + dt)` of the way, with `dt` one sample at `rate` hertz and
/// `tau` in microseconds.
pub open spec fn relax(t: int, target: int, tau: int, rate: int) -> int {
    t + ceil_div(MICRO * (target - t), tau * rate + MICRO)
}

/// The peak hold with bleed: `held` is pulled up to `t` at once, and down
/// to no more than `margin` above it.
pub open spec fn hold(held: int, t: int, margin: int) -> int {
    let up = if held > t { held } else { t };
    if up < t + margin { up } else { t + margin }
}

/// The fraction `(temp - knee) / window` of the limiting band that `temp`
/// has crossed is positive.
pub open spec fn limiting(temp: int, knee: int, window: int) -> bool {
    (temp > knee && window > 0) || (temp < knee && window < 0)
}

/// The product `min_gain * (temp - knee) / window` is above a hundredth
/// of a decibel below zero.
pub open spec fn negligible(min_gain: int, temp: int, knee: int, window: int) -> bool {
    if window > 0 {
        min_gain * (temp - knee) > GAIN_SNAP * window
    } else {
        min_gain * (temp - knee) < GAIN_SNAP * window
    }
}

/// The gain for a temperature: `min_gain` times the fraction of the band
/// that `temp` has crossed. It is zero below the band, and where it would
/// be within a hundredth of a decibel of zero. Else it is rounded down and
/// held within the represented range.
pub open spec fn limit_gain(min_gain: int, temp: int, knee: int, window: int) -> int {
    if !limiting(temp, knee, window) || negligible(min_gain, temp, knee, window) {
        0
    } else {
        let raw = floor_div(min_gain * (temp - knee), window);
        if raw < i64::MIN {
            i64::MIN as int
        } else {
            raw
        }
    }
}

/// The gain in millibels, the unit of the volume knob, rounded towards zero.
pub open spec fn gain_millibels(gain: int) -> int {
    if gain >= 0 {
        gain / (PER_MILLIBEL as int)
    } else {
        -((-gain) / (PER_MILLIBEL as int))
    }
}

/// `v` held within `lo` and `hi`.
pub open spec fn clamp(v: int, lo: int, hi: int) -> int {
    if v < lo {
        lo
    } else if v > hi {
        hi
    } else {
        v
    }
}

/// The share `decay / DECAY_ONE` of `excess`, rounded up.
pub open spec fn decayed(decay: int, excess: int) -> int {
    ceil_div(decay * excess, DECAY_ONE as int)
}

impl Calibration {
    /// Sense power at full scale, in millionths of a microwatt.
    pub open spec fn sense_power(&self) -> int {
        self.vs_scale * self.is_scale
    }

    /// Full-scale sense power times the coil's thermal resistance.
    pub open spec fn coil_factor(&self) -> int {
        self.sense_power() * self.tr_coil
    }

    /// Full-scale sense power times the magnet's thermal resistance.
    pub open spec fn magnet_factor(&self) -> int {
        self.sense_power() * self.tr_magnet
    }

    /// The coil temperature assumed at start: a degree short of limiting
    /// after a cold boot, the hard limit otherwise.
    pub open spec fn seed_coil(&self, g: &Globals, cold_boot: bool) -> int {
        if cold_boot {
            (self.t_limit - g.t_window) * MICRO - DEGREE
        } else {
            self.t_limit * MICRO
        }
    }

    /// The magnet temperature assumed at start: the share of the coil's
    /// excess over ambient that steady heating would leave in the magnet.
    pub open spec fn seed_magnet(&self, g: &Globals, cold_boot: bool) -> int {
        g.t_ambient * MICRO + ceil_div(
            (self.seed_coil(g, cold_boot) - g.t_ambient * MICRO) * self.tr_magnet,
            self.tr_magnet + self.tr_coil,
        )
    }

    /// The power that in steady state holds the coil at the hard limit,
    /// in microwatts, rounded down.
    pub open spec fn max_power_spec(&self, g: &Globals) -> int {
        floor_div((self.t_limit - g.t_ambient) * MICRO, self.tr_coil + self.tr_magnet)
    }

    /// The sense power and the rise it can cause are within what is represented.
    #[verifier::opaque]
    pub open spec fn power_representable(&self) -> bool {
        &&& -SENSE_POWER_MAX <= self.sense_power() <= SENSE_POWER_MAX
        &&& -RISE_FACTOR_MAX <= self.coil_factor() <= RISE_FACTOR_MAX
        &&& -RISE_FACTOR_MAX <= self.magnet_factor() <= RISE_FACTOR_MAX
    }

    /// The magnet's starting temperature is within what is represented,
    /// for either kind of boot.
    #[verifier::opaque]
    pub open spec fn seed_representable(&self, g: &Globals) -> bool {
        &&& -MAGNET_MAX <= self.seed_magnet(g, true) <= MAGNET_MAX
        &&& -MAGNET_MAX <= self.seed_magnet(g, false) <= MAGNET_MAX
    }

    /// The values can be computed with: each is representable, no formula
    /// divides by zero, the sense channels exist, and the limiting band
    /// starts above ambient.
    pub open spec fn wf(&self, g: &Globals) -> bool {
        &&& in_unit_range(self.tau_coil as int)
        &&& in_unit_range(self.tau_magnet as int)
        &&& in_unit_range(self.tr_coil as int)
        &&& in_unit_range(self.tr_magnet as int)
        &&& in_unit_range(self.t_limit as int)
        &&& in_unit_range(self.t_headroom as int)
        &&& in_unit_range(self.z_nominal as int)
        &&& in_unit_range(self.is_scale as int)
        &&& in_unit_range(self.vs_scale as int)
        &&& self.tau_coil >= 0
        &&& self.tau_magnet >= 0
        &&& self.tau_coil != self.tau_magnet
        &&& self.tr_coil + self.tr_magnet != 0
        &&& self.power_representable()
        &&& self.seed_representable(g)
        &&& self.is_chan < g.channels
        &&& self.vs_chan < g.channels
        &&& self.t_limit - g.t_window > g.t_ambient
    }
}

/// A rise is at most a million degrees either way.
pub proof fn lemma_rise_bounded(factor: int, volts: int, amps: int)
    requires
        -RISE_FACTOR_MAX <= factor <= RISE_FACTOR_MAX,
        -0x8000 <= volts < 0x8000,
        -0x8000 <= amps < 0x8000,
    ensures
        -RISE_MAX <= rise(factor, volts, amps) <= RISE_MAX,
        -0x4000_0000 * RISE_FACTOR_MAX <= volts * amps * factor <= 0x4000_0000 * RISE_FACTOR_MAX,
{
    let d = RISE_SCALE as int;
    let top = RISE_MAX as int;
    let p = volts * amps;
    let n = p * factor;
    assert(-0x4000_0000 <= p <= 0x4000_0000) by (nonlinear_arith)
        requires
            p == volts * amps,
            -0x8000 <= volts < 0x8000,
            -0x8000 <= amps < 0x8000,
    ;
    assert(-0x4000_0000 * 1_000_000_000_000_000_000_000_000 <= n <= 0x4000_0000
        * 1_000_000_000_000_000_000_000_000) by (nonlinear_arith)
        requires
            n == p * factor,
            -0x4000_0000 <= p <= 0x4000_0000,
            -1_000_000_000_000_000_000_000_000 <= factor <= 1_000_000_000_000_000_000_000_000,
    ;
    assert(top * d == 0x4000_0000 * 1_000_000_000_000_000_000_000_000) by (nonlinear_arith)
        requires
            top == 1_000_000_000_000_000_000,
            d == 1_073_741_824_000_000,
    ;
    assert((-top) * d == -(top * d)) by (nonlinear_arith);
    lemma_ceil_div_least(n, d, top);
    lemma_div_monotonic((-top) * d, n, d);
    lemma_div_exact(-top, d);
}

/// A relaxing temperature ends between where it was and where it is drawn to.
pub proof fn lemma_relax_between(t: int, target: int, tau: int, rate: int)
    requires
        tau >= 0,
        rate >= 0,
    ensures
        t <= target ==> t <= relax(t, target, tau, rate) <= target,
        target <= t ==> target <= relax(t, target, tau, rate) <= t,
{
    let d = tau * rate + MICRO;
    assert(d >= MICRO) by (nonlinear_arith)
        requires
            tau >= 0,
            rate >= 0,
            d == tau * rate + MICRO,
    ;
    lemma_share_between(target - t, MICRO as int, d);
}

/// A decayed excess lies between zero and the excess, whatever the sign
/// of the factor, as long as the factor is at most one in magnitude.
pub proof fn lemma_decayed_between(decay: int, excess: int)
    requires
        -DECAY_ONE <= decay <= DECAY_ONE,
    ensures
        excess >= 0 ==> -excess <= decayed(decay, excess) <= excess,
        excess <= 0 ==> excess <= decayed(decay, excess) <= -excess,
        decay >= 0 && excess >= 0 ==> 0 <= decayed(decay, excess),
        decay >= 0 && excess <= 0 ==> decayed(decay, excess) <= 0,
{
    if decay >= 0 {
        lemma_share_between(excess, decay, DECAY_ONE as int);
    } else {
        assert(decay * excess == (-decay) * (-excess)) by (nonlinear_arith);
        lemma_share_between(-excess, -decay, DECAY_ONE as int);
    }
}

/// One speaker: what is known of the driver, the machine's settings, and
/// the running state.
#[derive(Debug)]
pub struct Speaker {
    /// The name its controls are prefixed with.
    pub name: String,
    /// The group whose gain it shares.
    pub group: usize,
    pub cal: Calibration,
    pub g: Globals,
    pub s: SpeakerState,
}

impl Speaker {
    /// Settings, calibration and state are each usable.
    pub open spec fn wf(&self) -> bool {
        &&& self.g.wf()
        &&& self.cal.wf(&self.g)
        &&& self.s.wf()
        &&& self.group == self.cal.group
    }

    /// Ambient temperature in state units.
    pub open spec fn ambient(&self) -> int {
        self.g.t_ambient * MICRO
    }

    /// The temperature above which the model gives up: limit plus headroom.
    pub open spec fn ceiling(&self) -> int {
        (self.cal.t_limit + self.cal.t_headroom) * MICRO
    }

    /// The hard limit in state units.
    pub open spec fn limit(&self) -> int {
        self.cal.t_limit * MICRO
    }

    /// Where limiting starts: the hard limit less the window.
    pub open spec fn knee(&self) -> int {
        (self.cal.t_limit - self.g.t_window) * MICRO
    }

    /// The width of the limiting band in state units.
    pub open spec fn window(&self) -> int {
        self.g.t_window * MICRO
    }

    /// The hysteresis margin in state units.
    pub open spec fn margin(&self) -> int {
        self.g.t_hysteresis * MICRO
    }

    /// The samples make up whole frames, one sample per channel each.
    pub open spec fn whole_frames(&self, frame: Seq<i16>) -> bool {
        (frame.len() as int) % (self.g.channels as int) == 0
    }

    /// How many frames the samples make up.
    pub open spec fn frames(&self, frame: Seq<i16>) -> nat {
        ((frame.len() as int) / (self.g.channels as int)) as nat
    }

    /// The voltage sample of frame `k`.
    pub open spec fn volts(&self, frame: Seq<i16>, k: int) -> int {
        frame[k * self.g.channels + self.cal.vs_chan] as int
    }

    /// The current sample of frame `k`.
    pub open spec fn amps(&self, frame: Seq<i16>, k: int) -> int {
        frame[k * self.g.channels + self.cal.is_chan] as int
    }

    /// Both estimates after one sample: the coil is drawn to the magnet's
    /// temperature plus its own rise, the magnet to ambient plus its rise.
    pub open spec fn step(&self, th: Thermal, rate: int, volts: int, amps: int) -> Thermal {
        Thermal {
            coil: relax(
                th.coil,
                th.magnet + rise(self.cal.coil_factor(), volts, amps),
                self.cal.tau_coil as int,
                rate,
            ),
            magnet: relax(
                th.magnet,
                self.ambient() + rise(self.cal.magnet_factor(), volts, amps),
                self.cal.tau_magnet as int,
                rate,
            ),
        }
    }

    /// Both estimates after the first `n` frames of `frame`, from `start`.
    pub open spec fn after(&self, start: Thermal, rate: int, frame: Seq<i16>, n: nat) -> Thermal
        decreases n,
    {
        if n == 0 {
            start
        } else {
            self.step(
                self.after(start, rate, frame, (n - 1) as nat),
                rate,
                self.volts(frame, n - 1),
                self.amps(frame, n - 1),
            )
        }
    }

    /// Which estimate, if any, is above the ceiling. The coil is looked at first.
    pub open spec fn overheated(&self, th: Thermal) -> Option<ModelError> {
        if th.coil > self.ceiling() {
            Some(ModelError::CoilOverheat)
        } else if th.magnet > self.ceiling() {
            Some(ModelError::MagnetOverheat)
        } else {
            None
        }
    }

    /// The first of the first `n` frames after which an estimate is above
    /// the ceiling.
    pub open spec fn trip(&self, start: Thermal, rate: int, frame: Seq<i16>, n: nat) -> Option<nat>
        decreases n,
    {
        if n == 0 {
            None
        } else {
            match self.trip(start, rate, frame, (n - 1) as nat) {
                Some(k) => Some(k),
                None => if self.overheated(self.after(start, rate, frame, n)) is Some {
                    Some((n - 1) as nat)
                } else {
                    None
                },
            }
        }
    }

    /// Once an estimate has been above the ceiling, the frame at which it
    /// first was stays the answer.
    pub proof fn lemma_trip_stays(
        &self,
        start: Thermal,
        rate: int,
        frame: Seq<i16>,
        k: nat,
        n: nat,
    )
        requires
            k <= n,
            self.trip(start, rate, frame, k) is Some,
        ensures
            self.trip(start, rate, frame, n) == self.trip(start, rate, frame, k),
            self.trip(start, rate, frame, k)->0 < k,
        decreases n,
    {
        if k < n {
            self.lemma_trip_stays(start, rate, frame, k, (n - 1) as nat);
        } else if self.trip(start, rate, frame, (k - 1) as nat) is Some {
            self.lemma_trip_stays(start, rate, frame, (k - 1) as nat, (k - 1) as nat);
        }
    }

    /// As long as no estimate has been above the ceiling, none is after
    /// any of the frames so far.
    pub proof fn lemma_no_trip_bounded(
        &self,
        start: Thermal,
        rate: int,
        frame: Seq<i16>,
        n: nat,
        j: nat,
    )
        requires
            1 <= j <= n,
            self.trip(start, rate, frame, n) is None,
        ensures
            self.after(start, rate, frame, j).coil <= self.ceiling(),
            self.after(start, rate, frame, j).magnet <= self.ceiling(),
        decreases n,
    {
        if j < n {
            self.lemma_no_trip_bounded(start, rate, frame, (n - 1) as nat, j);
        }
    }

    /// The sum over the first `n` frames of voltage sample times current sample.
    pub open spec fn energy(&self, frame: Seq<i16>, n: nat) -> int
        decreases n,
    {
        if n == 0 {
            0
        } else {
            self.energy(frame, (n - 1) as nat) + self.volts(frame, n - 1) * self.amps(frame, n - 1)
        }
    }

    /// The power averaged over `n` frames, in microwatts, rounded down.
    pub open spec fn average_power(&self, frame: Seq<i16>, n: nat) -> int {
        floor_div(self.energy(frame, n) * self.cal.sense_power(), RISE_SCALE * n)
    }

    /// The power averaged over `n` frames is more than a hundredth of a
    /// watt below zero.
    pub open spec fn power_too_low(&self, frame: Seq<i16>, n: nat) -> bool {
        n > 0 && self.energy(frame, n) * self.cal.sense_power() < POWER_FLOOR_SCALED * n
    }

    /// The state after a block that ended at `th`: the held temperatures
    /// follow, and the gain is set from the hotter of them.
    pub open spec fn settled(&self, s: SpeakerState, th: Thermal) -> SpeakerState {
        let coil_hyst = hold(s.t_coil_hyst as int, th.coil, self.margin());
        let magnet_hyst = hold(s.t_magnet_hyst as int, th.magnet, self.margin());
        let temp = if coil_hyst > magnet_hyst { coil_hyst } else { magnet_hyst };
        SpeakerState {
            t_coil: th.coil as i64,
            t_magnet: th.magnet as i64,
            t_coil_hyst: coil_hyst as i64,
            t_magnet_hyst: magnet_hyst as i64,
            min_gain: s.min_gain,
            gain: limit_gain(s.min_gain as int, temp, self.knee(), self.window()) as i64,
        }
    }

    /// Whether a block ends in a fault: an estimate goes above the ceiling
    /// after one of its frames, or its power averages below the floor.
    pub open spec fn faults(&self, frame: Seq<i16>, rate: int) -> bool {
        self.trip(self.s.thermal(), rate, frame, self.frames(frame)) is Some || self.power_too_low(
            frame,
            self.frames(frame),
        )
    }

    /// What a block that ends in a fault leaves: the state `after` and
    /// the fault.
    ///
    /// If an estimate went above the ceiling, the estimates are left as
    /// the first frame after which one was above it left them, and the
    /// fault names the speaker, tells which estimate it was, the coil
    /// first, and gives its temperature and the ceiling. Otherwise the
    /// power averaged below the floor: the estimates are left as the last
    /// frame left them, and the fault names the speaker and gives the
    /// average power and the floor. Nothing else of the state changes.
    pub open spec fn failed(
        &self,
        after: SpeakerState,
        fault: Fault,
        frame: Seq<i16>,
        rate: int,
    ) -> bool {
        let n = self.frames(frame);
        let start = self.s.thermal();
        match self.trip(start, rate, frame, n) {
            Some(k) => {
                let th = self.after(start, rate, frame, k + 1);
                &&& k < n
                &&& after == (SpeakerState {
                    t_coil: th.coil as i64,
                    t_magnet: th.magnet as i64,
                    ..self.s
                })
                &&& fault matches Fault::Model { speaker, cause, value, limit }
                &&& speaker@ == self.name@
                &&& Some(cause) == self.overheated(th)
                &&& value == (if cause == ModelError::CoilOverheat {
                    th.coil
                } else {
                    th.magnet
                })
                &&& limit == self.ceiling()
            },
            None => {
                let end = self.after(start, rate, frame, n);
                &&& self.power_too_low(frame, n)
                &&& after == (SpeakerState {
                    t_coil: end.coil as i64,
                    t_magnet: end.magnet as i64,
                    ..self.s
                })
                &&& fault matches Fault::Model { speaker, cause, value, limit }
                &&& speaker@ == self.name@
                &&& cause == ModelError::NegativePower
                &&& value == self.average_power(frame, n)
                &&& limit == POWER_FLOOR_MICROWATTS
            },
        }
    }

    /// The state that a block without fault leaves.
    pub open spec fn ran(&self, frame: Seq<i16>, rate: int) -> SpeakerState {
        self.settled(self.s, self.after(self.s.thermal(), rate, frame, self.frames(frame)))
    }

    /// Both estimates after a stretch without input power, given how much
    /// of an excess over ambient is left after it: `decay_coil` for the
    /// coil's time constant and `decay_magnet` for the magnet's, as parts of
    /// `DECAY_ONE`.
    ///
    /// The magnet keeps its share of its excess. The coil keeps its share of
    /// its own, and takes from the magnet the difference of the two shares
    /// of the magnet's excess, scaled by `tau_magnet / (tau_magnet -
    /// tau_coil)`. The coil's estimate is held within the represented range.
    pub open spec fn skipped(&self, th: Thermal, decay_coil: int, decay_magnet: int) -> Thermal {
        let own = decayed(decay_coil, th.coil - self.ambient());
        let lag = decayed(decay_magnet - decay_coil, th.magnet - self.ambient());
        let fed = ceil_div(self.cal.tau_magnet * lag, self.cal.tau_magnet - self.cal.tau_coil);
        Thermal {
            coil: clamp(self.ambient() + own + fed, -COIL_MAX as int, COIL_MAX as int),
            magnet: self.ambient() + decayed(decay_magnet, th.magnet - self.ambient()),
        }
    }
}

/// Computes `rise`.
fn rise_of(factor: i128, volts: i16, amps: i16) -> (r: i128)
    requires
        -RISE_FACTOR_MAX <= factor <= RISE_FACTOR_MAX,
    ensures
        r == rise(factor as int, volts as int, amps as int),
        -RISE_MAX <= r <= RISE_MAX,
{
    proof {
        assert(-0x4000_0000 <= (volts as int) * (amps as int) <= 0x4000_0000) by (nonlinear_arith)
            requires
                -0x8000 <= volts < 0x8000,
                -0x8000 <= amps < 0x8000,
        ;
    }
    let p: i128 = (volts as i128) * (amps as i128);
    proof {
        lemma_rise_bounded(factor as int, volts as int, amps as int);
    }
    let n: i128 = p * factor;
    div_ceil(n, RISE_SCALE)
}

/// Computes `relax`.
fn relax_to(t: i128, target: i128, tau: i64, rate: u32) -> (r: i128)
    requires
        0 <= tau <= UNIT_MAX,
        -COIL_MAX <= t <= COIL_MAX,
        -COIL_MAX <= target <= COIL_MAX,
    ensures
        r == relax(t as int, target as int, tau as int, rate as int),
        t <= target ==> t <= r <= target,
        target <= t ==> target <= r <= t,
{
    proof {
        assert(0 <= (tau as int) * (rate as int) <= 1_000_000_000_000 * 0x1_0000_0000)
            by (nonlinear_arith)
            requires
                0 <= tau <= 1_000_000_000_000,
                0 <= rate < 0x1_0000_0000,
        ;
        lemma_relax_between(t as int, target as int, tau as int, rate as int);
    }
    let d: i128 = (tau as i128) * (rate as i128) + MICRO;
    let x: i128 = target - t;
    let n: i128 = MICRO * x;
    let c: i128 = div_ceil(n, d);
    t + c
}

/// Computes `hold`.
fn hold_at(held: i64, t: i64, margin: i128) -> (r: i64)
    requires
        -COIL_MAX <= t <= COIL_MAX,
        -RISE_MAX <= margin <= RISE_MAX,
    ensures
        r == hold(held as int, t as int, margin as int),
        -COIL_MAX - RISE_MAX <= r <= COIL_MAX + RISE_MAX,
{
    let up: i64 = if held > t { held } else { t };
    let top: i128 = (t as i128) + margin;
    if (up as i128) < top {
        up
    } else {
        top as i64
    }
}

/// Computes `limit_gain`.
fn gain_at(min_gain: i64, temp: i64, knee: i128, window: i128) -> (r: i64)
    requires
        window != 0,
        -RISE_MAX <= window <= RISE_MAX,
        -COIL_MAX <= knee <= COIL_MAX,
    ensures
        r == limit_gain(min_gain as int, temp as int, knee as int, window as int),
        r <= 0,
{
    let temp_wide: i128 = temp as i128;
    if (temp_wide > knee && window > 0) || (temp_wide < knee && window < 0) {
        let excess: i128 = temp_wide - knee;
        proof {
            assert(-(9_300_000_000_000_000_000 * 13_000_000_000_000_000_000) <= (min_gain as int)
                * (excess as int) <= 9_300_000_000_000_000_000 * 13_000_000_000_000_000_000)
                by (nonlinear_arith)
                requires
                    -9_300_000_000_000_000_000 <= min_gain <= 9_300_000_000_000_000_000,
                    -13_000_000_000_000_000_000 <= excess <= 13_000_000_000_000_000_000,
            ;
        }
        let product: i128 = (min_gain as i128) * excess;
        let snap: i128 = GAIN_SNAP * window;
        if (window > 0 && product > snap) || (window < 0 && product < snap) {
            return 0;
        }
        let raw: i128 = div_floor(product, window);
        proof {
            if window > 0 {
                lemma_floor_div_bounds(product as int, window as int);
            } else {
                lemma_floor_div_bounds(-(product as int), -(window as int));
            }
            assert(raw <= 0) by (nonlinear_arith)
                requires
                    window != 0,
                    window > 0 ==> raw * window <= product && product <= -10_000 * window,
                    window < 0 ==> raw * (-window) <= -product && -product <= -10_000 * (-window),
            ;
        }
        if raw < (i64::MIN as i128) {
            i64::MIN
        } else {
            raw as i64
        }
    } else {
        0
    }
}

/// Computes `decayed`.
fn decay_of(decay: i128, excess: i128) -> (r: i128)
    requires
        -DECAY_ONE <= decay <= DECAY_ONE,
        -2 * COIL_MAX <= excess <= 2 * COIL_MAX,
    ensures
        r == decayed(decay as int, excess as int),
        excess >= 0 ==> -excess <= r <= excess,
        excess <= 0 ==> excess <= r <= -excess,
        decay >= 0 && excess >= 0 ==> 0 <= r,
        decay >= 0 && excess <= 0 ==> r <= 0,
{
    proof {
        assert(-(1_000_000_000_000 * 6_000_000_000_000_000_000) <= (decay as int) * (
        excess as int) <= 1_000_000_000_000 * 6_000_000_000_000_000_000) by (nonlinear_arith)
            requires
                -1_000_000_000_000 <= decay <= 1_000_000_000_000,
                -6_000_000_000_000_000_000 <= excess <= 6_000_000_000_000_000_000,
        ;
        lemma_decayed_between(decay as int, excess as int);
    }
    let one: i128 = 1_000_000_000_000;
    div_ceil(decay * excess, one)
}

/// Converts a gain to millibels, the unit of the volume knob, rounding
/// towards zero.
pub fn millibels(gain: i64) -> (r: i64)
    ensures
        r == gain_millibels(gain as int),
{
    gain / PER_MILLIBEL
}

impl Calibration {
    /// Computes the sense power and the two rise factors.
    fn factors(&self, g: &Globals) -> (r: (i128, i128, i128))
        requires
            self.wf(g),
        ensures
            r.0 == self.sense_power(),
            r.1 == self.coil_factor(),
            r.2 == self.magnet_factor(),
            -SENSE_POWER_MAX <= r.0 <= SENSE_POWER_MAX,
            -RISE_FACTOR_MAX <= r.1 <= RISE_FACTOR_MAX,
            -RISE_FACTOR_MAX <= r.2 <= RISE_FACTOR_MAX,
    {
        proof {
            reveal(Calibration::power_representable);
            assert(-(1_000_000_000_000 * 1_000_000_000_000) <= (self.vs_scale as int) * (
            self.is_scale as int) <= 1_000_000_000_000 * 1_000_000_000_000) by (nonlinear_arith)
                requires
                    -1_000_000_000_000 <= self.vs_scale <= 1_000_000_000_000,
                    -1_000_000_000_000 <= self.is_scale <= 1_000_000_000_000,
            ;
        }
        let power: i128 = (self.vs_scale as i128) * (self.is_scale as i128);
        (power, power * (self.tr_coil as i128), power * (self.tr_magnet as i128))
    }

    /// The power that in steady state holds the coil at the hard limit, in
    /// microwatts: the excess of the limit over ambient, divided by the two
    /// thermal resistances in series.
    pub fn max_power(&self, g: &Globals) -> (r: i64)
        requires
            g.wf(),
            self.wf(g),
        ensures
            r == self.max_power_spec(g),
    {
        let span: i128 = (self.t_limit as i128) - (g.t_ambient as i128);
        let excess: i128 = span * MICRO;
        let series: i128 = (self.tr_coil as i128) + (self.tr_magnet as i128);
        proof {
            lemma_div_magnitude(excess as int, series as int);
        }
        let q: i128 = div_floor(excess, series);
        q as i64
    }
}

impl Speaker {
    /// A speaker at start. After a cold boot the coil is taken to be a
    /// degree short of limiting, otherwise at the hard limit; the magnet is
    /// seeded to match. A `min_gain` above zero counts as zero.
    pub fn new(
        globals: &Globals,
        name: &str,
        cal: Calibration,
        cold_boot: bool,
        min_gain: i64,
    ) -> (r: Speaker)
        requires
            globals.wf(),
            cal.wf(globals),
        ensures
            r.wf(),
            r.name@ == name@,
            r.group == cal.group,
            r.cal == cal,
            r.g == *globals,
            r.s.t_coil == cal.seed_coil(globals, cold_boot),
            r.s.t_magnet == cal.seed_magnet(globals, cold_boot),
            r.s.t_coil_hyst == 0,
            r.s.t_magnet_hyst == 0,
            r.s.min_gain == (if min_gain < 0 { min_gain } else { 0 }),
            r.s.gain == 0,
    {
        let coil: i128 = if cold_boot {
            ((cal.t_limit as i128) - (globals.t_window as i128)) * MICRO - DEGREE
        } else {
            (cal.t_limit as i128) * MICRO
        };
        proof {
            reveal(Calibration::seed_representable);
        }
        let magnet: i128 = cal.seed_magnet_of(globals, cold_boot);
        Speaker {
            name: name.to_owned(),
            group: cal.group,
            cal,
            g: globals.clone(),
            s: SpeakerState {
                t_coil: coil as i64,
                t_magnet: magnet as i64,
                t_coil_hyst: 0,
                t_magnet_hyst: 0,
                min_gain: if min_gain < 0 { min_gain } else { 0 },
                gain: 0,
            },
        }
    }

    /// Computes `step`.
    fn advance(
        &self,
        coil: i64,
        magnet: i64,
        coil_factor: i128,
        magnet_factor: i128,
        rate: u32,
        volts: i16,
        amps: i16,
    ) -> (r: (i64, i64))
        requires
            self.g.wf(),
            self.cal.wf(&self.g),
            -COIL_MAX <= coil <= COIL_MAX,
            -MAGNET_MAX <= magnet <= MAGNET_MAX,
            coil_factor == self.cal.coil_factor(),
            magnet_factor == self.cal.magnet_factor(),
            -RISE_FACTOR_MAX <= coil_factor <= RISE_FACTOR_MAX,
            -RISE_FACTOR_MAX <= magnet_factor <= RISE_FACTOR_MAX,
        ensures
            (Thermal { coil: r.0 as int, magnet: r.1 as int }) == self.step(
                Thermal { coil: coil as int, magnet: magnet as int },
                rate as int,
                volts as int,
                amps as int,
            ),
            -COIL_MAX <= r.0 <= COIL_MAX,
            -MAGNET_MAX <= r.1 <= MAGNET_MAX,
    {
        let ambient: i128 = (self.g.t_ambient as i128) * MICRO;
        let coil_target: i128 = (magnet as i128) + rise_of(coil_factor, volts, amps);
        let magnet_target: i128 = ambient + rise_of(magnet_factor, volts, amps);
        let next_coil: i128 = relax_to(coil as i128, coil_target, self.cal.tau_coil, rate);
        let next_magnet: i128 = relax_to(magnet as i128, magnet_target, self.cal.tau_magnet, rate);
        (next_coil as i64, next_magnet as i64)
    }

    /// Runs the model over one captured block and returns the gain to ask for.
    ///
    /// Each frame of `buf` holds one sample per channel. The estimates are
    /// stepped once per frame; the first frame after which one of them is
    /// above the ceiling ends the block with a fault, the state left as that
    /// frame left it. So does a block whose power averages below the floor.
    /// Otherwise the held temperatures follow and the gain is set from them.
    pub fn run_model(&mut self, buf: &[i16], sample_rate: u32) -> (r: Result<i64, Fault>)
        requires
            old(self).wf(),
            sample_rate > 0,
            buf@.len() <= MAX_SAMPLES,
            old(self).whole_frames(buf@),
        ensures
            final(self).wf(),
            final(self).name == old(self).name,
            final(self).group == old(self).group,
            final(self).cal == old(self).cal,
            final(self).g == old(self).g,
            ({
                let n = old(self).frames(buf@);
                let start = old(self).s.thermal();
                let rate = sample_rate as int;
                let end = old(self).after(start, rate, buf@, n);
                match r {
                    Ok(gain) => {
                        &&& old(self).trip(start, rate, buf@, n) is None
                        &&& !old(self).power_too_low(buf@, n)
                        &&& final(self).s == old(self).settled(old(self).s, end)
                        &&& gain == final(self).s.gain
                    },
                    Err(fault) => old(self).failed(final(self).s, fault, buf@, rate),
                }
            }),
            r is Ok <==> !old(self).faults(buf@, sample_rate as int),
            r is Ok ==> final(self).s == old(self).ran(buf@, sample_rate as int),
            r is Ok ==> final(self).s.gain <= 0,
            r is Ok && old(self).frames(buf@) > 0 ==> final(self).s.t_coil <= old(self).ceiling()
                && final(self).s.t_magnet <= old(self).ceiling(),
            r is Ok && old(self).margin() >= 0 ==> {
                &&& final(self).s.t_coil <= final(self).s.t_coil_hyst <= final(self).s.t_coil
                    + old(self).margin()
                &&& final(self).s.t_magnet <= final(self).s.t_magnet_hyst
                    <= final(self).s.t_magnet + old(self).margin()
            },
    {
        let channels: usize = self.g.channels;
        let vs_chan: usize = self.cal.vs_chan;
        let is_chan: usize = self.cal.is_chan;
        let n: usize = buf.len() / channels;
        let (power, coil_factor, magnet_factor) = self.cal.factors(&self.g);
        let ceiling: i128 = ((self.cal.t_limit as i128) + (self.cal.t_headroom as i128)) * MICRO;
        let ghost me = *self;
        let ghost start = self.s.thermal();
        let ghost rate = sample_rate as int;
        let ghost frame = buf@;

        proof {
            lemma_fundamental_div_mod(buf@.len() as int, channels as int);
            assert(n * channels == channels * n) by (nonlinear_arith);
            assert(n <= n * channels) by (nonlinear_arith)
                requires
                    n >= 0,
                    channels >= 1,
            ;
        }

        let mut coil: i64 = self.s.t_coil;
        let mut magnet: i64 = self.s.t_magnet;
        let mut energy: i64 = 0;
        let mut k: usize = 0;
        while k < n
            invariant
                k <= n,
                n <= MAX_SAMPLES,
                n * channels == frame.len(),
                n == me.frames(frame),
                frame == buf@,
                frame.len() <= MAX_SAMPLES,
                me == *old(self),
                me.wf(),
                start == me.s.thermal(),
                channels == self.g.channels,
                vs_chan == self.cal.vs_chan,
                is_chan == self.cal.is_chan,
                self.g.wf(),
                self.cal.wf(&self.g),
                *self == me,
                rate == sample_rate as int,
                coil_factor == me.cal.coil_factor(),
                magnet_factor == me.cal.magnet_factor(),
                -RISE_FACTOR_MAX <= coil_factor <= RISE_FACTOR_MAX,
                -RISE_FACTOR_MAX <= magnet_factor <= RISE_FACTOR_MAX,
                ceiling == me.ceiling(),
                -COIL_MAX <= coil <= COIL_MAX,
                -MAGNET_MAX <= magnet <= MAGNET_MAX,
                (Thermal { coil: coil as int, magnet: magnet as int }) == me.after(
                    start,
                    rate,
                    frame,
                    k as nat,
                ),
                me.trip(start, rate, frame, k as nat) is None,
                energy == me.energy(frame, k as nat),
                -(k * 0x4000_0000) <= energy <= k * 0x4000_0000,
            decreases n - k,
        {
            proof {
                assert((k + 1) * channels <= n * channels) by (nonlinear_arith)
                    requires
                        k + 1 <= n,
                        channels >= 0,
                ;
                assert((k + 1) * channels == k * channels + channels) by (nonlinear_arith);
            }
            let base: usize = k * channels;
            let volts: i16 = buf[base + vs_chan];
            let amps: i16 = buf[base + is_chan];
            let next = self.advance(
                coil,
                magnet,
                coil_factor,
                magnet_factor,
                sample_rate,
                volts,
                amps,
            );
            proof {
                assert(-0x4000_0000 <= (volts as int) * (amps as int) <= 0x4000_0000)
                    by (nonlinear_arith)
                    requires
                        -0x8000 <= volts < 0x8000,
                        -0x8000 <= amps < 0x8000,
                ;
                assert(volts as int == me.volts(frame, k as int));
                assert(amps as int == me.amps(frame, k as int));
            }
            coil = next.0;
            magnet = next.1;
            energy = energy + (volts as i64) * (amps as i64);
            k = k + 1;
            proof {
                assert((Thermal { coil: coil as int, magnet: magnet as int }) == me.after(
                    start,
                    rate,
                    frame,
                    k as nat,
                ));
                if coil > ceiling || magnet > ceiling {
                    me.lemma_trip_stays(start, rate, frame, k as nat, n as nat);
                }
            }
            if (coil as i128) > ceiling {
                self.s.t_coil = coil;
                self.s.t_magnet = magnet;
                return Err(
                    Fault::Model {
                        speaker: self.name.clone(),
                        cause: ModelError::CoilOverheat,
                        value: coil,
                        limit: ceiling as i64,
                    },
                );
            }
            if (magnet as i128) > ceiling {
                self.s.t_coil = coil;
                self.s.t_magnet = magnet;
                return Err(
                    Fault::Model {
                        speaker: self.name.clone(),
                        cause: ModelError::MagnetOverheat,
                        value: magnet,
                        limit: ceiling as i64,
                    },
                );
            }
        }

        self.s.t_coil = coil;
        self.s.t_magnet = magnet;

        if n > 0 {
            proof {
                assert(-(0xFFFF_FFFF * 0x4000_0000 * 1_000_000_000_000_000_000) <= (energy as int)
                    * (power as int) <= 0xFFFF_FFFF * 0x4000_0000 * 1_000_000_000_000_000_000)
                    by (nonlinear_arith)
                    requires
                        -(n * 0x4000_0000) <= energy <= n * 0x4000_0000,
                        0 <= n <= 0xFFFF_FFFF,
                        -1_000_000_000_000_000_000 <= power <= 1_000_000_000_000_000_000,
                ;
                assert(-(n * 0x4000_0000 * 1_000_000_000_000_000_000) <= (energy as int) * (
                power as int)) by (nonlinear_arith)
                    requires
                        -(n * 0x4000_0000) <= energy <= n * 0x4000_0000,
                        0 <= n,
                        -1_000_000_000_000_000_000 <= power <= 1_000_000_000_000_000_000,
                ;
            }
            let total: i128 = (energy as i128) * power;
            let floor: i128 = POWER_FLOOR_SCALED * (n as i128);
            if total < floor {
                let span: i128 = RISE_SCALE * (n as i128);
                let average: i128 = div_floor(total, span);
                proof {
                    lemma_floor_div_bounds(total as int, span as int);
                    assert(-1_000_000_000_000 <= average <= 0) by (nonlinear_arith)
                        requires
                            span == 1_073_741_824_000_000 * n,
                            0 < n,
                            total < 0,
                            total >= -(n * 0x4000_0000 * 1_000_000_000_000_000_000),
                            average * span <= total < average * span + span,
                    ;
                }
                return Err(
                    Fault::Model {
                        speaker: self.name.clone(),
                        cause: ModelError::NegativePower,
                        value: average as i64,
                        limit: POWER_FLOOR_MICROWATTS,
                    },
                );
            }
            proof {
                me.lemma_no_trip_bounded(start, rate, frame, n as nat, n as nat);
            }
        }

        let margin: i128 = (self.g.t_hysteresis as i128) * MICRO;
        let coil_hyst: i64 = hold_at(self.s.t_coil_hyst, coil, margin);
        let magnet_hyst: i64 = hold_at(self.s.t_magnet_hyst, magnet, margin);
        let temp: i64 = if coil_hyst > magnet_hyst { coil_hyst } else { magnet_hyst };
        let knee: i128 = ((self.cal.t_limit as i128) - (self.g.t_window as i128)) * MICRO;
        let window: i128 = (self.g.t_window as i128) * MICRO;
        let gain: i64 = gain_at(self.s.min_gain, temp, knee, window);
        self.s.t_coil_hyst = coil_hyst;
        self.s.t_magnet_hyst = magnet_hyst;
        self.s.gain = gain;
        Ok(gain)
    }

    /// Advances the model over a stretch without input power, in one step.
    /// See `skipped` for what becomes of the estimates; nothing else changes.
    pub fn skip_model(&mut self, decay_coil: u64, decay_magnet: u64)
        requires
            old(self).wf(),
            decay_coil <= DECAY_ONE,
            decay_magnet <= DECAY_ONE,
        ensures
            final(self).wf(),
            final(self).name == old(self).name,
            final(self).group == old(self).group,
            final(self).cal == old(self).cal,
            final(self).g == old(self).g,
            ({
                let th = old(self).skipped(
                    old(self).s.thermal(),
                    decay_coil as int,
                    decay_magnet as int,
                );
                final(self).s == (SpeakerState {
                    t_coil: th.coil as i64,
                    t_magnet: th.magnet as i64,
                    ..old(self).s
                })
            }),
    {
        let ambient: i128 = (self.g.t_ambient as i128) * MICRO;
        let coil_excess: i128 = (self.s.t_coil as i128) - ambient;
        let magnet_excess: i128 = (self.s.t_magnet as i128) - ambient;
        let own: i128 = decay_of(decay_coil as i128, coil_excess);
        let lag: i128 = decay_of((decay_magnet as i128) - (decay_coil as i128), magnet_excess);
        let kept: i128 = decay_of(decay_magnet as i128, magnet_excess);
        proof {
            assert(-(1_000_000_000_000 * 6_000_000_000_000_000_000) <= (self.cal.tau_magnet as int)
                * (lag as int) <= 1_000_000_000_000 * 6_000_000_000_000_000_000)
                by (nonlinear_arith)
                requires
                    0 <= self.cal.tau_magnet <= 1_000_000_000_000,
                    -6_000_000_000_000_000_000 <= lag <= 6_000_000_000_000_000_000,
            ;
            lemma_div_magnitude(
                (self.cal.tau_magnet as int) * (lag as int),
                (self.cal.tau_magnet as int) - (self.cal.tau_coil as int),
            );
        }
        let fed: i128 = div_ceil(
            (self.cal.tau_magnet as i128) * lag,
            (self.cal.tau_magnet as i128) - (self.cal.tau_coil as i128),
        );
        let coil: i128 = ambient + own + fed;
        let held: i128 = if coil < -COIL_MAX {
            -COIL_MAX
        } else if coil > COIL_MAX {
            COIL_MAX
        } else {
            coil
        };
        self.s.t_coil = held as i64;
        self.s.t_magnet = (ambient + kept) as i64;
    }
}

} // verus!
