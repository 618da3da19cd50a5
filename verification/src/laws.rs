//! What holds of the model and the limiter for every input.

use vstd::prelude::*;
use crate::fixed::{
    ceil_div, floor_div, lemma_ceil_div_bounds, lemma_div_exact, lemma_div_monotonic,
    lemma_floor_div_bounds, lemma_floor_div_greatest, lemma_share_between,
};
use crate::globals::Globals;
use crate::speaker::{
    decayed, hold, lemma_decayed_between, lemma_relax_between, lemma_rise_bounded, limit_gain,
    limiting, relax, rise, Calibration, Speaker, SpeakerState, Thermal,
};
use crate::units::{COIL_MAX, DECAY_ONE, GAIN_SNAP, MAGNET_MAX, MICRO, RISE_SCALE};

verus! {

/// With a margin that is not negative, the held temperature is never
/// below the temperature it follows, and never more than the margin above.
pub proof fn lemma_hold_within(held: int, t: int, margin: int)
    requires
        margin >= 0,
    ensures
        t <= hold(held, t, margin) <= t + margin,
{
}

/// The limiter never asks for a gain above zero.
pub proof fn lemma_gain_never_positive(min_gain: int, temp: int, knee: int, window: int)
    requires
        min_gain <= 0,
        window != 0,
    ensures
        i64::MIN <= limit_gain(min_gain, temp, knee, window) <= 0,
{
    if limiting(temp, knee, window) {
        let x = temp - knee;
        let n = min_gain * x;
        if window > 0 {
            lemma_floor_div_bounds(n, window);
            let f = floor_div(n, window);
            assert(f <= 0) by (nonlinear_arith)
                requires
                    window > 0,
                    x > 0,
                    min_gain <= 0,
                    n == min_gain * x,
                    f * window <= n,
            ;
        } else {
            lemma_floor_div_bounds(-n, -window);
            let f = floor_div(n, window);
            assert(f <= 0) by (nonlinear_arith)
                requires
                    -window > 0,
                    x < 0,
                    min_gain <= 0,
                    n == min_gain * x,
                    f * (-window) <= -n,
            ;
        }
    }
}

/// Up to the hard limit, the gain stays at or above `min_gain`.
pub proof fn lemma_gain_within_floor(min_gain: int, temp: int, knee: int, window: int)
    requires
        i64::MIN <= min_gain <= 0,
        window > 0,
        temp <= knee + window,
    ensures
        min_gain <= limit_gain(min_gain, temp, knee, window) <= 0,
{
    lemma_gain_never_positive(min_gain, temp, knee, window);
    if limiting(temp, knee, window) {
        let x = temp - knee;
        let n = min_gain * x;
        assert(min_gain * window <= n) by (nonlinear_arith)
            requires
                min_gain <= 0,
                0 < x <= window,
                n == min_gain * x,
        ;
        lemma_floor_div_greatest(n, window, min_gain);
    }
}

/// A higher temperature never gets a higher gain.
pub proof fn lemma_gain_monotonic(min_gain: int, cooler: int, hotter: int, knee: int, window: int)
    requires
        min_gain <= 0,
        window > 0,
        cooler <= hotter,
    ensures
        limit_gain(min_gain, hotter, knee, window) <= limit_gain(min_gain, cooler, knee, window),
{
    lemma_gain_never_positive(min_gain, hotter, knee, window);
    if limiting(cooler, knee, window) {
        let a = min_gain * (cooler - knee);
        let b = min_gain * (hotter - knee);
        assert(b <= a) by (nonlinear_arith)
            requires
                min_gain <= 0,
                cooler <= hotter,
                a == min_gain * (cooler - knee),
                b == min_gain * (hotter - knee),
        ;
        lemma_div_monotonic(b, a, window);
    }
}

/// At the knee the gain is zero. At the hard limit it is `min_gain`,
/// unless `min_gain` is itself within a hundredth of a decibel of zero:
/// then it is zero there too.
pub proof fn lemma_gain_at_limit(min_gain: int, knee: int, window: int)
    requires
        i64::MIN <= min_gain <= 0,
        window > 0,
    ensures
        limit_gain(min_gain, knee, knee, window) == 0,
        limit_gain(min_gain, knee + window, knee, window) == (if min_gain > GAIN_SNAP {
            0
        } else {
            min_gain
        }),
{
    lemma_div_exact(min_gain, window);
    assert(min_gain * window > GAIN_SNAP * window <==> min_gain > GAIN_SNAP) by (nonlinear_arith)
        requires
            window > 0,
    ;
}

/// Rounding never lets a temperature fall short: a step is at least the
/// exact share of the way to the target, and less than one unit more.
pub proof fn lemma_relax_rounds_up(t: int, target: int, tau: int, rate: int)
    requires
        tau >= 0,
        rate >= 0,
    ensures
        MICRO * (target - t) <= (relax(t, target, tau, rate) - t) * (tau * rate + MICRO),
        (relax(t, target, tau, rate) - t) * (tau * rate + MICRO) < MICRO * (target - t) + (tau
            * rate + MICRO),
{
    let d = tau * rate + MICRO;
    assert(d > 0) by (nonlinear_arith)
        requires
            tau >= 0,
            rate >= 0,
            d == tau * rate + MICRO,
    ;
    lemma_ceil_div_bounds(MICRO * (target - t), d);
}

/// Rounding never lets a gain come out high: with a positive window, a
/// gain that is not zero is at or below the exact product of `min_gain`
/// and the fraction of the window that has been crossed.
pub proof fn lemma_gain_rounds_down(min_gain: int, temp: int, knee: int, window: int)
    requires
        window > 0,
        limit_gain(min_gain, temp, knee, window) != 0,
        limit_gain(min_gain, temp, knee, window) > i64::MIN,
    ensures
        limit_gain(min_gain, temp, knee, window) * window <= min_gain * (temp - knee),
        min_gain * (temp - knee) < limit_gain(min_gain, temp, knee, window) * window + window,
{
    lemma_floor_div_bounds(min_gain * (temp - knee), window);
}

/// A sample without power asks for no rise.
pub proof fn lemma_rise_of_silence(factor: int, volts: int, amps: int)
    requires
        volts == 0 || amps == 0,
    ensures
        rise(factor, volts, amps) == 0,
{
    assert(volts * amps * factor == 0) by (nonlinear_arith)
        requires
            volts == 0 || amps == 0,
    ;
    lemma_div_exact(0, RISE_SCALE as int);
}

/// Nothing decays over no time, and everything over all time.
pub proof fn lemma_decay_ends(excess: int)
    ensures
        decayed(DECAY_ONE as int, excess) == excess,
        decayed(0, excess) == 0,
{
    assert(DECAY_ONE * excess == excess * DECAY_ONE) by (nonlinear_arith);
    lemma_div_exact(excess, DECAY_ONE as int);
    assert(0 * excess == 0) by (nonlinear_arith);
    lemma_div_exact(0, DECAY_ONE as int);
}

impl Calibration {
    /// With thermal resistances that are not negative and a coil seeded at
    /// or above ambient, the magnet is seeded between ambient and the coil.
    pub proof fn lemma_seed_ordered(&self, g: &Globals, cold_boot: bool)
        requires
            self.wf(g),
            self.tr_coil >= 0,
            self.tr_magnet >= 0,
            self.seed_coil(g, cold_boot) >= g.t_ambient * MICRO,
        ensures
            g.t_ambient * MICRO <= self.seed_magnet(g, cold_boot) <= self.seed_coil(g, cold_boot),
    {
        let x = self.seed_coil(g, cold_boot) - g.t_ambient * MICRO;
        assert(x * self.tr_magnet == self.tr_magnet * x) by (nonlinear_arith);
        lemma_share_between(x, self.tr_magnet as int, self.tr_magnet + self.tr_coil);
    }
}

impl Speaker {
    /// None of the first `n` frames carries power: in each the voltage or
    /// the current sample is zero.
    pub open spec fn silent(&self, frame: Seq<i16>, n: nat) -> bool {
        forall|k: int|
            0 <= k < n ==> #[trigger] self.volts(frame, k) == 0 || self.amps(frame, k) == 0
    }

    /// The magnet is at or above ambient and the coil at or above the magnet.
    pub open spec fn cooling(&self, th: Thermal) -> bool {
        self.ambient() <= th.magnet <= th.coil
    }

    /// A sample without power lowers neither estimate below ambient and
    /// raises neither.
    pub proof fn lemma_silent_step(&self, th: Thermal, rate: int, volts: int, amps: int)
        requires
            self.cal.tau_coil >= 0,
            self.cal.tau_magnet >= 0,
            rate >= 0,
            volts == 0 || amps == 0,
            self.cooling(th),
        ensures
            self.cooling(self.step(th, rate, volts, amps)),
            self.step(th, rate, volts, amps).coil <= th.coil,
            self.step(th, rate, volts, amps).magnet <= th.magnet,
            th.magnet <= self.step(th, rate, volts, amps).coil,
    {
        lemma_rise_of_silence(self.cal.coil_factor(), volts, amps);
        lemma_rise_of_silence(self.cal.magnet_factor(), volts, amps);
        lemma_relax_between(th.coil, th.magnet, self.cal.tau_coil as int, rate);
        lemma_relax_between(th.magnet, self.ambient(), self.cal.tau_magnet as int, rate);
    }

    /// Over frames without power, from estimates at or above ambient with
    /// the coil at or above the magnet, both estimates only fall, and
    /// neither falls below ambient.
    pub proof fn lemma_silent_cooling(
        &self,
        start: Thermal,
        rate: int,
        frame: Seq<i16>,
        i: nat,
        j: nat,
    )
        requires
            self.cal.tau_coil >= 0,
            self.cal.tau_magnet >= 0,
            rate >= 0,
            self.cooling(start),
            self.silent(frame, j),
            i <= j,
        ensures
            self.cooling(self.after(start, rate, frame, j)),
            self.after(start, rate, frame, j).coil <= self.after(start, rate, frame, i).coil,
            self.after(start, rate, frame, j).magnet <= self.after(start, rate, frame, i).magnet,
        decreases j,
    {
        if j > 0 {
            let before = (j - 1) as nat;
            let lower = if i < j { i } else { before };
            self.lemma_silent_cooling(start, rate, frame, lower, before);
            assert(self.volts(frame, j - 1) == 0 || self.amps(frame, j - 1) == 0);
            self.lemma_silent_step(
                self.after(start, rate, frame, before),
                rate,
                self.volts(frame, j - 1),
                self.amps(frame, j - 1),
            );
        }
    }

    /// After a cold boot that seeds the coil at or above ambient, with
    /// thermal resistances that are not negative, input without power lets
    /// both estimates fall from frame to frame, never below ambient.
    pub proof fn lemma_cold_start_cools(&self, rate: int, frame: Seq<i16>, i: nat, j: nat)
        requires
            self.wf(),
            self.cal.tr_coil >= 0,
            self.cal.tr_magnet >= 0,
            self.cal.seed_coil(&self.g, true) >= self.ambient(),
            self.s.t_coil == self.cal.seed_coil(&self.g, true),
            self.s.t_magnet == self.cal.seed_magnet(&self.g, true),
            rate >= 0,
            self.silent(frame, j),
            i <= j,
        ensures
            self.ambient() <= self.after(self.s.thermal(), rate, frame, j).magnet,
            self.ambient() <= self.after(self.s.thermal(), rate, frame, j).coil,
            self.after(self.s.thermal(), rate, frame, j).coil <= self.after(
                self.s.thermal(),
                rate,
                frame,
                i,
            ).coil,
            self.after(self.s.thermal(), rate, frame, j).magnet <= self.after(
                self.s.thermal(),
                rate,
                frame,
                i,
            ).magnet,
    {
        self.cal.lemma_seed_ordered(&self.g, true);
        self.lemma_silent_cooling(self.s.thermal(), rate, frame, i, j);
    }

    /// With a window that is positive, a block that leaves both held
    /// temperatures at or below the hard limit leaves a gain between
    /// `min_gain` and zero.
    pub proof fn lemma_settled_within_floor(&self, s: SpeakerState, th: Thermal)
        requires
            s.min_gain <= 0,
            self.window() > 0,
            hold(s.t_coil_hyst as int, th.coil, self.margin()) <= self.limit(),
            hold(s.t_magnet_hyst as int, th.magnet, self.margin()) <= self.limit(),
        ensures
            s.min_gain <= self.settled(s, th).gain <= 0,
    {
        let coil_hyst = hold(s.t_coil_hyst as int, th.coil, self.margin());
        let magnet_hyst = hold(s.t_magnet_hyst as int, th.magnet, self.margin());
        let temp = if coil_hyst > magnet_hyst { coil_hyst } else { magnet_hyst };
        assert(self.knee() + self.window() == self.limit()) by (nonlinear_arith)
            requires
                self.knee() == (self.cal.t_limit - self.g.t_window) * MICRO,
                self.window() == self.g.t_window * MICRO,
                self.limit() == self.cal.t_limit * MICRO,
        ;
        lemma_gain_within_floor(s.min_gain as int, temp, self.knee(), self.window());
    }

    /// From estimates within the represented range, the estimates stay
    /// within it, frame after frame.
    pub proof fn lemma_after_in_range(&self, start: Thermal, rate: int, frame: Seq<i16>, n: nat)
        requires
            self.g.wf(),
            self.cal.wf(&self.g),
            rate >= 0,
            -COIL_MAX <= start.coil <= COIL_MAX,
            -MAGNET_MAX <= start.magnet <= MAGNET_MAX,
        ensures
            -COIL_MAX <= self.after(start, rate, frame, n).coil <= COIL_MAX,
            -MAGNET_MAX <= self.after(start, rate, frame, n).magnet <= MAGNET_MAX,
        decreases n,
    {
        if n > 0 {
            self.lemma_after_in_range(start, rate, frame, (n - 1) as nat);
            let th = self.after(start, rate, frame, (n - 1) as nat);
            let volts = self.volts(frame, n - 1);
            let amps = self.amps(frame, n - 1);
            reveal(Calibration::power_representable);
            lemma_rise_bounded(self.cal.coil_factor(), volts, amps);
            lemma_rise_bounded(self.cal.magnet_factor(), volts, amps);
            lemma_relax_between(
                th.coil,
                th.magnet + rise(self.cal.coil_factor(), volts, amps),
                self.cal.tau_coil as int,
                rate,
            );
            lemma_relax_between(
                th.magnet,
                self.ambient() + rise(self.cal.magnet_factor(), volts, amps),
                self.cal.tau_magnet as int,
                rate,
            );
        }
    }

    /// A block of at least one frame that does not end in a fault leaves
    /// both estimates at or below the ceiling, and, with a margin that is
    /// not negative, each held temperature at or above its estimate and no
    /// more than the margin above it.
    pub proof fn lemma_block_bounded(&self, frame: Seq<i16>, rate: int)
        requires
            self.wf(),
            rate >= 0,
            !self.faults(frame, rate),
        ensures
            self.frames(frame) > 0 ==> self.ran(frame, rate).t_coil <= self.ceiling() && self.ran(
                frame,
                rate,
            ).t_magnet <= self.ceiling(),
            self.margin() >= 0 ==> {
                &&& self.ran(frame, rate).t_coil <= self.ran(frame, rate).t_coil_hyst
                    <= self.ran(frame, rate).t_coil + self.margin()
                &&& self.ran(frame, rate).t_magnet <= self.ran(frame, rate).t_magnet_hyst
                    <= self.ran(frame, rate).t_magnet + self.margin()
            },
    {
        let n = self.frames(frame);
        let start = self.s.thermal();
        self.lemma_after_in_range(start, rate, frame, n);
        if n > 0 {
            self.lemma_no_trip_bounded(start, rate, frame, n, n);
        }
    }

    /// Whatever the decays, as long as neither is above one, a skip leaves
    /// the magnet between ambient and where it was.
    pub proof fn lemma_skip_cools_magnet(&self, th: Thermal, decay_coil: int, decay_magnet: int)
        requires
            0 <= decay_magnet <= DECAY_ONE,
        ensures
            th.magnet >= self.ambient() ==> self.ambient() <= self.skipped(
                th,
                decay_coil,
                decay_magnet,
            ).magnet <= th.magnet,
            th.magnet <= self.ambient() ==> th.magnet <= self.skipped(
                th,
                decay_coil,
                decay_magnet,
            ).magnet <= self.ambient(),
    {
        lemma_decayed_between(decay_magnet, th.magnet - self.ambient());
    }

    /// A skip over no time leaves both estimates as they were.
    pub proof fn lemma_skip_nothing(&self, th: Thermal)
        requires
            self.wf(),
            -COIL_MAX <= th.coil <= COIL_MAX,
        ensures
            self.skipped(th, DECAY_ONE as int, DECAY_ONE as int) == th,
    {
        lemma_decay_ends(th.coil - self.ambient());
        lemma_decay_ends(th.magnet - self.ambient());
        assert(self.cal.tau_magnet * 0 == 0) by (nonlinear_arith);
        let d = self.cal.tau_magnet - self.cal.tau_coil;
        if d > 0 {
            lemma_div_exact(0, d);
        } else {
            lemma_div_exact(0, -d);
        }
        assert(ceil_div(0, d) == 0);
    }
}

} // verus!
