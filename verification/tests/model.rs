use speakersafetyd::fault::{Fault, ModelError};
use speakersafetyd::globals::Globals;
use speakersafetyd::speaker::{millibels, Calibration, Speaker, SpeakerState};
use speakersafetyd::units::{DECAY_ONE, DEGREE};

fn globals() -> Globals {
    Globals {
        visense_pcm: 2,
        channels: 2,
        period: 4800,
        t_ambient: 25_000_000,
        t_window: 20_000_000,
        t_hysteresis: 5_000_000,
        ctl_vsense: "VSENSE Switch".to_string(),
        ctl_isense: "ISENSE Switch".to_string(),
        ctl_amp_gain: "Amp Gain Volume".to_string(),
        ctl_volume: "Speaker Volume".to_string(),
        uclamp_min: None,
        uclamp_max: None,
    }
}

fn calibration() -> Calibration {
    Calibration {
        group: 0,
        tau_coil: 10_000_000,
        tau_magnet: 300_000_000,
        tr_coil: 30_000_000,
        tr_magnet: 20_000_000,
        t_limit: 100_000_000,
        t_headroom: 10_000_000,
        z_nominal: 4_000_000,
        is_scale: 3_750_000,
        vs_scale: 14_000_000,
        is_chan: 0,
        vs_chan: 1,
    }
}

fn speaker(cold_boot: bool) -> Speaker {
    Speaker::new(&globals(), "Left", calibration(), cold_boot, -20_000_000)
}

/// `frames` frames that each hold `amps` on channel 0 and `volts` on channel 1.
fn block(frames: usize, amps: i16, volts: i16) -> Vec<i16> {
    let mut buf = Vec::new();
    for _ in 0..frames {
        buf.push(amps);
        buf.push(volts);
    }
    buf
}

#[test]
fn cold_boot_seeds_a_degree_below_the_knee() {
    let s = speaker(true);
    assert_eq!(s.name, "Left");
    assert_eq!(s.group, 0);
    assert_eq!(
        s.s,
        SpeakerState {
            t_coil: 79_000_000_000_000,
            t_magnet: 46_600_000_000_000,
            t_coil_hyst: 0,
            t_magnet_hyst: 0,
            min_gain: -20_000_000,
            gain: 0,
        }
    );
}

#[test]
fn warm_boot_seeds_at_the_limit() {
    let s = speaker(false);
    assert_eq!(s.s.t_coil, 100_000_000_000_000);
    assert_eq!(s.s.t_magnet, 55_000_000_000_000);
}

#[test]
fn min_gain_above_zero_counts_as_zero() {
    let s = Speaker::new(&globals(), "Left", calibration(), true, 3_000_000);
    assert_eq!(s.s.min_gain, 0);
    let s = Speaker::new(&globals(), "Left", calibration(), true, 0);
    assert_eq!(s.s.min_gain, 0);
}

#[test]
fn max_power_is_excess_over_series_resistance() {
    assert_eq!(calibration().max_power(&globals()), 1_500_000);
    let mut cal = calibration();
    cal.tr_coil = 30_000_001;
    // 75e12 / 50000001 = 1499999.97..., rounded down
    assert_eq!(cal.max_power(&globals()), 1_499_999);
}

#[test]
fn one_silent_frame_relaxes_both_estimates() {
    let mut s = speaker(true);
    let gain = s.run_model(&[0, 0], 48000).unwrap();
    assert_eq!(gain, 0);
    assert_eq!(s.s.t_coil, 78_999_932_500_141);
    assert_eq!(s.s.t_magnet, 46_599_998_500_001);
    assert_eq!(s.s.t_coil_hyst, 78_999_932_500_141);
    assert_eq!(s.s.t_magnet_hyst, 46_599_998_500_001);
}

#[test]
fn one_loud_frame_adds_the_rise_of_its_power() {
    let mut s = speaker(true);
    // 2000 on the current channel, 1000 on the voltage channel
    s.run_model(&[2000, 1000], 48000).unwrap();
    assert_eq!(s.s.t_coil, 78_999_938_611_933);
    assert_eq!(s.s.t_magnet, 46_599_998_635_818);
}

#[test]
fn channels_are_picked_by_index() {
    let mut g = globals();
    g.channels = 4;
    let mut cal = calibration();
    cal.is_chan = 3;
    cal.vs_chan = 2;
    let mut s = Speaker::new(&g, "Left", cal, true, -20_000_000);
    s.run_model(&[7, 7, 1000, 2000], 48000).unwrap();
    assert_eq!(s.s.t_coil, 78_999_938_611_933);
    assert_eq!(s.s.t_magnet, 46_599_998_635_818);
}

#[test]
fn silence_after_cold_boot_cools_period_by_period() {
    let mut s = speaker(true);
    let zeros = block(4800, 0, 0);
    let expected: [(i64, i64); 10] = [
        (78_677_579_081_217, 46_592_801_202_507),
        (78_358_294_683_586, 46_585_604_804_222),
        (78_042_115_622_231, 46_578_410_804_337),
        (77_729_011_022_344, 46_571_219_202_055),
        (77_418_950_316_424, 46_564_029_996_568),
        (77_111_903_241_093, 46_556_843_187_088),
        (76_807_839_834_123, 46_549_658_772_809),
        (76_506_730_431_388, 46_542_476_752_932),
        (76_208_545_663_818, 46_535_297_126_668),
        (75_913_256_454_709, 46_528_119_893_213),
    ];
    let mut last = (s.s.t_coil, s.s.t_magnet);
    for (coil, magnet) in expected {
        assert_eq!(s.run_model(&zeros, 48000).unwrap(), 0);
        assert_eq!((s.s.t_coil, s.s.t_magnet), (coil, magnet));
        assert!(s.s.t_coil < last.0 && s.s.t_magnet < last.1);
        assert!(s.s.t_magnet >= 25 * DEGREE as i64);
        // the held temperatures stay where the first period put them
        assert_eq!(s.s.t_coil_hyst, 78_677_579_081_217);
        assert_eq!(s.s.t_magnet_hyst, 46_592_801_202_507);
        last = (coil, magnet);
    }
}

#[test]
fn silence_cools_frame_by_frame_and_never_below_ambient() {
    let mut s = speaker(true);
    let mut last = (s.s.t_coil, s.s.t_magnet);
    for _ in 0..2000 {
        s.run_model(&[0, 0], 44100).unwrap();
        assert!(s.s.t_coil <= last.0 && s.s.t_magnet <= last.1);
        assert!(s.s.t_magnet >= 25_000_000_000_000 && s.s.t_coil >= s.s.t_magnet);
        last = (s.s.t_coil, s.s.t_magnet);
    }
}

#[test]
fn overtemperature_is_a_fault_that_names_speaker_and_temperature() {
    let mut s = speaker(false);
    let loud = block(4800, 32767, 32767);
    match s.run_model(&loud, 48000) {
        Err(Fault::Model { speaker, cause, value, limit }) => {
            assert_eq!(speaker, "Left");
            assert_eq!(cause, ModelError::CoilOverheat);
            assert_eq!(value, 110_001_508_343_871);
            assert_eq!(limit, 110_000_000_000_000);
        }
        other => panic!("unexpected {:?}", other),
    }
    // the state is left as the frame that crossed the ceiling left it
    assert_eq!(s.s.t_coil, 110_001_508_343_871);
    assert_eq!(s.s.t_magnet, 55_222_944_947_256);
    assert_eq!(s.s.t_coil_hyst, 0);
    assert_eq!(s.s.gain, 0);
}

#[test]
fn magnet_overtemperature_is_told_apart() {
    let mut s = speaker(true);
    s.s.t_coil = 100_000_000_000_000;
    s.s.t_magnet = 110_000_000_000_000;
    // the coil is drawn up by the magnet but stays below; the magnet is
    // pushed over by the power
    match s.run_model(&[32767, 32767], 48000) {
        Err(Fault::Model { speaker, cause, value, limit }) => {
            assert_eq!(speaker, "Left");
            assert_eq!(cause, ModelError::MagnetOverheat);
            assert!(value > limit);
            assert_eq!(value, s.s.t_magnet);
        }
        other => panic!("unexpected {:?}", other),
    }
}

#[test]
fn clearly_negative_power_is_a_fault() {
    let mut s = speaker(true);
    let bad = block(480, -1000, 1000);
    match s.run_model(&bad, 48000) {
        Err(Fault::Model { speaker, cause, value, limit }) => {
            assert_eq!(speaker, "Left");
            assert_eq!(cause, ModelError::NegativePower);
            assert_eq!(value, -48_895);
            assert_eq!(limit, -10_000);
        }
        other => panic!("unexpected {:?}", other),
    }
    assert_eq!(s.s.t_coil, 78_966_149_754_818);
    assert_eq!(s.s.t_magnet, 46_599_247_416_520);
}

#[test]
fn slightly_negative_power_is_let_pass() {
    let mut s = speaker(true);
    let noisy = block(480, -100, 100);
    assert_eq!(s.run_model(&noisy, 48000).unwrap(), 0);
}

#[test]
fn an_empty_block_only_sets_the_gain() {
    let mut s = speaker(true);
    s.s.t_coil = 90_000_000_000_000;
    s.s.t_magnet = 50_000_000_000_000;
    assert_eq!(s.run_model(&[], 48000).unwrap(), -10_000_000);
    assert_eq!(s.s.t_coil, 90_000_000_000_000);
    assert_eq!(s.s.t_magnet, 50_000_000_000_000);
    assert_eq!(s.s.t_coil_hyst, 90_000_000_000_000);
    assert_eq!(s.s.t_magnet_hyst, 50_000_000_000_000);
    assert_eq!(s.s.gain, -10_000_000);
}

/// The gain that the limiter asks for with the coil at `degrees`.
fn gain_at(degrees: i64, min_gain: i64) -> i64 {
    let mut s = Speaker::new(&globals(), "Left", calibration(), true, min_gain);
    s.s.t_coil = degrees * 1_000_000_000_000;
    s.s.t_magnet = 30_000_000_000_000;
    s.run_model(&[], 48000).unwrap()
}

#[test]
fn gain_falls_in_a_line_across_the_window() {
    assert_eq!(gain_at(25, -20_000_000), 0);
    assert_eq!(gain_at(79, -20_000_000), 0);
    assert_eq!(gain_at(80, -20_000_000), 0);
    assert_eq!(gain_at(81, -20_000_000), -1_000_000);
    assert_eq!(gain_at(90, -20_000_000), -10_000_000);
    assert_eq!(gain_at(100, -20_000_000), -20_000_000);
}

#[test]
fn gain_reaches_min_gain_at_the_limit() {
    for min_gain in [-10_000, -20_000_000, -123_456_789] {
        assert_eq!(gain_at(100, min_gain), min_gain);
    }
}

#[test]
fn gain_never_rises_with_temperature() {
    let mut last = 0;
    for degrees in 70..=109 {
        let gain = gain_at(degrees, -20_000_000);
        assert!(gain <= last);
        assert!(gain <= 0);
        if degrees <= 100 {
            assert!(gain >= -20_000_000);
        }
        last = gain;
    }
}

#[test]
fn gain_goes_below_min_gain_above_the_limit() {
    assert_eq!(gain_at(105, -20_000_000), -25_000_000);
    assert_eq!(gain_at(109, -20_000_000), -29_000_000);
}

#[test]
fn gain_within_a_hundredth_of_a_decibel_of_zero_is_zero() {
    let mut s = speaker(true);
    s.s.t_magnet = 30_000_000_000_000;
    s.s.t_coil = 80_000_000_000_000 + 9_999_999_999;
    // 20 dB over 20 degrees: a hundredth of a decibel is a hundredth of a degree
    assert_eq!(s.run_model(&[], 48000).unwrap(), 0);
    let mut s = speaker(true);
    s.s.t_magnet = 30_000_000_000_000;
    s.s.t_coil = 80_000_000_000_000 + 10_000_000_000;
    assert_eq!(s.run_model(&[], 48000).unwrap(), -10_000);
    let mut s = speaker(true);
    s.s.t_magnet = 30_000_000_000_000;
    s.s.t_coil = 80_000_000_000_000 + 10_000_000_001;
    // rounded down
    assert_eq!(s.run_model(&[], 48000).unwrap(), -10_001);
    // a floor that is itself within a hundredth of a decibel never limits
    assert_eq!(gain_at(100, -9_999), 0);
}

#[test]
fn gain_is_set_from_the_hotter_estimate() {
    let mut s = speaker(true);
    s.s.t_coil = 70_000_000_000_000;
    s.s.t_magnet = 90_000_000_000_000;
    assert_eq!(s.run_model(&[], 48000).unwrap(), -10_000_000);
}

#[test]
fn held_temperature_follows_up_at_once_and_down_by_the_margin() {
    let mut s = speaker(true);
    s.s.t_coil = 90_000_000_000_000;
    s.s.t_magnet = 50_000_000_000_000;
    s.run_model(&[], 48000).unwrap();
    assert_eq!(s.s.t_coil_hyst, 90_000_000_000_000);
    // a fall within the margin leaves the held temperature
    s.s.t_coil = 86_000_000_000_000;
    assert_eq!(s.run_model(&[], 48000).unwrap(), -10_000_000);
    assert_eq!(s.s.t_coil_hyst, 90_000_000_000_000);
    // a fall beyond the margin pulls it down to the margin above
    s.s.t_coil = 82_000_000_000_000;
    assert_eq!(s.run_model(&[], 48000).unwrap(), -7_000_000);
    assert_eq!(s.s.t_coil_hyst, 87_000_000_000_000);
    // a rise pulls it up at once
    s.s.t_coil = 95_000_000_000_000;
    assert_eq!(s.run_model(&[], 48000).unwrap(), -15_000_000);
    assert_eq!(s.s.t_coil_hyst, 95_000_000_000_000);
    assert!(s.s.t_coil <= s.s.t_coil_hyst && s.s.t_coil_hyst <= s.s.t_coil + 5_000_000_000_000);
    assert!(s.s.t_magnet <= s.s.t_magnet_hyst);
    assert!(s.s.t_magnet_hyst <= s.s.t_magnet + 5_000_000_000_000);
}

#[test]
fn warm_boot_with_steady_overdrive_stays_at_min_gain() {
    // 5538 * 5538 / 2^30 of 52.5 W is just under the 1.5 W that hold the
    // coil at the limit
    let mut s = speaker(false);
    let drive = block(4800, 5538, 5538);
    for _ in 0..20 {
        let gain = s.run_model(&drive, 48000).unwrap();
        assert!(gain >= -20_000_000);
        assert!(gain <= -20_000_000 + 10_000);
    }
    // just over it, the gain goes past the floor
    let mut s = speaker(false);
    let drive = block(4800, 5539, 5539);
    assert_eq!(s.run_model(&drive, 48000).unwrap(), -20_000_032);
    assert_eq!(s.run_model(&drive, 48000).unwrap(), -20_000_064);
    assert_eq!(s.run_model(&drive, 48000).unwrap(), -20_000_095);
}

#[test]
fn sample_rate_sets_the_step() {
    let mut slow = speaker(true);
    let mut fast = speaker(true);
    slow.run_model(&[0, 0], 44100).unwrap();
    fast.run_model(&[0, 0], 48000).unwrap();
    // a sample at the lower rate lasts longer and cools more
    assert!(slow.s.t_coil < fast.s.t_coil);
    assert_eq!(fast.s.t_coil, 78_999_932_500_141);
    // 79e12 - ceil(1e6 * 32.4e12 / (44100 * 1e7 + 1e6))
    assert_eq!(slow.s.t_coil, 79_000_000_000_000 - 73_469_221);
}

#[test]
fn skip_follows_the_closed_form() {
    let mut s = speaker(true);
    s.skip_model(904_837_418_036, 996_672_216_605);
    assert_eq!(s.s.t_coil, 75_913_253_314_383);
    assert_eq!(s.s.t_magnet, 46_528_119_878_668);
    // nothing else changes
    assert_eq!(s.s.t_coil_hyst, 0);
    assert_eq!(s.s.t_magnet_hyst, 0);
    assert_eq!(s.s.min_gain, -20_000_000);
    assert_eq!(s.s.gain, 0);
}

#[test]
fn skip_over_no_time_changes_nothing() {
    let mut s = speaker(true);
    let before = s.s;
    s.skip_model(DECAY_ONE, DECAY_ONE);
    assert_eq!(s.s, before);
}

#[test]
fn skip_over_all_time_ends_at_ambient() {
    let mut s = speaker(false);
    s.skip_model(0, 0);
    assert_eq!(s.s.t_coil, 25_000_000_000_000);
    assert_eq!(s.s.t_magnet, 25_000_000_000_000);
}

#[test]
fn skip_agrees_with_running_silence() {
    for rate in [48_000u32, 192_000u32] {
        let mut ran = speaker(true);
        let zeros = block(rate as usize, 0, 0);
        ran.run_model(&zeros, rate).unwrap();
        let mut skipped = speaker(true);
        let decay_coil = ((-1.0f64 / 10.0).exp() * DECAY_ONE as f64).round() as u64;
        let decay_magnet = ((-1.0f64 / 300.0).exp() * DECAY_ONE as f64).round() as u64;
        skipped.skip_model(decay_coil, decay_magnet);
        // within a hundred-thousandth of a degree
        assert!((ran.s.t_coil - skipped.s.t_coil).abs() < 10_000_000);
        assert!((ran.s.t_magnet - skipped.s.t_magnet).abs() < 10_000_000);
    }
}

#[test]
fn gain_in_millibels_rounds_towards_zero() {
    assert_eq!(millibels(0), 0);
    assert_eq!(millibels(-9_999), 0);
    assert_eq!(millibels(-10_000), -1);
    assert_eq!(millibels(-1_234_567), -123);
    assert_eq!(millibels(-20_000_000), -2000);
    assert_eq!(millibels(19_999), 1);
}
