use speakersafetyd::blackbox::Blackbox;
use speakersafetyd::controls::{capture_failed, CaptureVerdict, UNLOCK_MAGIC};
use speakersafetyd::fault::{ControlError, Fault, KeyError, ModelError};
use speakersafetyd::globals::Globals;
use speakersafetyd::speaker::{Calibration, Speaker};
use speakersafetyd::supervisor::{Action, Decay, Phase, Supervisor};
use speakersafetyd::units::DECAY_ONE;

const UNLOCK: Action = Action::Unlock { magic: UNLOCK_MAGIC };

fn globals(channels: usize) -> Globals {
    Globals {
        visense_pcm: 2,
        channels,
        period: 4800,
        t_ambient: 25_000_000,
        t_window: 20_000_000,
        t_hysteresis: 5_000_000,
        ctl_vsense: "VSENSE Switch".to_string(),
        ctl_isense: "ISENSE Switch".to_string(),
        ctl_amp_gain: "Amp Gain Volume".to_string(),
        ctl_volume: "Speaker Volume".to_string(),
        uclamp_min: None,
        uclamp_max: None,
    }
}

fn calibration(group: usize, is_chan: usize, vs_chan: usize) -> Calibration {
    Calibration {
        group,
        tau_coil: 10_000_000,
        tau_magnet: 300_000_000,
        tr_coil: 30_000_000,
        tr_magnet: 20_000_000,
        t_limit: 100_000_000,
        t_headroom: 10_000_000,
        z_nominal: 4_000_000,
        is_scale: 3_750_000,
        vs_scale: 14_000_000,
        is_chan,
        vs_chan,
    }
}

/// One speaker on two channels.
fn solo(cold_boot: bool, rate: i32, max_reduction: Option<i64>, record: bool) -> Supervisor {
    let g = globals(2);
    let speakers = vec![Speaker::new(&g, "Mono", calibration(0, 0, 1), cold_boot, -20_000_000)];
    let blackbox = if record { Some(Blackbox::new("apple,j314", &g)) } else { None };
    Supervisor::new(g, speakers, rate, cold_boot, max_reduction, blackbox).unwrap().0
}

/// Three speakers on six channels: a woofer in group 1, given first, and
/// two tweeters in group 0.
fn trio(cold_boot: bool) -> (Supervisor, Vec<Action>) {
    let g = globals(6);
    let speakers = vec![
        Speaker::new(&g, "Left Woofer", calibration(1, 0, 1), cold_boot, -20_000_000),
        Speaker::new(&g, "Left Tweeter", calibration(0, 2, 3), cold_boot, -20_000_000),
        Speaker::new(&g, "Right Tweeter", calibration(0, 4, 5), cold_boot, -20_000_000),
    ];
    Supervisor::new(g, speakers, 48000, cold_boot, None, None).unwrap()
}

fn block(frames: usize, frame: &[i16]) -> Vec<i16> {
    let mut buf = Vec::new();
    for _ in 0..frames {
        buf.extend_from_slice(frame);
    }
    buf
}

#[test]
fn speakers_are_put_into_their_groups_in_order() {
    let (sup, _) = trio(true);
    assert_eq!(sup.groups.len(), 2);
    assert_eq!(sup.groups[0].index, 0);
    assert_eq!(sup.groups[1].index, 1);
    let names: Vec<&str> = sup.groups[0].speakers.iter().map(|s| s.name.as_str()).collect();
    assert_eq!(names, vec!["Left Tweeter", "Right Tweeter"]);
    let names: Vec<&str> = sup.groups[1].speakers.iter().map(|s| s.name.as_str()).collect();
    assert_eq!(names, vec!["Left Woofer"]);
    assert_eq!(sup.sample_rate, 48000);
}

#[test]
fn group_numbers_need_not_be_dense() {
    let g = globals(6);
    let speakers = vec![
        Speaker::new(&g, "C", calibration(40, 0, 1), true, -20_000_000),
        Speaker::new(&g, "A", calibration(7, 2, 3), true, -20_000_000),
        Speaker::new(&g, "B", calibration(40, 4, 5), true, -20_000_000),
    ];
    let (sup, _) = Supervisor::new(g, speakers, 48000, true, None, None).unwrap();
    let shape: Vec<(usize, usize)> =
        sup.groups.iter().map(|g| (g.index, g.speakers.len())).collect();
    assert_eq!(shape, vec![(7, 1), (40, 2)]);
    assert_eq!(sup.groups[1].speakers[0].name, "C");
    assert_eq!(sup.groups[1].speakers[1].name, "B");
}

#[test]
fn cold_boot_unlocks_and_presets_every_speaker() {
    let (sup, actions) = trio(true);
    assert_eq!(
        actions,
        vec![
            UNLOCK,
            Action::SetVolume { group: 0, speaker: 0, gain: 0 },
            Action::SetVolume { group: 0, speaker: 1, gain: 0 },
            Action::SetVolume { group: 1, speaker: 0, gain: 0 },
        ]
    );
    for group in &sup.groups {
        assert_eq!(group.gain, Some(0));
        assert_eq!(group.phase(), Phase::Nominal);
        assert!(group.was_nominal);
    }
}

#[test]
fn warm_boot_unlocks_and_commits_nothing() {
    let (sup, actions) = trio(false);
    assert_eq!(actions, vec![UNLOCK]);
    for group in &sup.groups {
        assert_eq!(group.gain, None);
        assert_eq!(group.phase(), Phase::Initializing);
        assert!(!group.was_nominal);
    }
}

#[test]
fn no_speakers_is_no_fault() {
    let (sup, actions) = Supervisor::new(globals(0), vec![], 48000, true, None, None).unwrap();
    assert!(sup.groups.is_empty());
    assert_eq!(actions, vec![UNLOCK]);
}

#[test]
fn each_speaker_needs_two_channels() {
    let g = globals(5);
    let speakers = vec![
        Speaker::new(&g, "A", calibration(0, 0, 1), true, -20_000_000),
        Speaker::new(&g, "B", calibration(0, 2, 3), true, -20_000_000),
        Speaker::new(&g, "C", calibration(0, 4, 4), true, -20_000_000),
    ];
    match Supervisor::new(g, speakers, 48000, true, None, None) {
        Err(Fault::Config { section, key, error }) => {
            assert_eq!((section.as_str(), key.as_str()), ("Globals", "channels"));
            assert_eq!(error, KeyError::Inconsistent);
        }
        Ok(_) => panic!("five channels cannot carry three speakers"),
        Err(other) => panic!("unexpected {:?}", other),
    }
}

#[test]
fn cold_boot_with_silent_input_stays_nominal_and_unlocked() {
    let mut sup = solo(true, 48000, None, false);
    assert_eq!(sup.groups[0].speakers[0].s.t_coil, 79_000_000_000_000);
    let zeros = block(4800, &[0, 0]);
    let coil_after: [i64; 10] = [
        78_677_579_081_217,
        78_358_294_683_586,
        78_042_115_622_231,
        77_729_011_022_344,
        77_418_950_316_424,
        77_111_903_241_093,
        76_807_839_834_123,
        76_506_730_431_388,
        76_208_545_663_818,
        75_913_256_454_709,
    ];
    for coil in coil_after {
        let outcome = sup.run(&zeros);
        assert!(outcome.fault.is_none());
        // the gain stays as preset, so the only write is the unlock
        assert_eq!(outcome.actions, vec![UNLOCK]);
        assert_eq!(sup.groups[0].gain, Some(0));
        assert_eq!(sup.groups[0].speakers[0].s.gain, 0);
        assert_eq!(sup.groups[0].speakers[0].s.t_coil, coil);
        assert!(coil > 25_000_000_000_000);
        assert_eq!(sup.groups[0].phase(), Phase::Nominal);
    }
}

#[test]
fn warm_boot_commits_the_first_gain_and_then_only_changes() {
    let mut sup = solo(false, 48000, None, false);
    let drive = block(4800, &[5538, 5538]);
    let outcome = sup.run(&drive);
    assert!(outcome.fault.is_none());
    assert_eq!(
        outcome.actions,
        vec![Action::SetVolume { group: 0, speaker: 0, gain: -19_999_871 }, UNLOCK]
    );
    assert_eq!(sup.groups[0].gain, Some(-19_999_871));
    assert_eq!(sup.groups[0].phase(), Phase::Limiting);
    assert!(!sup.groups[0].was_nominal);
    // within a hundredth of a decibel of the floor, and staying there
    for _ in 0..5 {
        let outcome = sup.run(&drive);
        assert_eq!(outcome.actions, vec![UNLOCK]);
        assert_eq!(sup.groups[0].gain, Some(-19_999_871));
    }
}

#[test]
fn warm_boot_commits_even_no_reduction() {
    let mut sup = solo(false, 48000, None, false);
    sup.groups[0].speakers[0].s.t_coil = 50_000_000_000_000;
    sup.groups[0].speakers[0].s.t_magnet = 30_000_000_000_000;
    let outcome = sup.run(&[]);
    assert_eq!(outcome.actions, vec![Action::SetVolume { group: 0, speaker: 0, gain: 0 }, UNLOCK]);
    assert_eq!(sup.groups[0].phase(), Phase::Nominal);
    assert!(sup.groups[0].was_nominal);
}

#[test]
fn a_group_takes_the_lowest_gain_of_its_speakers() {
    let (mut sup, _) = trio(true);
    sup.groups[0].speakers[0].s.t_coil = 85_000_000_000_000;
    sup.groups[0].speakers[1].s.t_coil = 95_000_000_000_000;
    let outcome = sup.run(&[]);
    assert!(outcome.fault.is_none());
    assert_eq!(
        outcome.actions,
        vec![
            Action::SetVolume { group: 0, speaker: 0, gain: -15_000_000 },
            Action::SetVolume { group: 0, speaker: 1, gain: -15_000_000 },
            UNLOCK,
        ]
    );
    assert_eq!(sup.groups[0].gain, Some(-15_000_000));
    assert_eq!(sup.groups[0].speakers[0].s.gain, -5_000_000);
    assert_eq!(sup.groups[0].speakers[1].s.gain, -15_000_000);
    assert_eq!(sup.groups[1].gain, Some(0));
    assert_eq!(sup.groups[0].phase(), Phase::Limiting);
    assert_eq!(sup.groups[1].phase(), Phase::Nominal);
}

#[test]
fn a_stall_of_more_than_four_periods_is_caught_up() {
    let sup = solo(true, 48000, None, false);
    // a period is 4800 frames at 48 kHz, a tenth of a second
    assert_eq!(sup.catch_up(500_000_000), Some(400_000_000));
    assert_eq!(sup.catch_up(400_000_001), Some(300_000_001));
    assert_eq!(sup.catch_up(400_000_000), None);
    assert_eq!(sup.catch_up(100_000_000), None);
    assert_eq!(sup.catch_up(0), None);
    assert_eq!(sup.catch_up(u64::MAX), Some(u64::MAX - 100_000_000));
    let sup = solo(true, 44100, None, false);
    // 4800 / 44100 s is 108843537.4 ns
    assert_eq!(sup.catch_up(435_374_149), None);
    assert_eq!(sup.catch_up(435_374_150), Some(435_374_150 - 108_843_537));
}

#[test]
fn catching_up_skips_the_model_and_empties_the_recorder() {
    let mut sup = solo(true, 48000, None, true);
    sup.run(&block(4800, &[0, 0]));
    assert_eq!(sup.blackbox.as_ref().unwrap().len(), 1);
    let mut sup = solo(true, 48000, None, true);
    sup.blackbox.as_mut().unwrap().push(48000, vec![0, 0], vec![]);
    let skip = sup.catch_up(500_000_000).unwrap();
    assert_eq!(skip, 400_000_000);
    let seconds = skip as f64 / 1e9;
    let decay = Decay {
        coil: ((-seconds / 10.0).exp() * DECAY_ONE as f64).round() as u64,
        magnet: ((-seconds / 300.0).exp() * DECAY_ONE as f64).round() as u64,
    };
    assert_eq!(decay, Decay { coil: 960_789_439_152, magnet: 998_667_555_161 });
    sup.skip(&vec![vec![decay]]);
    assert_eq!(sup.groups[0].speakers[0].s.t_coil, 77_729_009_685_721);
    assert_eq!(sup.groups[0].speakers[0].s.t_magnet, 46_571_219_191_478);
    assert_eq!(sup.blackbox.as_ref().unwrap().len(), 0);
    assert_eq!(sup.groups[0].gain, Some(0));
}

#[test]
fn a_new_sample_rate_empties_the_recorder_and_sets_the_step() {
    let mut sup = solo(true, 44100, None, true);
    let zeros = block(4800, &[0, 0]);
    assert_eq!(sup.observe_rate(44100).unwrap(), false);
    sup.run(&zeros);
    assert_eq!(sup.groups[0].speakers[0].s.t_coil, 78_649_217_112_264);
    assert_eq!(sup.blackbox.as_ref().unwrap().len(), 1);
    assert_eq!(sup.observe_rate(48000).unwrap(), true);
    assert_eq!(sup.sample_rate, 48000);
    assert_eq!(sup.blackbox.as_ref().unwrap().len(), 0);
    sup.run(&zeros);
    assert_eq!(sup.groups[0].speakers[0].s.t_coil, 78_330_208_588_370);
    assert_eq!(sup.groups[0].speakers[0].s.t_magnet, 46_584_968_503_313);
    assert_eq!(sup.blackbox.as_ref().unwrap().len(), 1);
    let dump = sup.blackbox.as_ref().unwrap().preserve("rate").unwrap();
    assert_eq!(dump.meta.sample_rate, 48000);
}

#[test]
fn a_rate_of_zero_leaves_the_rate_and_the_recorder() {
    let mut sup = solo(true, 48000, None, true);
    sup.run(&block(4800, &[0, 0]));
    assert_eq!(sup.observe_rate(0).unwrap(), false);
    assert_eq!(sup.sample_rate, 48000);
    assert_eq!(sup.blackbox.as_ref().unwrap().len(), 1);
}

#[test]
fn no_usable_sample_rate_is_a_fault() {
    for (known, current) in [(0, 0), (-5, 0), (48000, -1), (0, -48000)] {
        let mut sup = solo(true, known, None, false);
        match sup.observe_rate(current) {
            Err(Fault::Control { knob, failure }) => {
                assert_eq!(knob, "Speaker Sample Rate");
                assert_eq!(failure, ControlError::Value);
            }
            other => panic!("unexpected {:?}", other),
        }
    }
    let mut sup = solo(true, 0, None, false);
    assert_eq!(sup.observe_rate(48000).unwrap(), true);
}

#[test]
fn the_fatal_signal_is_preserved_and_nothing_is_unlocked() {
    let mut sup = solo(true, 48000, None, true);
    let outcome = sup.run(&block(4800, &[0, 0]));
    assert_eq!(outcome.actions, vec![UNLOCK]);
    // the signal arrives while the next block is captured
    let fault = match capture_failed(true, false) {
        CaptureVerdict::Fatal(fault) => fault,
        other => panic!("unexpected {:?}", other),
    };
    assert!(matches!(fault, Fault::Signal));
    let dump = sup.blackbox.as_ref().unwrap().preserve(&fault.message()).unwrap();
    assert_eq!(dump.meta.message, "SIGQUIT received");
    assert_eq!(dump.meta.machine, "apple,j314");
    assert_eq!(dump.raw.len(), 4800 * 2 * 2);
}

#[test]
fn a_fault_of_the_model_ends_the_block_without_unlock() {
    let (mut sup, _) = trio(false);
    // the woofer, on the first two channels, is driven at full scale
    let frame = block(4800, &[32767, 32767, 0, 0, 0, 0]);
    let outcome = sup.run(&frame);
    match outcome.fault {
        Some(Fault::Model { speaker, cause, value, limit }) => {
            assert_eq!(speaker, "Left Woofer");
            assert_eq!(cause, ModelError::CoilOverheat);
            assert_eq!(value, 110_001_508_343_871);
            assert_eq!(limit, 110_000_000_000_000);
        }
        other => panic!("unexpected {:?}", other),
    }
    // the tweeters, in the group before, have run and have been committed
    assert_eq!(
        outcome.actions,
        vec![
            Action::SetVolume { group: 0, speaker: 0, gain: -19_552_194 },
            Action::SetVolume { group: 0, speaker: 1, gain: -19_552_194 },
        ]
    );
    assert!(!outcome.actions.contains(&UNLOCK));
    assert_eq!(sup.groups[0].gain, Some(-19_552_194));
    assert_eq!(sup.groups[0].speakers[1].s.t_coil, 99_552_193_167_405);
    assert_eq!(sup.groups[1].gain, None);
}

#[test]
fn a_fault_in_the_first_group_leaves_the_others_alone() {
    let (mut sup, _) = trio(false);
    // the right tweeter, on the last two channels, is driven at full scale
    let frame = block(4800, &[0, 0, 0, 0, 32767, 32767]);
    let outcome = sup.run(&frame);
    match outcome.fault {
        Some(Fault::Model { speaker, cause, .. }) => {
            assert_eq!(speaker, "Right Tweeter");
            assert_eq!(cause, ModelError::CoilOverheat);
        }
        other => panic!("unexpected {:?}", other),
    }
    assert!(outcome.actions.is_empty());
    // the left tweeter has run, the woofer has not
    assert_eq!(sup.groups[0].speakers[0].s.t_coil, 99_552_193_167_405);
    assert_eq!(sup.groups[0].gain, None);
    assert_eq!(sup.groups[1].speakers[0].s.t_coil, 100_000_000_000_000);
    assert_eq!(sup.groups[1].gain, None);
}

#[test]
fn negative_power_ends_the_block_without_unlock() {
    let mut sup = solo(true, 48000, None, false);
    let outcome = sup.run(&block(480, &[-1000, 1000]));
    assert!(matches!(
        outcome.fault,
        Some(Fault::Model { cause: ModelError::NegativePower, value: -48_895, .. })
    ));
    assert!(outcome.actions.is_empty());
}

#[test]
fn the_debug_threshold_trips_only_for_a_group_that_was_nominal() {
    // never nominal: a reduction beyond the threshold is let pass
    let mut sup = solo(false, 48000, Some(5_000_000), false);
    sup.groups[0].speakers[0].s.t_coil = 95_000_000_000_000;
    let outcome = sup.run(&[]);
    assert!(outcome.fault.is_none());
    assert_eq!(
        outcome.actions,
        vec![Action::SetVolume { group: 0, speaker: 0, gain: -15_000_000 }, UNLOCK]
    );
    assert!(!sup.groups[0].was_nominal);

    // nominal before: it is a fault, after the gain has been committed
    let mut sup = solo(true, 48000, Some(5_000_000), false);
    assert_eq!(sup.run(&[]).actions, vec![UNLOCK]);
    sup.groups[0].speakers[0].s.t_coil = 95_000_000_000_000;
    let outcome = sup.run(&[]);
    assert!(matches!(outcome.fault, Some(Fault::Debug)));
    assert_eq!(outcome.actions, vec![Action::SetVolume { group: 0, speaker: 0, gain: -15_000_000 }]);
    assert_eq!(sup.groups[0].gain, Some(-15_000_000));

    // a cold boot starts at no reduction, which counts
    let mut sup = solo(true, 48000, Some(5_000_000), false);
    sup.groups[0].speakers[0].s.t_coil = 95_000_000_000_000;
    assert!(matches!(sup.run(&[]).fault, Some(Fault::Debug)));
}

#[test]
fn the_debug_threshold_is_held_per_group() {
    let g = globals(4);
    let speakers = vec![
        Speaker::new(&g, "Woofer", calibration(0, 0, 1), false, -20_000_000),
        Speaker::new(&g, "Tweeter", calibration(1, 2, 3), false, -20_000_000),
    ];
    let (mut sup, _) = Supervisor::new(g, speakers, 48000, false, Some(5_000_000), None).unwrap();
    // the woofer's group comes down to no reduction, the tweeter's never does
    sup.groups[0].speakers[0].s.t_coil = 50_000_000_000_000;
    sup.groups[0].speakers[0].s.t_magnet = 30_000_000_000_000;
    sup.groups[1].speakers[0].s.t_coil = 95_000_000_000_000;
    let outcome = sup.run(&[]);
    assert!(outcome.fault.is_none());
    assert!(sup.groups[0].was_nominal);
    assert!(!sup.groups[1].was_nominal);
    assert_eq!(sup.groups[1].gain, Some(-15_000_000));
    // the tweeter goes on limiting beyond the threshold: no fault
    assert!(sup.run(&[]).fault.is_none());
    // the woofer heats up beyond it: a fault, and the tweeter's group is not reached
    sup.groups[0].speakers[0].s.t_coil = 95_000_000_000_000;
    sup.groups[1].speakers[0].s.t_coil = 90_000_000_000_000;
    let outcome = sup.run(&[]);
    assert!(matches!(outcome.fault, Some(Fault::Debug)));
    assert_eq!(outcome.actions, vec![Action::SetVolume { group: 0, speaker: 0, gain: -15_000_000 }]);
    assert_eq!(sup.groups[1].gain, Some(-15_000_000));
}

#[test]
fn the_debug_threshold_is_not_tripped_at_the_threshold() {
    let mut sup = solo(true, 48000, Some(15_000_000), false);
    sup.run(&[]);
    sup.groups[0].speakers[0].s.t_coil = 95_000_000_000_000;
    let outcome = sup.run(&[]);
    assert!(outcome.fault.is_none());
    assert_eq!(
        outcome.actions,
        vec![Action::SetVolume { group: 0, speaker: 0, gain: -15_000_000 }, UNLOCK]
    );
    sup.max_reduction = Some(14_999_999);
    let outcome = sup.run(&[]);
    assert!(matches!(outcome.fault, Some(Fault::Debug)));
    assert!(outcome.actions.is_empty());
}

#[test]
fn each_block_is_recorded_with_the_states_before_it() {
    let mut sup = solo(true, 48000, None, true);
    let before = sup.groups[0].speakers[0].s;
    sup.run(&[7, -7]);
    let dump = sup.blackbox.as_ref().unwrap().preserve("why").unwrap();
    assert_eq!(dump.raw, vec![7, 0, 0xf9, 0xff]);
    assert_eq!(dump.meta.sample_rate, 48000);
    assert_eq!(dump.meta.state, vec![before]);
    let after_first = sup.groups[0].speakers[0].s;
    sup.run(&[1, 1]);
    let dump = sup.blackbox.as_ref().unwrap().preserve("why").unwrap();
    assert_eq!(dump.raw, vec![7, 0, 0xf9, 0xff, 1, 0, 1, 0]);
    assert_eq!(dump.meta.state, vec![after_first]);
}
