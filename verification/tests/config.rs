use configparser::ini::Ini;
use speakersafetyd::config::{
    get_speakers, parse_float, parse_int, parse_opt_int, parse_string, size_from_text,
    speaker_names, strip_prefix,
};
use speakersafetyd::decimal::{parse_decimal, parse_integer};
use speakersafetyd::fault::{Fault, KeyError};
use speakersafetyd::globals::Globals;
use speakersafetyd::speaker::Calibration;

const CONFIG: &str = "
[Globals]
visense_pcm = 2
channels = 4
period = 4096
t_ambient = 35.0
t_window = 20.0
t_hysteresis = 5.0
uclamp_min = 512

[Controls]
vsense = VSENSE Switch
isense = ISENSE Switch
amp_gain = Amp Gain Volume
volume = Speaker Volume

[Speaker/Left]
group = 0
tau_coil = 10.5
tau_magnet = 300
tr_coil = 30.25
tr_magnet = 20
t_limit = 100
t_headroom = 10
z_nominal = 4
is_scale = 3.75
vs_scale = 14
is_chan = 0
vs_chan = 1

[Speaker/Right]
group = 0
tau_coil = 10.5
tau_magnet = 300
tr_coil = 30.25
tr_magnet = 20
t_limit = 100
t_headroom = 10
z_nominal = 4
is_scale = -3.75
vs_scale = 14
is_chan = 2
vs_chan = 3
";

fn ini(text: &str) -> Ini {
    let mut config = Ini::new_cs();
    config.read(text.to_string()).unwrap();
    config
}

/// The configuration with one line replaced.
fn changed(from: &str, to: &str) -> Ini {
    assert!(CONFIG.contains(from));
    ini(&CONFIG.replacen(from, to, 1))
}

fn key_fault(fault: Fault) -> (String, String, KeyError) {
    match fault {
        Fault::Config { section, key, error } => (section, key, error),
        other => panic!("unexpected {:?}", other),
    }
}

fn fault_is(fault: Fault, section: &str, key: &str, error: KeyError) {
    assert_eq!(key_fault(fault), (section.to_string(), key.to_string(), error));
}

#[test]
fn decimal_is_read_in_millionths() {
    assert_eq!(parse_decimal("0"), Ok(0));
    assert_eq!(parse_decimal("25"), Ok(25_000_000));
    assert_eq!(parse_decimal("3.75"), Ok(3_750_000));
    assert_eq!(parse_decimal("-3.75"), Ok(-3_750_000));
    assert_eq!(parse_decimal("+14.000001"), Ok(14_000_001));
    assert_eq!(parse_decimal("0.000001"), Ok(1));
    assert_eq!(parse_decimal("007.5"), Ok(7_500_000));
    assert_eq!(parse_decimal("5."), Ok(5_000_000));
    assert_eq!(parse_decimal(".5"), Ok(500_000));
    assert_eq!(parse_decimal("-.5"), Ok(-500_000));
    assert_eq!(parse_decimal("-0"), Ok(0));
}

#[test]
fn decimal_drops_digits_beyond_the_sixth() {
    assert_eq!(parse_decimal("0.1234567"), Ok(123_456));
    assert_eq!(parse_decimal("0.9999999999"), Ok(999_999));
    assert_eq!(parse_decimal("-1.00000099"), Ok(-1_000_000));
    assert_eq!(parse_decimal("0.0000001"), Ok(0));
}

#[test]
fn decimal_is_bounded_by_a_million() {
    assert_eq!(parse_decimal("1000000"), Ok(1_000_000_000_000));
    assert_eq!(parse_decimal("-1000000.000000"), Ok(-1_000_000_000_000));
    assert_eq!(parse_decimal("1000000.0000009"), Ok(1_000_000_000_000));
    assert_eq!(parse_decimal("1000000.000001"), Err(KeyError::OutOfBounds));
    assert_eq!(parse_decimal("1000001"), Err(KeyError::OutOfBounds));
    assert_eq!(parse_decimal("-99999999999999999999999999999999999999"), Err(KeyError::OutOfBounds));
    assert_eq!(parse_decimal("00000000000000000000000000000000000001"), Ok(1_000_000));
}

#[test]
fn what_is_not_a_decimal_is_invalid() {
    for text in [
        "", "+", "-", ".", "+.", "1.2.3", "1,5", " 1", "1 ", "1e3", "1E-3", "0x10", "--1", "+-1",
        "1-", "abc", "١٢",
    ] {
        assert_eq!(parse_decimal(text), Err(KeyError::Invalid), "{:?}", text);
    }
}

#[test]
fn non_finite_numbers_are_invalid() {
    for text in ["inf", "-inf", "+inf", "infinity", "Infinity", "NaN", "nan", "-nan", "INF"] {
        assert_eq!(parse_decimal(text), Err(KeyError::Invalid), "{:?}", text);
    }
}

#[test]
fn integer_is_an_optional_sign_and_digits() {
    assert_eq!(parse_integer("0"), Some(0));
    assert_eq!(parse_integer("4096"), Some(4096));
    assert_eq!(parse_integer("+7"), Some(7));
    assert_eq!(parse_integer("-7"), Some(-7));
    assert_eq!(parse_integer("-0"), Some(0));
    assert_eq!(parse_integer("0012"), Some(12));
    assert_eq!(parse_integer("9223372036854775807"), Some(i64::MAX));
    assert_eq!(parse_integer("-9223372036854775808"), Some(i64::MIN));
    for text in [
        "", "+", "-", "1.0", " 1", "1 ", "1_000", "0x1f", "9223372036854775808",
        "-9223372036854775809", "99999999999999999999999999", "one",
    ] {
        assert_eq!(parse_integer(text), None, "{:?}", text);
        assert_eq!(text.parse::<i64>().ok(), None, "{:?}", text);
    }
    for text in ["0", "+7", "-7", "-0", "0012", "9223372036854775807", "-9223372036854775808"] {
        assert_eq!(parse_integer(text), text.parse::<i64>().ok(), "{:?}", text);
    }
}

#[test]
fn size_is_an_integer_that_is_not_negative() {
    assert_eq!(size_from_text("4096"), Ok(4096));
    assert_eq!(size_from_text("0"), Ok(0));
    assert_eq!(size_from_text("-1"), Err(KeyError::OutOfBounds));
    assert_eq!(size_from_text("4.5"), Err(KeyError::Invalid));
    assert_eq!(size_from_text("9223372036854775808"), Err(KeyError::Invalid));
}

#[test]
fn each_kind_of_key_is_read() {
    let config = ini(CONFIG);
    assert_eq!(parse_int(&config, "Globals", "period").unwrap(), 4096);
    assert_eq!(parse_opt_int(&config, "Globals", "uclamp_min").unwrap(), Some(512));
    assert_eq!(parse_opt_int(&config, "Globals", "uclamp_max").unwrap(), None);
    assert_eq!(parse_float(&config, "Speaker/Left", "tr_coil").unwrap(), 30_250_000);
    assert_eq!(parse_float(&config, "Speaker/Right", "is_scale").unwrap(), -3_750_000);
    assert_eq!(parse_string(&config, "Controls", "amp_gain").unwrap(), "Amp Gain Volume");
}

#[test]
fn a_missing_key_is_told_from_a_bad_one() {
    let config = ini("[Globals]\nperiod = many\nchannels = -2\nt_ambient = warm\nflag\n");
    fault_is(parse_int(&config, "Globals", "visense_pcm").unwrap_err(), "Globals", "visense_pcm", KeyError::Missing);
    fault_is(parse_int(&config, "Nowhere", "period").unwrap_err(), "Nowhere", "period", KeyError::Missing);
    fault_is(parse_int(&config, "Globals", "period").unwrap_err(), "Globals", "period", KeyError::Invalid);
    fault_is(parse_int(&config, "Globals", "channels").unwrap_err(), "Globals", "channels", KeyError::OutOfBounds);
    fault_is(parse_opt_int(&config, "Globals", "period").unwrap_err(), "Globals", "period", KeyError::Invalid);
    fault_is(parse_opt_int(&config, "Globals", "channels").unwrap_err(), "Globals", "channels", KeyError::OutOfBounds);
    fault_is(parse_float(&config, "Globals", "t_ambient").unwrap_err(), "Globals", "t_ambient", KeyError::Invalid);
    fault_is(parse_float(&config, "Globals", "t_window").unwrap_err(), "Globals", "t_window", KeyError::Missing);
    fault_is(parse_string(&config, "Controls", "volume").unwrap_err(), "Controls", "volume", KeyError::Missing);
    // a key without a value counts as missing
    fault_is(parse_string(&config, "Globals", "flag").unwrap_err(), "Globals", "flag", KeyError::Missing);
    assert_eq!(parse_opt_int(&config, "Globals", "flag").unwrap(), None);
}

#[test]
fn a_non_finite_setting_is_fatal() {
    for text in ["inf", "NaN", "-infinity"] {
        let config = changed("t_ambient = 35.0", &format!("t_ambient = {}", text));
        fault_is(Globals::parse(&config).unwrap_err(), "Globals", "t_ambient", KeyError::Invalid);
        let config = changed("tr_coil = 30.25", &format!("tr_coil = {}", text));
        let globals = Globals::parse(&ini(CONFIG)).unwrap();
        fault_is(
            Calibration::parse(&globals, "Left", &config).unwrap_err(),
            "Speaker/Left",
            "tr_coil",
            KeyError::Invalid,
        );
    }
}

#[test]
fn globals_are_read_key_by_key() {
    let globals = Globals::parse(&ini(CONFIG)).unwrap();
    assert_eq!(globals.visense_pcm, 2);
    assert_eq!(globals.channels, 4);
    assert_eq!(globals.period, 4096);
    assert_eq!(globals.t_ambient, 35_000_000);
    assert_eq!(globals.t_window, 20_000_000);
    assert_eq!(globals.t_hysteresis, 5_000_000);
    assert_eq!(globals.ctl_vsense, "VSENSE Switch");
    assert_eq!(globals.ctl_isense, "ISENSE Switch");
    assert_eq!(globals.ctl_amp_gain, "Amp Gain Volume");
    assert_eq!(globals.ctl_volume, "Speaker Volume");
    assert_eq!(globals.uclamp_min, Some(512));
    assert_eq!(globals.uclamp_max, None);
}

#[test]
fn globals_report_the_first_problem() {
    let config = ini("[Globals]\nvisense_pcm = 2\nperiod = x\n");
    fault_is(Globals::parse(&config).unwrap_err(), "Globals", "channels", KeyError::Missing);
    let config = changed("period = 4096", "period = x");
    fault_is(Globals::parse(&config).unwrap_err(), "Globals", "period", KeyError::Invalid);
    let config = changed("volume = Speaker Volume", "level = Speaker Volume");
    fault_is(Globals::parse(&config).unwrap_err(), "Controls", "volume", KeyError::Missing);
    let config = changed("uclamp_min = 512", "uclamp_min = -1");
    fault_is(Globals::parse(&config).unwrap_err(), "Globals", "uclamp_min", KeyError::OutOfBounds);
    let config = changed("t_hysteresis = 5.0", "t_hysteresis = 1e1");
    fault_is(Globals::parse(&config).unwrap_err(), "Globals", "t_hysteresis", KeyError::Invalid);
}

#[test]
fn globals_that_cannot_be_computed_with_are_out_of_bounds() {
    let config = changed("t_window = 20.0", "t_window = 0.0");
    fault_is(Globals::parse(&config).unwrap_err(), "Globals", "t_window", KeyError::OutOfBounds);
    let config = changed("period = 4096", "period = 4294967296");
    fault_is(Globals::parse(&config).unwrap_err(), "Globals", "period", KeyError::OutOfBounds);
    let config = changed("t_ambient = 35.0", "t_ambient = 1000000.5");
    fault_is(Globals::parse(&config).unwrap_err(), "Globals", "t_ambient", KeyError::OutOfBounds);
    // a negative margin is odd but can be computed with
    let config = changed("t_hysteresis = 5.0", "t_hysteresis = -5.0");
    assert_eq!(Globals::parse(&config).unwrap().t_hysteresis, -5_000_000);
}

#[test]
fn calibration_is_read_key_by_key() {
    let config = ini(CONFIG);
    let globals = Globals::parse(&config).unwrap();
    let cal = Calibration::parse(&globals, "Right", &config).unwrap();
    assert_eq!(
        cal,
        Calibration {
            group: 0,
            tau_coil: 10_500_000,
            tau_magnet: 300_000_000,
            tr_coil: 30_250_000,
            tr_magnet: 20_000_000,
            t_limit: 100_000_000,
            t_headroom: 10_000_000,
            z_nominal: 4_000_000,
            is_scale: -3_750_000,
            vs_scale: 14_000_000,
            is_chan: 2,
            vs_chan: 3,
        }
    );
}

fn left_with(from: &str, to: &str) -> Result<Calibration, Fault> {
    let globals = Globals::parse(&ini(CONFIG)).unwrap();
    Calibration::parse(&globals, "Left", &changed(from, to))
}

#[test]
fn calibration_reports_the_first_problem() {
    let globals = Globals::parse(&ini(CONFIG)).unwrap();
    fault_is(
        Calibration::parse(&globals, "Center", &ini(CONFIG)).unwrap_err(),
        "Speaker/Center",
        "group",
        KeyError::Missing,
    );
    fault_is(left_with("group = 0", "group = first").unwrap_err(), "Speaker/Left", "group", KeyError::Invalid);
    fault_is(left_with("z_nominal = 4", "z_nominel = 4").unwrap_err(), "Speaker/Left", "z_nominal", KeyError::Missing);
    fault_is(left_with("vs_chan = 1", "vs_chan = -1").unwrap_err(), "Speaker/Left", "vs_chan", KeyError::OutOfBounds);
    fault_is(left_with("t_limit = 100", "t_limit = 2000000").unwrap_err(), "Speaker/Left", "t_limit", KeyError::OutOfBounds);
}

#[test]
fn calibration_must_fit_the_channel_layout() {
    fault_is(left_with("is_chan = 0", "is_chan = 4").unwrap_err(), "Speaker/Left", "is_chan", KeyError::Inconsistent);
    fault_is(left_with("vs_chan = 1", "vs_chan = 17").unwrap_err(), "Speaker/Left", "vs_chan", KeyError::Inconsistent);
    assert_eq!(left_with("vs_chan = 1", "vs_chan = 3").unwrap().vs_chan, 3);
}

#[test]
fn limiting_must_start_above_ambient() {
    // knee = 55 - 20 = 35, which is ambient
    fault_is(left_with("t_limit = 100", "t_limit = 55").unwrap_err(), "Speaker/Left", "t_limit", KeyError::Inconsistent);
    assert_eq!(left_with("t_limit = 100", "t_limit = 55.000001").unwrap().t_limit, 55_000_001);
}

#[test]
fn calibration_that_cannot_be_computed_with_is_refused() {
    fault_is(left_with("tau_coil = 10.5", "tau_coil = -1").unwrap_err(), "Speaker/Left", "tau_coil", KeyError::OutOfBounds);
    fault_is(left_with("tau_magnet = 300", "tau_magnet = -300").unwrap_err(), "Speaker/Left", "tau_magnet", KeyError::OutOfBounds);
    fault_is(left_with("tau_magnet = 300", "tau_magnet = 10.5").unwrap_err(), "Speaker/Left", "tau_magnet", KeyError::Inconsistent);
    fault_is(left_with("tr_magnet = 20", "tr_magnet = -30.25").unwrap_err(), "Speaker/Left", "tr_magnet", KeyError::Inconsistent);
    // a million watts at full scale is the most that is represented
    fault_is(left_with("vs_scale = 14", "vs_scale = 300000").unwrap_err(), "Speaker/Left", "vs_scale", KeyError::OutOfBounds);
    // and a rise of a million degrees
    fault_is(left_with("tr_coil = 30.25", "tr_coil = 20000").unwrap_err(), "Speaker/Left", "tr_coil", KeyError::OutOfBounds);
    fault_is(left_with("tr_magnet = 20", "tr_magnet = 20000").unwrap_err(), "Speaker/Left", "tr_magnet", KeyError::OutOfBounds);
    // resistances that nearly cancel put the magnet's start out of range
    fault_is(left_with("tr_magnet = 20", "tr_magnet = -30.249999").unwrap_err(), "Speaker/Left", "tr_magnet", KeyError::OutOfBounds);
    // zero time constants and a negative resistance can be computed with
    assert_eq!(left_with("tau_coil = 10.5", "tau_coil = 0").unwrap().tau_coil, 0);
    assert_eq!(left_with("tr_magnet = 20", "tr_magnet = -1").unwrap().tr_magnet, -1_000_000);
}

#[test]
fn prefix_is_taken_off_where_it_is_there() {
    assert_eq!(strip_prefix("Speaker/Left", "Speaker/"), Some("Left".to_string()));
    assert_eq!(strip_prefix("Speaker/", "Speaker/"), Some("".to_string()));
    assert_eq!(strip_prefix("Speaker", "Speaker/"), None);
    assert_eq!(strip_prefix("speaker/Left", "Speaker/"), None);
    assert_eq!(strip_prefix("Globals", "Speaker/"), None);
    assert_eq!(strip_prefix("anything", ""), Some("anything".to_string()));
    assert_eq!(strip_prefix("Späker/ö", "Späker/"), Some("ö".to_string()));
}

#[test]
fn speakers_are_the_sections_named_so() {
    let names = vec![
        "Globals".to_string(),
        "Speaker/Left Tweeter".to_string(),
        "Controls".to_string(),
        "Speaker/Mono".to_string(),
        "Speakers/None".to_string(),
        "Speaker/".to_string(),
    ];
    assert_eq!(speaker_names(&names), vec!["Left Tweeter", "Mono", ""]);
    assert_eq!(speaker_names(&Vec::new()), Vec::<String>::new());
}

#[test]
fn speakers_of_a_configuration_are_found_once_each() {
    let mut names = get_speakers(&ini(CONFIG));
    names.sort();
    assert_eq!(names, vec!["Left", "Right"]);
    assert_eq!(get_speakers(&ini("[Globals]\nperiod = 1\n")), Vec::<String>::new());
}

#[test]
fn usable_settings_are_told_from_unusable() {
    let config = ini(CONFIG);
    let globals = Globals::parse(&config).unwrap();
    assert!(globals.usable());
    let cal = Calibration::parse(&globals, "Left", &config).unwrap();
    assert!(cal.usable(&globals));
    let mut bad = globals.clone();
    bad.t_window = 0;
    assert!(!bad.usable());
    let mut bad = globals.clone();
    bad.period = usize::MAX;
    assert!(!bad.usable());
    let mut bad = globals.clone();
    bad.t_hysteresis = 1_000_000_000_001;
    assert!(!bad.usable());
    let mut bad = cal;
    bad.tau_magnet = bad.tau_coil;
    assert!(!bad.usable(&globals));
    let mut bad = cal;
    bad.vs_chan = 4;
    assert!(!bad.usable(&globals));
    let mut bad = cal;
    bad.z_nominal = -1_000_000_000_001;
    assert!(!bad.usable(&globals));
    let mut bad = cal;
    bad.t_limit = 55_000_000;
    assert!(!bad.usable(&globals));
}
