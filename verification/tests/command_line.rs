//! Flags and durations.

use std::time::Duration;
use wsltray::cli::{default_process, parse_args, timer_ms, usage, Options};

fn parse_duration(s: &str) -> Option<Duration> {
    wsltray::duration::parse_duration(s).map(Duration::from_nanos)
}

fn args(a: &[&str]) -> Result<Option<Options>, String> {
    let v: Vec<String> = a.iter().map(|s| s.to_string()).collect();
    parse_args(&v, "vmmemWSL")
}

fn options(a: &[&str]) -> Options {
    args(a).unwrap().unwrap()
}

#[test]
fn durations() {
    assert_eq!(parse_duration("5s"), Some(Duration::from_secs(5)));
    assert_eq!(parse_duration("2m"), Some(Duration::from_secs(120)));
    assert_eq!(parse_duration("250ms"), Some(Duration::from_millis(250)));
    assert_eq!(parse_duration("1m30s"), Some(Duration::from_secs(90)));
    assert_eq!(parse_duration("1h5m"), Some(Duration::from_secs(3900)));
    assert_eq!(parse_duration("1.5h"), Some(Duration::from_secs(5400)));
    assert_eq!(parse_duration(".5s"), Some(Duration::from_millis(500)));
    assert_eq!(parse_duration("500us"), Some(Duration::from_micros(500)));
    assert_eq!(parse_duration("0"), Some(Duration::ZERO));
    assert_eq!(parse_duration("0s"), Some(Duration::ZERO));
    assert_eq!(parse_duration("30"), None); // missing unit
    assert_eq!(parse_duration("1m30"), None);
    assert_eq!(parse_duration("-5s"), None);
    assert_eq!(parse_duration(""), None);
    assert_eq!(parse_duration(".s"), None);
    assert_eq!(parse_duration("5x"), None);
    assert_eq!(parse_duration("abc"), None);
    assert_eq!(parse_duration("99999999999999999999h"), None); // overflow
}

#[test]
fn more_durations() {
    assert_eq!(parse_duration("+5s"), Some(Duration::from_secs(5)));
    assert_eq!(parse_duration("+0"), Some(Duration::ZERO));
    assert_eq!(parse_duration("+"), parse_duration(""));
    assert_eq!(parse_duration("+"), None);
    assert_eq!(parse_duration("++5s"), None);
    assert_eq!(parse_duration("1.s"), Some(Duration::from_secs(1)));
    assert_eq!(parse_duration("1.2.3s"), None);
    assert_eq!(parse_duration("00"), None);
    assert_eq!(parse_duration("7ns"), Some(Duration::from_nanos(7)));
    assert_eq!(parse_duration("7\u{b5}s"), Some(Duration::from_micros(7)));
    assert_eq!(parse_duration("7\u{3bc}s"), Some(Duration::from_micros(7)));
    assert_eq!(parse_duration("5 s"), None);
    assert_eq!(parse_duration("5S"), None);
    assert_eq!(parse_duration("5s "), None);
    assert_eq!(parse_duration("1e3s"), None);
    assert_eq!(parse_duration("s5s"), None);
    assert_eq!(parse_duration("1s1s1s"), Some(Duration::from_secs(3)));
    assert_eq!(parse_duration("0.5ns"), Some(Duration::from_nanos(1)));
    assert_eq!(parse_duration("0.4ns"), Some(Duration::ZERO));
    assert_eq!(parse_duration("0.49999999999999994ns"), Some(Duration::ZERO));
    assert_eq!(parse_duration("9223372036854775807ns"), Some(Duration::from_nanos(1 << 63)));
    assert_eq!(parse_duration("9223372036854775808ns"), Some(Duration::from_nanos(1 << 63)));
    assert_eq!(parse_duration("9223372036854777857ns"), None);
    assert_eq!(parse_duration(&format!("{}ns", "9".repeat(400))), None);
    assert_eq!(parse_duration(&format!("0.{}1h", "0".repeat(400))), Some(Duration::ZERO));
}

/// A sum in double precision, as the hardware does it.
fn in_hardware(terms: &[(String, &str, f64)]) -> Option<Duration> {
    let mut ns = 0.0f64;
    for (numeral, _, scale) in terms {
        ns += numeral.parse::<f64>().unwrap() * scale;
    }
    if ns <= i64::MAX as f64 {
        Some(Duration::from_nanos(ns.round() as u64))
    } else {
        None
    }
}

#[test]
fn durations_add_up_as_in_hardware() {
    let units = [("ns", 1.0), ("us", 1e3), ("ms", 1e6), ("s", 1e9), ("m", 60e9), ("h", 3600e9)];
    let mut seed: u64 = 12345;
    let mut next = move || {
        seed = seed.wrapping_mul(6364136223846793005).wrapping_add(1442695040888963407);
        seed >> 33
    };
    for _ in 0..2000 {
        let mut terms = Vec::new();
        let mut text = String::new();
        for _ in 0..1 + next() % 3 {
            let (unit, scale) = units[(next() % 6) as usize];
            let whole = next() % [10, 1000, 1_000_000, 1 << 31][(next() % 4) as usize];
            let numeral = match next() % 3 {
                0 => format!("{}", whole),
                1 => format!("{}.{}", whole, next()),
                _ => format!("{}.{:09}{:09}", whole, next(), next()),
            };
            text.push_str(&numeral);
            text.push_str(unit);
            terms.push((numeral, unit, scale));
        }
        assert_eq!(parse_duration(&text), in_hardware(&terms), "{}", text);
    }
}

#[test]
fn no_arguments_give_the_defaults() {
    let o = options(&[]);
    assert_eq!(o.poll, 5_000_000_000);
    assert_eq!(o.stats, 30_000_000_000);
    assert_eq!(o.process, "vmmemWSL");
    assert_eq!(o.log, None);
    assert_eq!(o.config, None);
}

#[test]
fn every_flag_is_taken() {
    let o = options(&[
        "-poll", "2s", "--interval=1m", "-process=vmmem", "--log", "a b.txt", "-config", "c.ini",
    ]);
    assert_eq!(o.poll, 2_000_000_000);
    assert_eq!(o.stats, 60_000_000_000);
    assert_eq!(o.process, "vmmem");
    assert_eq!(o.log.unwrap(), "a b.txt");
    assert_eq!(o.config.unwrap(), "c.ini");
}

#[test]
fn a_flag_can_be_written_in_four_ways() {
    for way in [&["-log", "x"][..], &["--log", "x"], &["-log=x"], &["--log=x"]] {
        assert_eq!(options(way).log.unwrap(), "x");
    }
    assert_eq!(options(&["-log="]).log.unwrap(), "");
    assert_eq!(options(&["-log=a=b"]).log.unwrap(), "a=b");
    assert_eq!(options(&["-log", "-poll"]).log.unwrap(), "-poll");
}

#[test]
fn flags_end_at_the_first_other_argument() {
    for stop in ["--", "-", "", "x", "poll"] {
        let o = options(&["-process", "p", stop, "-process", "q", "-nonsense"]);
        assert_eq!(o.process, "p");
    }
}

#[test]
fn the_second_of_two_equal_flags_counts() {
    assert_eq!(options(&["-process", "a", "-process", "b"]).process, "b");
}

#[test]
fn flags_can_be_given_in_any_order() {
    let a = options(&["-process", "p", "-poll", "1s"]);
    let b = options(&["-poll", "1s", "-process", "p"]);
    assert_eq!((a.process, a.poll), (b.process, b.poll));
}

#[test]
fn help_is_asked_for() {
    for flag in ["-h", "--h", "-help", "--help", "-h=x", "--h=x", "-help=", "--help=x=y"] {
        assert!(args(&[flag, "-nonsense"]).unwrap().is_none());
    }
    assert!(args(&["-poll", "1s", "-h"]).unwrap().is_none());
}

#[test]
fn each_wrong_command_line_has_its_words() {
    let help = usage("vmmemWSL");
    let e = |a: &[&str]| args(a).unwrap_err();
    assert_eq!(e(&["---poll"]), format!("bad flag syntax: ---poll\n\n{}", help));
    assert_eq!(e(&["-=x"]), format!("bad flag syntax: -=x\n\n{}", help));
    assert_eq!(e(&["--=x"]), format!("bad flag syntax: --=x\n\n{}", help));
    assert_eq!(e(&["-log"]), format!("missing value for --log\n\n{}", help));
    assert_eq!(e(&["--poll"]), format!("missing value for --poll\n\n{}", help));
    assert_eq!(e(&["-x=1"]), format!("unknown flag: -x=1\n\n{}", help));
    assert_eq!(e(&["-Poll", "1s"]), format!("unknown flag: -Poll\n\n{}", help));
    assert_eq!(e(&["-poll", "1"]), "bad --poll duration");
    assert_eq!(e(&["--interval=-1s"]), "bad --interval duration");
    assert_eq!(e(&["-poll", "1", "-x"]), "bad --poll duration");
}

#[test]
fn the_help_text_names_the_process() {
    assert_eq!(
        usage("vmmem"),
        "wsltray [--poll 5s] [--interval 30s] [--process vmmem] [--log FILE] [--config FILE]

  --poll         how often to check whether WSL2 is running (cheap)
  --interval     how often to refresh CPU/memory while WSL2 is running
  --process      name of the WSL2 VM process
  --log          append diagnostic log lines to this file
  --config       config file to read (default: wsltray.ini next to the exe)"
    );
}

#[test]
fn the_process_is_named_by_the_version_of_windows() {
    assert_eq!(default_process(false), "vmmemWSL");
    assert_eq!(default_process(true), "vmmem");
}

#[test]
fn the_settings_file_can_set_the_interval() {
    assert_eq!(timer_ms(0, 5_000_000_000), 5000);
    assert_eq!(timer_ms(0, 1_999_999), 1);
    assert_eq!(timer_ms(0, 999_999), 0);
    assert_eq!(timer_ms(2000, 5_000_000_000), 2000);
    assert_eq!(timer_ms(u32::MAX, 0), u32::MAX);
    assert_eq!(timer_ms(0, ((1 << 32) - 1) * 1_000_000), u32::MAX);
    assert_eq!(timer_ms(0, (1 << 32) * 1_000_000), u32::MAX);
    assert_eq!(timer_ms(0, u64::MAX), u32::MAX);
}
