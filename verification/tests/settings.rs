//! The settings file.

use wsltray::config::{default_path, parse_bool, Config};

fn flag(s: &str) -> Option<bool> {
    let cs: Vec<char> = s.chars().collect();
    parse_bool(&cs)
}

#[test]
fn parses_the_documented_example() {
    let cfg = Config::parse(
        "autostart = false\nautoboot = false\ndistroname = Ubuntu\nwtprofile =\nicon = auto\nrefreshms = 5000\n",
    );
    assert_eq!(
        cfg,
        Config {
            autostart: false,
            autoboot: false,
            distroname: "Ubuntu".into(),
            wtprofile: String::new(),
            icon: "auto".into(),
            refreshms: 5000,
        }
    );
}

#[test]
fn defaults_are_all_off() {
    assert_eq!(Config::parse(""), Config::default());
    assert!(!Config::default().autostart);
    assert!(!Config::default().autoboot);
    assert_eq!(Config::default().distroname, "");
    assert_eq!(Config::default().wtprofile, "");
    assert_eq!(Config::default().icon, "");
    assert_eq!(Config::default().refreshms, 0);
}

#[test]
fn ignores_comments_blank_lines_and_unknown_keys() {
    let cfg = Config::parse(
        "# comment\n; also a comment\n\nautostart = true\nsome_future_key = 42\n",
    );
    assert!(cfg.autostart);
}

#[test]
fn is_forgiving_about_case_and_spacing() {
    let cfg = Config::parse(
        "  AUTOSTART=TRUE  \nAUTOBOOT=TRUE\nDistroName = Ubuntu\nWtProfile = Ubuntu-dev\nIcon = Mono\nRefreshMs = 2000\n",
    );
    assert!(cfg.autostart);
    assert!(cfg.autoboot);
    assert_eq!(cfg.distroname, "Ubuntu");
    assert_eq!(cfg.wtprofile, "Ubuntu-dev");
    assert_eq!(cfg.icon, "Mono");
    assert_eq!(cfg.refreshms, 2000);
}

#[test]
fn keeps_default_on_bad_bool_value() {
    let cfg = Config::parse("autostart = maybe\nautoboot = maybe\n");
    assert!(!cfg.autostart);
    assert!(!cfg.autoboot);
}

#[test]
fn keeps_default_on_bad_refreshms_value() {
    let cfg = Config::parse("refreshms = soon\n");
    assert_eq!(cfg.refreshms, 0);
}

#[test]
fn missing_file_yields_defaults() {
    assert_eq!(Config::load(None), Config::default());
}

#[test]
fn a_file_that_can_be_read_is_parsed() {
    assert_eq!(Config::load(Some("icon = mono")).icon, "mono");
}

#[test]
fn the_settings_file_is_next_to_the_executable() {
    let path = |dir: Option<&str>| {
        let units = dir.map(|d| d.encode_utf16().collect::<Vec<u16>>());
        String::from_utf16(&default_path(units.as_deref())).unwrap()
    };
    assert_eq!(path(None), "wsltray.ini");
    assert_eq!(path(Some("")), "wsltray.ini");
    assert_eq!(path(Some(r"C:\Tools")), r"C:\Tools\wsltray.ini");
    assert_eq!(path(Some(r"C:\")), r"C:\wsltray.ini");
    assert_eq!(path(Some("C:/Tools/")), "C:/Tools/wsltray.ini");
    assert_eq!(path(Some("C:")), "C:wsltray.ini");
    assert_eq!(path(Some("1:")), r"1:\wsltray.ini");
    assert_eq!(default_path(Some(&[0xd800]))[..2], [0xd800, 0x5c]);
}

#[test]
fn a_bad_value_keeps_the_one_before_it() {
    let cfg = Config::parse("autostart = yes\nautostart = maybe\nrefreshms=7\nrefreshms=-1\n");
    assert!(cfg.autostart);
    assert_eq!(cfg.refreshms, 7);
}

#[test]
fn the_last_value_of_a_key_counts() {
    let cfg = Config::parse("distroname = a\ndistroname = b\nautoboot = 1\nautoboot = off");
    assert_eq!(cfg.distroname, "b");
    assert!(!cfg.autoboot);
    assert_eq!(Config::parse("distroname = a\ndistroname =").distroname, "");
}

#[test]
fn lines_may_end_in_a_carriage_return() {
    let cfg = Config::parse("distroname = Ubuntu\r\nrefreshms = 10\r\n");
    assert_eq!(cfg.distroname, "Ubuntu");
    assert_eq!(cfg.refreshms, 10);
}

#[test]
fn only_the_first_equals_sign_splits() {
    assert_eq!(Config::parse("wtprofile = a = b").wtprofile, "a = b");
    assert_eq!(Config::parse("wtprofile").wtprofile, "");
    assert_eq!(Config::parse("= wtprofile"), Config::default());
}

#[test]
fn a_comment_needs_its_sign_at_the_start() {
    assert_eq!(Config::parse("icon = mono # not a comment").icon, "mono # not a comment");
    assert_eq!(Config::parse("  ; icon = mono").icon, "");
}

#[test]
fn booleans() {
    for s in ["true", "1", "yes", "on", "TRUE", "Yes", "oN"] {
        assert_eq!(flag(s), Some(true), "{}", s);
    }
    for s in ["false", "0", "no", "off", "FALSE", "No", "oFF"] {
        assert_eq!(flag(s), Some(false), "{}", s);
    }
    for s in ["", " true", "10", "y", "truee", "ＯＮ"] {
        assert_eq!(flag(s), None, "{}", s);
    }
}

#[test]
fn refresh_interval_is_a_32_bit_number() {
    assert_eq!(Config::parse("refreshms = 4294967295").refreshms, 4294967295);
    assert_eq!(Config::parse("refreshms = 4294967296").refreshms, 0);
    assert_eq!(Config::parse("refreshms = +5").refreshms, 5);
    assert_eq!(Config::parse("refreshms = 007").refreshms, 7);
    assert_eq!(Config::parse("refreshms = +").refreshms, 0);
    assert_eq!(Config::parse("refreshms =").refreshms, 0);
}

#[test]
fn keys_do_not_touch_each_other() {
    let all = Config::parse(
        "autostart=1\nautoboot=1\ndistroname=d\nwtprofile=w\nicon=i\nrefreshms=9\n",
    );
    let mut other = all.clone();
    assert_eq!(all, other);
    other.icon = "j".into();
    let more = Config::parse(
        "autostart=1\nautoboot=1\ndistroname=d\nwtprofile=w\nicon=i\nrefreshms=9\nicon=j\n",
    );
    assert_eq!(more, other);
}

#[test]
fn white_space_around_keys_and_values_is_that_of_unicode() {
    assert_eq!(Config::parse("\u{3000}icon\u{a0}=\u{2003}mono\u{2028}").icon, "mono");
    assert_eq!(Config::parse("icon =\u{200b}mono").icon, "\u{200b}mono");
}
