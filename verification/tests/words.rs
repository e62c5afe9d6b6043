//! Characters, paths, commands and log lines.

use wsltray::cmdline::launch_command;
use wsltray::log::{log_line, Time};
use wsltray::path::win32_path;
use wsltray::shell::{open_explorer, open_terminal, shell_open, wide_params, Open};
use wsltray::text::{chars_of, is_whitespace, push_decimal_signed, split_once, strip_prefix, trim};
use wsltray::utf16::{decode_utf16, encode_utf16, from_utf16_lossy, set_tip, wide};
use wsltray::wsl::{
    call_failed, quote_arg, run_wsl, shutdown_wsl, spawn_wsl, spawned, start_wsl, wsl_exe_path,
};

fn units(s: &str) -> Vec<u16> {
    s.encode_utf16().collect()
}

fn terminated(s: &str) -> Vec<u16> {
    let mut u = units(s);
    u.push(0);
    u
}

fn parts(o: Open) -> (String, String) {
    (o.file, o.params)
}

#[test]
fn quotes_args_only_when_needed() {
    assert_eq!(quote_arg("Ubuntu"), "Ubuntu");
    assert_eq!(quote_arg("Ubuntu 22.04"), "\"Ubuntu 22.04\"");
    assert_eq!(quote_arg(""), "");
}

#[test]
fn any_white_space_is_quoted() {
    assert_eq!(quote_arg("a\tb"), "\"a\tb\"");
    assert_eq!(quote_arg("a\u{3000}b"), "\"a\u{3000}b\"");
    assert_eq!(quote_arg("a\u{200b}b"), "a\u{200b}b");
    assert_eq!(quote_arg(" "), "\" \"");
}

#[test]
fn white_space_is_that_of_unicode() {
    for c in '\0'..=char::MAX {
        assert_eq!(is_whitespace(c), c.is_whitespace(), "{:?}", c);
    }
}

#[test]
fn the_commands_of_wsl() {
    assert_eq!(shutdown_wsl(), "--shutdown");
    assert_eq!(start_wsl(""), "-- exit");
    assert_eq!(start_wsl("Ubuntu"), "--distribution Ubuntu -- exit");
    assert_eq!(start_wsl("My Linux"), "--distribution \"My Linux\" -- exit");
}

#[test]
fn wsl_is_started_from_the_system_directory() {
    let mut dir = [0u16; 260];
    let name = units("C:\\Windows\\System32");
    dir[..name.len()].copy_from_slice(&name);
    assert_eq!(
        wsl_exe_path(&dir, name.len(), 5),
        Ok(terminated("C:\\Windows\\System32\\wsl.exe"))
    );
    let launch = spawn_wsl("--shutdown", &dir, name.len(), 5).unwrap();
    assert_eq!(launch.exe, terminated("C:\\Windows\\System32\\wsl.exe"));
    assert_eq!(launch.cmdline, terminated("wsl.exe --shutdown"));
    assert_eq!(wsl_exe_path(&dir, 0, 5).unwrap_err(), "GetSystemDirectory failed (5)");
    assert_eq!(wsl_exe_path(&dir, 260, 0).unwrap_err(), "GetSystemDirectory failed (0)");
    assert!(wsl_exe_path(&dir, 259, 0).is_ok());
    assert_eq!(spawn_wsl("x", &dir, 300, 122).unwrap_err(), "GetSystemDirectory failed (122)");
}

#[test]
fn what_came_of_a_command() {
    assert_eq!(spawned("-- exit", 1, 9), Ok(()));
    assert_eq!(
        spawned("-- exit", 0, 2),
        Err("wsl.exe -- exit: CreateProcess failed (2)".to_string())
    );
    assert_eq!(run_wsl("-- exit", 0), Ok(()));
    assert_eq!(
        run_wsl("--shutdown", 4294967295),
        Err("wsl.exe --shutdown: exit status 4294967295".to_string())
    );
    assert_eq!(call_failed("CreateWindowEx", 1400), "CreateWindowEx failed (1400)");
}

#[test]
fn win32_paths() {
    assert_eq!(
        win32_path(r"\\?\C:\Tools\wsltray.exe"),
        r"C:\Tools\wsltray.exe"
    );
    assert_eq!(
        win32_path(r"\\?\UNC\server\share\wsltray.exe"),
        r"\\server\share\wsltray.exe"
    );
    assert_eq!(win32_path(r"C:\Tools\wsltray.exe"), r"C:\Tools\wsltray.exe");
    assert_eq!(win32_path(r"\\?\Volume{1}\x.exe"), r"\\?\Volume{1}\x.exe");
}

#[test]
fn paths_at_the_edges() {
    assert_eq!(win32_path(""), "");
    assert_eq!(win32_path(r"\\?\"), r"\\?\");
    assert_eq!(win32_path(r"\\?\UNC\"), r"\\");
    assert_eq!(win32_path(r"\\?\unc\x"), r"\\?\unc\x");
    assert_eq!(win32_path(r"\\?\C:"), "C:");
    assert_eq!(win32_path(r"\\?\é:\x"), r"\\?\é:\x");
    assert_eq!(win32_path(r"\\server\share"), r"\\server\share");
}

#[test]
fn tooltip_fits() {
    let tip = set_tip(&"x".repeat(500));
    assert_eq!(tip[126], 'x' as u16);
    assert_eq!(tip[127], 0);
    let tip = set_tip("short");
    assert_eq!(tip[5], 0);
}

#[test]
fn a_tooltip_is_padded_with_zeros() {
    let tip = set_tip("a\u{1f600}b");
    assert_eq!(tip.len(), 128);
    assert_eq!(tip[..4], units("a\u{1f600}b")[..]);
    assert!(tip[4..].iter().all(|&u| u == 0));
    assert!(set_tip("").iter().all(|&u| u == 0));
    assert_eq!(set_tip(&"y".repeat(127))[..127], units(&"y".repeat(127))[..]);
}

#[test]
fn utf16_both_ways() {
    for s in ["", "abc", "ÄÖ\u{ffff}", "\u{10000}\u{10ffff}x", "a\0b"] {
        assert_eq!(encode_utf16(s), units(s));
        assert_eq!(wide(s), terminated(s));
        assert_eq!(from_utf16_lossy(&units(s)), s);
    }
    for c in '\0'..=char::MAX {
        let s = c.to_string();
        assert_eq!(encode_utf16(&s), units(&s));
        assert_eq!(decode_utf16(&units(&s)), vec![c]);
    }
    for broken in [&[0xd800u16][..], &[0xdc00], &[0xd800, 0x41], &[0xdbff, 0xd800, 0xdc00]] {
        assert_eq!(from_utf16_lossy(broken), String::from_utf16_lossy(broken));
    }
}

#[test]
fn what_explorer_opens() {
    assert_eq!(parts(open_explorer("")), (r"\\wsl.localhost".into(), "".into()));
    assert_eq!(
        parts(open_explorer("My Linux")),
        (r"\\wsl.localhost\My Linux".into(), "".into())
    );
}

#[test]
fn what_terminal_opens() {
    assert_eq!(parts(open_terminal("", "")), ("wsl.exe".into(), "--cd ~".into()));
    assert_eq!(
        parts(open_terminal("", "My Linux")),
        ("wsl.exe".into(), "--distribution \"My Linux\" --cd ~".into())
    );
    assert_eq!(
        parts(open_terminal("dev", "Ubuntu")),
        ("wt.exe".into(), "--profile dev".into())
    );
    assert_eq!(
        parts(open_terminal("my profile", "")),
        ("wt.exe".into(), "--profile \"my profile\"".into())
    );
}

#[test]
fn what_the_shell_answers() {
    assert_eq!(shell_open("wt.exe", 33), None);
    assert_eq!(shell_open("wt.exe", 32).unwrap(), "Could not open wt.exe: error code 32");
    assert_eq!(shell_open("x", 0).unwrap(), "Could not open x: error code 0");
    assert_eq!(shell_open("x", -5).unwrap(), "Could not open x: error code -5");
    assert_eq!(
        shell_open("x", isize::MIN).unwrap(),
        format!("Could not open x: error code {}", isize::MIN)
    );
    assert_eq!(wide_params(""), None);
    assert_eq!(wide_params("--cd ~").unwrap(), terminated("--cd ~"));
}

/// The program and the arguments of a command line, by the rules of the C
/// runtime.
fn take_apart(line: &str) -> Vec<String> {
    let cs: Vec<char> = line.chars().collect();
    let mut out = vec![String::new()];
    let mut within = false;
    let mut i = 0;
    while i < cs.len() && (within || (cs[i] != ' ' && cs[i] != '\t')) {
        if cs[i] == '"' {
            within = !within;
        } else {
            out[0].push(cs[i]);
        }
        i += 1;
    }
    loop {
        while i < cs.len() && (cs[i] == ' ' || cs[i] == '\t') {
            i += 1;
        }
        if i == cs.len() {
            return out;
        }
        let mut arg = String::new();
        within = false;
        while i < cs.len() && (within || (cs[i] != ' ' && cs[i] != '\t')) {
            let run = cs[i..].iter().take_while(|&&c| c == '\\').count();
            if run > 0 {
                i += run;
                if i < cs.len() && cs[i] == '"' {
                    arg.push_str(&"\\".repeat(run / 2));
                    if run % 2 == 1 {
                        arg.push('"');
                        i += 1;
                    }
                } else {
                    arg.push_str(&"\\".repeat(run));
                }
                if run % 2 == 1 || i == cs.len() || cs[i] != '"' {
                    continue;
                }
            }
            if cs[i] == '"' {
                if within && i + 1 < cs.len() && cs[i + 1] == '"' {
                    arg.push('"');
                    i += 1;
                } else {
                    within = !within;
                }
            } else {
                arg.push(cs[i]);
            }
            i += 1;
        }
        out.push(arg);
    }
}

#[test]
fn the_launch_is_repeated_word_for_word() {
    let args = |a: &[&str]| a.iter().map(|s| s.to_string()).collect::<Vec<String>>();
    assert_eq!(launch_command(r"C:\a b\w.exe", &args(&[])), "\"C:\\a b\\w.exe\"");
    assert_eq!(
        launch_command("w.exe", &args(&["-poll", "2s", "-log=x"])),
        "\"w.exe\" -poll 2s -log=x"
    );
    assert_eq!(launch_command("w.exe", &args(&[""])), "\"w.exe\" \"\"");
    assert_eq!(
        launch_command(r"C:\Tools\wsltray.exe", &args(&["-log", r"C:\My Logs\w.log"])),
        r#""C:\Tools\wsltray.exe" -log "C:\My Logs\w.log""#
    );
    assert_eq!(launch_command("w", &args(&[r"C:\My Logs\"])), r#""w" "C:\My Logs\\""#);
    assert_eq!(launch_command("w", &args(&[r"C:\Logs\"])), r#""w" C:\Logs\"#);
    assert_eq!(launch_command("w", &args(&[r#"a"b"#, r#"\""#])), r#""w" a\"b \\\""#);
    assert_eq!(launch_command("w", &args(&[r#"a \" b\\"#])), r#""w" "a \\\" b\\\\""#);
}

#[test]
fn any_arguments_survive_the_launch() {
    let alphabet = ['a', ' ', '\t', '"', '\\', '\u{3000}', '='];
    let mut seed: u64 = 5;
    let mut next = move || {
        seed = seed.wrapping_mul(6364136223846793005).wrapping_add(1442695040888963407);
        (seed >> 33) as usize
    };
    for _ in 0..5000 {
        let args: Vec<String> = (0..next() % 4)
            .map(|_| (0..next() % 6).map(|_| alphabet[next() % alphabet.len()]).collect())
            .collect();
        let exe = [r"C:\a b\w.exe", "w", r"C:\"][next() % 3];
        let mut expected = vec![exe.to_string()];
        expected.extend(args.iter().cloned());
        assert_eq!(take_apart(&launch_command(exe, &args)), expected);
    }
}

#[test]
fn log_lines_start_with_the_time() {
    let t = Time { year: 2024, month: 3, day: 9, hour: 7, minute: 5, second: 59 };
    assert_eq!(log_line(t, "hello"), "2024/03/09 07:05:59 hello\n");
    let t = Time { year: 7, month: 12, day: 31, hour: 23, minute: 0, second: 0 };
    assert_eq!(log_line(t, ""), "0007/12/31 23:00:00 \n");
    let t = Time { year: 65535, month: 100, day: 1000, hour: 10, minute: 11, second: 12 };
    assert_eq!(log_line(t, "x"), "65535/100/1000 10:11:12 x\n");
}

#[test]
fn characters_are_trimmed_and_split() {
    let cs = chars_of(" a = b ");
    assert_eq!(trim(&cs), ['a', ' ', '=', ' ', 'b']);
    assert_eq!(trim(&[' ', '\n']), []);
    assert_eq!(split_once(&cs, '='), Some((&cs[..3], &cs[4..])));
    assert_eq!(split_once(&cs, 'x'), None);
    assert_eq!(strip_prefix(&cs, " a "), Some(&cs[3..]));
    assert_eq!(strip_prefix(&cs, "a"), None);
    assert_eq!(strip_prefix(&cs, ""), Some(&cs[..]));
    assert_eq!(strip_prefix(&cs[..1], "  "), None);
}

#[test]
fn numbers_with_a_sign() {
    for n in [0, 7, -1, 1234567890123, i64::MAX, i64::MIN] {
        let mut s = "n=".to_string();
        push_decimal_signed(&mut s, n);
        assert_eq!(s, format!("n={}", n));
    }
}
