//! Registry values, and the search for the entry of the icon.

use windows_sys::Win32::System::Registry as api;
use wsltray::registry::{
    cannot_open, cannot_write_run_value, icon_entry, icon_settings, read_dword, read_string,
    subkey_name, Promotion, Stage, REG_DWORD, REG_EXPAND_SZ, REG_SZ,
};
use wsltray::utf16::wide;

struct Entry {
    opens: bool,
    path: Option<&'static str>,
    promoted: Option<u32>,
}

/// What a search comes to, and the entries it writes to.
fn search(settings: Option<&[Entry]>, exe: &str) -> (bool, Vec<usize>) {
    let mut p = Promotion::new(exe);
    let mut written = vec![];
    let entries = settings.unwrap_or(&[]);
    loop {
        let i = p.index as usize;
        match p.stage {
            Stage::Root => p.root_opened(settings.is_some()),
            Stage::Name => p.named(i < entries.len()),
            Stage::Key => p.key_opened(entries[i - 1].opens),
            Stage::Path => p.path_read(entries[i - 1].path),
            Stage::Flag => p.flag_read(entries[i - 1].promoted),
            Stage::Write => {
                written.push(i - 1);
                p.flag_written();
            }
            Stage::Done(settled) => return (settled, written),
        }
    }
}

fn entry(path: &'static str, promoted: Option<u32>) -> Entry {
    Entry { opens: true, path: Some(path), promoted }
}

#[test]
fn without_icon_settings_there_is_nothing_to_do() {
    assert_eq!(search(None, "x"), (true, vec![]));
}

#[test]
fn an_entry_that_is_not_there_yet_is_looked_for_again() {
    assert_eq!(search(Some(&[]), "x"), (false, vec![]));
    assert_eq!(search(Some(&[entry("y", None)]), "x"), (false, vec![]));
    let none = Entry { opens: true, path: None, promoted: None };
    assert_eq!(search(Some(&[none]), ""), (false, vec![]));
}

#[test]
fn an_undecided_entry_is_promoted() {
    let entries = [entry("y", None), entry(r"c:\TRAY.exe", None), entry(r"C:\tray.exe", None)];
    assert_eq!(search(Some(&entries), r"C:\Tray.EXE"), (true, vec![1]));
}

#[test]
fn a_decision_of_the_user_stands() {
    assert_eq!(search(Some(&[entry("x", Some(0))]), "x"), (true, vec![]));
    assert_eq!(search(Some(&[entry("x", Some(1))]), "x"), (true, vec![]));
}

#[test]
fn an_entry_that_does_not_open_is_passed_over() {
    let closed = Entry { opens: false, path: Some("x"), promoted: None };
    assert_eq!(search(Some(&[closed, entry("x", None)]), "x"), (true, vec![1]));
}

#[test]
fn only_ascii_letters_are_compared_without_case() {
    assert_eq!(search(Some(&[entry("\u{c4}", None)]), "\u{e4}"), (false, vec![]));
}

#[test]
fn the_types_of_registry_values() {
    assert_eq!(REG_SZ, api::REG_SZ);
    assert_eq!(REG_EXPAND_SZ, api::REG_EXPAND_SZ);
    assert_eq!(REG_DWORD, api::REG_DWORD);
}

#[test]
fn strings_are_read_back() {
    for s in ["", "C:\\x.exe", "\u{1f600} ä"] {
        let mut buf = vec![0x77u16; 1024];
        let u = wide(s);
        buf[..u.len()].copy_from_slice(&u);
        let len = (u.len() * 2) as u32;
        assert_eq!(read_string(0, REG_SZ, &buf, len).unwrap(), s);
        assert_eq!(read_string(0, REG_EXPAND_SZ, &buf, len).unwrap(), s);
        assert_eq!(read_string(0, REG_DWORD, &buf, len), None);
        assert_eq!(read_string(2, REG_SZ, &buf, len), None);
    }
}

#[test]
fn strings_may_lack_a_terminator() {
    let buf = [0x61u16, 0x62, 0x63];
    assert_eq!(read_string(0, REG_SZ, &buf, 6).unwrap(), "abc");
    assert_eq!(read_string(0, REG_SZ, &buf, 5).unwrap(), "ab");
    assert_eq!(read_string(0, REG_SZ, &buf, 100).unwrap(), "abc");
    assert_eq!(read_string(0, REG_SZ, &buf, 0).unwrap(), "");
    assert_eq!(read_string(0, REG_SZ, &[0x61, 0, 0x62], 6).unwrap(), "a");
    assert_eq!(read_string(0, REG_SZ, &[0xd800, 0x61], 4).unwrap(), "\u{fffd}a");
}

#[test]
fn numbers_are_read() {
    assert_eq!(read_dword(0, REG_DWORD, 7), Some(7));
    assert_eq!(read_dword(0, REG_SZ, 7), None);
    assert_eq!(read_dword(2, REG_DWORD, 7), None);
}

#[test]
fn names_of_subkeys() {
    let name = [0x31u16, 0x32, 0x33, 0];
    assert_eq!(subkey_name(0, &name, 3).unwrap(), "123");
    assert_eq!(subkey_name(0, &name, 0).unwrap(), "");
    assert_eq!(subkey_name(259, &name, 9), None);
    assert_eq!(icon_settings(), r"Control Panel\NotifyIconSettings");
    assert_eq!(icon_entry("123"), r"Control Panel\NotifyIconSettings\123");
}

#[test]
fn registry_errors_have_their_words() {
    assert_eq!(cannot_open(r"Software\Run", 5), r"cannot open Software\Run (5)");
    assert_eq!(cannot_write_run_value(5), "cannot write Run value (5)");
}
