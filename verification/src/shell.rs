//! What the shell is asked to open.

use vstd::prelude::*;

use crate::cmdline;
use crate::text;
use crate::utf16;
use crate::wsl;

verus! {

/// Results of `ShellExecuteW` above this one mean success.
pub const LAST_SHELL_ERROR: isize = 32;

/// Something to open: a file, and parameters for it (none if empty).
#[derive(Debug)]
pub struct Open {
    pub file: String,
    pub params: String,
}

/// [`Open`] with the texts that its strings hold.
pub struct OpenView {
    pub file: Seq<char>,
    pub params: Seq<char>,
}

impl View for Open {
    type V = OpenView;

    open spec fn view(&self) -> OpenView {
        OpenView { file: self.file@, params: self.params@ }
    }
}

/// The files of a distribution, or the list of all distributions.
pub open spec fn explorer_target(distro: Seq<char>) -> OpenView {
    OpenView {
        file: if distro.len() == 0 {
            "\\\\wsl.localhost"@
        } else {
            "\\\\wsl.localhost\\"@ + distro
        },
        params: ""@,
    }
}

/// A terminal: the given Windows Terminal profile, or else `wsl.exe` in the
/// default terminal, in the given distribution if there is one.
pub open spec fn terminal_target(wtprofile: Seq<char>, distro: Seq<char>) -> OpenView {
    if wtprofile.len() > 0 {
        OpenView { file: "wt.exe"@, params: "--profile "@ + wsl::quoted(wtprofile) }
    } else if distro.len() > 0 {
        OpenView {
            file: "wsl.exe"@,
            params: "--distribution "@ + wsl::quoted(distro) + " --cd ~"@,
        }
    } else {
        OpenView { file: "wsl.exe"@, params: "--cd ~"@ }
    }
}

/// A terminal profile is named in one argument, whatever white space is in
/// the name.
pub proof fn law_terminal_names_the_profile(wtprofile: Seq<char>, distro: Seq<char>)
    requires
        wsl::quotable(wtprofile),
    ensures
        cmdline::arguments(terminal_target(wtprofile, distro).params) == seq![
            "--profile"@,
            wtprofile,
        ],
{
    reveal_strlit("--profile ");
    reveal_strlit("--profile");
    let name = wsl::quoted(wtprofile);
    assert("--profile "@ + name =~= "--profile"@ + (seq![' '] + name));
    wsl::lemma_before_space("--profile"@, name);
    wsl::law_quoted_is_one_word(wtprofile, seq![]);
    assert(name + Seq::<char>::empty() =~= name);
    assert(cmdline::arguments(terminal_target(wtprofile, distro).params) =~= seq![
        "--profile"@,
        wtprofile,
    ]);
}

/// A terminal without a profile starts in the home directory of the Linux
/// user, and names the distribution in one argument.
pub proof fn law_terminal_names_the_distribution(distro: Seq<char>)
    requires
        wsl::quotable(distro),
    ensures
        cmdline::arguments(terminal_target(seq![], distro).params) == seq![
            "--distribution"@,
            distro,
            "--cd"@,
            "~"@,
        ],
{
    reveal_strlit("--distribution ");
    reveal_strlit("--distribution");
    reveal_strlit(" --cd ~");
    reveal_strlit("--cd");
    reveal_strlit("~");
    let end = "--cd"@ + (seq![' '] + "~"@);
    let from_name = wsl::quoted(distro) + (seq![' '] + end);
    assert(terminal_target(seq![], distro).params =~= "--distribution"@ + (seq![' '] + from_name));
    wsl::lemma_before_space("--distribution"@, from_name);
    wsl::lemma_before_space(distro, end);
    wsl::lemma_before_space("--cd"@, "~"@);
    wsl::law_quoted_is_one_word("~"@, seq![]);
    assert("~"@ + Seq::<char>::empty() =~= "~"@);
    assert(cmdline::arguments(terminal_target(seq![], distro).params) =~= seq![
        "--distribution"@,
        distro,
        "--cd"@,
        "~"@,
    ]);
}

/// Explorer is shown the share of WSL, or the folder in it that has the whole
/// name of the distribution.
pub proof fn law_explorer_shows_the_distribution(distro: Seq<char>)
    ensures
        explorer_target(distro).params.len() == 0,
        distro.len() == 0 ==> explorer_target(distro).file == "\\\\wsl.localhost"@,
        distro.len() > 0 ==> explorer_target(distro).file == "\\\\wsl.localhost"@ + seq!['\\']
            + distro,
{
    reveal_strlit("");
    reveal_strlit("\\\\wsl.localhost");
    reveal_strlit("\\\\wsl.localhost\\");
    assert("\\\\wsl.localhost\\"@ =~= "\\\\wsl.localhost"@ + seq!['\\']);
}

/// A profile is opened in Windows Terminal, whatever the distribution; without
/// one `wsl.exe` is, in the distribution if there is one. The names are put
/// in quotes where that is needed, and are otherwise handed on as they are.
pub proof fn law_which_terminal_is_opened(wtprofile: Seq<char>, distro: Seq<char>)
    ensures
        ({
            let t = terminal_target(wtprofile, distro);
            &&& wtprofile.len() > 0 ==> t.file == "wt.exe"@ && t.params == "--profile "@
                + wsl::quoted(wtprofile)
            &&& wtprofile.len() == 0 ==> t.file == "wsl.exe"@
            &&& wtprofile.len() == 0 && distro.len() > 0 ==> t.params == "--distribution "@
                + wsl::quoted(distro) + " --cd ~"@
            &&& wtprofile.len() == 0 && distro.len() == 0 ==> t.params == seq![
                '-',
                '-',
                'c',
                'd',
                ' ',
                '~',
            ]
        }),
{
    reveal_strlit("--cd ~");
    assert("--cd ~"@ =~= seq!['-', '-', 'c', 'd', ' ', '~']);
}

/// What to tell the user after `ShellExecuteW` returned `result` for `file`.
pub open spec fn open_error(file: Seq<char>, result: int) -> Option<Seq<char>> {
    if result <= LAST_SHELL_ERROR {
        Some("Could not open "@ + file + ": error code "@ + text::decimal_signed(result))
    } else {
        None
    }
}

/// Results above 32 mean success. Any other is reported, with the file and
/// with the result as a number at the end, behind a minus sign where it is
/// negative.
pub proof fn law_failure_to_open_is_reported(file: Seq<char>, result: int)
    ensures
        open_error(file, result) is Some <==> result <= 32,
        open_error(file, result) matches Some(e) ==> {
            let n = 15 + file.len() as int + 13;
            &&& e.take(15) == "Could not open "@
            &&& e.subrange(15, n - 13) == file
            &&& e.subrange(n - 13, n) == ": error code "@
            &&& result >= 0 ==> text::digits(e.skip(n)) && text::number(e.skip(n)) == result
            &&& result < 0 ==> e[n] == '-' && text::digits(e.skip(n + 1)) && text::number(
                e.skip(n + 1),
            ) == -result
        },
{
    reveal_strlit("Could not open ");
    reveal_strlit(": error code ");
    if let Some(e) = open_error(file, result) {
        let n = 15 + file.len() as int + 13;
        let d = text::decimal_signed(result);
        assert(e.take(15) =~= "Could not open "@);
        assert(e.subrange(15, n - 13) =~= file);
        assert(e.subrange(n - 13, n) =~= ": error code "@);
        assert(e.skip(n) =~= d);
        if result >= 0 {
            text::law_decimal_is_read_back(result as nat);
        } else {
            text::law_decimal_is_read_back((-result) as nat);
            assert(e[n] == d[0]);
            assert(e.skip(n + 1) =~= text::decimal((-result) as nat));
        }
    }
}

/// Parameters as a NUL-terminated wide string, if there are any.
pub open spec fn wide_or_none(params: Seq<char>) -> Option<Seq<u16>> {
    if params.len() == 0 {
        None
    } else {
        Some(utf16::encoded(params).push(0))
    }
}

/// Parameters are handed over just where there are any, and what is handed
/// over stands for them up to its last unit, which is NUL.
pub proof fn law_parameters_are_handed_over(params: Seq<char>)
    ensures
        wide_or_none(params) is Some <==> params.len() > 0,
        wide_or_none(params) matches Some(u) ==> u.last() == 0 && utf16::decoded(u.drop_last())
            == params,
{
    utf16::law_decode_encode(params);
    let u = utf16::encoded(params);
    assert(u.push(0).drop_last() =~= u);
}

/// "Explorer": opens `\\wsl.localhost\<distro>`, or `\\wsl.localhost`
/// (letting Explorer list every distribution) when none is configured.
pub fn open_explorer(distro: &str) -> (r: Open)
    ensures
        r@ == explorer_target(distro@),
{
    let cs = text::chars_of(distro);
    if cs.len() == 0 {
        return Open { file: "\\\\wsl.localhost".to_string(), params: "".to_string() };
    }
    let mut file = "\\\\wsl.localhost\\".to_string();
    text::push_str(&mut file, distro);
    Open { file, params: "".to_string() }
}

/// "Terminal": with a Windows Terminal profile configured, opens that profile
/// directly. Otherwise opens the default terminal running `wsl.exe`; `--cd ~`
/// is always added so the session starts in the home directory of the Linux
/// user.
pub fn open_terminal(wtprofile: &str, distro: &str) -> (r: Open)
    ensures
        r@ == terminal_target(wtprofile@, distro@),
{
    let profile = text::chars_of(wtprofile);
    if profile.len() > 0 {
        let mut params = "--profile ".to_string();
        text::push_str(&mut params, wsl::quote_arg(wtprofile).as_str());
        return Open { file: "wt.exe".to_string(), params };
    }
    let cs = text::chars_of(distro);
    if cs.len() > 0 {
        let mut params = "--distribution ".to_string();
        text::push_str(&mut params, wsl::quote_arg(distro).as_str());
        text::push_str(&mut params, " --cd ~");
        return Open { file: "wsl.exe".to_string(), params };
    }
    Open { file: "wsl.exe".to_string(), params: "--cd ~".to_string() }
}

/// Parameters as `ShellExecuteW` takes them: a NUL-terminated wide string, or
/// nothing at all if there are none.
pub fn wide_params(params: &str) -> (r: Option<Vec<u16>>)
    ensures
        match r {
            Some(u) => wide_or_none(params@) == Some(u@),
            None => wide_or_none(params@) is None,
        },
{
    let cs = text::chars_of(params);
    if cs.len() == 0 {
        None
    } else {
        Some(utf16::wide(params))
    }
}

/// What to tell the user after `ShellExecuteW` returned `result` for `file`:
/// nothing if it succeeded.
pub fn shell_open(file: &str, result: isize) -> (r: Option<String>)
    ensures
        match r {
            Some(e) => open_error(file@, result as int) == Some(e@),
            None => open_error(file@, result as int) is None,
        },
{
    if result <= LAST_SHELL_ERROR {
        let mut e = "Could not open ".to_string();
        text::push_str(&mut e, file);
        text::push_str(&mut e, ": error code ");
        text::push_decimal_signed(&mut e, result as i64);
        Some(e)
    } else {
        None
    }
}

} // verus!
