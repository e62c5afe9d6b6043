//! The `wsl.exe` commands: what is run, and what is made of the outcome.
//!
//! The VM is booted by running a trivial command inside it, exactly as typing
//! `wsl -- exit` would, and stopped with `wsl --shutdown`.

use vstd::prelude::*;

use crate::cmdline;
use crate::text;
use crate::utf16;

verus! {

/// `s` in double quotes if it contains white space.
pub open spec fn quoted(s: Seq<char>) -> Seq<char> {
    if cmdline::has_white(s) {
        seq!['"'] + s + seq!['"']
    } else {
        s
    }
}

/// The arguments that boot the VM and the distribution `distro` in it, or the
/// one that WSL picks by default.
pub open spec fn start_args(distro: Seq<char>) -> Seq<char> {
    if distro.len() == 0 {
        "-- exit"@
    } else {
        "--distribution "@ + quoted(distro) + " -- exit"@
    }
}

/// Says that the call of the Win32 function `name` failed with `code`.
pub open spec fn failure(name: Seq<char>, code: nat) -> Seq<char> {
    name + " failed ("@ + text::decimal(code) + ")"@
}

/// The full path of `wsl.exe` in the system directory, NUL-terminated.
pub open spec fn exe_path(dir: Seq<u16>) -> Seq<u16> {
    dir + utf16::encoded("\\wsl.exe"@).push(0)
}

/// Whether quoting keeps a name together: it is not empty, holds no quotes,
/// and does not end in a backslash that would escape the closing quote.
pub open spec fn quotable(s: Seq<char>) -> bool {
    &&& s.len() > 0
    &&& !s.contains('"')
    &&& cmdline::has_white(s) ==> s.last() != '\\'
}

/// Quoting keeps a name together: it is one argument wherever it stands,
/// before a space or at the end.
pub proof fn law_quoted_is_one_word(s: Seq<char>, tail: Seq<char>)
    requires
        quotable(s),
        cmdline::ends_argument(tail),
    ensures
        cmdline::arguments(quoted(s) + tail) == seq![s] + cmdline::behind(tail),
{
    cmdline::law_name_is_one_argument(s, tail);
}

/// A name in front of a space, and what follows it.
pub proof fn lemma_before_space(s: Seq<char>, rest: Seq<char>)
    requires
        quotable(s),
    ensures
        cmdline::arguments(quoted(s) + (seq![' '] + rest)) == seq![s] + cmdline::arguments(rest),
{
    law_quoted_is_one_word(s, seq![' '] + rest);
    assert((seq![' '] + rest).skip(1) =~= rest);
}

/// The command that boots a distribution names it in one argument, whatever
/// white space is in the name.
pub proof fn law_start_names_the_distribution(distro: Seq<char>)
    requires
        quotable(distro),
    ensures
        cmdline::arguments(start_args(distro)) == seq!["--distribution"@, distro, "--"@, "exit"@],
{
    reveal_strlit("--distribution ");
    reveal_strlit("--distribution");
    reveal_strlit(" -- exit");
    reveal_strlit("--");
    reveal_strlit("exit");
    let end = "--"@ + (seq![' '] + "exit"@);
    let from_name = quoted(distro) + (seq![' '] + end);
    assert(start_args(distro) =~= "--distribution"@ + (seq![' '] + from_name));
    lemma_before_space("--distribution"@, from_name);
    lemma_before_space(distro, end);
    lemma_before_space("--"@, "exit"@);
    law_quoted_is_one_word("exit"@, seq![]);
    assert("exit"@ + Seq::<char>::empty() =~= "exit"@);
    assert(cmdline::arguments(start_args(distro)) =~= seq![
        "--distribution"@,
        distro,
        "--"@,
        "exit"@,
    ]);
}

/// What quoting adds can be taken away again: a name without quotes is found
/// between them, or stands as it is.
pub proof fn law_quoting_keeps_the_name(s: Seq<char>)
    requires
        !s.contains('"'),
    ensures
        quoted(s) == s || quoted(s).subrange(1, quoted(s).len() - 1) == s,
        quoted(s).contains('"') <==> quoted(s) != s,
{
    if quoted(s) != s {
        assert(quoted(s)[0] == '"');
        assert(quoted(s).subrange(1, quoted(s).len() - 1) =~= s);
    }
}

/// A name is put in quotes where any of its characters is white space, and
/// stands as it is where none is.
pub proof fn law_white_space_is_quoted(s: Seq<char>, i: int)
    requires
        0 <= i < s.len(),
    ensures
        text::whitespace(s[i]) ==> quoted(s) == seq!['"'] + s + seq!['"'],
        (forall|j: int| 0 <= j < s.len() ==> !text::whitespace(#[trigger] s[j])) ==> quoted(s) == s,
{
}

/// The command that boots WSL names the distribution as it is, in quotes
/// where that is needed, and none where none is given.
pub proof fn law_start_command(distro: Seq<char>)
    ensures
        distro.len() == 0 ==> start_args(distro) == seq!['-', '-', ' ', 'e', 'x', 'i', 't'],
        distro.len() > 0 ==> start_args(distro) == "--distribution "@ + quoted(distro)
            + " -- exit"@,
{
    reveal_strlit("-- exit");
    assert("-- exit"@ =~= seq!['-', '-', ' ', 'e', 'x', 'i', 't']);
}

/// A report of a failed call starts with the name of the function, and holds
/// the code as a number in brackets at its end.
pub proof fn law_failure_holds_the_code(name: Seq<char>, code: nat)
    ensures
        ({
            let e = failure(name, code);
            let n = name.len() as int + 9;
            &&& e.take(n - 9) == name
            &&& e.subrange(n - 9, n) == " failed ("@
            &&& text::digits(e.subrange(n, e.len() - 1))
            &&& text::number(e.subrange(n, e.len() - 1)) == code
            &&& e.last() == ')'
        }),
{
    reveal_strlit(" failed (");
    reveal_strlit(")");
    text::law_decimal_is_read_back(code);
    let e = failure(name, code);
    let n = name.len() as int + 9;
    assert(e.take(n - 9) =~= name);
    assert(e.subrange(n - 9, n) =~= " failed ("@);
    assert(e.subrange(n, e.len() - 1) =~= text::decimal(code));
}

/// The path is the directory, `\wsl.exe` behind it, and a terminator.
pub proof fn law_path_of_wsl(dir: Seq<u16>)
    ensures
        exe_path(dir) == dir + seq![0x5cu16, 0x77, 0x73, 0x6c, 0x2e, 0x65, 0x78, 0x65, 0],
{
    reveal_strlit("\\wsl.exe");
    let s = "\\wsl.exe"@;
    assert(s =~= seq!['\\'] + seq!['w'] + seq!['s'] + seq!['l'] + seq!['.'] + seq!['e'] + seq!['x']
        + seq!['e']);
    let a = seq!['\\'];
    let b = a + seq!['w'];
    let c = b + seq!['s'];
    let d = c + seq!['l'];
    let e = d + seq!['.'];
    let f = e + seq!['e'];
    let g = f + seq!['x'];
    utf16::law_units_of_a_text(a, seq!['w'], '\\');
    utf16::law_units_of_a_text(b, seq!['s'], 'w');
    utf16::law_units_of_a_text(c, seq!['l'], 's');
    utf16::law_units_of_a_text(d, seq!['.'], 'l');
    utf16::law_units_of_a_text(e, seq!['e'], '.');
    utf16::law_units_of_a_text(f, seq!['x'], 'e');
    utf16::law_units_of_a_text(g, seq!['e'], 'x');
    assert(exe_path(dir) =~= dir + seq![0x5cu16, 0x77, 0x73, 0x6c, 0x2e, 0x65, 0x78, 0x65, 0]);
}

/// What is wrong where `CreateProcessW` returned `ok` for `wsl.exe <args>`.
pub open spec fn spawn_error(args: Seq<char>, ok: i32, code: nat) -> Option<Seq<char>> {
    if ok == 0 {
        Some("wsl.exe "@ + args + ": "@ + failure("CreateProcess"@, code))
    } else {
        None
    }
}

/// What is wrong where `wsl.exe <args>` ended with `code`.
pub open spec fn exit_error(args: Seq<char>, code: nat) -> Option<Seq<char>> {
    if code != 0 {
        Some("wsl.exe "@ + args + ": exit status "@ + text::decimal(code))
    } else {
        None
    }
}

/// A command fails just where it could not be started or did not end with
/// zero. The report starts with the command, and holds the code as a number.
pub proof fn law_failed_commands(args: Seq<char>, ok: i32, code: nat)
    ensures
        spawn_error(args, ok, code) is None <==> ok != 0,
        exit_error(args, code) is None <==> code == 0,
        spawn_error(args, ok, code) matches Some(e) ==> e == "wsl.exe "@ + args
            + ": CreateProcess failed ("@ + text::decimal(code) + ")"@,
        exit_error(args, code) matches Some(e) ==> {
            let n = 8 + args.len() as int + 14;
            &&& e.take(8) == "wsl.exe "@
            &&& e.subrange(8, n - 14) == args
            &&& e.subrange(n - 14, n) == ": exit status "@
            &&& text::digits(e.skip(n))
            &&& text::number(e.skip(n)) == code
        },
{
    reveal_strlit("wsl.exe ");
    reveal_strlit(": ");
    reveal_strlit("CreateProcess");
    reveal_strlit(" failed (");
    reveal_strlit(": CreateProcess failed (");
    reveal_strlit(": exit status ");
    assert(": CreateProcess failed ("@ =~= ": "@ + ("CreateProcess"@ + " failed ("@));
    text::law_decimal_is_read_back(code);
    if let Some(e) = spawn_error(args, ok, code) {
        assert(e =~= "wsl.exe "@ + args + ": CreateProcess failed ("@ + text::decimal(code) + ")"@);
    }
    if let Some(e) = exit_error(args, code) {
        let n = 8 + args.len() as int + 14;
        assert(e.take(8) =~= "wsl.exe "@);
        assert(e.subrange(8, n - 14) =~= args);
        assert(e.subrange(n - 14, n) =~= ": exit status "@);
        assert(e.skip(n) =~= text::decimal(code));
    }
}

/// Wraps `s` in double quotes if it contains white space, for building a
/// command line. Distribution names cannot themselves contain quotes, so no
/// further escaping is needed.
pub fn quote_arg(s: &str) -> (r: String)
    ensures
        r@ == quoted(s@),
{
    let cs = text::chars_of(s);
    if cmdline::holds_white(cs.as_slice()) {
        let mut r = String::new();
        r.push('"');
        text::push_str(&mut r, s);
        r.push('"');
        assert(r@ =~= quoted(s@));
        r
    } else {
        s.to_string()
    }
}

/// Arguments of the command that stops the VM and every distribution running
/// in it.
pub fn shutdown_wsl() -> (args: String)
    ensures
        args@ == "--shutdown"@,
{
    "--shutdown".to_string()
}

/// Arguments of the command that boots the VM (and, if given, a specific
/// distribution). It runs the trivial `exit` and leaves no process of its own
/// behind. An empty `distro` omits `--distribution`, so WSL starts whichever
/// distribution it picks by default.
pub fn start_wsl(distro: &str) -> (args: String)
    ensures
        args@ == start_args(distro@),
{
    let cs = text::chars_of(distro);
    if cs.len() == 0 {
        return "-- exit".to_string();
    }
    let mut args = "--distribution ".to_string();
    text::push_str(&mut args, quote_arg(distro).as_str());
    text::push_str(&mut args, " -- exit");
    args
}

/// Says that the call of the Win32 function `name` failed with `code`.
pub fn call_failed(name: &str, code: u32) -> (r: String)
    ensures
        r@ == failure(name@, code as nat),
{
    let mut r = name.to_string();
    text::push_str(&mut r, " failed (");
    text::push_decimal(&mut r, code as u64);
    text::push_str(&mut r, ")");
    r
}

/// The path of `wsl.exe` as a NUL-terminated wide string, from the system
/// directory that stands in the first `n` units of `dir`. An `n` of zero, or
/// one that leaves no room for a terminator, means that the directory could
/// not be had, for the reason `code`.
///
/// The full path is used so that the current directory is never searched.
pub fn wsl_exe_path(dir: &[u16], n: usize, code: u32) -> (r: Result<Vec<u16>, String>)
    ensures
        match r {
            Ok(exe) => 0 < n < dir@.len() && exe@ == exe_path(dir@.take(n as int)),
            Err(e) => (n == 0 || n >= dir@.len()) && e@ == failure(
                "GetSystemDirectory"@,
                code as nat,
            ),
        },
{
    if n == 0 || n >= dir.len() {
        return Err(call_failed("GetSystemDirectory", code));
    }
    let file = utf16::wide("\\wsl.exe");
    let mut exe: Vec<u16> = Vec::new();
    let mut i: usize = 0;
    while i < n
        invariant
            n < dir@.len(),
            i <= n,
            exe@ == dir@.take(i as int),
        decreases n - i,
    {
        exe.push(dir[i]);
        i = i + 1;
        assert(exe@ =~= dir@.take(i as int));
    }
    let mut j: usize = 0;
    while j < file.len()
        invariant
            j <= file@.len(),
            exe@ == dir@.take(n as int) + file@.take(j as int),
        decreases file@.len() - j,
    {
        exe.push(file[j]);
        j = j + 1;
        assert(exe@ =~= dir@.take(n as int) + file@.take(j as int));
    }
    assert(file@.take(j as int) =~= file@);
    Ok(exe)
}

/// What is handed to `CreateProcessW`.
#[derive(Debug)]
pub struct Launch {
    /// Path of the executable, NUL-terminated.
    pub exe: Vec<u16>,
    /// Command line, NUL-terminated.
    pub cmdline: Vec<u16>,
}

/// What starts `wsl.exe <args>`; the other parameters are those of
/// [`wsl_exe_path`].
pub fn spawn_wsl(args: &str, dir: &[u16], n: usize, code: u32) -> (r: Result<Launch, String>)
    ensures
        match r {
            Ok(l) => {
                &&& 0 < n < dir@.len()
                &&& l.exe@ == exe_path(dir@.take(n as int))
                &&& l.cmdline@ == utf16::encoded("wsl.exe "@ + args@).push(0)
                &&& l.cmdline@.last() == 0
                &&& utf16::decoded(l.cmdline@.drop_last()) == "wsl.exe "@ + args@
            },
            Err(e) => (n == 0 || n >= dir@.len()) && e@ == failure(
                "GetSystemDirectory"@,
                code as nat,
            ),
        },
{
    let exe = match wsl_exe_path(dir, n, code) {
        Ok(exe) => exe,
        Err(e) => {
            return Err(e);
        },
    };
    let mut line = "wsl.exe ".to_string();
    text::push_str(&mut line, args);
    proof {
        let u = utf16::encoded("wsl.exe "@ + args@);
        utf16::law_decode_encode("wsl.exe "@ + args@);
        assert(u.push(0).drop_last() =~= u);
    }
    Ok(Launch { exe, cmdline: utf16::wide(line.as_str()) })
}

/// What `CreateProcessW` made of `wsl.exe <args>`: it returned `ok`, and
/// `code` is the last error.
pub fn spawned(args: &str, ok: i32, code: u32) -> (r: Result<(), String>)
    ensures
        match r {
            Ok(_) => spawn_error(args@, ok, code as nat) is None,
            Err(e) => spawn_error(args@, ok, code as nat) == Some(e@),
        },
{
    if ok == 0 {
        let mut e = "wsl.exe ".to_string();
        text::push_str(&mut e, args);
        text::push_str(&mut e, ": ");
        text::push_str(&mut e, call_failed("CreateProcess", code).as_str());
        return Err(e);
    }
    Ok(())
}

/// What `wsl.exe <args>` came to: it fails with its exit code if that is not
/// zero.
pub fn run_wsl(args: &str, code: u32) -> (r: Result<(), String>)
    ensures
        match r {
            Ok(_) => exit_error(args@, code as nat) is None,
            Err(e) => exit_error(args@, code as nat) == Some(e@),
        },
{
    if code != 0 {
        let mut e = "wsl.exe ".to_string();
        text::push_str(&mut e, args);
        text::push_str(&mut e, ": exit status ");
        text::push_decimal(&mut e, code as u64);
        return Err(e);
    }
    Ok(())
}

} // verus!
