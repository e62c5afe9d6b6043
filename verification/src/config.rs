//! The settings file (`wsltray.ini`).
//!
//! No sections, just `key = value` lines, with `#`/`;` comments and blank
//! lines skipped.

use vstd::prelude::*;

use crate::text;
use crate::utf16;

verus! {

/// Settings read from `wsltray.ini` (or the file passed as `-config`).
/// Unknown keys are ignored, so old settings files keep working after new
/// keys are added; missing or unparsable keys keep their default.
#[derive(Debug, PartialEq)]
pub struct Config {
    /// Start the program with Windows (`HKCU\...\Run`).
    pub autostart: bool,
    /// Run Start automatically once, right after the program launches.
    pub autoboot: bool,
    /// Distribution to target for Start/Restart/Shutdown/Explorer/Terminal.
    /// Empty means "whichever distribution WSL picks by default".
    pub distroname: String,
    /// Windows Terminal profile name for the Terminal menu command. Empty
    /// keeps the default `wsl.exe`-based behaviour.
    pub wtprofile: String,
    /// Which tray icon to show: `"color"`, `"mono"`, or anything else
    /// (including empty) for automatic (colour while WSL2 runs, mono while
    /// it does not).
    pub icon: String,
    /// How often, in milliseconds, to check WSL2's state and refresh the
    /// tray icon and tooltip. `0` (or missing) keeps the interval of the
    /// command line.
    pub refreshms: u32,
}

/// The values of a [`Config`].
#[verifier::ext_equal]
pub struct Settings {
    pub autostart: bool,
    pub autoboot: bool,
    pub distroname: Seq<char>,
    pub wtprofile: Seq<char>,
    pub icon: Seq<char>,
    pub refreshms: u32,
}

impl View for Config {
    type V = Settings;

    open spec fn view(&self) -> Settings {
        Settings {
            autostart: self.autostart,
            autoboot: self.autoboot,
            distroname: self.distroname@,
            wtprofile: self.wtprofile@,
            icon: self.icon@,
            refreshms: self.refreshms,
        }
    }
}

/// Everything off, empty or zero.
pub open spec fn default_settings() -> Settings {
    Settings {
        autostart: false,
        autoboot: false,
        distroname: seq![],
        wtprofile: seq![],
        icon: seq![],
        refreshms: 0,
    }
}

/// The truth value that `s` spells, in any case.
pub open spec fn parsed_bool(s: Seq<char>) -> Option<bool> {
    let t = text::lowered_ascii(s);
    if t == "true"@ || t == "1"@ || t == "yes"@ || t == "on"@ {
        Some(true)
    } else if t == "false"@ || t == "0"@ || t == "no"@ || t == "off"@ {
        Some(false)
    } else {
        None
    }
}

/// The key (in lower case) and the value that a line gives, if it is no
/// comment and holds an equals sign.
pub open spec fn setting(line: Seq<char>) -> Option<(Seq<char>, Seq<char>)> {
    let t = text::trimmed(line);
    if t.len() == 0 || t[0] == '#' || t[0] == ';' {
        None
    } else {
        match text::cut(t, '=') {
            None => None,
            Some((key, value)) => Some(
                (
                    text::lowered_ascii(text::trimmed(key)),
                    text::trimmed(value),
                ),
            ),
        }
    }
}

/// `s` with `key` set to `value`. A key that is not known, and a value that
/// does not parse, leave everything as it was.
pub open spec fn assign(s: Settings, key: Seq<char>, value: Seq<char>) -> Settings {
    if key == "autostart"@ {
        match parsed_bool(value) {
            Some(b) => Settings { autostart: b, ..s },
            None => s,
        }
    } else if key == "autoboot"@ {
        match parsed_bool(value) {
            Some(b) => Settings { autoboot: b, ..s },
            None => s,
        }
    } else if key == "distroname"@ {
        Settings { distroname: value, ..s }
    } else if key == "wtprofile"@ {
        Settings { wtprofile: value, ..s }
    } else if key == "icon"@ {
        Settings { icon: value, ..s }
    } else if key == "refreshms"@ {
        match text::parsed_u32(value) {
            Some(n) => Settings { refreshms: n, ..s },
            None => s,
        }
    } else {
        s
    }
}

/// `s` after one line of the file.
pub open spec fn apply_line(s: Settings, line: Seq<char>) -> Settings {
    match setting(line) {
        Some((key, value)) => assign(s, key, value),
        None => s,
    }
}

/// `s` after the lines, the first line first.
pub open spec fn apply_lines(s: Settings, lines: Seq<Seq<char>>) -> Settings
    decreases lines.len(),
{
    if lines.len() == 0 {
        s
    } else {
        apply_lines(apply_line(s, lines[0]), lines.drop_first())
    }
}

/// What a settings file that holds `text` sets.
pub open spec fn settings_of(text: Seq<char>) -> Settings {
    apply_lines(default_settings(), text::lines(text))
}

/// Accepts `true`/`false`, `1`/`0`, `yes`/`no`, `on`/`off`, in any case.
/// `None` for anything else, so the caller can keep the previous value.
pub fn parse_bool(s: &[char]) -> (r: Option<bool>)
    ensures
        r == parsed_bool(s@),
{
    let t = text::to_ascii_lowercase(s);
    let t = t.as_slice();
    if text::eq_str(t, "true") || text::eq_str(t, "1") || text::eq_str(t, "yes") || text::eq_str(
        t,
        "on",
    ) {
        Some(true)
    } else if text::eq_str(t, "false") || text::eq_str(t, "0") || text::eq_str(t, "no")
        || text::eq_str(t, "off") {
        Some(false)
    } else {
        None
    }
}

/// Whether a path needs no separator before what is put behind it: it is
/// empty, ends in a separator, or is a drive and nothing else.
pub open spec fn needs_no_separator(dir: Seq<u16>) -> bool {
    ||| dir.len() == 0
    ||| dir.last() == 0x5c
    ||| dir.last() == 0x2f
    ||| dir.len() == 2 && dir[1] == 0x3a && (0x41 <= dir[0] <= 0x5a || 0x61 <= dir[0] <= 0x7a)
}

/// The path of the file `name` in the directory `dir`.
pub open spec fn in_directory(dir: Seq<u16>, name: Seq<u16>) -> Seq<u16> {
    if needs_no_separator(dir) {
        dir + name
    } else {
        dir.push(0x5c) + name
    }
}

/// Default settings file path in UTF-16: `wsltray.ini` in `dir`, the
/// directory of the running executable, or the bare file name (which means
/// the current directory) if that is not known.
pub fn default_path(dir: Option<&[u16]>) -> (r: Vec<u16>)
    ensures
        r@ == (match dir {
            Some(d) => in_directory(d@, utf16::encoded("wsltray.ini"@)),
            None => utf16::encoded("wsltray.ini"@),
        }),
{
    let name = utf16::encode_utf16("wsltray.ini");
    let d: &[u16] = match dir {
        Some(d) => d,
        None => {
            return name;
        },
    };
    let mut r: Vec<u16> = Vec::new();
    while r.len() < d.len()
        invariant
            r@.len() <= d@.len(),
            r@ == d@.take(r@.len() as int),
        decreases d@.len() - r@.len(),
    {
        let i: usize = r.len();
        r.push(d[i]);
        assert(r@ =~= d@.take(i + 1));
    }
    assert(r@ =~= d@);
    let n: usize = d.len();
    let joins: bool = n == 0 || d[n - 1] == 0x5c || d[n - 1] == 0x2f || (n == 2 && d[1] == 0x3a && (
    (0x41 <= d[0] && d[0] <= 0x5a) || (0x61 <= d[0] && d[0] <= 0x7a)));
    if !joins {
        r.push(0x5c);
    }
    let ghost start = r@;
    let mut i: usize = 0;
    while i < name.len()
        invariant
            i <= name@.len(),
            r@ == start + name@.take(i as int),
        decreases name@.len() - i,
    {
        r.push(name[i]);
        i = i + 1;
        assert(r@ =~= start + name@.take(i as int));
    }
    assert(name@.take(i as int) =~= name@);
    r
}

impl Default for Config {
    /// Everything off, empty or zero.
    fn default() -> (r: Config)
        ensures
            r@ == default_settings(),
    {
        Config {
            autostart: false,
            autoboot: false,
            distroname: String::new(),
            wtprofile: String::new(),
            icon: String::new(),
            refreshms: 0,
        }
    }
}

impl Clone for Config {
    /// The same settings.
    fn clone(&self) -> (r: Config)
        ensures
            r@ == self@,
    {
        Config {
            autostart: self.autostart,
            autoboot: self.autoboot,
            distroname: self.distroname.clone(),
            wtprofile: self.wtprofile.clone(),
            icon: self.icon.clone(),
            refreshms: self.refreshms,
        }
    }
}

impl Config {
    /// The settings in the text of the settings file, or the defaults if
    /// there is no such file or it cannot be read.
    pub fn load(text: Option<&str>) -> (r: Config)
        ensures
            r@ == (match text {
                Some(t) => settings_of(t@),
                None => default_settings(),
            }),
    {
        match text {
            Some(t) => Config::parse(t),
            None => Config::default(),
        }
    }

    /// Parses the `key = value` text described in the module docs.
    pub fn parse(text: &str) -> (r: Config)
        ensures
            r@ == settings_of(text@),
    {
        let cs = text::chars_of(text);
        let mut cfg = Config::default();
        let mut rest: &[char] = cs.as_slice();
        while rest.len() > 0
            invariant
                apply_lines(cfg@, text::lines(rest@)) == settings_of(text@),
            decreases rest@.len(),
        {
            let ghost before = text::lines(rest@);
            let n = text::find_char(rest, '\n');
            if n == rest.len() {
                cfg.set_line(rest);
                rest = &rest[n..n];
                assert(before.drop_first() =~= text::lines(rest@));
            } else {
                let mut end: usize = n;
                if end > 0 && rest[end - 1] == '\r' {
                    end = end - 1;
                }
                let line = &rest[0..end];
                assert(line@ =~= text::without_return(rest@.take(n as int)));
                cfg.set_line(line);
                rest = &rest[n + 1..rest.len()];
                assert(before.drop_first() =~= text::lines(rest@));
            }
        }
        cfg
    }

    /// Takes over what one line of the file sets.
    fn set_line(&mut self, line: &[char])
        ensures
            final(self)@ == apply_line(old(self)@, line@),
    {
        let line = text::trim(line);
        if line.len() == 0 || line[0] == '#' || line[0] == ';' {
            return;
        }
        match text::split_once(line, '=') {
            None => {},
            Some((key, value)) => {
                let key = text::to_ascii_lowercase(text::trim(key));
                self.set(key.as_slice(), text::trim(value));
            },
        }
    }

    /// Sets `key`, given in lower case, to `value`.
    fn set(&mut self, key: &[char], value: &[char])
        ensures
            final(self)@ == assign(old(self)@, key@, value@),
    {
        if text::eq_str(key, "autostart") {
            self.autostart = parse_bool(value).unwrap_or(self.autostart);
        } else if text::eq_str(key, "autoboot") {
            self.autoboot = parse_bool(value).unwrap_or(self.autoboot);
        } else if text::eq_str(key, "distroname") {
            self.distroname = text::string_of(value);
        } else if text::eq_str(key, "wtprofile") {
            self.wtprofile = text::string_of(value);
        } else if text::eq_str(key, "icon") {
            self.icon = text::string_of(value);
        } else if text::eq_str(key, "refreshms") {
            self.refreshms = text::parse_u32(value).unwrap_or(self.refreshms);
        }
    }
}

/// Whether `key` is one of the keys that mean something.
pub open spec fn known_key(key: Seq<char>) -> bool {
    ||| key == "autostart"@
    ||| key == "autoboot"@
    ||| key == "distroname"@
    ||| key == "wtprofile"@
    ||| key == "icon"@
    ||| key == "refreshms"@
}

/// Whether `key` takes `value`.
pub open spec fn accepts(key: Seq<char>, value: Seq<char>) -> bool {
    if key == "autostart"@ || key == "autoboot"@ {
        parsed_bool(value) is Some
    } else if key == "refreshms"@ {
        text::parsed_u32(value) is Some
    } else {
        known_key(key)
    }
}

/// The keys are different words.
proof fn lemma_keys_differ()
    ensures
        "refreshms"@ != "distroname"@,
        "refreshms"@ != "wtprofile"@,
        "refreshms"@ != "icon"@,
{
    reveal_strlit("distroname");
    reveal_strlit("wtprofile");
    reveal_strlit("icon");
    reveal_strlit("refreshms");
    assert("wtprofile"@[0] != "refreshms"@[0]);
}

/// Applying two runs of lines one after the other is applying them as one.
pub proof fn lemma_apply_lines_concat(s: Settings, a: Seq<Seq<char>>, b: Seq<Seq<char>>)
    ensures
        apply_lines(s, a + b) == apply_lines(apply_lines(s, a), b),
    decreases a.len(),
{
    if a.len() == 0 {
        assert(a + b =~= b);
    } else {
        assert((a + b).drop_first() =~= a.drop_first() + b);
        lemma_apply_lines_concat(apply_line(s, a[0]), a.drop_first(), b);
    }
}

/// A line that changes nothing where it stands might as well not be there.
proof fn lemma_idle_line(s: Settings, a: Seq<Seq<char>>, line: Seq<char>, b: Seq<Seq<char>>)
    requires
        apply_line(apply_lines(s, a), line) == apply_lines(s, a),
    ensures
        apply_lines(s, a + seq![line] + b) == apply_lines(s, a + b),
{
    lemma_apply_lines_concat(s, a + seq![line], b);
    lemma_apply_lines_concat(s, a, seq![line]);
    lemma_apply_lines_concat(s, a, b);
    let t = apply_lines(s, a);
    assert(seq![line].drop_first() =~= seq![]);
    assert(apply_lines(apply_line(t, line), seq![]) == t);
}

/// A missing file, and an empty one, leave everything at its default.
pub proof fn law_empty_file_yields_defaults()
    ensures
        settings_of(seq![]) == default_settings(),
{
}

/// A line that is blank, a comment, without an equals sign, or whose key is
/// not known, changes nothing wherever in the file it stands.
pub proof fn law_ignored_line(s: Settings, a: Seq<Seq<char>>, line: Seq<char>, b: Seq<Seq<char>>)
    requires
        setting(line) matches Some((key, value)) ==> !known_key(key),
    ensures
        apply_lines(s, a + seq![line] + b) == apply_lines(s, a + b),
{
    lemma_idle_line(s, a, line, b);
}

/// A line whose value does not parse changes nothing wherever it stands.
pub proof fn law_unparsable_value(
    s: Settings,
    a: Seq<Seq<char>>,
    line: Seq<char>,
    b: Seq<Seq<char>>,
)
    requires
        setting(line) matches Some((key, value)) ==> !accepts(key, value),
    ensures
        apply_lines(s, a + seq![line] + b) == apply_lines(s, a + b),
{
    lemma_keys_differ();
    lemma_idle_line(s, a, line, b);
}

/// Of two values for one key, the later one stands.
pub proof fn law_last_value_wins(
    s: Settings,
    key: Seq<char>,
    first: Seq<char>,
    second: Seq<char>,
)
    requires
        accepts(key, second),
    ensures
        assign(assign(s, key, first), key, second) == assign(s, key, second),
{
}

/// The order of settings for different keys does not matter.
pub proof fn law_keys_are_independent(
    s: Settings,
    key1: Seq<char>,
    value1: Seq<char>,
    key2: Seq<char>,
    value2: Seq<char>,
)
    requires
        key1 != key2,
    ensures
        assign(assign(s, key1, value1), key2, value2) == assign(
            assign(s, key2, value2),
            key1,
            value1,
        ),
{
}

/// A carriage return at the end of a line makes no difference.
pub proof fn law_line_endings(s: Settings, line: Seq<char>)
    ensures
        apply_line(s, line.push('\r')) == apply_line(s, line),
{
    let empty: Seq<char> = seq![];
    assert(line.push('\r') =~= empty + line + seq!['\r']);
    text::lemma_trimmed_around(empty, line, seq!['\r']);
}

/// Text that follows on a new line sets what it would set in a file of its
/// own, on top of what the text before it has set.
pub proof fn law_appended_text(s: Settings, a: Seq<char>, b: Seq<char>)
    ensures
        apply_lines(s, text::lines(a + seq!['\n'] + b)) == apply_lines(
            apply_lines(s, text::lines(a)),
            text::lines(b),
        ),
    decreases a.len(),
{
    let f = text::differs_from('\n');
    let whole = a + seq!['\n'] + b;
    text::lemma_span_bounds(a, f);
    let n = text::span(a, f) as int;
    assert forall|i: int| 0 <= i < n implies f(#[trigger] whole[i]) by {
        assert(whole[i] == a[i]);
        assert(f(a[i]));
    }
    assert(whole[n] == '\n') by {
        if n < a.len() {
            assert(whole[n] == a[n]);
        }
    }
    text::lemma_span(whole, f, n as nat);
    let first = text::without_return(whole.take(n));
    let others = text::lines(whole.skip(n + 1));
    assert(text::lines(whole) =~= seq![first] + others);
    assert((seq![first] + others).drop_first() =~= others);
    assert(apply_lines(s, text::lines(whole)) == apply_lines(apply_line(s, first), others));
    if n == a.len() {
        assert(whole.skip(n + 1) =~= b);
        assert(whole.take(n) =~= a);
        if a.len() > 0 {
            if a.last() == '\r' {
                law_line_endings(s, a.drop_last());
                assert(a.drop_last().push('\r') =~= a);
            }
            assert(seq![a].drop_first() =~= seq![]);
            assert(apply_lines(apply_line(s, a), seq![]) == apply_line(s, a));
        } else {
            assert(text::lines(a) =~= seq![]);
            assert(text::trimmed(first) =~= seq![]);
        }
    } else {
        let rest = a.skip(n + 1);
        assert(whole.skip(n + 1) =~= rest + seq!['\n'] + b);
        assert(whole.take(n) =~= a.take(n));
        assert((seq![first] + text::lines(rest)).drop_first() =~= text::lines(rest));
        law_appended_text(apply_line(s, first), rest, b);
    }
}

/// A line is read alike whatever the case of its key and however much white
/// space stands around the key, the value and the whole line.
pub proof fn law_case_and_spacing(
    w1: Seq<char>,
    key: Seq<char>,
    w2: Seq<char>,
    w3: Seq<char>,
    value: Seq<char>,
    w4: Seq<char>,
)
    requires
        text::all_white(w1),
        text::all_white(w2),
        text::all_white(w3),
        text::all_white(w4),
        !key.contains('='),
        text::trimmed(key).len() > 0,
        text::trimmed(key)[0] != '#',
        text::trimmed(key)[0] != ';',
    ensures
        setting((w1 + key + w2) + seq!['='] + (w3 + value + w4)) == Some(
            (text::lowered_ascii(text::trimmed(key)), text::trimmed(value)),
        ),
{
    let k = w1 + key + w2;
    let v = w3 + value + w4;
    text::lemma_trimmed_around(w1, key, w2);
    text::lemma_trimmed_around(w3, value, w4);
    assert(!k.contains('=')) by {
        if k.contains('=') {
            let i = choose|i: int| 0 <= i < k.len() && k[i] == '=';
            if i < w1.len() {
                assert(w1[i] == '=');
            } else if i < w1.len() + key.len() {
                assert(key[i - w1.len()] == '=');
            } else {
                assert(w2[i - w1.len() - key.len()] == '=');
            }
        }
    }
    lemma_setting(k, v);
}

/// How a line with an equals sign is read.
proof fn lemma_setting(k: Seq<char>, v: Seq<char>)
    requires
        !k.contains('='),
        text::trimmed(k).len() > 0,
        text::trimmed(k)[0] != '#',
        text::trimmed(k)[0] != ';',
    ensures
        setting(k + seq!['='] + v) == Some(
            (text::lowered_ascii(text::trimmed(k)), text::trimmed(v)),
        ),
{
    let white = text::is_white();
    let line = k + seq!['='] + v;
    text::lemma_span_bounds(k, white);
    let a = text::span(k, white) as int;
    assert(a < k.len()) by {
        if a == k.len() {
            assert(text::trimmed_start(k) =~= seq![]);
        }
    }
    assert forall|i: int| 0 <= i < a implies white(#[trigger] line[i]) by {
        assert(line[i] == k[i]);
    }
    assert(line[a] == k[a]);
    text::lemma_span(line, white, a as nat);
    let ks = text::trimmed_start(k);
    let start = text::trimmed_start(line);
    assert(start =~= ks + seq!['='] + v);

    text::lemma_span_back_bounds(v, white);
    let b = text::span_back(v, white) as int;
    assert forall|i: int| start.len() - b <= i < start.len() implies white(#[trigger] start[i]) by {
        assert(start[i] == v[i - ks.len() - 1]);
    }
    if b < v.len() {
        assert(start[start.len() - b - 1] == v[v.len() - b - 1]);
    } else {
        assert(start[start.len() - b - 1] == '=');
    }
    text::lemma_span_back(start, white, b as nat);
    let ve = text::trimmed_end(v);
    let t = text::trimmed(line);
    assert(t =~= ks + seq!['='] + ve);
    text::lemma_span_back_bounds(ks, white);
    assert(text::trimmed(k)[0] == ks[0]);
    assert(t[0] == ks[0]);

    let f = text::differs_from('=');
    assert forall|i: int| 0 <= i < ks.len() implies f(#[trigger] t[i]) by {
        assert(t[i] == k[i + a]);
    }
    assert(t[ks.len() as int] == '=');
    text::lemma_span(t, f, ks.len());
    assert(t.take(ks.len() as int) =~= ks);
    assert(t.skip(ks.len() as int + 1) =~= ve);
    text::lemma_trimmed_in_part(k);
    text::lemma_trimmed_in_part(v);
}

/// A line whose first character that is not white space is `#` or `;` changes
/// nothing, whatever follows it.
pub proof fn law_comment_changes_nothing(
    s: Settings,
    white: Seq<char>,
    sign: char,
    rest: Seq<char>,
)
    requires
        text::all_white(white),
        sign == '#' || sign == ';',
    ensures
        apply_line(s, white + seq![sign] + rest) == s,
{
    let line = white + seq![sign] + rest;
    let f = text::is_white();
    assert forall|i: int| 0 <= i < white.len() implies f(#[trigger] line[i]) by {
        assert(line[i] == white[i]);
    }
    assert(line[white.len() as int] == sign);
    text::lemma_span(line, f, white.len());
    let start = text::trimmed_start(line);
    assert(start[0] == sign);
    text::lemma_span_back_bounds(start, f);
    assert(text::span_back(start, f) < start.len()) by {
        if text::span_back(start, f) == start.len() {
            assert(f(start[0]));
        }
    }
    assert(text::trimmed(line)[0] == sign);
}

/// A line with nothing before its equals sign changes nothing.
pub proof fn law_line_without_key_changes_nothing(s: Settings, white: Seq<char>, rest: Seq<char>)
    requires
        text::all_white(white),
    ensures
        apply_line(s, white + seq!['='] + rest) == s,
{
    let line = white + seq!['='] + rest;
    let f = text::is_white();
    assert forall|i: int| 0 <= i < white.len() implies f(#[trigger] line[i]) by {
        assert(line[i] == white[i]);
    }
    assert(line[white.len() as int] == '=');
    text::lemma_span(line, f, white.len());
    let start = text::trimmed_start(line);
    assert(start[0] == '=');
    text::lemma_span_back_bounds(start, f);
    assert(text::span_back(start, f) < start.len()) by {
        if text::span_back(start, f) == start.len() {
            assert(f(start[0]));
        }
    }
    let t = text::trimmed(line);
    assert(t[0] == '=');
    let empty: Seq<char> = seq![];
    assert(t =~= empty + seq!['='] + t.skip(1));
    text::law_cut_at_the_first(empty, t.skip(1), '=');
    assert(text::trimmed(empty) =~= empty);
    let key = text::lowered_ascii(empty);
    assert(key.len() == 0);
    reveal_strlit("autostart");
    reveal_strlit("autoboot");
    reveal_strlit("distroname");
    reveal_strlit("wtprofile");
    reveal_strlit("icon");
    reveal_strlit("refreshms");
    assert("autostart"@.len() == 9 && "autoboot"@.len() == 8 && "distroname"@.len() == 10);
    assert("wtprofile"@.len() == 9 && "icon"@.len() == 4 && "refreshms"@.len() == 9);
}

/// A line without an equals sign, such as a blank one, changes nothing.
pub proof fn law_line_without_equals_changes_nothing(s: Settings, line: Seq<char>)
    requires
        !line.contains('='),
    ensures
        apply_line(s, line) == s,
{
    let f = text::is_white();
    let t = text::trimmed(line);
    text::lemma_span_bounds(line, f);
    text::lemma_span_back_bounds(text::trimmed_start(line), f);
    assert(!t.contains('=')) by {
        if t.contains('=') {
            let i = choose|i: int| 0 <= i < t.len() && t[i] == '=';
            assert(line[i + text::span(line, f) as int] == '=');
        }
    }
    text::law_cut_at_the_first(t, seq![], '=');
}

/// Whether `s` neither starts nor ends with white space.
pub open spec fn tight(s: Seq<char>) -> bool {
    s.len() > 0 ==> !text::whitespace(s[0]) && !text::whitespace(s.last())
}

/// What a line with a key, an equals sign and a value does, whatever white
/// space stands around them and in whatever case the key is: it sets what the
/// key names to what the value says, and nothing else.
pub proof fn law_line_sets_what_it_names(
    s: Settings,
    w1: Seq<char>,
    key: Seq<char>,
    w2: Seq<char>,
    w3: Seq<char>,
    value: Seq<char>,
    w4: Seq<char>,
)
    requires
        text::all_white(w1),
        text::all_white(w2),
        text::all_white(w3),
        text::all_white(w4),
        tight(key),
        tight(value),
        key.len() > 0,
        key[0] != '#',
        key[0] != ';',
        !key.contains('='),
    ensures
        ({
            let line = (w1 + key + w2) + seq!['='] + (w3 + value + w4);
            let t = apply_line(s, line);
            let k = text::lowered_ascii(key);
            let v = text::lowered_ascii(value);
            let yes = v == "true"@ || v == "1"@ || v == "yes"@ || v == "on"@;
            let no = v == "false"@ || v == "0"@ || v == "no"@ || v == "off"@;
            &&& k == "distroname"@ ==> t == (Settings { distroname: value, ..s })
            &&& k == "wtprofile"@ ==> t == (Settings { wtprofile: value, ..s })
            &&& k == "icon"@ ==> t == (Settings { icon: value, ..s })
            &&& k == "autostart"@ && yes ==> t == (Settings { autostart: true, ..s })
            &&& k == "autostart"@ && no ==> t == (Settings { autostart: false, ..s })
            &&& k == "autoboot"@ && yes ==> t == (Settings { autoboot: true, ..s })
            &&& k == "autoboot"@ && no ==> t == (Settings { autoboot: false, ..s })
            &&& (k == "autostart"@ || k == "autoboot"@) && !yes && !no ==> t == s
            &&& k == "refreshms"@ && text::digits(value) && text::number(value) <= 0xffff_ffff
                ==> t == (Settings { refreshms: text::number(value) as u32, ..s })
            &&& k == "refreshms"@ && text::digits(value) && text::number(value) > 0xffff_ffff
                ==> t == s
            &&& k == "refreshms"@ && value.len() > 0 && value[0] == '+' && text::digits(
                value.skip(1),
            ) && text::number(value.skip(1)) <= 0xffff_ffff ==> t == (Settings {
                refreshms: text::number(value.skip(1)) as u32,
                ..s
            })
            &&& k == "refreshms"@ && !text::digits(value) && (value.len() == 0 || value[0] != '+')
                ==> t == s
            &&& k == "refreshms"@ && value.len() > 0 && value[0] == '+' && !(text::digits(
                value.skip(1),
            ) && text::number(value.skip(1)) <= 0xffff_ffff) ==> t == s
            &&& k != "distroname"@ && k != "wtprofile"@ && k != "icon"@ && k != "autostart"@ && k
                != "autoboot"@ && k != "refreshms"@ ==> t == s
        }),
{
    let empty: Seq<char> = seq![];
    text::law_trimming(empty, key, empty);
    assert(empty + key + empty =~= key);
    text::law_trimming(empty, value, empty);
    assert(empty + value + empty =~= value);
    law_case_and_spacing(w1, key, w2, w3, value, w4);
    text::law_small_numbers_are_read(value);
    if value.len() > 0 && value[0] == '+' {
        text::law_small_numbers_are_read(value.skip(1));
        assert(seq!['+'] + value.skip(1) =~= value);
    }
    lemma_keys_differ();
    reveal_strlit("autostart");
    reveal_strlit("autoboot");
    reveal_strlit("distroname");
    reveal_strlit("wtprofile");
    reveal_strlit("icon");
    reveal_strlit("refreshms");
    assert("autostart"@.len() == 9 && "autoboot"@.len() == 8 && "distroname"@.len() == 10);
    assert("wtprofile"@.len() == 9 && "icon"@.len() == 4 && "refreshms"@.len() == 9);
    assert("wtprofile"@[0] == 'w' && "autostart"@[0] == 'a' && "refreshms"@[0] == 'r');
    reveal_strlit("true");
    reveal_strlit("1");
    reveal_strlit("yes");
    reveal_strlit("on");
    reveal_strlit("false");
    reveal_strlit("0");
    reveal_strlit("no");
    reveal_strlit("off");
    assert("true"@.len() == 4 && "1"@.len() == 1 && "yes"@.len() == 3 && "on"@.len() == 2);
    assert("false"@.len() == 5 && "0"@.len() == 1 && "no"@.len() == 2 && "off"@.len() == 3);
    assert("yes"@[0] != "off"@[0]);
    assert("1"@[0] != "0"@[0]);
    assert("on"@[0] != "no"@[0]);
    let line = (w1 + key + w2) + seq!['='] + (w3 + value + w4);
    let k = text::lowered_ascii(key);
    let v = text::lowered_ascii(value);
    assert(setting(line) == Some((k, value)));
    let t = apply_line(s, line);
    assert(t == assign(s, k, value));
    let yes = v == "true"@ || v == "1"@ || v == "yes"@ || v == "on"@;
    let no = v == "false"@ || v == "0"@ || v == "no"@ || v == "off"@;
    assert(yes ==> parsed_bool(value) == Some(true));
    assert(no ==> !yes);
    assert(no ==> parsed_bool(value) == Some(false));
    assert(!yes && !no ==> parsed_bool(value) is None);
    assert(k == "distroname"@ ==> t == (Settings { distroname: value, ..s }));
    assert(k == "wtprofile"@ ==> t == (Settings { wtprofile: value, ..s }));
    assert(k == "icon"@ ==> t == (Settings { icon: value, ..s }));
    assert(k == "refreshms"@ ==> t == assign(s, "refreshms"@, value));
}

/// A file of one line sets what that line sets, on top of the defaults; each
/// further line sets what it sets, on top of what those before it have set.
pub proof fn law_lines_are_applied_in_order(a: Seq<char>, line: Seq<char>)
    requires
        !line.contains('\n'),
    ensures
        settings_of(line) == apply_line(default_settings(), line),
        settings_of(a + seq!['\n'] + line) == apply_line(settings_of(a), line),
{
    law_appended_text(default_settings(), a, line);
    text::law_lines(line, seq![]);
    let s = settings_of(a);
    let d = default_settings();
    if line.len() == 0 {
        law_line_without_equals_changes_nothing(s, line);
        law_line_without_equals_changes_nothing(d, line);
        assert(line =~= seq![]);
    } else {
        assert(seq![line].drop_first() =~= seq![]);
        assert(apply_lines(apply_line(s, line), seq![]) == apply_line(s, line));
        assert(apply_lines(apply_line(d, line), seq![]) == apply_line(d, line));
    }
}

/// The settings file lies in the given directory: its path starts with that
/// of the directory and ends with the file name, and between them stands at
/// most one backslash, which is there where the directory does not end in a
/// separator.
pub proof fn law_settings_lie_in_the_directory(dir: Seq<u16>, name: Seq<u16>)
    ensures
        dir.is_prefix_of(in_directory(dir, name)),
        name.is_suffix_of(in_directory(dir, name)),
        in_directory(dir, name).len() <= dir.len() + 1 + name.len(),
        in_directory(dir, name).len() == dir.len() + 1 + name.len() ==> in_directory(
            dir,
            name,
        )[dir.len() as int] == 0x5c,
        dir.len() > 2 ==> (in_directory(dir, name).len() == dir.len() + name.len() <==> dir.last()
            == 0x5c || dir.last() == 0x2f),
        dir.len() == 0 ==> in_directory(dir, name) == name,
        dir.len() == 1 ==> (in_directory(dir, name).len() == 1 + name.len() <==> dir[0] == 0x5c
            || dir[0] == 0x2f),
        dir.len() == 2 && dir[1] == 0x3a ==> (in_directory(dir, name).len() == 2 + name.len() <==> (
        0x41 <= dir[0] <= 0x5a || 0x61 <= dir[0] <= 0x7a)),
        dir.len() == 2 && dir[1] != 0x3a ==> (in_directory(dir, name).len() == 2 + name.len()
            <==> dir[1] == 0x5c || dir[1] == 0x2f),
{
    let r = in_directory(dir, name);
    assert(r.subrange(0, dir.len() as int) =~= dir);
    assert(r.subrange(r.len() - name.len(), r.len() as int) =~= name);
    if dir.len() == 0 {
        assert(r =~= name);
    }
}

} // verus!
