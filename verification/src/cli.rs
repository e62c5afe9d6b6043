//! The command line.
//!
//! `-name value`, `-name=value` and `--name...` are all accepted; `--` or the
//! first argument not starting with `-` ends the flags and the rest is
//! ignored.

use vstd::prelude::*;

use crate::duration;
use crate::text;

verus! {

/// How often WSL2 is looked for by default, in nanoseconds: five seconds.
pub const DEFAULT_POLL: u64 = 5_000_000_000;

/// How often the numbers are refreshed by default, in nanoseconds: thirty
/// seconds.
pub const DEFAULT_STATS: u64 = 30_000_000_000;

/// Nanoseconds in a millisecond.
pub const MILLISECOND: u64 = 1_000_000;

/// Parsed command line. Defaults are documented in [`usage`].
#[derive(Debug)]
pub struct Options {
    /// Interval of the presence check (`-poll`), in nanoseconds.
    pub poll: u64,
    /// Interval of the CPU/memory refresh while the VM runs (`-interval`), in
    /// nanoseconds. It is accepted and not used: every poll refreshes the
    /// numbers.
    pub stats: u64,
    /// Image name of the VM process (`-process`).
    pub process: String,
    /// Diagnostics log file (`-log`), appended to.
    pub log: Option<String>,
    /// Config file (`-config`).
    pub config: Option<String>,
}

/// [`Options`] with the texts that its strings hold.
pub struct OptionsView {
    pub poll: u64,
    pub stats: u64,
    pub process: Seq<char>,
    pub log: Option<Seq<char>>,
    pub config: Option<Seq<char>>,
}

/// The text that a string holds, if there is one.
pub open spec fn held(s: Option<String>) -> Option<Seq<char>> {
    match s {
        Some(s) => Some(s@),
        None => None,
    }
}

impl View for Options {
    type V = OptionsView;

    open spec fn view(&self) -> OptionsView {
        OptionsView {
            poll: self.poll,
            stats: self.stats,
            process: self.process@,
            log: held(self.log),
            config: held(self.config),
        }
    }
}

/// What no flag changes.
pub open spec fn default_options(process: Seq<char>) -> OptionsView {
    OptionsView { poll: DEFAULT_POLL, stats: DEFAULT_STATS, process, log: None, config: None }
}

/// The help text, with `process` as the default of `--process`.
pub open spec fn usage_text(process: Seq<char>) -> Seq<char> {
    "wsltray [--poll 5s] [--interval 30s] [--process "@ + process
        + "] [--log FILE] [--config FILE]\n\n"@
        + "  --poll         how often to check whether WSL2 is running (cheap)\n"@
        + "  --interval     how often to refresh CPU/memory while WSL2 is running\n"@
        + "  --process      name of the WSL2 VM process\n"@
        + "  --log          append diagnostic log lines to this file\n"@
        + "  --config       config file to read (default: wsltray.ini next to the exe)"@
}

/// Whether the flags end before the argument `a`.
pub open spec fn ends_flags(a: Seq<char>) -> bool {
    a == "--"@ || a.len() < 2 || a[0] != '-'
}

/// A flag without the one or two dashes before it.
pub open spec fn without_dashes(a: Seq<char>) -> Seq<char> {
    match text::after_prefix(a, "--"@) {
        Some(name) => name,
        None => a.skip(1),
    }
}

/// Whether what follows the dashes cannot be a flag.
pub open spec fn bad_name(name: Seq<char>) -> bool {
    name.len() > 0 && (name[0] == '-' || name[0] == '=')
}

/// The key of a flag.
pub open spec fn key_of(name: Seq<char>) -> Seq<char> {
    match text::cut(name, '=') {
        Some((key, _)) => key,
        None => name,
    }
}

/// The value that stands in the flag itself, if any.
pub open spec fn inline_of(name: Seq<char>) -> Option<Seq<char>> {
    match text::cut(name, '=') {
        Some((_, value)) => Some(value),
        None => None,
    }
}

/// Whether a flag of this name asks for help.
pub open spec fn asks_for_help(key: Seq<char>) -> bool {
    key == "h"@ || key == "help"@
}

/// Whether a flag of this name takes a value.
pub open spec fn takes_value(key: Seq<char>) -> bool {
    key == "poll"@ || key == "interval"@ || key == "process"@ || key == "log"@ || key == "config"@
}

/// The options after a flag with a value, or what is wrong with the value.
pub open spec fn set(o: OptionsView, key: Seq<char>, value: Seq<char>) -> Result<
    OptionsView,
    Seq<char>,
> {
    if key == "poll"@ {
        match duration::duration(value) {
            Some(ns) => Ok(OptionsView { poll: ns, ..o }),
            None => Err("bad --poll duration"@),
        }
    } else if key == "interval"@ {
        match duration::duration(value) {
            Some(ns) => Ok(OptionsView { stats: ns, ..o }),
            None => Err("bad --interval duration"@),
        }
    } else if key == "process"@ {
        Ok(OptionsView { process: value, ..o })
    } else if key == "log"@ {
        Ok(OptionsView { log: Some(value), ..o })
    } else {
        Ok(OptionsView { config: Some(value), ..o })
    }
}

/// A complaint about the command line, with the help text below it.
pub open spec fn complaint(what: Seq<char>, about: Seq<char>, usage: Seq<char>) -> Seq<char> {
    what + about + "\n\n"@ + usage
}

/// What the arguments `args` make of the options `o`: `Ok(None)` where help
/// is asked for.
pub open spec fn parsed(o: OptionsView, args: Seq<Seq<char>>, usage: Seq<char>) -> Result<
    Option<OptionsView>,
    Seq<char>,
>
    decreases args.len(),
{
    if args.len() == 0 || ends_flags(args[0]) {
        Ok(Some(o))
    } else {
        let name = without_dashes(args[0]);
        let key = key_of(name);
        if bad_name(name) {
            Err(complaint("bad flag syntax: "@, args[0], usage))
        } else if asks_for_help(key) {
            Ok(None)
        } else if !takes_value(key) {
            Err(complaint("unknown flag: "@, args[0], usage))
        } else {
            match inline_of(name) {
                Some(value) => match set(o, key, value) {
                    Ok(next) => parsed(next, args.skip(1), usage),
                    Err(e) => Err(e),
                },
                None => if args.len() < 2 {
                    Err(complaint("missing value for --"@, key, usage))
                } else {
                    match set(o, key, args[1]) {
                        Ok(next) => parsed(next, args.skip(2), usage),
                        Err(e) => Err(e),
                    }
                },
            }
        }
    }
}

/// Interval of the poll timer in milliseconds: the one of the config file if
/// it sets one, else that of the command line, or the longest that a timer
/// takes if that is longer.
pub open spec fn interval(refreshms: u32, poll: u64) -> nat {
    if refreshms != 0 {
        refreshms as nat
    } else if poll / MILLISECOND <= u32::MAX {
        (poll / MILLISECOND) as nat
    } else {
        u32::MAX as nat
    }
}

/// The characters of the flag names.
proof fn lemma_names()
    ensures
        "--"@ == seq!['-', '-'],
        "poll"@ == seq!['p', 'o', 'l', 'l'],
        "interval"@ == seq!['i', 'n', 't', 'e', 'r', 'v', 'a', 'l'],
        "process"@ == seq!['p', 'r', 'o', 'c', 'e', 's', 's'],
        "log"@ == seq!['l', 'o', 'g'],
        "config"@ == seq!['c', 'o', 'n', 'f', 'i', 'g'],
        "h"@ == seq!['h'],
        "help"@ == seq!['h', 'e', 'l', 'p'],
{
    reveal_strlit("--");
    reveal_strlit("poll");
    reveal_strlit("interval");
    reveal_strlit("process");
    reveal_strlit("log");
    reveal_strlit("config");
    reveal_strlit("h");
    reveal_strlit("help");
    assert("--"@ =~= seq!['-', '-']);
    assert("poll"@ =~= seq!['p', 'o', 'l', 'l']);
    assert("interval"@ =~= seq!['i', 'n', 't', 'e', 'r', 'v', 'a', 'l']);
    assert("process"@ =~= seq!['p', 'r', 'o', 'c', 'e', 's', 's']);
    assert("log"@ =~= seq!['l', 'o', 'g']);
    assert("config"@ =~= seq!['c', 'o', 'n', 'f', 'i', 'g']);
    assert("h"@ =~= seq!['h']);
    assert("help"@ =~= seq!['h', 'e', 'l', 'p']);
}

/// Whether `key` can be the name of a flag.
pub open spec fn flag_name(key: Seq<char>) -> bool {
    key.len() > 0 && key[0] != '-' && !key.contains('=')
}

/// The flags that there are can be.
proof fn lemma_flag_names(key: Seq<char>)
    requires
        takes_value(key) || asks_for_help(key),
    ensures
        flag_name(key),
        !(takes_value(key) && asks_for_help(key)),
{
    lemma_names();
    assert forall|i: int| 0 <= i < key.len() implies key[i] != '=' by {
    }
}

/// How a name with a value is taken apart behind one dash or two.
proof fn lemma_flag(key: Seq<char>, value: Seq<char>)
    requires
        flag_name(key),
    ensures
        !bad_name(key),
        key_of(key) == key,
        inline_of(key) is None,
        ({
            let name = key + seq!['='] + value;
            &&& !bad_name(name)
            &&& key_of(name) == key
            &&& inline_of(name) == Some(value)
        }),
        !ends_flags(seq!['-'] + key),
        !ends_flags("--"@ + key),
        without_dashes(seq!['-'] + key) == key,
        without_dashes("--"@ + key) == key,
        ({
            let name = key + seq!['='] + value;
            &&& !ends_flags(seq!['-'] + name)
            &&& !ends_flags("--"@ + name)
            &&& without_dashes(seq!['-'] + name) == name
            &&& without_dashes("--"@ + name) == name
        }),
{
    lemma_names();
    let name = key + seq!['='] + value;
    let other = text::differs_from('=');
    assert(key.contains(key[0]));
    assert forall|i: int| 0 <= i < key.len() implies other(#[trigger] key[i]) by {
        assert(key.contains(key[i]));
    }
    text::lemma_span(key, other, key.len());
    assert forall|i: int| 0 <= i < key.len() implies other(#[trigger] name[i]) by {
        assert(name[i] == key[i]);
    }
    text::lemma_span(name, other, key.len());
    assert(name.take(key.len() as int) =~= key);
    assert(name.skip(key.len() as int + 1) =~= value);
    assert forall|n: Seq<char>| n.len() > 0 && n[0] != '-' implies without_dashes(
        seq!['-'] + n,
    ) == n && without_dashes("--"@ + n) == n && !ends_flags(seq!['-'] + n) && !ends_flags(
        #[trigger] ("--"@ + n),
    ) by {
        let one = seq!['-'] + n;
        let two = "--"@ + n;
        assert(one[1] == n[0]);
        assert(two[0] == '-');
        assert(one.take(2)[1] == n[0]);
        assert(one.skip(1) =~= n);
        assert(two.take(2) =~= "--"@);
        assert(two.skip(2) =~= n);
        assert(two.len() > 2);
    }
    assert(!ends_flags("--"@ + key));
    assert(!ends_flags("--"@ + name));
}

/// Without arguments the defaults hold.
pub proof fn law_no_arguments(process: Seq<char>, usage: Seq<char>)
    ensures
        default_options(process).poll == 5_000_000_000,
        default_options(process).stats == 30_000_000_000,
        default_options(process).process == process,
        default_options(process).log is None,
        default_options(process).config is None,
        parsed(default_options(process), seq![], usage) == Ok::<_, Seq<char>>(
            Some(default_options(process)),
        ),
{
}

/// `-name value`, `-name=value`, `--name value` and `--name=value` mean the
/// same.
pub proof fn law_four_ways_to_write_a_flag(
    o: OptionsView,
    key: Seq<char>,
    value: Seq<char>,
    rest: Seq<Seq<char>>,
    usage: Seq<char>,
)
    requires
        takes_value(key),
    ensures
        ({
            let after = match set(o, key, value) {
                Ok(next) => parsed(next, rest, usage),
                Err(e) => Err(e),
            };
            let with_value = key + seq!['='] + value;
            &&& parsed(o, seq![seq!['-'] + key, value] + rest, usage) == after
            &&& parsed(o, seq!["--"@ + key, value] + rest, usage) == after
            &&& parsed(o, seq![seq!['-'] + with_value] + rest, usage) == after
            &&& parsed(o, seq!["--"@ + with_value] + rest, usage) == after
        }),
{
    lemma_flag_names(key);
    lemma_flag(key, value);
    let with_value = key + seq!['='] + value;
    assert((seq![seq!['-'] + key, value] + rest).skip(2) =~= rest);
    assert((seq!["--"@ + key, value] + rest).skip(2) =~= rest);
    assert((seq![seq!['-'] + with_value] + rest).skip(1) =~= rest);
    assert((seq!["--"@ + with_value] + rest).skip(1) =~= rest);
}

/// Nothing behind `--`, nor behind a lone dash or the first argument that does
/// not start with one, is looked at.
pub proof fn law_rest_is_ignored(
    o: OptionsView,
    a: Seq<char>,
    rest: Seq<Seq<char>>,
    usage: Seq<char>,
)
    requires
        a == "--"@ || a.len() < 2 || a[0] != '-',
    ensures
        parsed(o, seq![a] + rest, usage) == Ok::<_, Seq<char>>(Some(o)),
{
}

/// Of the same flag given twice in a row, the second counts.
pub proof fn law_last_flag_wins(
    o: OptionsView,
    key: Seq<char>,
    first: Seq<char>,
    second: Seq<char>,
    rest: Seq<Seq<char>>,
    usage: Seq<char>,
)
    requires
        takes_value(key),
        set(o, key, first) is Ok,
    ensures
        parsed(o, seq![seq!['-'] + key, first] + (seq![seq!['-'] + key, second] + rest), usage)
            == parsed(o, seq![seq!['-'] + key, second] + rest, usage),
{
    let tail = seq![seq!['-'] + key, second] + rest;
    law_four_ways_to_write_a_flag(o, key, first, tail, usage);
    law_four_ways_to_write_a_flag(o, key, second, rest, usage);
    let next = set(o, key, first)->Ok_0;
    law_four_ways_to_write_a_flag(next, key, second, rest, usage);
    lemma_names();
}

/// Flags of different names can be given in any order.
pub proof fn law_flags_are_independent(
    o: OptionsView,
    key1: Seq<char>,
    value1: Seq<char>,
    key2: Seq<char>,
    value2: Seq<char>,
    rest: Seq<Seq<char>>,
    usage: Seq<char>,
)
    requires
        takes_value(key1),
        takes_value(key2),
        key1 != key2,
        set(o, key1, value1) is Ok,
        set(o, key2, value2) is Ok,
    ensures
        parsed(o, seq![seq!['-'] + key1, value1] + (seq![seq!['-'] + key2, value2] + rest), usage)
            == parsed(
            o,
            seq![seq!['-'] + key2, value2] + (seq![seq!['-'] + key1, value1] + rest),
            usage,
        ),
{
    let tail1 = seq![seq!['-'] + key1, value1] + rest;
    let tail2 = seq![seq!['-'] + key2, value2] + rest;
    law_four_ways_to_write_a_flag(o, key1, value1, tail2, usage);
    law_four_ways_to_write_a_flag(o, key2, value2, tail1, usage);
    let next1 = set(o, key1, value1)->Ok_0;
    let next2 = set(o, key2, value2)->Ok_0;
    law_four_ways_to_write_a_flag(next1, key2, value2, rest, usage);
    law_four_ways_to_write_a_flag(next2, key1, value1, rest, usage);
    lemma_names();
}

/// Help is answered before anything behind it is looked at, whether it is
/// asked for with `h` or `help`, behind one dash or two, and with a value or
/// without.
pub proof fn law_help(
    o: OptionsView,
    key: Seq<char>,
    value: Seq<char>,
    rest: Seq<Seq<char>>,
    usage: Seq<char>,
)
    requires
        key == "h"@ || key == "help"@,
    ensures
        ({
            let help = Ok::<Option<OptionsView>, Seq<char>>(None);
            let with_value = key + seq!['='] + value;
            &&& parsed(o, seq![seq!['-'] + key] + rest, usage) == help
            &&& parsed(o, seq!["--"@ + key] + rest, usage) == help
            &&& parsed(o, seq![seq!['-'] + with_value] + rest, usage) == help
            &&& parsed(o, seq!["--"@ + with_value] + rest, usage) == help
        }),
{
    lemma_flag_names(key);
    lemma_flag(key, value);
}

/// The options `o` with what a flag is for set to its value, where `ns` is
/// the duration that the value writes, if it writes one.
pub open spec fn with_flag(
    o: OptionsView,
    key: Seq<char>,
    value: Seq<char>,
    ns: u64,
) -> OptionsView {
    OptionsView {
        poll: if key == "poll"@ {
            ns
        } else {
            o.poll
        },
        stats: if key == "interval"@ {
            ns
        } else {
            o.stats
        },
        process: if key == "process"@ {
            value
        } else {
            o.process
        },
        log: if key == "log"@ {
            Some(value)
        } else {
            o.log
        },
        config: if key == "config"@ {
            Some(value)
        } else {
            o.config
        },
    }
}

/// A flag stores just what its value says, and nothing else: a duration in
/// nanoseconds for `poll` and `interval`, the text itself for `process`,
/// `log` and `config`; and what follows goes on from there.
pub proof fn law_flag_stores_its_value(
    o: OptionsView,
    key: Seq<char>,
    value: Seq<char>,
    ns: u64,
    rest: Seq<Seq<char>>,
    usage: Seq<char>,
)
    requires
        key == "poll"@ || key == "interval"@ || key == "process"@ || key == "log"@ || key
            == "config"@,
        key == "poll"@ || key == "interval"@ ==> duration::duration(value) == Some(ns),
    ensures
        ({
            let next = with_flag(o, key, value, ns);
            let with_value = key + seq!['='] + value;
            let done = Ok::<_, Seq<char>>(Some(next));
            &&& parsed(o, seq![seq!['-'] + key, value], usage) == done
            &&& parsed(o, seq!["--"@ + key, value], usage) == done
            &&& parsed(o, seq![seq!['-'] + with_value], usage) == done
            &&& parsed(o, seq!["--"@ + with_value], usage) == done
            &&& parsed(o, seq![seq!['-'] + key, value] + rest, usage) == parsed(next, rest, usage)
            &&& parsed(o, seq!["--"@ + key, value] + rest, usage) == parsed(next, rest, usage)
            &&& parsed(o, seq![seq!['-'] + with_value] + rest, usage) == parsed(next, rest, usage)
            &&& parsed(o, seq!["--"@ + with_value] + rest, usage) == parsed(next, rest, usage)
        }),
{
    lemma_names();
    let none: Seq<Seq<char>> = seq![];
    let with_value = key + seq!['='] + value;
    assert("poll"@.len() == 4 && "interval"@.len() == 8 && "process"@.len() == 7);
    assert("log"@.len() == 3 && "config"@.len() == 6);
    assert(set(o, key, value) == Ok::<_, Seq<char>>(with_flag(o, key, value, ns)));
    law_four_ways_to_write_a_flag(o, key, value, rest, usage);
    law_four_ways_to_write_a_flag(o, key, value, none, usage);
    assert(seq![seq!['-'] + key, value] + none =~= seq![seq!['-'] + key, value]);
    assert(seq!["--"@ + key, value] + none =~= seq!["--"@ + key, value]);
    assert(seq![seq!['-'] + with_value] + none =~= seq![seq!['-'] + with_value]);
    assert(seq!["--"@ + with_value] + none =~= seq!["--"@ + with_value]);
}

/// A value that is no duration is refused where one is needed, whatever
/// follows.
pub proof fn law_bad_duration_is_refused(
    o: OptionsView,
    value: Seq<char>,
    rest: Seq<Seq<char>>,
    usage: Seq<char>,
)
    requires
        duration::duration(value) is None,
    ensures
        parsed(o, seq!["--"@ + "poll"@, value] + rest, usage) == Err::<Option<OptionsView>, _>(
            "bad --poll duration"@,
        ),
        parsed(o, seq!["--"@ + "interval"@, value] + rest, usage) == Err::<Option<OptionsView>, _>(
            "bad --interval duration"@,
        ),
{
    lemma_names();
    assert("poll"@.len() != "interval"@.len());
    law_four_ways_to_write_a_flag(o, "poll"@, value, rest, usage);
    law_four_ways_to_write_a_flag(o, "interval"@, value, rest, usage);
}

/// A flag that takes a value and stands last without one is refused, by its
/// name.
pub proof fn law_missing_value_is_refused(o: OptionsView, key: Seq<char>, usage: Seq<char>)
    requires
        key == "poll"@ || key == "interval"@ || key == "process"@ || key == "log"@ || key
            == "config"@,
    ensures
        ({
            let refused = Err::<Option<OptionsView>, _>(
                "missing value for --"@ + key + "\n\n"@ + usage,
            );
            &&& parsed(o, seq![seq!['-'] + key], usage) == refused
            &&& parsed(o, seq!["--"@ + key], usage) == refused
        }),
{
    lemma_flag_names(key);
    lemma_flag(key, seq![]);
}

/// A flag that there is not is refused, in the words it was given in.
pub proof fn law_unknown_flag_is_refused(
    o: OptionsView,
    key: Seq<char>,
    value: Seq<char>,
    rest: Seq<Seq<char>>,
    usage: Seq<char>,
)
    requires
        flag_name(key),
        key != "poll"@ && key != "interval"@ && key != "process"@ && key != "log"@ && key
            != "config"@ && key != "h"@ && key != "help"@,
    ensures
        ({
            let with_value = key + seq!['='] + value;
            &&& parsed(o, seq![seq!['-'] + key] + rest, usage) == Err::<Option<OptionsView>, _>(
                "unknown flag: "@ + (seq!['-'] + key) + "\n\n"@ + usage,
            )
            &&& parsed(o, seq!["--"@ + key] + rest, usage) == Err::<Option<OptionsView>, _>(
                "unknown flag: "@ + ("--"@ + key) + "\n\n"@ + usage,
            )
            &&& parsed(o, seq![seq!['-'] + with_value] + rest, usage) == Err::<
                Option<OptionsView>,
                _,
            >("unknown flag: "@ + (seq!['-'] + with_value) + "\n\n"@ + usage)
            &&& parsed(o, seq!["--"@ + with_value] + rest, usage) == Err::<Option<OptionsView>, _>(
                "unknown flag: "@ + ("--"@ + with_value) + "\n\n"@ + usage,
            )
        }),
{
    lemma_flag(key, value);
}

/// What stands behind two dashes cannot start with a third, nor with an
/// equals sign, and what stands behind one cannot start with an equals sign.
pub proof fn law_bad_syntax_is_refused(
    o: OptionsView,
    sign: char,
    tail: Seq<char>,
    rest: Seq<Seq<char>>,
    usage: Seq<char>,
)
    requires
        sign == '-' || sign == '=',
    ensures
        parsed(o, seq!["--"@ + seq![sign] + tail] + rest, usage) == Err::<Option<OptionsView>, _>(
            "bad flag syntax: "@ + ("--"@ + seq![sign] + tail) + "\n\n"@ + usage,
        ),
        parsed(o, seq![seq!['-', '='] + tail] + rest, usage) == Err::<Option<OptionsView>, _>(
            "bad flag syntax: "@ + (seq!['-', '='] + tail) + "\n\n"@ + usage,
        ),
{
    lemma_names();
    let two = "--"@ + seq![sign] + tail;
    let one = seq!['-', '='] + tail;
    assert(two.take(2) =~= "--"@);
    assert(two.len() > 2);
    assert(two.skip(2)[0] == sign);
    assert(one.take(2)[1] == '=');
    assert(one.skip(1)[0] == '=');
    assert((seq![two] + rest)[0] == two);
    assert((seq![one] + rest)[0] == one);
}

/// The help text holds the name of the process as it is, and is the same for
/// every process around it.
pub proof fn law_usage_names_the_process(a: Seq<char>, b: Seq<char>)
    ensures
        usage_text(a).subrange(48, 48 + a.len() as int) == a,
        usage_text(a).take(48) == usage_text(b).take(48),
        usage_text(a).skip(48 + a.len() as int) == usage_text(b).skip(48 + b.len() as int),
{
    reveal_strlit("wsltray [--poll 5s] [--interval 30s] [--process ");
    assert("wsltray [--poll 5s] [--interval 30s] [--process "@.len() == 48);
    assert(usage_text(a).subrange(48, 48 + a.len() as int) =~= a);
    assert(usage_text(a).take(48) =~= usage_text(b).take(48));
    assert(usage_text(a).skip(48 + a.len() as int) =~= usage_text(b).skip(48 + b.len() as int));
}

/// The timer runs at the interval of the command line, in whole milliseconds,
/// as far as a timer can.
pub proof fn law_timer_runs_at_the_interval(poll: u64)
    ensures
        interval(0, poll) * 1_000_000 <= poll,
        interval(0, poll) <= 0xffff_ffff,
        interval(0, poll) < 0xffff_ffff ==> poll < (interval(0, poll) + 1) * 1_000_000,
{
}

/// A poll interval of the config file takes the place of the one of the
/// command line, unless it is zero. A longer interval on the command line
/// never makes a shorter one of the timer.
pub proof fn law_config_sets_the_interval(refreshms: u32, poll: u64, longer: u64)
    requires
        poll <= longer,
    ensures
        interval(refreshms, poll) <= interval(refreshms, longer),
        refreshms != 0 ==> interval(refreshms, poll) == refreshms,
        refreshms == 0 && poll / MILLISECOND <= u32::MAX ==> interval(refreshms, poll) == poll
            / MILLISECOND,
{
}

/// Default image name of the WSL2 VM process. Windows 11 calls it
/// `vmmemWSL`, Windows 10 `vmmem`. Either can be pointed at the other name
/// with `-process`.
pub fn default_process(win10: bool) -> (r: &'static str)
    ensures
        r@ == (if win10 {
            "vmmem"@
        } else {
            "vmmemWSL"@
        }),
{
    if win10 {
        "vmmem"
    } else {
        "vmmemWSL"
    }
}

/// Help text for `-h` and flag errors.
pub fn usage(process: &str) -> (r: String)
    ensures
        r@ == usage_text(process@),
{
    let mut r = "wsltray [--poll 5s] [--interval 30s] [--process ".to_string();
    text::push_str(&mut r, process);
    text::push_str(&mut r, "] [--log FILE] [--config FILE]\n\n");
    text::push_str(
        &mut r,
        "  --poll         how often to check whether WSL2 is running (cheap)\n",
    );
    text::push_str(
        &mut r,
        "  --interval     how often to refresh CPU/memory while WSL2 is running\n",
    );
    text::push_str(&mut r, "  --process      name of the WSL2 VM process\n");
    text::push_str(&mut r, "  --log          append diagnostic log lines to this file\n");
    text::push_str(
        &mut r,
        "  --config       config file to read (default: wsltray.ini next to the exe)",
    );
    r
}

/// A complaint about the command line, with the help text below it.
fn complain(what: &str, about: &[char], usage: &str) -> (r: String)
    ensures
        r@ == complaint(what@, about@, usage@),
{
    let mut r = what.to_string();
    text::push_chars(&mut r, about);
    text::push_str(&mut r, "\n\n");
    text::push_str(&mut r, usage);
    r
}

/// Whether a flag of this name takes a value.
fn needs_value(key: &[char]) -> (b: bool)
    ensures
        b == takes_value(key@),
{
    text::eq_str(key, "poll") || text::eq_str(key, "interval") || text::eq_str(key, "process")
        || text::eq_str(key, "log") || text::eq_str(key, "config")
}

impl Options {
    /// Takes over the value of a flag.
    fn set_value(&mut self, key: &[char], value: &str) -> (r: Result<(), String>)
        ensures
            match r {
                Ok(_) => set(old(self)@, key@, value@) == Ok::<_, Seq<char>>(final(self)@),
                Err(e) => set(old(self)@, key@, value@) == Err::<OptionsView, _>(e@),
            },
    {
        if text::eq_str(key, "poll") {
            match duration::parse_duration(value) {
                Some(ns) => {
                    self.poll = ns;
                },
                None => {
                    return Err("bad --poll duration".to_string());
                },
            }
        } else if text::eq_str(key, "interval") {
            match duration::parse_duration(value) {
                Some(ns) => {
                    self.stats = ns;
                },
                None => {
                    return Err("bad --interval duration".to_string());
                },
            }
        } else if text::eq_str(key, "process") {
            self.process = value.to_string();
        } else if text::eq_str(key, "log") {
            self.log = Some(value.to_string());
        } else {
            self.config = Some(value.to_string());
        }
        Ok(())
    }
}

/// Parses the command line `args`, which does not hold the name of the
/// program; `process` is the default of `--process`. `Ok(None)` means that
/// `-h`/`-help` was given.
pub fn parse_args(args: &Vec<String>, process: &str) -> (r: Result<Option<Options>, String>)
    ensures
        ({
            let expected = parsed(
                default_options(process@),
                text::texts(args@),
                usage_text(process@),
            );
            match r {
                Ok(Some(o)) => expected == Ok::<_, Seq<char>>(Some(o@)),
                Ok(None) => expected == Ok::<Option<OptionsView>, Seq<char>>(None),
                Err(e) => expected == Err::<Option<OptionsView>, _>(e@),
            }
        }),
{
    let mut o = Options {
        poll: DEFAULT_POLL,
        stats: DEFAULT_STATS,
        process: process.to_string(),
        log: None,
        config: None,
    };
    let ghost all = text::texts(args@);
    let ghost help = usage_text(process@);
    let ghost expected = parsed(default_options(process@), all, help);
    assert(all.skip(0) =~= all);
    let mut i: usize = 0;
    while i < args.len()
        invariant
            all == text::texts(args@),
            help == usage_text(process@),
            expected == parsed(default_options(process@), all, help),
            i <= args@.len(),
            expected == parsed(o@, all.skip(i as int), help),
        decreases args@.len() - i,
    {
        let a = text::chars_of(args[i].as_str());
        let ghost left = all.skip(i as int);
        assert(left[0] == a@);
        if a.len() < 2 || a[0] != '-' || text::eq_str(a.as_slice(), "--") {
            return Ok(Some(o));
        }
        let name: &[char] = match text::strip_prefix(a.as_slice(), "--") {
            Some(rest) => rest,
            None => &a.as_slice()[1..a.len()],
        };
        assert(name@ == without_dashes(a@));
        if name.len() > 0 && (name[0] == '-' || name[0] == '=') {
            let help = usage(process);
            return Err(complain("bad flag syntax: ", a.as_slice(), help.as_str()));
        }
        let (key, inline): (&[char], Option<&[char]>) = match text::split_once(name, '=') {
            Some((k, v)) => (k, Some(v)),
            None => (name, None),
        };
        if text::eq_str(key, "h") || text::eq_str(key, "help") {
            return Ok(None);
        }
        if !needs_value(key) {
            let help = usage(process);
            return Err(complain("unknown flag: ", a.as_slice(), help.as_str()));
        }
        let value: String = match inline {
            Some(v) => text::string_of(v),
            None => {
                i = i + 1;
                if i >= args.len() {
                    let help = usage(process);
                    return Err(complain("missing value for --", key, help.as_str()));
                }
                assert(left[1] == args@[i as int]@);
                args[i].clone()
            },
        };
        if let Err(e) = o.set_value(key, value.as_str()) {
            return Err(e);
        }
        i = i + 1;
        assert(inline is Some ==> all.skip(i as int) =~= left.skip(1));
        assert(inline is None ==> all.skip(i as int) =~= left.skip(2));
    }
    Ok(Some(o))
}

/// Interval of the poll timer in milliseconds: `refreshms` of the config file
/// unless it is zero, else `poll` of the command line, in nanoseconds.
pub fn timer_ms(refreshms: u32, poll: u64) -> (ms: u32)
    ensures
        ms == interval(refreshms, poll),
{
    let ms: u64 = poll / MILLISECOND;
    if refreshms != 0 {
        refreshms
    } else if ms <= 0xffff_ffff {
        ms as u32
    } else {
        u32::MAX
    }
}

} // verus!
