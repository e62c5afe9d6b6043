//! Command lines as Windows programs take them apart.
//!
//! Spaces and tabs separate the arguments, except between double quotes. A
//! backslash is special only before a quote: of a run of backslashes before a
//! quote, each pair stands for one backslash, and one left over makes the
//! quote an ordinary character. Between quotes, two quotes stand for an
//! ordinary one. The name of the program, which comes first, may be quoted
//! too, but backslashes in it are never special.

use vstd::prelude::*;

use crate::text;

verus! {

/// Whether `c` separates arguments.
pub open spec fn separator(c: char) -> bool {
    c == ' ' || c == '\t'
}

/// `n` backslashes.
pub open spec fn backslashes(n: nat) -> Seq<char> {
    Seq::new(n, |i: int| '\\')
}

/// The part of an argument that has been read.
pub open spec fn so_far(word: Option<Seq<char>>) -> Seq<char> {
    match word {
        Some(w) => w,
        None => seq![],
    }
}

/// `word` with `n` ordinary backslashes behind it.
pub open spec fn with_backslashes(word: Option<Seq<char>>, n: nat) -> Option<Seq<char>> {
    if n == 0 {
        word
    } else {
        Some(so_far(word) + backslashes(n))
    }
}

/// The arguments in `s`. `word` is the one begun so far, if any, `within`
/// says whether a quote is open, and `n` is how many backslashes stand right
/// before `s` that are not yet known to be special or not.
pub open spec fn words(
    s: Seq<char>,
    word: Option<Seq<char>>,
    within: bool,
    n: nat,
) -> Seq<Seq<char>>
    decreases s.len(),
{
    if s.len() == 0 {
        match with_backslashes(word, n) {
            Some(w) => seq![w],
            None => seq![],
        }
    } else if s[0] == '\\' {
        words(s.skip(1), word, within, n + 1)
    } else if s[0] == '"' {
        let w = so_far(word) + backslashes(n / 2);
        if n % 2 == 1 {
            words(s.skip(1), Some(w.push('"')), within, 0)
        } else if within && s.len() > 1 && s[1] == '"' {
            words(s.skip(2), Some(w.push('"')), true, 0)
        } else {
            words(s.skip(1), Some(w), !within, 0)
        }
    } else if separator(s[0]) && !within {
        match with_backslashes(word, n) {
            Some(w) => seq![w] + words(s.skip(1), None, false, 0),
            None => words(s.skip(1), None, false, 0),
        }
    } else {
        words(s.skip(1), Some(so_far(with_backslashes(word, n)).push(s[0])), within, 0)
    }
}

/// The arguments in `s`, from its start.
pub open spec fn arguments(s: Seq<char>) -> Seq<Seq<char>> {
    words(s, None, false, 0)
}

/// The name of the program and the arguments in `s`; `name` is what has been
/// read of the name so far, and `within` says whether a quote is open.
pub open spec fn program_and_arguments(s: Seq<char>, name: Seq<char>, within: bool) -> Seq<
    Seq<char>,
>
    decreases s.len(),
{
    if s.len() == 0 {
        seq![name]
    } else if s[0] == '"' {
        program_and_arguments(s.skip(1), name, !within)
    } else if separator(s[0]) && !within {
        seq![name] + arguments(s.skip(1))
    } else {
        program_and_arguments(s.skip(1), name.push(s[0]), within)
    }
}

/// The name of the program and the arguments of a command line.
pub open spec fn taken_apart(line: Seq<char>) -> Seq<Seq<char>> {
    program_and_arguments(line, seq![], false)
}

/// Whether `s` holds white space.
pub open spec fn has_white(s: Seq<char>) -> bool {
    exists|i: int| 0 <= i < s.len() && text::whitespace(#[trigger] s[i])
}

/// `s` with a backslash before each quote, and the backslashes before a quote
/// doubled; so are those at the end if a quote is to `close` it. `n` is how
/// many backslashes stand right before `s`.
pub open spec fn escaped(s: Seq<char>, n: nat, close: bool) -> Seq<char>
    decreases s.len(),
{
    if s.len() == 0 {
        if close {
            backslashes(n)
        } else {
            seq![]
        }
    } else if s[0] == '\\' {
        seq!['\\'] + escaped(s.skip(1), n + 1, close)
    } else if s[0] == '"' {
        backslashes(n) + seq!['\\', '"'] + escaped(s.skip(1), 0, close)
    } else {
        seq![s[0]] + escaped(s.skip(1), 0, close)
    }
}

/// `s` as one argument: in quotes if it is empty or holds white space.
pub open spec fn argument(s: Seq<char>) -> Seq<char> {
    if s.len() == 0 || has_white(s) {
        seq!['"'] + escaped(s, 0, true) + seq!['"']
    } else {
        escaped(s, 0, false)
    }
}

/// The command line of the program `exe` with the arguments `args`: the
/// quoted name, then the arguments, with a space before each.
pub open spec fn command_line(exe: Seq<char>, args: Seq<Seq<char>>) -> Seq<char>
    decreases args.len(),
{
    if args.len() == 0 {
        seq!['"'] + exe + seq!['"']
    } else {
        command_line(exe, args.drop_last()) + seq![' '] + argument(args.last())
    }
}

/// What follows an argument that ends where `tail` begins.
pub open spec fn behind(tail: Seq<char>) -> Seq<Seq<char>> {
    if tail.len() == 0 {
        seq![]
    } else {
        arguments(tail.skip(1))
    }
}

/// Whether an argument can end where `tail` begins.
pub open spec fn ends_argument(tail: Seq<char>) -> bool {
    tail.len() == 0 || separator(tail[0])
}

/// Backslashes are counted.
proof fn lemma_backslashes(m: nat, rest: Seq<char>, word: Option<Seq<char>>, within: bool, n: nat)
    ensures
        words(backslashes(m) + rest, word, within, n) == words(rest, word, within, n + m),
    decreases m,
{
    if m == 0 {
        assert(backslashes(0) + rest =~= rest);
    } else {
        let all = backslashes(m) + rest;
        assert(all[0] == '\\');
        assert(all.skip(1) =~= backslashes((m - 1) as nat) + rest);
        lemma_backslashes((m - 1) as nat, rest, word, within, n + 1);
    }
}

/// What is escaped between quotes is read as it was, up to the closing quote.
proof fn lemma_escaped_within(s: Seq<char>, tail: Seq<char>, w: Seq<char>, n: nat)
    requires
        ends_argument(tail),
    ensures
        words(escaped(s, n, true) + seq!['"'] + tail, Some(w), true, n) == words(
            tail,
            Some(w + backslashes(n) + s),
            false,
            0,
        ),
    decreases s.len(),
{
    let end = seq!['"'] + tail;
    let all = escaped(s, n, true) + seq!['"'] + tail;
    if s.len() == 0 {
        assert(all =~= backslashes(n) + end);
        lemma_backslashes(n, end, Some(w), true, n);
        assert(end.skip(1) =~= tail);
        assert((n + n) / 2 == n && (n + n) % 2 == 0);
        assert(w + backslashes(n) + s =~= w + backslashes(n));
    } else if s[0] == '\\' {
        let rest = escaped(s.skip(1), n + 1, true) + seq!['"'] + tail;
        assert(all.skip(1) =~= rest);
        lemma_escaped_within(s.skip(1), tail, w, n + 1);
        assert(w + backslashes(n + 1) + s.skip(1) =~= w + backslashes(n) + s);
    } else if s[0] == '"' {
        let rest = escaped(s.skip(1), 0, true) + seq!['"'] + tail;
        let quote = seq!['"'] + rest;
        let pair = seq!['\\', '"'] + rest;
        assert(all =~= backslashes(n) + pair);
        lemma_backslashes(n, pair, Some(w), true, n);
        assert(pair.skip(1) =~= quote);
        assert(quote.skip(1) =~= rest);
        assert((n + n + 1) / 2 == n as int && (n + n + 1) % 2 == 1);
        let next = (w + backslashes(n)).push('"');
        assert(words(pair, Some(w), true, n + n) == words(quote, Some(w), true, n + n + 1));
        lemma_escaped_within(s.skip(1), tail, next, 0);
        assert(next + backslashes(0) + s.skip(1) =~= w + backslashes(n) + s);
    } else {
        let rest = escaped(s.skip(1), 0, true) + seq!['"'] + tail;
        assert(all.skip(1) =~= rest);
        let before = so_far(with_backslashes(Some(w), n));
        assert(before =~= w + backslashes(n));
        let next = before.push(s[0]);
        lemma_escaped_within(s.skip(1), tail, next, 0);
        assert(next + backslashes(0) + s.skip(1) =~= w + backslashes(n) + s);
    }
}

/// What is escaped without quotes, because nothing in it separates, is read
/// as it was.
proof fn lemma_escaped_without(s: Seq<char>, tail: Seq<char>, word: Option<Seq<char>>, n: nat)
    requires
        ends_argument(tail),
        !has_white(s),
        word is Some || n > 0 || s.len() > 0,
    ensures
        words(escaped(s, n, false) + tail, word, false, n) == seq![
            so_far(word) + backslashes(n) + s,
        ] + behind(tail),
    decreases s.len(),
{
    let w = so_far(word);
    let all = escaped(s, n, false) + tail;
    let whole = w + backslashes(n) + s;
    if s.len() == 0 {
        assert(all =~= tail);
        assert(whole =~= w + backslashes(n));
        assert(with_backslashes(word, n) == Some(whole)) by {
            if n == 0 {
                assert(w + backslashes(n) =~= w);
            }
        }
        assert(seq![whole] + Seq::<Seq<char>>::empty() =~= seq![whole]);
    } else {
        let left = s.skip(1);
        assert(!text::whitespace(s[0]));
        assert(!has_white(left)) by {
            if has_white(left) {
                let i = choose|i: int| 0 <= i < left.len() && text::whitespace(#[trigger] left[i]);
                assert(text::whitespace(s[i + 1]));
            }
        }
        if s[0] == '\\' {
            assert(all.skip(1) =~= escaped(left, n + 1, false) + tail);
            lemma_escaped_without(left, tail, word, n + 1);
            assert(w + backslashes(n + 1) + left =~= whole);
        } else if s[0] == '"' {
            let rest = escaped(left, 0, false) + tail;
            let quote = seq!['"'] + rest;
            let pair = seq!['\\', '"'] + rest;
            assert(all =~= backslashes(n) + pair);
            lemma_backslashes(n, pair, word, false, n);
            assert(pair.skip(1) =~= quote);
            assert(quote.skip(1) =~= rest);
            assert((n + n + 1) / 2 == n as int && (n + n + 1) % 2 == 1);
            let next = (w + backslashes(n)).push('"');
            assert(words(pair, word, false, n + n) == words(quote, word, false, n + n + 1));
            lemma_escaped_without(left, tail, Some(next), 0);
            assert(next + backslashes(0) + left =~= whole);
        } else {
            assert(all.skip(1) =~= escaped(left, 0, false) + tail);
            let before = so_far(with_backslashes(word, n));
            assert(before =~= w + backslashes(n));
            let next = before.push(s[0]);
            lemma_escaped_without(left, tail, Some(next), 0);
            assert(next + backslashes(0) + left =~= whole);
        }
    }
}

/// An argument ends where a separator, or the end, follows it.
proof fn lemma_end(w: Seq<char>, tail: Seq<char>)
    requires
        ends_argument(tail),
    ensures
        words(tail, Some(w), false, 0) == seq![w] + behind(tail),
{
    assert(seq![w] + Seq::<Seq<char>>::empty() =~= seq![w]);
}

/// Whatever is written as an argument is read as that one argument, before a
/// space and at the end.
pub proof fn law_argument_is_read_back(s: Seq<char>, tail: Seq<char>)
    requires
        ends_argument(tail),
    ensures
        arguments(argument(s) + tail) == seq![s] + behind(tail),
{
    if s.len() == 0 || has_white(s) {
        let inner = escaped(s, 0, true) + seq!['"'] + tail;
        let all = argument(s) + tail;
        assert(all =~= seq!['"'] + inner);
        assert(all.skip(1) =~= inner);
        let empty: Seq<char> = seq![];
        assert(empty + backslashes(0) =~= empty);
        assert(arguments(all) == words(inner, Some(empty), true, 0));
        lemma_escaped_within(s, tail, empty, 0);
        assert(empty + backslashes(0) + s =~= s);
        lemma_end(s, tail);
    } else {
        lemma_escaped_without(s, tail, None, 0);
        assert(Seq::<char>::empty() + backslashes(0) + s =~= s);
    }
}

/// A text without quotes needs no escaping, unless a quote is to close it
/// behind a backslash.
proof fn lemma_nothing_to_escape(s: Seq<char>, n: nat, close: bool)
    requires
        !s.contains('"'),
        close ==> s.len() > 0 && s.last() != '\\',
    ensures
        escaped(s, n, close) == s,
    decreases s.len(),
{
    if s.len() > 0 {
        let left = s.skip(1);
        assert(s.contains(s[0]));
        assert(!left.contains('"')) by {
            if left.contains('"') {
                let i = choose|i: int| 0 <= i < left.len() && left[i] == '"';
                assert(s[i + 1] == '"');
            }
        }
        assert(seq![s[0]] + left =~= s);
        if left.len() > 0 {
            assert(left.last() == s.last());
            lemma_nothing_to_escape(left, n + 1, close);
            lemma_nothing_to_escape(left, 0, close);
        } else {
            assert(s.last() == s[0]);
            assert(backslashes(0) =~= seq![]);
            assert(escaped(left, 0, close) =~= seq![]);
            if !close {
                assert(escaped(left, n + 1, close) =~= seq![]);
            }
        }
    }
}

/// A name without quotes, put in quotes if it holds white space, is one
/// argument. It must not end in a backslash if it is put in quotes.
pub proof fn law_name_is_one_argument(s: Seq<char>, tail: Seq<char>)
    requires
        s.len() > 0,
        !s.contains('"'),
        has_white(s) ==> s.last() != '\\',
        ends_argument(tail),
    ensures
        has_white(s) ==> arguments(seq!['"'] + s + seq!['"'] + tail) == seq![s] + behind(tail),
        !has_white(s) ==> arguments(s + tail) == seq![s] + behind(tail),
{
    law_argument_is_read_back(s, tail);
    lemma_nothing_to_escape(s, 0, has_white(s));
}

/// The quoted name of a program is read up to the first separator behind it.
proof fn lemma_program(exe: Seq<char>, tail: Seq<char>, name: Seq<char>)
    requires
        !exe.contains('"'),
        ends_argument(tail),
    ensures
        program_and_arguments(exe + seq!['"'] + tail, name, true) == seq![name + exe] + behind(tail),
    decreases exe.len(),
{
    let all = exe + seq!['"'] + tail;
    if exe.len() == 0 {
        assert(all =~= seq!['"'] + tail);
        assert(all.skip(1) =~= tail);
        assert(name + exe =~= name);
        assert(program_and_arguments(tail, name, false) == seq![name] + behind(tail)) by {
            assert(seq![name] + Seq::<Seq<char>>::empty() =~= seq![name]);
        }
    } else {
        let left = exe.skip(1);
        assert(exe.contains(exe[0]));
        assert(!left.contains('"')) by {
            if left.contains('"') {
                let i = choose|i: int| 0 <= i < left.len() && left[i] == '"';
                assert(exe[i + 1] == '"');
            }
        }
        assert(all.skip(1) =~= left + seq!['"'] + tail);
        lemma_program(left, tail, name.push(exe[0]));
        assert(name.push(exe[0]) + left =~= name + exe);
    }
}

/// A command line with something behind it.
proof fn lemma_command_line(exe: Seq<char>, args: Seq<Seq<char>>, tail: Seq<char>)
    requires
        !exe.contains('"'),
        ends_argument(tail),
    ensures
        taken_apart(command_line(exe, args) + tail) == seq![exe] + args + behind(tail),
    decreases args.len(),
{
    if args.len() == 0 {
        let all = command_line(exe, args) + tail;
        let inner = exe + seq!['"'] + tail;
        assert(all =~= seq!['"'] + inner);
        assert(all.skip(1) =~= inner);
        lemma_program(exe, tail, seq![]);
        assert(Seq::<char>::empty() + exe =~= exe);
        assert(seq![exe] + args + behind(tail) =~= seq![exe] + behind(tail));
    } else {
        let last = argument(args.last()) + tail;
        let rest = seq![' '] + last;
        lemma_command_line(exe, args.drop_last(), rest);
        assert(command_line(exe, args) + tail =~= command_line(exe, args.drop_last()) + rest);
        assert(rest.skip(1) =~= last);
        law_argument_is_read_back(args.last(), tail);
        assert(seq![exe] + args.drop_last() + (seq![args.last()] + behind(tail)) =~= seq![exe]
            + args + behind(tail));
    }
}

/// The program is started again with exactly the arguments it was started
/// with, whatever they are. The name of a program holds no quotes.
pub proof fn law_launch_is_repeated(exe: Seq<char>, args: Seq<Seq<char>>)
    requires
        !exe.contains('"'),
    ensures
        taken_apart(command_line(exe, args)) == seq![exe] + args,
{
    lemma_command_line(exe, args, seq![]);
    assert(command_line(exe, args) + Seq::<char>::empty() =~= command_line(exe, args));
    assert(seq![exe] + args + Seq::<Seq<char>>::empty() =~= seq![exe] + args);
}

/// An argument without quotes in it stands as it is, between quotes where it
/// is empty or any of its characters is white space.
pub proof fn law_plain_arguments(s: Seq<char>, i: int)
    requires
        !s.contains('"'),
    ensures
        s.len() == 0 ==> argument(s) == seq!['"', '"'],
        0 <= i < s.len() && text::whitespace(s[i]) && s.last() != '\\' ==> argument(s) == seq!['"']
            + s + seq!['"'],
        s.len() > 0 && (forall|j: int| 0 <= j < s.len() ==> !text::whitespace(#[trigger] s[j]))
            ==> argument(s) == s,
{
    if s.len() == 0 {
        assert(backslashes(0) =~= seq![]);
        assert(argument(s) =~= seq!['"', '"']);
    } else if has_white(s) {
        if s.last() != '\\' {
            lemma_nothing_to_escape(s, 0, true);
        }
    } else {
        lemma_nothing_to_escape(s, 0, false);
    }
}

/// Every quote in an argument has a backslash before it, but for those around
/// the argument.
pub proof fn law_quotes_are_escaped(s: Seq<char>, i: int)
    requires
        0 <= i < argument(s).len(),
        argument(s)[i] == '"',
        s.len() == 0 || has_white(s) ==> 0 < i < argument(s).len() - 1,
    ensures
        i > 0,
        argument(s)[i - 1] == '\\',
{
    if s.len() == 0 || has_white(s) {
        lemma_quotes(s, 0, true, i - 1);
    } else {
        lemma_quotes(s, 0, false, i);
    }
}

proof fn lemma_quotes(s: Seq<char>, n: nat, close: bool, i: int)
    requires
        0 <= i < escaped(s, n, close).len(),
        escaped(s, n, close)[i] == '"',
    ensures
        i > 0,
        escaped(s, n, close)[i - 1] == '\\',
    decreases s.len(),
{
    if s.len() > 0 {
        let left = s.skip(1);
        if s[0] == '\\' {
            if i > 0 {
                lemma_quotes(left, n + 1, close, i - 1);
            }
        } else if s[0] == '"' {
            let head = backslashes(n) + seq!['\\', '"'];
            if i >= head.len() {
                lemma_quotes(left, 0, close, i - head.len());
            }
        } else if i > 0 {
            lemma_quotes(left, 0, close, i - 1);
        }
    }
}

/// A command line is the name of the program in quotes, and each argument
/// adds a space and itself.
pub proof fn law_arguments_are_appended(exe: Seq<char>, args: Seq<Seq<char>>, arg: Seq<char>)
    ensures
        command_line(exe, seq![]) == seq!['"'] + exe + seq!['"'],
        command_line(exe, args.push(arg)) == command_line(exe, args) + seq![' '] + argument(arg),
{
    assert(args.push(arg).drop_last() =~= args);
}

/// Whether `cs` holds white space.
pub fn holds_white(cs: &[char]) -> (b: bool)
    ensures
        b == has_white(cs@),
{
    let mut i: usize = 0;
    while i < cs.len()
        invariant
            i <= cs@.len(),
            forall|j: int| 0 <= j < i ==> !text::whitespace(#[trigger] cs@[j]),
        decreases cs@.len() - i,
    {
        if text::is_whitespace(cs[i]) {
            assert(text::whitespace(cs@[i as int]));
            return true;
        }
        i = i + 1;
    }
    false
}

/// Appends `n` backslashes to `s`.
fn push_backslashes(s: &mut String, n: usize)
    ensures
        final(s)@ == old(s)@ + backslashes(n as nat),
{
    let mut i: usize = 0;
    assert(old(s)@ + backslashes(0) =~= old(s)@);
    while i < n
        invariant
            i <= n,
            s@ == old(s)@ + backslashes(i as nat),
        decreases n - i,
    {
        s.push('\\');
        i = i + 1;
        assert(s@ =~= old(s)@ + backslashes(i as nat));
    }
}

/// Appends `cs`, escaped, to `s`.
fn push_escaped(s: &mut String, cs: &[char], close: bool)
    ensures
        final(s)@ == old(s)@ + escaped(cs@, 0, close),
{
    let mut n: usize = 0;
    let mut i: usize = 0;
    assert(cs@.skip(0) =~= cs@);
    while i < cs.len()
        invariant
            n <= i <= cs@.len(),
            s@ + escaped(cs@.skip(i as int), n as nat, close) == old(s)@ + escaped(cs@, 0, close),
        decreases cs@.len() - i,
    {
        let c: char = cs[i];
        let ghost before = s@;
        let ghost left = cs@.skip(i as int);
        let ghost m = n as nat;
        assert(left.skip(1) =~= cs@.skip(i + 1));
        if c == '\\' {
            s.push(c);
            n = n + 1;
        } else if c == '"' {
            push_backslashes(s, n);
            s.push('\\');
            s.push('"');
            assert(s@ =~= before + (backslashes(n as nat) + seq!['\\', '"']));
            n = 0;
        } else {
            s.push(c);
            n = 0;
        }
        i = i + 1;
        assert(s@ + escaped(left.skip(1), n as nat, close) =~= before + escaped(left, m, close));
    }
    assert(cs@.skip(i as int) =~= seq![]);
    if close {
        push_backslashes(s, n);
    } else {
        assert(s@ + escaped(seq![], n as nat, close) =~= s@);
    }
}

/// Appends `arg`, as one argument, to `s`.
fn push_argument(s: &mut String, arg: &str)
    ensures
        final(s)@ == old(s)@ + argument(arg@),
{
    let cs = text::chars_of(arg);
    if cs.len() == 0 || holds_white(cs.as_slice()) {
        s.push('"');
        push_escaped(s, cs.as_slice(), true);
        s.push('"');
        assert(s@ =~= old(s)@ + argument(arg@));
    } else {
        push_escaped(s, cs.as_slice(), false);
    }
}

/// The command line that starts the program `exe` with the arguments `args`
/// again: the quoted path followed by the arguments.
pub fn launch_command(exe: &str, args: &Vec<String>) -> (r: String)
    ensures
        r@ == command_line(exe@, text::texts(args@)),
{
    let mut r = String::new();
    r.push('"');
    text::push_str(&mut r, exe);
    r.push('"');
    let ghost all = text::texts(args@);
    let mut i: usize = 0;
    assert(all.take(0) =~= seq![]);
    assert(r@ =~= command_line(exe@, seq![]));
    while i < args.len()
        invariant
            all == text::texts(args@),
            i <= args@.len(),
            r@ == command_line(exe@, all.take(i as int)),
        decreases args@.len() - i,
    {
        r.push(' ');
        push_argument(&mut r, args[i].as_str());
        i = i + 1;
        assert(all.take(i as int).drop_last() =~= all.take(i - 1));
        assert(r@ =~= command_line(exe@, all.take(i - 1)) + seq![' '] + argument(all[i - 1]));
    }
    assert(all.take(i as int) =~= all);
    r
}

} // verus!
