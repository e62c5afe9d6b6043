//! Lines of the diagnostics log.

use vstd::prelude::*;

use crate::text;

verus! {

/// A moment of local wall-clock time.
#[derive(Clone, Copy, Debug, PartialEq, Eq, Structural)]
pub struct Time {
    pub year: u16,
    pub month: u16,
    pub day: u16,
    pub hour: u16,
    pub minute: u16,
    pub second: u16,
}

/// `n` in decimal with at least `width` digits.
pub open spec fn padded(n: nat, width: nat) -> Seq<char> {
    if text::decimal(n).len() >= width {
        text::decimal(n)
    } else {
        Seq::new((width - text::decimal(n).len()) as nat, |i: int| '0') + text::decimal(n)
    }
}

/// A log line: date and time, then the message.
pub open spec fn line(t: Time, message: Seq<char>) -> Seq<char> {
    padded(t.year as nat, 4) + "/"@ + padded(t.month as nat, 2) + "/"@ + padded(t.day as nat, 2)
        + " "@ + padded(t.hour as nat, 2) + ":"@ + padded(t.minute as nat, 2) + ":"@ + padded(
        t.second as nat,
        2,
    ) + " "@ + message + "\n"@
}

/// The length of a number with up to four digits.
proof fn lemma_decimal_len(n: nat)
    ensures
        n < 10 ==> text::decimal(n).len() == 1,
        10 <= n < 100 ==> text::decimal(n).len() == 2,
        100 <= n < 1000 ==> text::decimal(n).len() == 3,
        n >= 1000 ==> text::decimal(n).len() >= 4,
    decreases n,
{
    if n >= 10 {
        lemma_decimal_len(n / 10);
    }
}

/// Every line of a year of four digits starts with twenty characters of date
/// and time, so that the messages stand below each other.
pub proof fn law_messages_are_aligned(t: Time, message: Seq<char>)
    requires
        t.year < 10_000,
        t.month < 100,
        t.day < 100,
        t.hour < 100,
        t.minute < 100,
        t.second < 100,
    ensures
        line(t, message).len() == 20 + message.len() + 1,
        line(t, message).subrange(20, 20 + message.len() as int) == message,
{
    lemma_decimal_len(t.year as nat);
    lemma_decimal_len(t.month as nat);
    lemma_decimal_len(t.day as nat);
    lemma_decimal_len(t.hour as nat);
    lemma_decimal_len(t.minute as nat);
    lemma_decimal_len(t.second as nat);
    assert(text::decimal(t.year as nat).len() <= 4) by {
        if t.year >= 1000 {
            lemma_decimal_len(t.year as nat / 10);
            assert(text::decimal(t.year as nat / 10).len() == 3);
        }
    }
    reveal_strlit("/");
    reveal_strlit(" ");
    reveal_strlit(":");
    reveal_strlit("\n");
    assert(line(t, message).subrange(20, 20 + message.len() as int) =~= message);
}

/// Zeros before a number change nothing about it.
proof fn lemma_zeros(k: nat, s: Seq<char>)
    requires
        text::digits(s),
    ensures
        text::digits(Seq::new(k, |i: int| '0') + s),
        text::number(Seq::new(k, |i: int| '0') + s) == text::number(s),
    decreases s.len(),
{
    let z = Seq::new(k, |i: int| '0');
    let w = z + s;
    assert forall|i: int| 0 <= i < w.len() implies text::decimal_digit(#[trigger] w[i]) by {
        if i >= k {
            assert(w[i] == s[i - k]);
        }
    }
    assert(text::decimal_digit(s[s.len() - 1]));
    if s.len() == 1 {
        lemma_only_zeros(k);
        assert(w.drop_last() =~= z);
        assert(s.drop_last() =~= seq![]);
        assert(text::number(seq![]) == 0);
    } else {
        let t = s.drop_last();
        assert forall|i: int| 0 <= i < t.len() implies text::decimal_digit(#[trigger] t[i]) by {
            assert(t[i] == s[i]);
        }
        lemma_zeros(k, t);
        assert(w.drop_last() =~= z + t);
    }
}

proof fn lemma_only_zeros(k: nat)
    ensures
        text::number(Seq::new(k, |i: int| '0')) == 0,
    decreases k,
{
    if k > 0 {
        lemma_only_zeros((k - 1) as nat);
        assert(Seq::new(k, |i: int| '0').drop_last() =~= Seq::new((k - 1) as nat, |i: int| '0'));
    }
}

/// A number with leading zeros is still that number. It has as many digits as
/// are wanted, and more only where it needs them.
pub proof fn law_padding_keeps_the_number(n: nat, width: nat)
    requires
        width > 0,
    ensures
        text::digits(padded(n, width)),
        text::number(padded(n, width)) == n,
        padded(n, width).len() >= width,
        padded(n, width).len() > width ==> padded(n, width)[0] != '0',
{
    text::law_decimal_is_read_back(n);
    let d = text::decimal(n);
    if d.len() < width {
        lemma_zeros((width - d.len()) as nat, d);
    }
}

/// A log line holds year, month and day, hour, minute and second, in this
/// order and each as a number, and then the message as it is.
pub proof fn law_log_line_holds_the_time(t: Time, message: Seq<char>) -> (p: Seq<Seq<char>>)
    ensures
        p.len() == 6,
        line(t, message) == p[0] + "/"@ + p[1] + "/"@ + p[2] + " "@ + p[3] + ":"@ + p[4] + ":"@
            + p[5] + " "@ + message + "\n"@,
        forall|i: int| 0 <= i < 6 ==> text::digits(#[trigger] p[i]),
        text::number(p[0]) == t.year,
        text::number(p[1]) == t.month,
        text::number(p[2]) == t.day,
        text::number(p[3]) == t.hour,
        text::number(p[4]) == t.minute,
        text::number(p[5]) == t.second,
        p[0].len() >= 4,
        p[0].len() > 4 ==> p[0][0] != '0',
        forall|i: int|
            0 < i < 6 ==> (#[trigger] p[i]).len() >= 2 && (p[i].len() > 2 ==> p[i][0] != '0'),
{
    law_padding_keeps_the_number(t.year as nat, 4);
    law_padding_keeps_the_number(t.month as nat, 2);
    law_padding_keeps_the_number(t.day as nat, 2);
    law_padding_keeps_the_number(t.hour as nat, 2);
    law_padding_keeps_the_number(t.minute as nat, 2);
    law_padding_keeps_the_number(t.second as nat, 2);
    seq![
        padded(t.year as nat, 4),
        padded(t.month as nat, 2),
        padded(t.day as nat, 2),
        padded(t.hour as nat, 2),
        padded(t.minute as nat, 2),
        padded(t.second as nat, 2),
    ]
}

/// Appends `n` in decimal with at least `width` digits to `s`, where `width`
/// is two or four.
fn push_padded(s: &mut String, n: u16, width: usize)
    requires
        width == 2 || width == 4,
    ensures
        final(s)@ == old(s)@ + padded(n as nat, width as nat),
{
    proof {
        lemma_decimal_len(n as nat);
    }
    let mut missing: usize = if n < 10 {
        width - 1
    } else if n < 100 {
        width - 2
    } else if n < 1000 && width == 4 {
        1
    } else {
        0
    };
    let ghost zeros = missing;
    let ghost mut pushed: Seq<char> = seq![];
    while missing > 0
        invariant
            s@ == old(s)@ + pushed,
            pushed == Seq::new((zeros - missing) as nat, |i: int| '0'),
            missing <= zeros,
        decreases missing,
    {
        s.push('0');
        missing = missing - 1;
        proof {
            pushed = pushed.push('0');
            assert(pushed =~= Seq::new((zeros - missing) as nat, |i: int| '0'));
        }
    }
    text::push_decimal(s, n as u64);
    assert(s@ =~= old(s)@ + padded(n as nat, width as nat));
}

/// A log line: `message` at the time `t`.
pub fn log_line(t: Time, message: &str) -> (r: String)
    ensures
        r@ == line(t, message@),
{
    let mut r = String::new();
    push_padded(&mut r, t.year, 4);
    text::push_str(&mut r, "/");
    push_padded(&mut r, t.month, 2);
    text::push_str(&mut r, "/");
    push_padded(&mut r, t.day, 2);
    text::push_str(&mut r, " ");
    push_padded(&mut r, t.hour, 2);
    text::push_str(&mut r, ":");
    push_padded(&mut r, t.minute, 2);
    text::push_str(&mut r, ":");
    push_padded(&mut r, t.second, 2);
    text::push_str(&mut r, " ");
    text::push_str(&mut r, message);
    text::push_str(&mut r, "\n");
    assert(r@ =~= line(t, message@));
    r
}

} // verus!
