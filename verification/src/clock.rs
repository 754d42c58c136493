//! The game clock: the calls into `std::time`, elapsed time as plain values, and
//! the "MMM:SS" display.

use vstd::prelude::*;

verus! {

#[verifier::external_type_specification]
#[verifier::external_body]
pub struct ExInstant(std::time::Instant);

/// Calls `Instant::now`. Nothing is claimed of the moment it returns.
#[verifier::external_body]
pub(crate) fn now() -> std::time::Instant {
    std::time::Instant::now()
}

/// A span of time in whole seconds and the nanoseconds beyond them.
#[derive(Clone, Copy, PartialEq, Eq, Debug, Structural)]
pub struct Elapsed {
    pub secs: u64,
    pub nanos: u32,
}

impl Elapsed {
    /// No time at all.
    pub fn zero() -> (e: Elapsed)
        ensures
            e.secs == 0,
            e.nanos == 0,
    {
        Elapsed { secs: 0, nanos: 0 }
    }
}

/// Calls `Instant::elapsed` and splits the `Duration` it returns into whole
/// seconds (`as_secs`) and the nanoseconds beyond them (`subsec_nanos`), which std
/// documents to be below one billion. How much time has passed depends on the
/// clock, so nothing more is claimed of it.
#[verifier::external_body]
pub(crate) fn elapsed_since(start: &std::time::Instant) -> (e: Elapsed)
    ensures
        e.nanos < 1_000_000_000,
{
    let d = start.elapsed();
    Elapsed { secs: d.as_secs(), nanos: d.subsec_nanos() }
}

/// The decimal digit `d` (0..=9).
pub open spec fn digit_char(d: int) -> char {
    if d == 0 {
        '0'
    } else if d == 1 {
        '1'
    } else if d == 2 {
        '2'
    } else if d == 3 {
        '3'
    } else if d == 4 {
        '4'
    } else if d == 5 {
        '5'
    } else if d == 6 {
        '6'
    } else if d == 7 {
        '7'
    } else if d == 8 {
        '8'
    } else {
        '9'
    }
}

/// `n` written in decimal, without leading zeros.
pub open spec fn decimal(n: nat) -> Seq<char>
    decreases n,
{
    if n < 10 {
        seq![digit_char(n as int)]
    } else {
        decimal(n / 10).push(digit_char((n % 10) as int))
    }
}

/// `n` in decimal, padded on the left with zeros to at least `width` characters.
pub open spec fn padded(n: nat, width: nat) -> Seq<char> {
    if decimal(n).len() < width {
        Seq::new((width - decimal(n).len()) as nat, |_i: int| '0') + decimal(n)
    } else {
        decimal(n)
    }
}

/// `secs` shown as minutes (at least three digits), a colon, and seconds (two digits).
pub open spec fn clock_text(secs: nat) -> Seq<char> {
    padded(secs / 60, 3) + seq![':'] + padded(secs % 60, 2)
}

proof fn lemma_decimal_len(n: nat)
    ensures
        n < 10 ==> decimal(n).len() == 1,
        10 <= n < 100 ==> decimal(n).len() == 2,
        n >= 100 ==> decimal(n).len() >= 3,
    decreases n,
{
    if n >= 10 {
        lemma_decimal_len(n / 10);
    }
}

/// The value of a decimal digit character; 10 for any other character.
pub open spec fn digit_value(ch: char) -> int {
    if ch == '0' {
        0
    } else if ch == '1' {
        1
    } else if ch == '2' {
        2
    } else if ch == '3' {
        3
    } else if ch == '4' {
        4
    } else if ch == '5' {
        5
    } else if ch == '6' {
        6
    } else if ch == '7' {
        7
    } else if ch == '8' {
        8
    } else if ch == '9' {
        9
    } else {
        10
    }
}

/// `ch` is one of '0' to '9'.
pub open spec fn is_digit(ch: char) -> bool {
    digit_value(ch) < 10
}

/// The number a string of decimal digits reads as, leading zeros allowed.
pub open spec fn digits_value(s: Seq<char>) -> int
    decreases s.len(),
{
    if s.len() == 0 {
        0
    } else {
        digits_value(s.drop_last()) * 10 + digit_value(s.last())
    }
}

proof fn lemma_digit_char(d: int)
    requires
        0 <= d < 10,
    ensures
        digit_value(digit_char(d)) == d,
        d > 0 ==> digit_char(d) != '0',
{
}

/// `decimal(n)` is made of digits, reads back as `n`, and starts with a zero only
/// when it is the single digit of 0.
proof fn lemma_decimal_reads(n: nat)
    ensures
        decimal(n).len() >= 1,
        forall|k: int| 0 <= k < decimal(n).len() ==> is_digit(#[trigger] decimal(n)[k]),
        digits_value(decimal(n)) == n,
        n > 0 ==> decimal(n)[0] != '0',
    decreases n,
{
    if n < 10 {
        lemma_digit_char(n as int);
        let d = seq![digit_char(n as int)];
        assert(d.drop_last() =~= Seq::<char>::empty());
        assert(digits_value(d.drop_last()) == 0);
        assert(digits_value(d) == digits_value(d.drop_last()) * 10 + digit_value(d.last()));
    } else {
        lemma_decimal_reads(n / 10);
        lemma_digit_char((n % 10) as int);
        let t = decimal(n / 10);
        assert(decimal(n).drop_last() =~= t);
        assert forall|k: int| 0 <= k < decimal(n).len() implies is_digit(#[trigger] decimal(n)[k]) by {
            if k < t.len() {
                assert(decimal(n)[k] == t[k]);
            }
        }
        assert(decimal(n)[0] == t[0]);
        assert(decimal(n).last() == digit_char((n % 10) as int));
        assert((n / 10) * 10 + n % 10 == n);
        assert(digits_value(decimal(n)) == digits_value(t) * 10 + digit_value(decimal(n).last()));
    }
}

/// Zeros in front do not change what a string of digits reads as.
proof fn lemma_leading_zeros(z: nat, t: Seq<char>)
    ensures
        digits_value(Seq::new(z, |_i: int| '0') + t) == digits_value(t),
    decreases t.len(), z,
{
    let zs = Seq::new(z, |_i: int| '0');
    if t.len() == 0 {
        assert(zs + t =~= zs);
        if z > 0 {
            lemma_leading_zeros((z - 1) as nat, t);
            assert(zs.drop_last() =~= Seq::new((z - 1) as nat, |_i: int| '0') + t);
        }
    } else {
        lemma_leading_zeros(z, t.drop_last());
        assert((zs + t).drop_last() =~= zs + t.drop_last());
        assert((zs + t).last() == t.last());
    }
}

/// `padded(n, width)` is made of digits, reads back as `n`, has `width`
/// characters unless `n` needs more, and then starts with a nonzero digit.
proof fn lemma_padded_reads(n: nat, width: nat)
    requires
        width >= 1,
    ensures
        padded(n, width).len() >= width,
        forall|k: int| 0 <= k < padded(n, width).len() ==> is_digit(#[trigger] padded(n, width)[k]),
        digits_value(padded(n, width)) == n,
        padded(n, width).len() > width ==> padded(n, width)[0] != '0',
        padded(n, width).len() > width ==> padded(n, width) == decimal(n),
{
    lemma_decimal_reads(n);
    let d = decimal(n);
    if d.len() < width {
        let zs = Seq::new((width - d.len()) as nat, |_i: int| '0');
        lemma_leading_zeros((width - d.len()) as nat, d);
        assert forall|k: int| 0 <= k < padded(n, width).len() implies is_digit(
            #[trigger] padded(n, width)[k],
        ) by {
            if k >= zs.len() {
                assert(padded(n, width)[k] == d[k - zs.len()]);
            }
        }
    } else if d.len() > width {
        lemma_decimal_len(n);
    }
}

/// The clock text reads back as the time it shows: minutes (at least three
/// digits, with no leading zero beyond those three), a colon, and exactly two
/// digits of seconds. Every character but the colon is a digit, the digits before
/// the colon read as `secs / 60` and the two after it as `secs % 60`.
pub proof fn lemma_clock_text_reads_back(secs: nat)
    ensures
        ({
            let s = clock_text(secs);
            &&& s.len() >= 6
            &&& s[s.len() - 3] == ':'
            &&& forall|k: int| 0 <= k < s.len() && k != s.len() - 3 ==> is_digit(#[trigger] s[k])
            &&& digits_value(s.subrange(0, s.len() - 3)) == secs / 60
            &&& digits_value(s.subrange(s.len() - 2, s.len() as int)) == secs % 60
            &&& s.len() > 6 ==> s[0] != '0'
        }),
{
    let m = secs / 60;
    let r = secs % 60;
    lemma_padded_reads(m, 3);
    lemma_padded_reads(r, 2);
    lemma_decimal_len(r);
    let p = padded(m, 3);
    let q = padded(r, 2);
    let s = clock_text(secs);
    assert(q.len() == 2);
    assert(s == p + seq![':'] + q);
    assert(s.subrange(0, s.len() - 3) =~= p);
    assert(s.subrange(s.len() - 2, s.len() as int) =~= q);
    assert forall|k: int| 0 <= k < s.len() && k != s.len() - 3 implies is_digit(#[trigger] s[k]) by {
        if k < p.len() {
            assert(s[k] == p[k]);
        } else {
            assert(s[k] == q[k - p.len() - 1]);
        }
    }
}

fn digit_str(d: u64) -> (s: &'static str)
    requires
        d < 10,
    ensures
        s@ == seq![digit_char(d as int)],
{
    proof {
        reveal_strlit("0");
        reveal_strlit("1");
        reveal_strlit("2");
        reveal_strlit("3");
        reveal_strlit("4");
        reveal_strlit("5");
        reveal_strlit("6");
        reveal_strlit("7");
        reveal_strlit("8");
        reveal_strlit("9");
    }
    if d == 0 {
        "0"
    } else if d == 1 {
        "1"
    } else if d == 2 {
        "2"
    } else if d == 3 {
        "3"
    } else if d == 4 {
        "4"
    } else if d == 5 {
        "5"
    } else if d == 6 {
        "6"
    } else if d == 7 {
        "7"
    } else if d == 8 {
        "8"
    } else {
        "9"
    }
}

fn push_decimal(s: &mut String, n: u64)
    ensures
        final(s)@ == old(s)@ + decimal(n as nat),
    decreases n,
{
    if n >= 10 {
        push_decimal(s, n / 10);
    }
    s.append(digit_str(n % 10));
    assert(s@ =~= old(s)@ + decimal(n as nat));
}

/// The clock display for `total_seconds`, as "MMM:SS".
pub fn format_clock(total_seconds: u64) -> (s: String)
    ensures
        s@ == clock_text(total_seconds as nat),
{
    let minutes = total_seconds / 60;
    let seconds = total_seconds % 60;
    proof {
        reveal_strlit("00");
        reveal_strlit("0");
        reveal_strlit(":");
        lemma_decimal_len(minutes as nat);
        lemma_decimal_len(seconds as nat);
    }
    let mut s = String::new();
    if minutes < 10 {
        s.append("00");
    } else if minutes < 100 {
        s.append("0");
    }
    push_decimal(&mut s, minutes);
    s.append(":");
    if seconds < 10 {
        s.append("0");
    }
    push_decimal(&mut s, seconds);
    assert(s@ =~= clock_text(total_seconds as nat));
    s
}

} // verus!
