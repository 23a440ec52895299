//! Building strings: decimal rendering of integers and appending to a `String`.

use itertools::Itertools;
use vstd::prelude::*;

verus! {

/// The character of a decimal digit `d` (`0 <= d < 10`).
pub open spec fn digit_char(d: nat) -> char {
    ((d + 48) as u8) as char
}

/// The decimal digits of `n`, most significant first, without leading zeros
/// (`0` renders as a single `'0'`).
pub open spec fn decimal(n: nat) -> Seq<char>
    decreases n,
{
    if n < 10 {
        seq![digit_char(n)]
    } else {
        decimal(n / 10).push(digit_char(n % 10))
    }
}

/// The rendering of a signed integer: a `'-'` before the digits of a negative value.
pub open spec fn signed_decimal(n: int) -> Seq<char> {
    if n < 0 {
        seq!['-'] + decimal((-n) as nat)
    } else {
        decimal(n as nat)
    }
}

/// The rendering of a signed integer that always shows its sign (`+0` for zero).
pub open spec fn plus_signed_decimal(n: int) -> Seq<char> {
    if n < 0 {
        seq!['-'] + decimal((-n) as nat)
    } else {
        seq!['+'] + decimal(n as nat)
    }
}

/// `String::push`: appends one character.
#[verifier::external_body]
fn string_push(s: &mut String, c: char)
    ensures
        final(s)@ == old(s)@.push(c),
{
    s.push(c)
}

/// Appends `c` to `s`.
pub fn push_char(s: &mut String, c: char)
    ensures
        final(s)@ == old(s)@.push(c),
{
    string_push(s, c);
}

/// A new `String` holding the text of `t`.
pub fn string_of(t: &str) -> (s: String)
    ensures
        s@ == t@,
{
    let mut s = String::new();
    s.append(t);
    s
}

/// Appends the text of `t` to `s`.
pub fn push_str(s: &mut String, t: &str)
    ensures
        final(s)@ == old(s)@ + t@,
{
    s.append(t);
}

fn digit(d: u64) -> (c: char)
    requires
        d < 10,
    ensures
        c == digit_char(d as nat),
{
    let b: u8 = (d as u8) + 48;
    b as char
}

/// Appends the decimal digits of `n` to `s`.
pub fn push_u64(s: &mut String, n: u64)
    ensures
        final(s)@ == old(s)@ + decimal(n as nat),
    decreases n,
{
    if n >= 10 {
        push_u64(s, n / 10);
    }
    push_char(s, digit(n % 10));
    assert(decimal(n as nat) == if n < 10 { seq![digit_char(n as nat)] } else {
        decimal((n / 10) as nat).push(digit_char((n % 10) as nat))
    });
}

/// The magnitude of `n`, as `i64::unsigned_abs` gives it.
pub fn magnitude(n: i64) -> (m: u64)
    ensures
        m as int == if n < 0 { -(n as int) } else { n as int },
{
    let wide: i128 = n as i128;
    if wide < 0 {
        (-wide) as u64
    } else {
        wide as u64
    }
}

/// Appends the decimal rendering of `n` to `s`, with a `'-'` when it is negative.
pub fn push_i64(s: &mut String, n: i64)
    ensures
        final(s)@ == old(s)@ + signed_decimal(n as int),
{
    if n < 0 {
        push_char(s, '-');
        push_u64(s, magnitude(n));
    } else {
        push_u64(s, n as u64);
    }
}

/// Appends the decimal rendering of `n` to `s`, always with its sign.
pub fn push_i64_signed(s: &mut String, n: i64)
    ensures
        final(s)@ == old(s)@ + plus_signed_decimal(n as int),
{
    if n < 0 {
        push_char(s, '-');
    } else {
        push_char(s, '+');
    }
    push_u64(s, magnitude(n));
}

/// The parts one after another, with `separator` between each two neighbours.
pub open spec fn joined(parts: Seq<Seq<char>>, separator: Seq<char>) -> Seq<char>
    decreases parts.len(),
{
    if parts.len() == 0 {
        Seq::<char>::empty()
    } else if parts.len() == 1 {
        parts[0]
    } else {
        joined(parts.drop_last(), separator) + separator + parts.last()
    }
}

/// The texts of a list of strings.
pub open spec fn texts(parts: Seq<String>) -> Seq<Seq<char>> {
    parts.map_values(|part: String| part@)
}

/// `Itertools::intersperse` followed by collecting into a `String`: the parts in
/// order, with a copy of `separator` between each two neighbours.
#[verifier::external_body]
fn intersperse_collect(parts: Vec<String>, separator: String) -> (whole: String)
    ensures
        whole@ == joined(texts(parts@), separator@),
{
    Itertools::intersperse(parts.into_iter(), separator).collect()
}

/// The lines in order, separated by `'\n'`.
pub fn join_lines(lines: Vec<String>) -> (text: String)
    ensures
        text@ == joined(texts(lines@), seq!['\n']),
{
    let mut separator = String::new();
    push_char(&mut separator, '\n');
    intersperse_collect(lines, separator)
}

} // verus!
