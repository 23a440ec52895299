//! The member seed file: one `id,name` pair per line.
//!
//! The file is split at line breaks; each line is trimmed of white space and
//! lines without a comma are skipped. The text before the first comma is the
//! member's Discord id, the rest their in-game name. An id that is not an
//! integer ends the parse with the integer parser's error.

use crate::entity::social_credit_user::Model;
use crate::text::{decimal, digit_char, joined, push_char, signed_decimal};
use std::num::ParseIntError;
use std::str::FromStr;
use vstd::prelude::*;
use vstd::std_specs::iter::IteratorSpec;

verus! {

#[verifier::external_type_specification]
#[verifier::external_body]
pub struct ExParseIntError(ParseIntError);

// ----------------------------------------------------------------------------
// Characters and lines
// ----------------------------------------------------------------------------

/// The characters of `s`, in order.
pub fn chars_of(s: &str) -> (chars: Vec<char>)
    ensures
        chars@ == s@,
{
    broadcast use vstd::string::group_string_axioms;

    let mut chars: Vec<char> = Vec::new();
    let mut iter = s.chars();
    loop
        invariant
            chars@ + IteratorSpec::remaining(&iter) == s@,
            IteratorSpec::decrease(&iter) is Some,
        ensures
            chars@ == s@,
        decreases IteratorSpec::decrease(&iter)->0,
    {
        let ghost before = IteratorSpec::remaining(&iter);
        match iter.next() {
            Some(c) => {
                chars.push(c);
                assert(chars@ + IteratorSpec::remaining(&iter) == s@) by {
                    assert(before == seq![c] + before.drop_first());
                }
            },
            None => {
                assert(before.len() == 0);
                break ;
            },
        }
    }
    chars
}

/// A `String` holding `chars[lo..hi]`.
pub fn string_from(chars: &Vec<char>, lo: usize, hi: usize) -> (s: String)
    requires
        lo <= hi <= chars.len(),
    ensures
        s@ == chars@.subrange(lo as int, hi as int),
{
    let mut s = String::new();
    let mut i: usize = lo;
    while i < hi
        invariant
            lo <= i <= hi <= chars.len(),
            s@ == chars@.subrange(lo as int, i as int),
        decreases hi - i,
    {
        push_char(&mut s, chars[i]);
        assert(chars@.subrange(lo as int, i + 1) == chars@.subrange(lo as int, i as int).push(
            chars@[i as int],
        ));
        i = i + 1;
    }
    s
}

/// The pieces of `s` between line breaks (`'\n'`), as `str::split('\n')` gives
/// them: the last piece is what follows the last line break, empty or not.
pub open spec fn split_lines(s: Seq<char>) -> Seq<Seq<char>>
    decreases s.len(),
{
    if s.len() == 0 {
        seq![Seq::<char>::empty()]
    } else {
        let before = split_lines(s.drop_last());
        if s.last() == '\n' {
            before.push(Seq::<char>::empty())
        } else {
            before.update(before.len() - 1, before.last().push(s.last()))
        }
    }
}

proof fn lemma_split_lines_nonempty(s: Seq<char>)
    ensures
        split_lines(s).len() >= 1,
    decreases s.len(),
{
    if s.len() > 0 {
        lemma_split_lines_nonempty(s.drop_last());
    }
}

/// Splitting at line breaks loses nothing and keeps line breaks out of the
/// pieces: the pieces joined with `'\n'` give back `s`, and no piece holds a
/// line break.
pub proof fn lemma_split_lines_joins_back(s: Seq<char>)
    ensures
        joined(split_lines(s), seq!['\n']) == s,
        forall|i: int|
            0 <= i < split_lines(s).len() ==> !(#[trigger] split_lines(s)[i]).contains('\n'),
    decreases s.len(),
{
    lemma_split_lines_nonempty(s);
    if s.len() > 0 {
        let before = split_lines(s.drop_last());
        lemma_split_lines_joins_back(s.drop_last());
        lemma_split_lines_nonempty(s.drop_last());
        let c = s.last();
        assert(s == s.drop_last().push(c));
        if c == '\n' {
            let after = before.push(Seq::<char>::empty());
            assert(after.drop_last() == before);
            assert(joined(after, seq!['\n']) == s);
            assert forall|i: int| 0 <= i < after.len() implies !(#[trigger] after[i]).contains(
                '\n',
            ) by {
                if i < before.len() {
                    assert(after[i] == before[i]);
                }
            }
        } else {
            let x = before.last().push(c);
            let after = before.update(before.len() - 1, x);
            if before.len() == 1 {
                assert(joined(after, seq!['\n']) == after[0]);
            } else {
                assert(after.drop_last() == before.drop_last());
                assert(joined(after, seq!['\n']) == joined(before.drop_last(), seq!['\n']) + seq![
                    '\n',
                ] + x);
                assert(joined(before, seq!['\n']) == joined(before.drop_last(), seq!['\n']) + seq![
                    '\n',
                ] + before.last());
            }
            assert forall|i: int| 0 <= i < after.len() implies !(#[trigger] after[i]).contains(
                '\n',
            ) by {
                if i < before.len() - 1 {
                    assert(after[i] == before[i]);
                } else {
                    assert(!before[before.len() - 1].contains('\n'));
                    if x.contains('\n') {
                        let j: int = choose|j: int| 0 <= j < x.len() && x[j] == '\n';
                        if j < x.len() - 1 {
                            assert(before.last()[j] == '\n');
                        }
                    }
                }
            }
        }
    }
}

// ----------------------------------------------------------------------------
// White space
// ----------------------------------------------------------------------------

/// Whether `c` has the Unicode `White_Space` property, which is what
/// `char::is_whitespace` and `str::trim` go by.
pub open spec fn is_white_space(c: char) -> bool {
    let u: u32 = c as u32;
    ||| 0x09 <= u <= 0x0D
    ||| u == 0x20
    ||| u == 0x85
    ||| u == 0xA0
    ||| u == 0x1680
    ||| 0x2000 <= u <= 0x200A
    ||| u == 0x2028
    ||| u == 0x2029
    ||| u == 0x202F
    ||| u == 0x205F
    ||| u == 0x3000
}

fn white_space(c: char) -> (ws: bool)
    ensures
        ws == is_white_space(c),
{
    let u: u32 = c as u32;
    (0x09 <= u && u <= 0x0D) || u == 0x20 || u == 0x85 || u == 0xA0 || u == 0x1680 || (0x2000
        <= u && u <= 0x200A) || u == 0x2028 || u == 0x2029 || u == 0x202F || u == 0x205F || u
        == 0x3000
}

/// The white space characters are exactly these 25: tab, line feed, vertical
/// tab, form feed, carriage return, space, next line, no-break space, ogham
/// space mark, the eleven spaces from en quad to hair space, line separator,
/// paragraph separator, narrow no-break space, medium mathematical space and
/// ideographic space; nothing else, in particular no letter or digit.
pub proof fn lemma_white_space_characters(c: char)
    ensures
        is_white_space(c) <==> (c == '\t' || c == '\n' || c == '\u{0B}' || c == '\u{0C}' || c
            == '\r' || c == ' ' || c == '\u{85}' || c == '\u{A0}' || c == '\u{1680}' || c
            == '\u{2000}' || c == '\u{2001}' || c == '\u{2002}' || c == '\u{2003}' || c
            == '\u{2004}' || c == '\u{2005}' || c == '\u{2006}' || c == '\u{2007}' || c
            == '\u{2008}' || c == '\u{2009}' || c == '\u{200A}' || c == '\u{2028}' || c
            == '\u{2029}' || c == '\u{202F}' || c == '\u{205F}' || c == '\u{3000}'),
{
}

/// Trimming removes every leading and trailing white space character, tab
/// included, and nothing else: what is left neither starts nor ends with
/// white space, and is a piece of the line.
pub proof fn lemma_trim_removes_white_space(s: Seq<char>)
    ensures
        trim(s).len() > 0 ==> !is_white_space(trim(s)[0]) && !is_white_space(trim(s).last()),
        exists|a: int, b: int|
            0 <= a <= b <= s.len() && trim(s) == s.subrange(a, b) && (forall|i: int|
                0 <= i < a ==> is_white_space(#[trigger] s[i])) && (forall|i: int|
                b <= i < s.len() ==> is_white_space(#[trigger] s[i])),
    decreases s.len(),
{
    lemma_trim_start_shape(s);
    let t = trim_start(s);
    let a: int = choose|a: int|
        0 <= a <= s.len() && t == s.subrange(a, s.len() as int) && (forall|i: int|
            0 <= i < a ==> is_white_space(#[trigger] s[i]));
    lemma_trim_end_shape(t);
    let b: int = choose|b: int|
        0 <= b <= t.len() && trim_end(t) == t.subrange(0, b) && (forall|i: int|
            b <= i < t.len() ==> is_white_space(#[trigger] t[i]));
    assert(trim(s) == s.subrange(a, a + b));
    assert forall|i: int| a + b <= i < s.len() implies is_white_space(#[trigger] s[i]) by {
        assert(s[i] == t[i - a]);
    }
    if trim(s).len() > 0 {
        if t.len() > 0 {
            assert(trim(s)[0] == t[0]);
        }
    }
}

proof fn lemma_trim_start_shape(s: Seq<char>)
    ensures
        trim_start(s).len() > 0 ==> !is_white_space(trim_start(s)[0]),
        exists|a: int|
            0 <= a <= s.len() && trim_start(s) == s.subrange(a, s.len() as int) && (forall|i: int|
                0 <= i < a ==> is_white_space(#[trigger] s[i])),
    decreases s.len(),
{
    if s.len() > 0 && is_white_space(s[0]) {
        lemma_trim_start_shape(s.drop_first());
        let a: int = choose|a: int|
            0 <= a <= s.drop_first().len() && trim_start(s.drop_first()) == s.drop_first().subrange(
                a,
                s.drop_first().len() as int,
            ) && (forall|i: int| 0 <= i < a ==> is_white_space(#[trigger] s.drop_first()[i]));
        assert(s.drop_first().subrange(a, s.drop_first().len() as int) == s.subrange(
            a + 1,
            s.len() as int,
        ));
        assert forall|i: int| 0 <= i < a + 1 implies is_white_space(#[trigger] s[i]) by {
            if i > 0 {
                assert(s[i] == s.drop_first()[i - 1]);
            }
        }
    } else {
        assert(s == s.subrange(0, s.len() as int));
    }
}

proof fn lemma_trim_end_shape(s: Seq<char>)
    ensures
        trim_end(s).len() > 0 ==> !is_white_space(trim_end(s).last()),
        trim_end(s).len() > 0 ==> trim_end(s)[0] == s[0],
        exists|b: int|
            0 <= b <= s.len() && trim_end(s) == s.subrange(0, b) && (forall|i: int|
                b <= i < s.len() ==> is_white_space(#[trigger] s[i])),
    decreases s.len(),
{
    if s.len() > 0 && is_white_space(s.last()) {
        lemma_trim_end_shape(s.drop_last());
        let b: int = choose|b: int|
            0 <= b <= s.drop_last().len() && trim_end(s.drop_last()) == s.drop_last().subrange(
                0,
                b,
            ) && (forall|i: int|
                b <= i < s.drop_last().len() ==> is_white_space(#[trigger] s.drop_last()[i]));
        assert(s.drop_last().subrange(0, b) == s.subrange(0, b));
        assert forall|i: int| b <= i < s.len() implies is_white_space(#[trigger] s[i]) by {
            if i < s.len() - 1 {
                assert(s[i] == s.drop_last()[i]);
            }
        }
    } else {
        assert(s == s.subrange(0, s.len() as int));
    }
}

/// `s` without its leading white space.
pub open spec fn trim_start(s: Seq<char>) -> Seq<char>
    decreases s.len(),
{
    if s.len() > 0 && is_white_space(s[0]) {
        trim_start(s.drop_first())
    } else {
        s
    }
}

/// `s` without its trailing white space.
pub open spec fn trim_end(s: Seq<char>) -> Seq<char>
    decreases s.len(),
{
    if s.len() > 0 && is_white_space(s.last()) {
        trim_end(s.drop_last())
    } else {
        s
    }
}

/// `s` without its leading and trailing white space, as `str::trim` gives it.
pub open spec fn trim(s: Seq<char>) -> Seq<char> {
    trim_end(trim_start(s))
}

/// The bounds of `chars[lo..hi]` with its leading and trailing white space left out.
fn trimmed_bounds(chars: &Vec<char>, lo: usize, hi: usize) -> (bounds: (usize, usize))
    requires
        lo <= hi <= chars.len(),
    ensures
        lo <= bounds.0 <= bounds.1 <= hi,
        chars@.subrange(bounds.0 as int, bounds.1 as int) == trim(
            chars@.subrange(lo as int, hi as int),
        ),
{
    let mut a: usize = lo;
    while a < hi && white_space(chars[a])
        invariant
            lo <= a <= hi <= chars.len(),
            trim_start(chars@.subrange(lo as int, hi as int)) == trim_start(
                chars@.subrange(a as int, hi as int),
            ),
        decreases hi - a,
    {
        assert(chars@.subrange(a as int, hi as int).drop_first() == chars@.subrange(
            a + 1,
            hi as int,
        ));
        a = a + 1;
    }
    assert(trim_start(chars@.subrange(a as int, hi as int)) == chars@.subrange(
        a as int,
        hi as int,
    ));
    let mut b: usize = hi;
    while b > a && white_space(chars[b - 1])
        invariant
            lo <= a <= b <= hi <= chars.len(),
            trim_end(chars@.subrange(a as int, hi as int)) == trim_end(
                chars@.subrange(a as int, b as int),
            ),
        decreases b - a,
    {
        assert(chars@.subrange(a as int, b as int).drop_last() == chars@.subrange(
            a as int,
            b - 1,
        ));
        b = b - 1;
    }
    assert(trim_end(chars@.subrange(a as int, b as int)) == chars@.subrange(a as int, b as int));
    (a, b)
}

// ----------------------------------------------------------------------------
// Integers
// ----------------------------------------------------------------------------

/// Whether `c` is one of `'0'` to `'9'`.
pub open spec fn is_digit(c: char) -> bool {
    48 <= (c as u32) <= 57
}

/// One or more decimal digits.
pub open spec fn all_digits(d: Seq<char>) -> bool {
    d.len() > 0 && forall|i: int| 0 <= i < d.len() ==> is_digit(#[trigger] d[i])
}

/// The number that the decimal digits `d` write.
pub open spec fn digits_value(d: Seq<char>) -> int
    decreases d.len(),
{
    if d.len() == 0 {
        0
    } else {
        digits_value(d.drop_last()) * 10 + ((d.last() as u32) - 48)
    }
}

/// The integer that `t` writes: an optional `+` or `-` and one or more digits.
pub open spec fn integer_value(t: Seq<char>) -> Option<int> {
    if t.len() > 0 && t[0] == '-' && all_digits(t.drop_first()) {
        Some(-digits_value(t.drop_first()))
    } else if t.len() > 0 && t[0] == '+' && all_digits(t.drop_first()) {
        Some(digits_value(t.drop_first()))
    } else if all_digits(t) {
        Some(digits_value(t))
    } else {
        None
    }
}

/// Whether `t` writes an integer that fits in an `i64`.
pub open spec fn is_i64_text(t: Seq<char>) -> bool {
    integer_value(t) matches Some(v) && i64::MIN <= v <= i64::MAX
}

proof fn lemma_digit_char_value(d: nat)
    requires
        d < 10,
    ensures
        digit_char(d) as u32 == d + 48,
{
    let b: u8 = (d + 48) as u8;
    assert(b as u32 == d + 48);
    assert((b as char) as u32 == b as u32);
}

proof fn lemma_decimal_digits(n: nat)
    ensures
        all_digits(decimal(n)),
        digits_value(decimal(n)) == n,
        is_digit(decimal(n)[0]),
    decreases n,
{
    if n < 10 {
        lemma_digit_char_value(n);
        let d = decimal(n);
        assert(d == seq![digit_char(n)]);
        assert(d.drop_last() == Seq::<char>::empty());
        assert(digits_value(d) == digits_value(d.drop_last()) * 10 + ((d.last() as u32) - 48));
    } else {
        lemma_decimal_digits(n / 10);
        lemma_digit_char_value((n % 10) as nat);
        let d = decimal(n);
        assert(d == decimal(n / 10).push(digit_char(n % 10)));
        assert(d.drop_last() == decimal(n / 10));
        assert(d[0] == decimal(n / 10)[0]);
        assert(d.last() == digit_char(n % 10));
        assert(digits_value(d) == digits_value(d.drop_last()) * 10 + ((d.last() as u32) - 48));
        assert((n / 10) * 10 + n % 10 == n);
    }
}

/// A number written in decimal, as the bot writes it, reads back as the same
/// number.
pub proof fn lemma_decimal_reads_back(n: int)
    ensures
        integer_value(signed_decimal(n)) == Some(n),
{
    if n < 0 {
        let t = signed_decimal(n);
        lemma_decimal_digits((-n) as nat);
        assert(t.drop_first() == decimal((-n) as nat));
    } else {
        lemma_decimal_digits(n as nat);
    }
}

/// What `i64::from_str` gives for the text `t`.
pub uninterp spec fn i64_from_str(t: Seq<char>) -> Result<i64, ParseIntError>;

/// `i64::from_str`: as its documentation says, it accepts an optional `+` or
/// `-` followed by one or more digits, whose value fits in an `i64`, and
/// gives that value; anything else is an error. Which error that is stays
/// under the name `i64_from_str`.
#[verifier::external_body]
fn parse_i64(text: &str) -> (res: Result<i64, ParseIntError>)
    ensures
        res == i64_from_str(text@),
        res is Ok <==> is_i64_text(text@),
        res matches Ok(v) ==> v == integer_value(text@)->Some_0,
{
    i64::from_str(text)
}

// ----------------------------------------------------------------------------
// Entries
// ----------------------------------------------------------------------------

/// `k` is the position of the first comma of `t`.
pub open spec fn first_comma(t: Seq<char>, k: int) -> bool {
    &&& 0 <= k < t.len()
    &&& t[k] == ','
    &&& forall|i: int| 0 <= i < k ==> t[i] != ','
}

/// What a line holds: after trimming, the text before its first comma (the
/// id) and the text after it (the name); nothing for a line without a comma.
pub open spec fn entry(line: Seq<char>) -> Option<(Seq<char>, Seq<char>)> {
    let t = trim(line);
    if exists|k: int| first_comma(t, k) {
        let k: int = choose|k: int| first_comma(t, k);
        Some((t.take(k), t.skip(k + 1)))
    } else {
        None
    }
}

proof fn lemma_first_comma_exists(t: Seq<char>, k: int)
    requires
        0 <= k < t.len(),
        t[k] == ',',
    ensures
        exists|j: int| first_comma(t, j),
    decreases k,
{
    if exists|i: int| 0 <= i < k && t[i] == ',' {
        let i: int = choose|i: int| 0 <= i < k && t[i] == ',';
        lemma_first_comma_exists(t, i);
    } else {
        assert(first_comma(t, k));
    }
}

/// A line holds an entry exactly when it holds a comma once trimmed; the entry
/// is the trimmed line cut at its first comma: the id holds no comma, and id,
/// comma and name put together give back the trimmed line.
pub proof fn lemma_entry_cuts_at_first_comma(line: Seq<char>)
    ensures
        entry(line) is Some <==> trim(line).contains(','),
        entry(line) matches Some(e) ==> e.0 + seq![','] + e.1 == trim(line) && !e.0.contains(
            ',',
        ),
{
    let t = trim(line);
    if t.contains(',') {
        let k: int = choose|k: int| 0 <= k < t.len() && t[k] == ',';
        lemma_first_comma_exists(t, k);
        let j: int = choose|j: int| first_comma(t, j);
        assert(t.take(j) + seq![','] + t.skip(j + 1) == t);
        if t.take(j).contains(',') {
            let i: int = choose|i: int| 0 <= i < t.take(j).len() && t.take(j)[i] == ',';
            assert(t[i] == ',');
        }
    } else {
        if exists|k: int| first_comma(t, k) {
            let k: int = choose|k: int| first_comma(t, k);
            assert(t.contains(t[k]));
        }
    }
}

/// The entries of `lines`, in order.
pub open spec fn entries(lines: Seq<Seq<char>>) -> Seq<(Seq<char>, Seq<char>)>
    decreases lines.len(),
{
    if lines.len() == 0 {
        Seq::empty()
    } else {
        let before = entries(lines.drop_last());
        match entry(lines.last()) {
            Some(e) => before.push(e),
            None => before,
        }
    }
}

/// The entries of the seed file with text `text`.
pub open spec fn member_entries(text: Seq<char>) -> Seq<(Seq<char>, Seq<char>)> {
    entries(split_lines(text))
}

/// `member` is entry `e` read: the id's value and the name.
pub open spec fn reads(member: (i64, String), e: (Seq<char>, Seq<char>)) -> bool {
    &&& integer_value(e.0) == Some(member.0 as int)
    &&& member.1@ == e.1
}

/// Every entry of `es` has an id that fits in an `i64`, and `members` reads them in order.
pub open spec fn reads_all(members: Seq<(i64, String)>, es: Seq<(Seq<char>, Seq<char>)>) -> bool {
    &&& members.len() == es.len()
    &&& forall|i: int| 0 <= i < es.len() ==> is_i64_text(#[trigger] es[i].0)
    &&& forall|i: int| 0 <= i < es.len() ==> reads(#[trigger] members[i], es[i])
}

/// Entry `k` of `es` is the first whose id is not an `i64`.
pub open spec fn first_bad(es: Seq<(Seq<char>, Seq<char>)>, k: int) -> bool {
    &&& 0 <= k < es.len()
    &&& !is_i64_text(es[k].0)
    &&& forall|j: int| 0 <= j < k ==> is_i64_text(#[trigger] es[j].0)
}

/// The entry of line `chars[lo..hi]`, read; the parser's error when its id is
/// not an `i64`.
fn line_entry(chars: &Vec<char>, lo: usize, hi: usize) -> (res: Result<
    Option<(i64, String)>,
    ParseIntError,
>)
    requires
        lo <= hi <= chars.len(),
    ensures
        match entry(chars@.subrange(lo as int, hi as int)) {
            None => res matches Ok(None),
            Some(e) => if is_i64_text(e.0) {
                res matches Ok(Some(member)) && reads(member, e)
            } else {
                res matches Err(err) && i64_from_str(e.0) == Err::<i64, ParseIntError>(err)
            },
        },
{
    let (a, b) = trimmed_bounds(chars, lo, hi);
    let ghost t = chars@.subrange(a as int, b as int);
    let mut j: usize = a;
    while j < b && chars[j] != ','
        invariant
            a <= j <= b <= chars.len(),
            t == chars@.subrange(a as int, b as int),
            forall|i: int| 0 <= i < j - a ==> t[i] != ',',
        decreases b - j,
    {
        j = j + 1;
    }
    if j == b {
        assert(!exists|k: int| first_comma(t, k));
        return Ok(None);
    }
    assert(first_comma(t, j - a));
    assert forall|k: int| first_comma(t, k) implies k == j - a by {
        if k < j - a {
            assert(t[k] != ',');
        } else if k > j - a {
            assert(t[j - a] != ',');
        }
    }
    let id_text = string_from(chars, a, j);
    let name = string_from(chars, j + 1, b);
    assert(id_text@ == t.take(j - a));
    assert(name@ == t.skip(j - a + 1));
    match parse_i64(id_text.as_str()) {
        Ok(id) => Ok(Some((id, name))),
        Err(err) => Err(err),
    }
}

// ----------------------------------------------------------------------------
// The whole file
// ----------------------------------------------------------------------------

/// The members listed in the seed file with text `text`, in order: for each
/// line that holds a comma after trimming, the id before the comma and the
/// name after it. Fails with the integer parser's error on the first id that
/// is not an `i64`.
pub fn parse_members(text: &str) -> (res: Result<Vec<(i64, String)>, ParseIntError>)
    ensures
        res is Ok <==> forall|i: int|
            0 <= i < member_entries(text@).len() ==> is_i64_text(
                #[trigger] member_entries(text@)[i].0,
            ),
        res matches Ok(members) ==> reads_all(members@, member_entries(text@)),
        res matches Err(err) ==> exists|k: int|
            first_bad(member_entries(text@), k) && i64_from_str(member_entries(text@)[k].0)
                == Err::<i64, ParseIntError>(err),
{
    let chars = chars_of(text);
    let mut members: Vec<(i64, String)> = Vec::new();
    let mut line_start: usize = 0;
    let mut i: usize = 0;
    let ghost mut done: Seq<Seq<char>> = Seq::empty();
    assert(chars@.take(0) == Seq::<char>::empty());
    while i < chars.len()
        invariant
            line_start <= i <= chars.len(),
            chars@ == text@,
            split_lines(chars@.take(i as int)) == done.push(
                chars@.subrange(line_start as int, i as int),
            ),
            reads_all(members@, entries(done)),
        decreases chars.len() - i,
    {
        let ghost prefix = chars@.take(i as int);
        assert(chars@.take(i + 1).drop_last() == prefix);
        assert(chars@.take(i + 1).last() == chars@[i as int]);
        if chars[i] == '\n' {
            let ghost line = chars@.subrange(line_start as int, i as int);
            assert(done.push(line).drop_last() == done);
            match line_entry(&chars, line_start, i) {
                Err(err) => {
                    proof {
                        let es = entries(done.push(line));
                        let k: int = entries(done).len() as int;
                        assert(es == entries(done).push(entry(line)->Some_0));
                        assert(split_lines(chars@.take(i + 1)) == done.push(line).push(
                            Seq::<char>::empty(),
                        ));
                        lemma_split_lines_stable(chars@, i + 1, chars@.len() as int);
                        assert(chars@.take(chars@.len() as int) == chars@);
                        assert(done.push(line).push(Seq::<char>::empty()).drop_last() == done.push(
                            line,
                        ));
                        lemma_entries_prefix(split_lines(text@), done.push(line));
                        let all = member_entries(text@);
                        assert(all.take(es.len() as int) == es);
                        assert(all[k] == es[k]);
                        assert forall|j: int| 0 <= j < k implies is_i64_text(
                            #[trigger] all[j].0,
                        ) by {
                            assert(all[j] == es[j]);
                            assert(es[j] == entries(done)[j]);
                        }
                        assert(first_bad(all, k));
                    }
                    return Err(err);
                },
                Ok(found) => {
                    match found {
                        Some(member) => {
                            members.push(member);
                        },
                        None => {},
                    }
                },
            }
            proof {
                done = done.push(line);
            }
            line_start = i + 1;
            assert(chars@.subrange(line_start as int, i + 1) == Seq::<char>::empty());
        } else {
            proof {
                lemma_split_lines_nonempty(prefix);
            }
            assert(chars@.subrange(line_start as int, i + 1) == chars@.subrange(
                line_start as int,
                i as int,
            ).push(chars@[i as int]));
        }
        i = i + 1;
    }
    assert(chars@.take(i as int) == chars@);
    let ghost line = chars@.subrange(line_start as int, i as int);
    assert(done.push(line).drop_last() == done);
    match line_entry(&chars, line_start, i) {
        Err(err) => {
            proof {
                let es = entries(done.push(line));
                let k: int = entries(done).len() as int;
                assert(es == entries(done).push(entry(line)->Some_0));
                assert(member_entries(text@) == es);
                assert forall|j: int| 0 <= j < k implies is_i64_text(#[trigger] es[j].0) by {
                    assert(es[j] == entries(done)[j]);
                }
                assert(first_bad(es, k));
            }
            Err(err)
        },
        Ok(found) => {
            match found {
                Some(member) => {
                    members.push(member);
                },
                None => {},
            }
            assert(member_entries(text@) == entries(done.push(line)));
            Ok(members)
        },
    }
}

/// Reading further only adds to the last piece or starts new ones: the pieces
/// completed after `m` characters stay as they are.
proof fn lemma_split_lines_stable(s: Seq<char>, m: int, n: int)
    requires
        0 <= m <= n <= s.len(),
    ensures
        split_lines(s.take(n)).len() >= split_lines(s.take(m)).len(),
        split_lines(s.take(n)).take(split_lines(s.take(m)).len() - 1) == split_lines(
            s.take(m),
        ).drop_last(),
    decreases n - m,
{
    lemma_split_lines_nonempty(s.take(m));
    if n > m {
        lemma_split_lines_stable(s, m, n - 1);
        assert(s.take(n).drop_last() == s.take(n - 1));
        lemma_split_lines_nonempty(s.take(n - 1));
    }
}

/// The entries of a prefix of the lines are a prefix of the entries of all lines.
proof fn lemma_entries_prefix(lines: Seq<Seq<char>>, prefix: Seq<Seq<char>>)
    requires
        prefix.len() <= lines.len(),
        prefix == lines.take(prefix.len() as int),
    ensures
        entries(prefix).len() <= entries(lines).len(),
        entries(lines).take(entries(prefix).len() as int) == entries(prefix),
    decreases lines.len(),
{
    if prefix.len() < lines.len() {
        assert(lines.drop_last().take(prefix.len() as int) == prefix);
        lemma_entries_prefix(lines.drop_last(), prefix);
    } else {
        assert(lines == prefix);
    }
}

/// The stored records of newly listed members: no social credit yet, and
/// their in-game name as listed.
pub fn new_member_models(members: &Vec<(i64, String)>) -> (models: Vec<Model>)
    ensures
        models.len() == members.len(),
        forall|i: int|
            0 <= i < members.len() ==> {
                &&& #[trigger] models@[i].id == members@[i].0
                &&& models@[i].social_credit == 0
                &&& models@[i].ign == Some(members@[i].1)
            },
{
    let mut models: Vec<Model> = Vec::new();
    let mut k: usize = 0;
    while k < members.len()
        invariant
            k <= members.len(),
            k == models.len(),
            forall|i: int|
                0 <= i < k ==> {
                    &&& #[trigger] models@[i].id == members@[i].0
                    &&& models@[i].social_credit == 0
                    &&& models@[i].ign == Some(members@[i].1)
                },
        decreases members.len() - k,
    {
        let name = members[k].1.clone();
        models.push(Model { id: members[k].0, social_credit: 0, ign: Some(name) });
        k = k + 1;
    }
    models
}

} // verus!
