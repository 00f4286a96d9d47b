//! Splitting text into lines and fields, and reading unsigned integers,
//! with the meaning that `str::lines`, `str::split`,
//! `str::split_whitespace` and `FromStr` for unsigned integers give them.

use crate::text::{decimal, digit_char};
use vstd::prelude::*;

verus! {

// ---------------------------------------------------------------------------
// Whitespace
// ---------------------------------------------------------------------------

/// The characters with the Unicode `White_Space` property.
pub open spec fn is_space(c: char) -> bool {
    let u = c as u32;
    (9 <= u <= 13) || u == 32 || u == 0x85 || u == 0xa0 || u == 0x1680 || (0x2000 <= u <= 0x200a)
        || u == 0x2028 || u == 0x2029 || u == 0x202f || u == 0x205f || u == 0x3000
}

/// Whether `c` is whitespace.
pub fn char_is_space(c: char) -> (r: bool)
    ensures
        r == is_space(c),
{
    let u = c as u32;
    (9 <= u && u <= 13) || u == 32 || u == 0x85 || u == 0xa0 || u == 0x1680 || (0x2000 <= u && u
        <= 0x200a) || u == 0x2028 || u == 0x2029 || u == 0x202f || u == 0x205f || u == 0x3000
}

/// Every character of `s` is whitespace (so trimming `s` leaves nothing).
pub open spec fn all_space(s: Seq<char>) -> bool {
    forall|i: int| 0 <= i < s.len() ==> is_space(#[trigger] s[i])
}

/// Whether every character of `s` is whitespace.
pub fn is_blank(s: &[char]) -> (r: bool)
    ensures
        r == all_space(s@),
{
    let mut i: usize = 0;
    while i < s.len()
        invariant
            i <= s.len(),
            forall|j: int| 0 <= j < i ==> is_space(#[trigger] s@[j]),
        decreases s.len() - i,
    {
        if !char_is_space(s[i]) {
            return false;
        }
        i += 1;
    }
    true
}

// ---------------------------------------------------------------------------
// Lines
// ---------------------------------------------------------------------------

/// `line` without one trailing carriage return.
pub open spec fn strip_cr(line: Seq<char>) -> Seq<char> {
    if line.len() > 0 && line.last() == '\r' {
        line.drop_last()
    } else {
        line
    }
}

/// The lines of `s`, the current line having begun with `cur`: each line
/// ends at a line feed, which is dropped together with a carriage return
/// just before it; a last line without a line feed counts when it is not
/// empty.
pub open spec fn lines_from(s: Seq<char>, cur: Seq<char>) -> Seq<Seq<char>>
    decreases s.len(),
{
    if s.len() == 0 {
        if cur.len() == 0 {
            Seq::empty()
        } else {
            seq![cur]
        }
    } else if s[0] == '\n' {
        seq![strip_cr(cur)] + lines_from(s.drop_first(), Seq::empty())
    } else {
        lines_from(s.drop_first(), cur.push(s[0]))
    }
}

/// The lines of `s`, as `str::lines` gives them.
pub open spec fn text_lines(s: Seq<char>) -> Seq<Seq<char>> {
    lines_from(s, Seq::empty())
}

/// `cur` without one trailing carriage return.
fn strip_cr_vec(cur: Vec<char>) -> (r: Vec<char>)
    ensures
        r@ == strip_cr(cur@),
{
    let mut cur = cur;
    if cur.len() > 0 && cur[cur.len() - 1] == '\r' {
        cur.pop();
    }
    cur
}

/// The lines of `s` (see `text_lines`).
pub fn split_lines(s: &[char]) -> (r: Vec<Vec<char>>)
    ensures
        r@.map_values(|l: Vec<char>| l@) == text_lines(s@),
{
    let mut out: Vec<Vec<char>> = Vec::new();
    let mut cur: Vec<char> = Vec::new();
    let mut i: usize = 0;
    assert(s@.skip(0) =~= s@);
    while i < s.len()
        invariant
            i <= s.len(),
            out@.map_values(|l: Vec<char>| l@) + lines_from(s@.skip(i as int), cur@) == text_lines(s@),
        decreases s.len() - i,
    {
        let c = s[i];
        let ghost rest = s@.skip(i as int);
        assert(rest.drop_first() =~= s@.skip(i + 1));
        assert(rest[0] == c);
        if c == '\n' {
            let line = strip_cr_vec(cur);
            let ghost lv = line@;
            let ghost before = out@.map_values(|l: Vec<char>| l@);
            out.push(line);
            assert(out@.map_values(|l: Vec<char>| l@) =~= before.push(lv));
            assert(before + (seq![lv] + lines_from(s@.skip(i + 1), Seq::empty())) =~= before.push(lv)
                + lines_from(s@.skip(i + 1), Seq::empty()));
            cur = Vec::new();
        } else {
            cur.push(c);
        }
        i += 1;
    }
    if cur.len() > 0 {
        let ghost cv = cur@;
        let ghost before = out@.map_values(|l: Vec<char>| l@);
        out.push(cur);
        assert(out@.map_values(|l: Vec<char>| l@) =~= before.push(cv));
        assert(before + seq![cv] =~= before.push(cv));
    } else {
        assert(out@.map_values(|l: Vec<char>| l@) + Seq::<Seq<char>>::empty() =~= out@.map_values(
            |l: Vec<char>| l@,
        ));
    }
    out
}

// ---------------------------------------------------------------------------
// Fields
// ---------------------------------------------------------------------------

/// The pieces of `s` between occurrences of `sep`, the current piece having
/// begun with `cur`. There is always at least one piece.
pub open spec fn pieces_from(s: Seq<char>, sep: char, cur: Seq<char>) -> Seq<Seq<char>>
    decreases s.len(),
{
    if s.len() == 0 {
        seq![cur]
    } else if s[0] == sep {
        seq![cur] + pieces_from(s.drop_first(), sep, Seq::empty())
    } else {
        pieces_from(s.drop_first(), sep, cur.push(s[0]))
    }
}

/// The pieces of `s` between occurrences of `sep`, as `str::split` with a
/// character gives them.
pub open spec fn split_on(s: Seq<char>, sep: char) -> Seq<Seq<char>> {
    pieces_from(s, sep, Seq::empty())
}

/// `s` does not contain `c`.
pub open spec fn lacks(s: Seq<char>, c: char) -> bool {
    forall|k: int| 0 <= k < s.len() ==> s[k] != c
}

/// Text without a separator is a single piece.
pub proof fn lemma_pieces_plain(a: Seq<char>, sep: char, cur: Seq<char>)
    requires
        lacks(a, sep),
    ensures
        pieces_from(a, sep, cur) == seq![cur + a],
    decreases a.len(),
{
    if a.len() == 0 {
        assert(cur + a =~= cur);
    } else {
        assert(lacks(a.drop_first(), sep)) by {
            assert forall|k: int| 0 <= k < a.drop_first().len() implies a.drop_first()[k] != sep by {
                assert(a.drop_first()[k] == a[k + 1]);
            }
        }
        lemma_pieces_plain(a.drop_first(), sep, cur.push(a[0]));
        assert(cur.push(a[0]) + a.drop_first() =~= cur + a);
    }
}

/// Text without a separator, then a separator, ends the current piece.
pub proof fn lemma_pieces_cut(a: Seq<char>, sep: char, b: Seq<char>, cur: Seq<char>)
    requires
        lacks(a, sep),
    ensures
        pieces_from(a + seq![sep] + b, sep, cur) == seq![cur + a] + pieces_from(b, sep, Seq::empty()),
    decreases a.len(),
{
    let s = a + seq![sep] + b;
    if a.len() == 0 {
        assert(s[0] == sep);
        assert(s.drop_first() =~= b);
        assert(cur + a =~= cur);
    } else {
        assert(s[0] == a[0]);
        assert(s.drop_first() =~= a.drop_first() + seq![sep] + b);
        assert(lacks(a.drop_first(), sep)) by {
            assert forall|k: int| 0 <= k < a.drop_first().len() implies a.drop_first()[k] != sep by {
                assert(a.drop_first()[k] == a[k + 1]);
            }
        }
        lemma_pieces_cut(a.drop_first(), sep, b, cur.push(a[0]));
        assert(cur.push(a[0]) + a.drop_first() =~= cur + a);
    }
}

/// Text without a line feed, then a line feed, ends the current line.
pub proof fn lemma_lines_cut(a: Seq<char>, b: Seq<char>, cur: Seq<char>)
    requires
        lacks(a, '\n'),
    ensures
        lines_from(a + seq!['\n'] + b, cur) == seq![strip_cr(cur + a)] + lines_from(b, Seq::empty()),
    decreases a.len(),
{
    let s = a + seq!['\n'] + b;
    if a.len() == 0 {
        assert(s[0] == '\n');
        assert(s.drop_first() =~= b);
        assert(cur + a =~= cur);
    } else {
        assert(s[0] == a[0]);
        assert(s.drop_first() =~= a.drop_first() + seq!['\n'] + b);
        assert(lacks(a.drop_first(), '\n')) by {
            assert forall|k: int| 0 <= k < a.drop_first().len() implies a.drop_first()[k] != '\n' by {
                assert(a.drop_first()[k] == a[k + 1]);
            }
        }
        lemma_lines_cut(a.drop_first(), b, cur.push(a[0]));
        assert(cur.push(a[0]) + a.drop_first() =~= cur + a);
    }
}

/// The decimal text of a number is a non-empty run of digits.
pub proof fn lemma_decimal_is_digits(n: nat)
    ensures
        decimal(n).len() > 0,
        forall|i: int| 0 <= i < decimal(n).len() ==> is_digit(#[trigger] decimal(n)[i]),
{
    lemma_decimal_not_plus(n);
    lemma_decimal_digits(n);
}

/// Splitting always gives at least one piece.
pub proof fn lemma_split_on_len(s: Seq<char>, sep: char)
    ensures
        split_on(s, sep).len() >= 1,
{
    lemma_pieces_from_len(s, sep, Seq::empty());
}

proof fn lemma_pieces_from_len(s: Seq<char>, sep: char, cur: Seq<char>)
    ensures
        pieces_from(s, sep, cur).len() >= 1,
    decreases s.len(),
{
    if s.len() > 0 {
        if s[0] == sep {
            lemma_pieces_from_len(s.drop_first(), sep, Seq::empty());
        } else {
            lemma_pieces_from_len(s.drop_first(), sep, cur.push(s[0]));
        }
    }
}

/// The pieces of `s` between occurrences of `sep` (see `split_on`).
pub fn split_char(s: &[char], sep: char) -> (r: Vec<Vec<char>>)
    ensures
        r@.map_values(|l: Vec<char>| l@) == split_on(s@, sep),
{
    let mut out: Vec<Vec<char>> = Vec::new();
    let mut cur: Vec<char> = Vec::new();
    let mut i: usize = 0;
    assert(s@.skip(0) =~= s@);
    while i < s.len()
        invariant
            i <= s.len(),
            out@.map_values(|l: Vec<char>| l@) + pieces_from(s@.skip(i as int), sep, cur@) == split_on(
                s@,
                sep,
            ),
        decreases s.len() - i,
    {
        let c = s[i];
        let ghost rest = s@.skip(i as int);
        assert(rest.drop_first() =~= s@.skip(i + 1));
        assert(rest[0] == c);
        if c == sep {
            let ghost cv = cur@;
            let ghost before = out@.map_values(|l: Vec<char>| l@);
            out.push(cur);
            assert(out@.map_values(|l: Vec<char>| l@) =~= before.push(cv));
            assert(before + (seq![cv] + pieces_from(s@.skip(i + 1), sep, Seq::empty())) =~= before.push(
                cv,
            ) + pieces_from(s@.skip(i + 1), sep, Seq::empty()));
            cur = Vec::new();
        } else {
            cur.push(c);
        }
        i += 1;
    }
    let ghost cv = cur@;
    let ghost before = out@.map_values(|l: Vec<char>| l@);
    out.push(cur);
    assert(out@.map_values(|l: Vec<char>| l@) =~= before.push(cv));
    assert(before + seq![cv] =~= before.push(cv));
    out
}

/// The words of `s` separated by runs of whitespace, the current word
/// having begun with `cur`; there are no empty words.
pub open spec fn words_from(s: Seq<char>, cur: Seq<char>) -> Seq<Seq<char>>
    decreases s.len(),
{
    if s.len() == 0 {
        if cur.len() == 0 {
            Seq::empty()
        } else {
            seq![cur]
        }
    } else if is_space(s[0]) {
        (if cur.len() == 0 {
            Seq::empty()
        } else {
            seq![cur]
        }) + words_from(s.drop_first(), Seq::empty())
    } else {
        words_from(s.drop_first(), cur.push(s[0]))
    }
}

/// The words of `s`, as `str::split_whitespace` gives them.
pub open spec fn text_words(s: Seq<char>) -> Seq<Seq<char>> {
    words_from(s, Seq::empty())
}

/// The words of `s` (see `text_words`).
pub fn split_words(s: &[char]) -> (r: Vec<Vec<char>>)
    ensures
        r@.map_values(|l: Vec<char>| l@) == text_words(s@),
{
    let mut out: Vec<Vec<char>> = Vec::new();
    let mut cur: Vec<char> = Vec::new();
    let mut i: usize = 0;
    assert(s@.skip(0) =~= s@);
    while i < s.len()
        invariant
            i <= s.len(),
            out@.map_values(|l: Vec<char>| l@) + words_from(s@.skip(i as int), cur@) == text_words(s@),
        decreases s.len() - i,
    {
        let c = s[i];
        let ghost rest = s@.skip(i as int);
        assert(rest.drop_first() =~= s@.skip(i + 1));
        assert(rest[0] == c);
        if char_is_space(c) {
            let ghost before = out@.map_values(|l: Vec<char>| l@);
            let ghost tail = words_from(s@.skip(i + 1), Seq::empty());
            if cur.len() > 0 {
                let ghost cv = cur@;
                out.push(cur);
                assert(out@.map_values(|l: Vec<char>| l@) =~= before.push(cv));
                assert(before + (seq![cv] + tail) =~= before.push(cv) + tail);
            } else {
                assert(before + (Seq::<Seq<char>>::empty() + tail) =~= before + tail);
            }
            cur = Vec::new();
        } else {
            cur.push(c);
        }
        i += 1;
    }
    if cur.len() > 0 {
        let ghost cv = cur@;
        let ghost before = out@.map_values(|l: Vec<char>| l@);
        out.push(cur);
        assert(out@.map_values(|l: Vec<char>| l@) =~= before.push(cv));
        assert(before + seq![cv] =~= before.push(cv));
    } else {
        assert(out@.map_values(|l: Vec<char>| l@) + Seq::<Seq<char>>::empty() =~= out@.map_values(
            |l: Vec<char>| l@,
        ));
    }
    out
}

// ---------------------------------------------------------------------------
// Unsigned integers
// ---------------------------------------------------------------------------

/// Why reading an unsigned integer failed, as `ParseIntError` tells it.
#[derive(Clone, Copy, Debug, PartialEq, Eq)]
pub enum ParseIntFailure {
    Empty,
    InvalidDigit,
    PosOverflow,
}

/// The text `ParseIntError` displays for each failure.
pub open spec fn int_failure_text(f: ParseIntFailure) -> Seq<char> {
    match f {
        ParseIntFailure::Empty => "cannot parse integer from empty string"@,
        ParseIntFailure::InvalidDigit => "invalid digit found in string"@,
        ParseIntFailure::PosOverflow => "number too large to fit in target type"@,
    }
}

/// The text of a failure.
pub fn int_failure_message(f: ParseIntFailure) -> (r: &'static str)
    ensures
        r@ == int_failure_text(f),
{
    match f {
        ParseIntFailure::Empty => "cannot parse integer from empty string",
        ParseIntFailure::InvalidDigit => "invalid digit found in string",
        ParseIntFailure::PosOverflow => "number too large to fit in target type",
    }
}

/// A decimal digit.
pub open spec fn is_digit(c: char) -> bool {
    48 <= (c as u32) <= 57
}

/// The value of a decimal digit.
pub open spec fn digit_value(c: char) -> nat {
    ((c as u32) - 48) as nat
}

/// Reading the digits `s` after a value `acc` was read, with largest value
/// `max`: the first non-digit is an invalid digit, and going above `max` is
/// an overflow, whichever comes first.
pub open spec fn read_digits(s: Seq<char>, acc: nat, max: nat) -> Result<nat, ParseIntFailure>
    decreases s.len(),
{
    if s.len() == 0 {
        Ok(acc)
    } else if !is_digit(s[0]) {
        Err(ParseIntFailure::InvalidDigit)
    } else if acc * 10 + digit_value(s[0]) > max {
        Err(ParseIntFailure::PosOverflow)
    } else {
        read_digits(s.drop_first(), acc * 10 + digit_value(s[0]), max)
    }
}

/// Reading `s` as an unsigned integer no larger than `max`: an optional
/// '+' and then at least one decimal digit.
pub open spec fn parse_uint(s: Seq<char>, max: nat) -> Result<nat, ParseIntFailure> {
    if s.len() == 0 {
        Err(ParseIntFailure::Empty)
    } else if s[0] == '+' {
        if s.len() == 1 {
            Err(ParseIntFailure::InvalidDigit)
        } else {
            read_digits(s.drop_first(), 0, max)
        }
    } else {
        read_digits(s, 0, max)
    }
}

/// Reads `s` as an unsigned integer no larger than `max` (see
/// `parse_uint`).
pub fn parse_unsigned(s: &[char], max: u64) -> (r: Result<u64, ParseIntFailure>)
    ensures
        match parse_uint(s@, max as nat) {
            Ok(n) => r == Ok::<u64, ParseIntFailure>(n as u64),
            Err(f) => r == Err::<u64, ParseIntFailure>(f),
        },
{
    if s.len() == 0 {
        return Err(ParseIntFailure::Empty);
    }
    let mut i: usize = 0;
    if s[0] == '+' {
        if s.len() == 1 {
            return Err(ParseIntFailure::InvalidDigit);
        }
        i = 1;
    }
    let ghost body = if s@[0] == '+' {
        s@.drop_first()
    } else {
        s@
    };
    assert(s@.skip(i as int) =~= body);
    let mut acc: u64 = 0;
    while i < s.len()
        invariant
            1 <= s.len(),
            i <= s.len(),
            acc <= max,
            parse_uint(s@, max as nat) == read_digits(s@.skip(i as int), acc as nat, max as nat),
        decreases s.len() - i,
    {
        let c = s[i];
        let ghost rest = s@.skip(i as int);
        assert(rest[0] == c);
        assert(rest.drop_first() =~= s@.skip(i + 1));
        let u = c as u32;
        if u < 48 || u > 57 {
            return Err(ParseIntFailure::InvalidDigit);
        }
        let d = (u - 48) as u64;
        let next: u128 = (acc as u128) * 10 + (d as u128);
        if next > max as u128 {
            return Err(ParseIntFailure::PosOverflow);
        }
        acc = next as u64;
        i += 1;
    }
    Ok(acc)
}

/// The decimal text of a number reads back as that number.
pub proof fn lemma_parse_decimal(n: nat, max: nat)
    requires
        n <= max,
    ensures
        parse_uint(decimal(n), max) == Ok::<nat, ParseIntFailure>(n),
{
    lemma_decimal_not_plus(n);
    lemma_read_decimal(n, max);
}

/// What reads as a number is never above the largest value allowed.
pub proof fn lemma_parse_uint_bound(s: Seq<char>, max: nat)
    ensures
        parse_uint(s, max) matches Ok(n) ==> n <= max,
{
    if s.len() > 0 {
        if s[0] == '+' {
            lemma_read_digits_bound(s.drop_first(), 0, max);
        } else {
            lemma_read_digits_bound(s, 0, max);
        }
    }
}

proof fn lemma_read_digits_bound(s: Seq<char>, acc: nat, max: nat)
    requires
        acc <= max,
    ensures
        read_digits(s, acc, max) matches Ok(n) ==> n <= max,
    decreases s.len(),
{
    if s.len() > 0 && is_digit(s[0]) && acc * 10 + digit_value(s[0]) <= max {
        lemma_read_digits_bound(s.drop_first(), acc * 10 + digit_value(s[0]), max);
    }
}

proof fn lemma_digit_char(d: nat)
    requires
        d < 10,
    ensures
        is_digit(digit_char(d)),
        digit_value(digit_char(d)) == d,
{
}

proof fn lemma_decimal_not_plus(n: nat)
    ensures
        decimal(n).len() > 0,
        decimal(n)[0] != '+',
        is_digit(decimal(n)[0]),
    decreases n,
{
    if n < 10 {
        lemma_digit_char(n);
    } else {
        lemma_decimal_not_plus(n / 10);
    }
}

/// The value of a run of digits.
pub open spec fn digits_value(s: Seq<char>) -> nat
    decreases s.len(),
{
    if s.len() == 0 {
        0
    } else {
        digits_value(s.drop_last()) * 10 + digit_value(s.last())
    }
}

proof fn lemma_decimal_digits(n: nat)
    ensures
        digits_value(decimal(n)) == n,
        forall|i: int| 0 <= i < decimal(n).len() ==> is_digit(#[trigger] decimal(n)[i]),
    decreases n,
{
    if n < 10 {
        lemma_digit_char(n);
        assert(decimal(n).drop_last() =~= Seq::<char>::empty());
        assert(digits_value(Seq::<char>::empty()) == 0);
        assert(decimal(n).last() == digit_char(n));
    } else {
        lemma_decimal_digits(n / 10);
        lemma_digit_char(n % 10);
        assert(decimal(n).drop_last() =~= decimal(n / 10));
        assert(decimal(n).last() == digit_char(n % 10));
        assert(digits_value(decimal(n)) == digits_value(decimal(n / 10)) * 10 + digit_value(
            digit_char(n % 10),
        ));
        assert((n / 10) * 10 + n % 10 == n) by (nonlinear_arith);
    }
}

/// Reading the digits of `s` after `acc`, with every prefix value within
/// `max`, gives `acc` followed by those digits.
proof fn lemma_read_digits(s: Seq<char>, acc: nat, max: nat)
    requires
        forall|i: int| 0 <= i < s.len() ==> is_digit(#[trigger] s[i]),
        value_with_prefix(acc, s) <= max,
    ensures
        read_digits(s, acc, max) == Ok::<nat, ParseIntFailure>(value_with_prefix(acc, s)),
    decreases s.len(),
{
    if s.len() > 0 {
        let next = acc * 10 + digit_value(s[0]);
        lemma_value_with_prefix_step(acc, s);
        lemma_value_with_prefix_grows(next, s.drop_first());
        lemma_read_digits(s.drop_first(), next, max);
    }
}

/// The value of `acc` followed by the digits of `s`.
pub open spec fn value_with_prefix(acc: nat, s: Seq<char>) -> nat
    decreases s.len(),
{
    if s.len() == 0 {
        acc
    } else {
        value_with_prefix(acc * 10 + digit_value(s[0]), s.drop_first())
    }
}

proof fn lemma_value_with_prefix_step(acc: nat, s: Seq<char>)
    requires
        s.len() > 0,
    ensures
        value_with_prefix(acc, s) == value_with_prefix(acc * 10 + digit_value(s[0]), s.drop_first()),
{
}

proof fn lemma_value_with_prefix_grows(acc: nat, s: Seq<char>)
    ensures
        acc <= value_with_prefix(acc, s),
    decreases s.len(),
{
    if s.len() > 0 {
        lemma_value_with_prefix_grows(acc * 10 + digit_value(s[0]), s.drop_first());
    }
}

proof fn lemma_value_with_prefix_snoc(acc: nat, s: Seq<char>)
    requires
        s.len() > 0,
    ensures
        value_with_prefix(acc, s) == value_with_prefix(acc, s.drop_last()) * 10 + digit_value(s.last()),
    decreases s.len(),
{
    let next = acc * 10 + digit_value(s[0]);
    if s.len() == 1 {
        assert(s.drop_first().len() == 0);
        assert(s.drop_last().len() == 0);
        assert(value_with_prefix(next, s.drop_first()) == next);
        assert(value_with_prefix(acc, s.drop_last()) == acc);
        assert(s.last() == s[0]);
    } else {
        lemma_value_with_prefix_snoc(next, s.drop_first());
        assert(s.drop_first().drop_last() =~= s.drop_last().drop_first());
        assert(s.drop_last()[0] == s[0]);
        assert(s.drop_first().last() == s.last());
        assert(value_with_prefix(acc, s.drop_last()) == value_with_prefix(next, s.drop_last().drop_first()));
    }
}

proof fn lemma_value_is_digits(s: Seq<char>)
    ensures
        value_with_prefix(0, s) == digits_value(s),
    decreases s.len(),
{
    if s.len() > 0 {
        lemma_value_with_prefix_snoc(0, s);
        lemma_value_is_digits(s.drop_last());
    }
}

proof fn lemma_read_decimal(n: nat, max: nat)
    requires
        n <= max,
    ensures
        read_digits(decimal(n), 0, max) == Ok::<nat, ParseIntFailure>(n),
{
    lemma_decimal_digits(n);
    lemma_value_is_digits(decimal(n));
    lemma_read_digits(decimal(n), 0, max);
}

} // verus!
