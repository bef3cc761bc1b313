//! Byte-level text helpers shared by the codec and the argument parser:
//! whitespace-separated tokens and unsigned decimal numbers.

use vstd::prelude::*;

verus! {

pub const LINE_FEED: u8 = 10;

pub const SPACE: u8 = 32;

/// ASCII whitespace: space, tab, line feed, vertical tab, form feed, carriage return.
pub open spec fn is_space(b: u8) -> bool {
    b == 32 || (9 <= b && b <= 13)
}

pub open spec fn is_digit(b: u8) -> bool {
    48 <= b && b <= 57
}

pub open spec fn is_ascii_text(s: Seq<u8>) -> bool {
    forall|i: int| 0 <= i < s.len() ==> s[i] < 128
}

/// Index of the first whitespace byte at or after `from`, or the length of `s`.
pub open spec fn token_end(s: Seq<u8>, from: int) -> int
    decreases s.len() - from,
{
    if from < 0 || from >= s.len() {
        s.len() as int
    } else if is_space(s[from]) {
        from
    } else {
        token_end(s, from + 1)
    }
}

/// Index of the first non-whitespace byte at or after `from`, or the length of `s`.
pub open spec fn skip_spaces(s: Seq<u8>, from: int) -> int
    decreases s.len() - from,
{
    if from < 0 || from >= s.len() {
        s.len() as int
    } else if !is_space(s[from]) {
        from
    } else {
        skip_spaces(s, from + 1)
    }
}

/// Index of the first occurrence of `b` at or after `from`, or the length of `s`.
pub open spec fn index_of_byte(s: Seq<u8>, b: u8, from: int) -> int
    decreases s.len() - from,
{
    if from < 0 || from >= s.len() {
        s.len() as int
    } else if s[from] == b {
        from
    } else {
        index_of_byte(s, b, from + 1)
    }
}

/// A nonempty run of decimal digits.
pub open spec fn is_decimal(s: Seq<u8>) -> bool {
    s.len() > 0 && forall|i: int| 0 <= i < s.len() ==> is_digit(#[trigger] s[i])
}

/// The number that a run of decimal digits writes, most significant digit first.
pub open spec fn decimal_value(s: Seq<u8>) -> nat
    decreases s.len(),
{
    if s.len() == 0 {
        0
    } else {
        decimal_value(s.drop_last()) * 10 + (s.last() - 48) as nat
    }
}

/// What a token means as an unsigned decimal number: digits only, no sign,
/// and a value that fits the machine word.
pub open spec fn parsed_decimal(s: Seq<u8>) -> Option<usize> {
    if is_decimal(s) && decimal_value(s) <= usize::MAX {
        Some(decimal_value(s) as usize)
    } else {
        None
    }
}

/// The shortest decimal writing of `n`.
pub open spec fn decimal_digits(n: nat) -> Seq<u8>
    decreases n,
{
    if n < 10 {
        seq![(48 + n) as u8]
    } else {
        decimal_digits(n / 10).push((48 + n % 10) as u8)
    }
}

pub fn byte_is_space(b: u8) -> (r: bool)
    ensures
        r == is_space(b),
{
    b == 32 || (9 <= b && b <= 13)
}

pub fn byte_is_digit(b: u8) -> (r: bool)
    ensures
        r == is_digit(b),
{
    48 <= b && b <= 57
}

pub fn find_token_end(s: &[u8], from: usize) -> (end: usize)
    requires
        from <= s@.len(),
    ensures
        end == token_end(s@, from as int),
        from <= end <= s@.len(),
        forall|i: int| from <= i < end ==> !is_space(#[trigger] s@[i]),
        end < s@.len() ==> is_space(s@[end as int]),
{
    let mut i: usize = from;
    while i < s.len() && !byte_is_space(s[i])
        invariant
            from <= i <= s@.len(),
            token_end(s@, from as int) == token_end(s@, i as int),
            forall|k: int| from <= k < i ==> !is_space(#[trigger] s@[k]),
        decreases s@.len() - i,
    {
        i += 1;
    }
    i
}

pub fn find_token_start(s: &[u8], from: usize) -> (start: usize)
    requires
        from <= s@.len(),
    ensures
        start == skip_spaces(s@, from as int),
        from <= start <= s@.len(),
        forall|i: int| from <= i < start ==> is_space(#[trigger] s@[i]),
        start < s@.len() ==> !is_space(s@[start as int]),
{
    let mut i: usize = from;
    while i < s.len() && byte_is_space(s[i])
        invariant
            from <= i <= s@.len(),
            skip_spaces(s@, from as int) == skip_spaces(s@, i as int),
            forall|k: int| from <= k < i ==> is_space(#[trigger] s@[k]),
        decreases s@.len() - i,
    {
        i += 1;
    }
    i
}

pub fn find_byte(s: &[u8], b: u8, from: usize) -> (at: usize)
    requires
        from <= s@.len(),
    ensures
        at == index_of_byte(s@, b, from as int),
        from <= at <= s@.len(),
        forall|i: int| from <= i < at ==> #[trigger] s@[i] != b,
        at < s@.len() ==> s@[at as int] == b,
{
    let mut i: usize = from;
    while i < s.len() && s[i] != b
        invariant
            from <= i <= s@.len(),
            index_of_byte(s@, b, from as int) == index_of_byte(s@, b, i as int),
            forall|k: int| from <= k < i ==> #[trigger] s@[k] != b,
        decreases s@.len() - i,
    {
        i += 1;
    }
    i
}

pub fn check_ascii_text(s: &[u8]) -> (ok: bool)
    ensures
        ok == is_ascii_text(s@),
{
    let mut i: usize = 0;
    while i < s.len()
        invariant
            i <= s@.len(),
            forall|k: int| 0 <= k < i ==> s@[k] < 128,
        decreases s@.len() - i,
    {
        if s[i] >= 128 {
            return false;
        }
        i += 1;
    }
    true
}

/// The first occurrence of a byte lies at or after the start of the search
/// and no later than the end of the sequence.
pub proof fn lemma_index_of_byte_bounds(s: Seq<u8>, b: u8, from: int)
    requires
        0 <= from <= s.len(),
    ensures
        from <= index_of_byte(s, b, from) <= s.len(),
    decreases s.len() - from,
{
    if from < s.len() && s[from] != b {
        lemma_index_of_byte_bounds(s, b, from + 1);
    }
}

/// Where no byte from `from` up to `at` is `b` and the byte at `at` is, or
/// `at` is the end, the first occurrence of `b` from `from` on is at `at`.
pub proof fn lemma_index_of_byte_is(s: Seq<u8>, b: u8, from: int, at: int)
    requires
        0 <= from <= at <= s.len(),
        forall|i: int| from <= i < at ==> #[trigger] s[i] != b,
        at < s.len() ==> s[at] == b,
    ensures
        index_of_byte(s, b, from) == at,
    decreases at - from,
{
    if from < at {
        lemma_index_of_byte_is(s, b, from + 1, at);
    }
}

/// Where no byte from `from` up to `at` is whitespace and the byte at
/// `at` is, or `at` is the end, the token that starts at `from` ends at `at`.
pub proof fn lemma_token_end_is(s: Seq<u8>, from: int, at: int)
    requires
        0 <= from <= at <= s.len(),
        forall|i: int| from <= i < at ==> !is_space(#[trigger] s[i]),
        at < s.len() ==> is_space(s[at]),
    ensures
        token_end(s, from) == at,
    decreases at - from,
{
    if from < at {
        lemma_token_end_is(s, from + 1, at);
    }
}

/// Where every byte from `from` up to `at` is whitespace and the byte at
/// `at` is not, or `at` is the end, the next token from `from` on starts at `at`.
pub proof fn lemma_skip_spaces_is(s: Seq<u8>, from: int, at: int)
    requires
        0 <= from <= at <= s.len(),
        forall|i: int| from <= i < at ==> is_space(#[trigger] s[i]),
        at < s.len() ==> !is_space(s[at]),
    ensures
        skip_spaces(s, from) == at,
    decreases at - from,
{
    if from < at {
        lemma_skip_spaces_is(s, from + 1, at);
    }
}

/// A longer run of digits never writes a smaller number than its prefix.
pub proof fn lemma_decimal_value_prefix(s: Seq<u8>, k: int)
    requires
        0 <= k <= s.len(),
    ensures
        decimal_value(s.take(k)) <= decimal_value(s),
    decreases s.len() - k,
{
    if k == s.len() {
        assert(s.take(k) =~= s);
    } else {
        lemma_decimal_value_prefix(s, k + 1);
        assert(s.take(k + 1).drop_last() =~= s.take(k));
    }
}

/// Reads a whole token as an unsigned decimal number.
pub fn parse_decimal(s: &[u8]) -> (r: Option<usize>)
    ensures
        r == parsed_decimal(s@),
{
    if s.len() == 0 {
        return None;
    }
    let mut value: usize = 0;
    let mut i: usize = 0;
    while i < s.len()
        invariant
            i <= s@.len(),
            forall|k: int| 0 <= k < i ==> is_digit(#[trigger] s@[k]),
            value == decimal_value(s@.take(i as int)),
        decreases s@.len() - i,
    {
        let b: u8 = s[i];
        if !byte_is_digit(b) {
            return None;
        }
        let d: usize = (b - 48) as usize;
        proof {
            assert(s@.take(i + 1).drop_last() =~= s@.take(i as int));
            lemma_decimal_value_prefix(s@, i + 1);
        }
        if value > (usize::MAX - d) / 10 {
            return None;
        }
        value = value * 10 + d;
        i += 1;
    }
    proof {
        assert(s@.take(i as int) =~= s@);
    }
    Some(value)
}

/// Appends the shortest decimal writing of `n` to `out`.
pub fn push_decimal(out: &mut Vec<u8>, n: usize)
    ensures
        final(out)@ == old(out)@ + decimal_digits(n as nat),
    decreases n,
{
    if n >= 10 {
        push_decimal(out, n / 10);
    }
    let d: u8 = (n % 10) as u8;
    out.push(48 + d);
    proof {
        if n >= 10 {
            assert(final(out)@ =~= old(out)@ + decimal_digits(n as nat));
        } else {
            assert(final(out)@ =~= old(out)@ + decimal_digits(n as nat));
        }
    }
}

/// Every byte of a shortest decimal writing is a digit, and reading it back
/// gives the number that was written.
pub proof fn lemma_decimal_round_trip(n: nat)
    ensures
        is_decimal(decimal_digits(n)),
        decimal_value(decimal_digits(n)) == n,
        forall|i: int|
            0 <= i < decimal_digits(n).len() ==> !is_space(#[trigger] decimal_digits(n)[i]),
    decreases n,
{
    if n < 10 {
        assert(decimal_digits(n).drop_last() =~= Seq::<u8>::empty());
        assert(decimal_value(decimal_digits(n).drop_last()) == 0);
    } else {
        lemma_decimal_round_trip(n / 10);
        assert(decimal_digits(n).drop_last() =~= decimal_digits(n / 10));
    }
}

/// Why a token is no number of the wanted size.
#[derive(Debug, Clone, Copy, PartialEq, Eq, Structural)]
pub enum ParseIntError {
    /// The token is empty, or holds something other than digits after an
    /// optional plus sign.
    InvalidDigit,
    /// The digits write a number above the largest one wanted.
    Overflow,
}

/// The digits of a token: what follows one leading plus sign, if there is one.
pub open spec fn unsigned_digits(s: Seq<u8>) -> Seq<u8> {
    if s.len() > 0 && s[0] == 43 {
        s.skip(1)
    } else {
        s
    }
}

/// What a token means as a number up to `max`: an optional plus sign, then
/// digits only.
pub open spec fn parsed_bounded(s: Seq<u8>, max: usize) -> Result<usize, ParseIntError> {
    if !is_decimal(unsigned_digits(s)) {
        Err(ParseIntError::InvalidDigit)
    } else if decimal_value(unsigned_digits(s)) > max {
        Err(ParseIntError::Overflow)
    } else {
        Ok(decimal_value(unsigned_digits(s)) as usize)
    }
}

/// Reads a whole token as a number up to `max`.
pub fn parse_bounded(s: &[u8], max: usize) -> (r: Result<usize, ParseIntError>)
    ensures
        r == parsed_bounded(s@, max),
{
    let from: usize = if s.len() > 0 && s[0] == 43 {
        1
    } else {
        0
    };
    let digits = vstd::slice::slice_subrange(s, from, s.len());
    assert(digits@ =~= unsigned_digits(s@));
    let mut i: usize = 0;
    while i < digits.len()
        invariant
            i <= digits@.len(),
            digits@ == unsigned_digits(s@),
            forall|k: int| 0 <= k < i ==> is_digit(#[trigger] digits@[k]),
        decreases digits@.len() - i,
    {
        if !byte_is_digit(digits[i]) {
            return Err(ParseIntError::InvalidDigit);
        }
        i += 1;
    }
    match parse_decimal(digits) {
        Some(value) => if value <= max {
            Ok(value)
        } else {
            Err(ParseIntError::Overflow)
        },
        None => if digits.len() == 0 {
            Err(ParseIntError::InvalidDigit)
        } else {
            Err(ParseIntError::Overflow)
        },
    }
}

/// Whether two byte strings hold the same bytes.
pub fn bytes_equal(a: &[u8], b: &[u8]) -> (r: bool)
    ensures
        r == (a@ == b@),
{
    if a.len() != b.len() {
        return false;
    }
    let mut i: usize = 0;
    while i < a.len()
        invariant
            i <= a@.len(),
            a@.len() == b@.len(),
            forall|k: int| 0 <= k < i ==> a@[k] == b@[k],
        decreases a@.len() - i,
    {
        if a[i] != b[i] {
            return false;
        }
        i += 1;
    }
    assert(a@ =~= b@);
    true
}

} // verus!
