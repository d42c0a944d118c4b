//! Integer, boolean and duration literals of the query language: their
//! grammar as parsers over bytes, and how a duration is written out.

use vstd::prelude::*;
use vstd::slice::slice_subrange;
use vstd::string::*;

verus! {

/// Number of nanoseconds in a microsecond.
pub const NANOS_PER_MICRO: i64 = 1000;

/// Number of nanoseconds in a millisecond.
pub const NANOS_PER_MILLI: i64 = 1000 * NANOS_PER_MICRO;

/// Number of nanoseconds in a second.
pub const NANOS_PER_SEC: i64 = 1000 * NANOS_PER_MILLI;

/// Number of nanoseconds in a minute.
pub const NANOS_PER_MIN: i64 = 60 * NANOS_PER_SEC;

/// Number of nanoseconds in an hour.
pub const NANOS_PER_HOUR: i64 = 60 * NANOS_PER_MIN;

/// Number of nanoseconds in a day.
pub const NANOS_PER_DAY: i64 = 24 * NANOS_PER_HOUR;

/// Number of nanoseconds in a week.
pub const NANOS_PER_WEEK: i64 = 7 * NANOS_PER_DAY;

/// Why a literal could not be read.
#[derive(Clone, Copy, Debug, PartialEq, Eq, Structural)]
pub enum ParseError {
    /// The input does not start with a digit.
    Digit,
    /// The digits spell a number that the type cannot hold.
    OutOfRange,
    /// The input does not start with any of the words looked for.
    Tag,
}

/// Represents a duration in nanoseconds.
#[derive(Clone, Copy, Debug, PartialEq, Eq, Structural)]
pub struct Duration(pub i64);

impl From<i64> for Duration {
    fn from(v: i64) -> (d: Self) {
        Duration(v)
    }
}

impl vstd::std_specs::convert::FromSpecImpl<i64> for Duration {
    open spec fn obeys_from_spec() -> bool {
        true
    }

    open spec fn from_spec(v: i64) -> Self {
        Duration(v)
    }
}

/// ASCII digits.
pub open spec fn is_digit(b: u8) -> bool {
    48 <= b <= 57
}

/// Where the run of digits that starts at `at` ends.
pub open spec fn digits_end(s: Seq<u8>, at: int) -> int
    decreases s.len() - at,
{
    if 0 <= at < s.len() && is_digit(s[at]) {
        digits_end(s, at + 1)
    } else {
        at
    }
}

/// The number that a string of digits spells.
pub open spec fn decimal_value(digits: Seq<u8>) -> nat
    decreases digits.len(),
{
    if digits.len() == 0 {
        0
    } else {
        10 * decimal_value(digits.drop_last()) + (digits.last() - 48) as nat
    }
}

/// The number at the start of `s` and how many bytes spell it: the longest
/// run of digits, if there is one and its value is at most `max`.
pub open spec fn spec_number(s: Seq<u8>, max: int) -> Result<(nat, int), ParseError> {
    let n = digits_end(s, 0);
    if n == 0 {
        Err(ParseError::Digit)
    } else if decimal_value(s.take(n)) > max {
        Err(ParseError::OutOfRange)
    } else {
        Ok((decimal_value(s.take(n)), n))
    }
}

proof fn lemma_digits_end_bounds(s: Seq<u8>, at: int)
    requires
        0 <= at <= s.len(),
    ensures
        at <= digits_end(s, at) <= s.len(),
        forall|k: int| at <= k < digits_end(s, at) ==> is_digit(s[k]),
    decreases s.len() - at,
{
    if at < s.len() && is_digit(s[at]) {
        lemma_digits_end_bounds(s, at + 1);
    }
}

proof fn lemma_decimal_value_grows(s: Seq<u8>, short: int, long: int)
    requires
        0 <= short <= long <= s.len(),
    ensures
        decimal_value(s.take(short)) <= decimal_value(s.take(long)),
    decreases long - short,
{
    if short < long {
        lemma_decimal_value_grows(s, short, long - 1);
        assert(s.take(long).drop_last() =~= s.take(long - 1));
    }
}

/// Reads the digits at the start of `i` as a number of at most `max`.
fn number(i: &[u8], max: u64) -> (res: Result<(usize, u64), ParseError>)
    requires
        max >= 9,
    ensures
        match (res, spec_number(i@, max as int)) {
            (Ok((n, v)), Ok((value, len))) => n == len && v == value && 0 < n <= i@.len(),
            (Err(e), Err(err)) => e == err,
            _ => false,
        },
{
    let mut at: usize = 0;
    let mut value: u64 = 0;
    proof {
        lemma_digits_end_bounds(i@, 0);
        assert(i@.take(0) =~= Seq::<u8>::empty());
    }
    while at < i.len() && 48 <= i[at] && i[at] <= 57
        invariant
            at <= i.len(),
            digits_end(i@, 0) == digits_end(i@, at as int),
            at <= digits_end(i@, 0) <= i@.len(),
            value == decimal_value(i@.take(at as int)),
            value <= max,
            max >= 9,
        decreases i.len() - at,
    {
        let digit = (i[at] - 48) as u64;
        proof {
            assert(i@.take(at + 1).drop_last() =~= i@.take(at as int));
            assert(i@.take(at + 1).last() == i@[at as int]);
            lemma_digits_end_bounds(i@, at + 1);
            lemma_decimal_value_grows(i@, at + 1, digits_end(i@, 0));
        }
        if value > (max - digit) / 10 {
            assert(10 * value + digit > max);
            return Err(ParseError::OutOfRange);
        }
        value = 10 * value + digit;
        at += 1;
    }
    if at == 0 {
        Err(ParseError::Digit)
    } else {
        Ok((at, value))
    }
}

/// What [`integer`] makes of `s`.
pub open spec fn spec_integer(s: Seq<u8>) -> Result<(nat, int), ParseError> {
    spec_number(s, i64::MAX as int)
}

/// What [`unsigned_integer`] makes of `s`.
pub open spec fn spec_unsigned_integer(s: Seq<u8>) -> Result<(nat, int), ParseError> {
    spec_number(s, u64::MAX as int)
}

/// Parse an integer.
///
/// ```text
/// INTEGER ::= [0-9]+
/// ```
///
/// Hands back what follows the digits, and their value.
pub fn integer(i: &[u8]) -> (res: Result<(&[u8], i64), ParseError>)
    ensures
        match (res, spec_integer(i@)) {
            (Ok((rest, v)), Ok((value, len))) => rest@ == i@.skip(len) && v == value,
            (Err(e), Err(err)) => e == err,
            _ => false,
        },
{
    match number(i, 0x7fff_ffff_ffff_ffff) {
        Ok((n, v)) => Ok((slice_subrange(i, n, i.len()), v as i64)),
        Err(e) => Err(e),
    }
}

/// Parse an unsigned integer.
///
/// ```text
/// INTEGER ::= [0-9]+
/// ```
///
/// Hands back what follows the digits, and their value.
pub fn unsigned_integer(i: &[u8]) -> (res: Result<(&[u8], u64), ParseError>)
    ensures
        match (res, spec_unsigned_integer(i@)) {
            (Ok((rest, v)), Ok((value, len))) => rest@ == i@.skip(len) && v == value,
            (Err(e), Err(err)) => e == err,
            _ => false,
        },
{
    match number(i, 0xffff_ffff_ffff_ffff) {
        Ok((n, v)) => Ok((slice_subrange(i, n, i.len()), v)),
        Err(e) => Err(e),
    }
}

/// How many bytes at the start of `s` spell a floating point number, if
/// they do:
///
/// ```text
/// float   ::= INTEGER "." INTEGER
/// INTEGER ::= [0-9]+
/// ```
pub open spec fn spec_float_span(s: Seq<u8>) -> Option<int> {
    let dot = digits_end(s, 0);
    if dot == 0 || dot >= s.len() || s[dot] != 46 || digits_end(s, dot + 1) == dot + 1 {
        None
    } else {
        Some(digits_end(s, dot + 1))
    }
}

/// Where the run of digits that starts at `from` ends.
fn scan_digits(i: &[u8], from: usize) -> (end: usize)
    requires
        from <= i@.len(),
    ensures
        end == digits_end(i@, from as int),
        from <= end <= i@.len(),
{
    let mut at: usize = from;
    while at < i.len() && 48 <= i[at] && i[at] <= 57
        invariant
            from <= at <= i.len(),
            digits_end(i@, from as int) == digits_end(i@, at as int),
        decreases i.len() - at,
    {
        at += 1;
    }
    at
}

/// Recognizes a floating point number at the start of `i` and says how
/// many bytes spell it. What the number is worth is for the caller to work
/// out from those bytes.
pub fn float_span(i: &[u8]) -> (span: Option<usize>)
    ensures
        match (span, spec_float_span(i@)) {
            (Some(n), Some(len)) => n == len && 3 <= n <= i@.len(),
            (None, None) => true,
            _ => false,
        },
{
    let dot = scan_digits(i, 0);
    if dot == 0 || dot >= i.len() || i[dot] != 46 {
        return None;
    }
    let end = scan_digits(i, dot + 1);
    if end == dot + 1 {
        None
    } else {
        Some(end)
    }
}

/// The lower-case form of an ASCII letter; any other byte is itself.
pub open spec fn lower(b: u8) -> u8 {
    if 65 <= b <= 90 {
        (b + 32) as u8
    } else {
        b
    }
}

/// `s` starts with `word`.
pub open spec fn starts_with(s: Seq<u8>, word: Seq<u8>) -> bool {
    s.len() >= word.len() && s.take(word.len() as int) == word
}

/// `s` starts with `word`, whatever the case of its letters. `word` is in
/// lower case.
pub open spec fn starts_with_no_case(s: Seq<u8>, word: Seq<u8>) -> bool {
    s.len() >= word.len() && s.take(word.len() as int).map_values(|b: u8| lower(b)) == word
}

/// The bytes of `true`.
pub open spec fn word_true() -> Seq<u8> {
    seq![116u8, 114u8, 117u8, 101u8]
}

/// The bytes of `false`.
pub open spec fn word_false() -> Seq<u8> {
    seq![102u8, 97u8, 108u8, 115u8, 101u8]
}

/// What [`boolean`] makes of `s`: the value and how many bytes spell it.
pub open spec fn spec_boolean(s: Seq<u8>) -> Option<(bool, int)> {
    if starts_with_no_case(s, word_true()) {
        Some((true, 4))
    } else if starts_with_no_case(s, word_false()) {
        Some((false, 5))
    } else {
        None
    }
}

fn lower_byte(b: u8) -> (res: u8)
    ensures
        res == lower(b),
{
    if 65 <= b && b <= 90 {
        b + 32
    } else {
        b
    }
}

/// Parse the input for a boolean, which must be the value `true` or `false`
/// in any case of letters.
pub fn boolean(i: &[u8]) -> (res: Result<(&[u8], bool), ParseError>)
    ensures
        match (res, spec_boolean(i@)) {
            (Ok((rest, v)), Some((value, len))) => rest@ == i@.skip(len) && v == value,
            (Err(e), None) => e == ParseError::Tag,
            _ => false,
        },
{
    if i.len() >= 4 && lower_byte(i[0]) == 116 && lower_byte(i[1]) == 114 && lower_byte(i[2]) == 117
        && lower_byte(i[3]) == 101 {
        assert(i@.take(4).map_values(|b: u8| lower(b)) =~= word_true());
        return Ok((slice_subrange(i, 4, i.len()), true));
    }
    assert(!starts_with_no_case(i@, word_true())) by {
        if starts_with_no_case(i@, word_true()) {
            let mapped = i@.take(4).map_values(|b: u8| lower(b));
            assert(mapped[0] == 116 && mapped[1] == 114 && mapped[2] == 117 && mapped[3] == 101);
        }
    }
    if i.len() >= 5 && lower_byte(i[0]) == 102 && lower_byte(i[1]) == 97 && lower_byte(i[2]) == 108
        && lower_byte(i[3]) == 115 && lower_byte(i[4]) == 101 {
        assert(i@.take(5).map_values(|b: u8| lower(b)) =~= word_false());
        return Ok((slice_subrange(i, 5, i.len()), false));
    }
    assert(!starts_with_no_case(i@, word_false())) by {
        if starts_with_no_case(i@, word_false()) {
            let mapped = i@.take(5).map_values(|b: u8| lower(b));
            assert(mapped[0] == 102 && mapped[1] == 97 && mapped[2] == 108 && mapped[3] == 115
                && mapped[4] == 101);
        }
    }
    Err(ParseError::Tag)
}

/// The unit at the start of `s`: its length in nanoseconds and how many
/// bytes spell it. The units are `ns`, `µs`, `us`, `ms`, `s`, `m`, `h`, `d`
/// and `w`; the longer spelling wins where one starts like another.
pub open spec fn spec_unit(s: Seq<u8>) -> Option<(i64, int)> {
    if starts_with(s, seq![110u8, 115u8]) {
        Some((1i64, 2))
    } else if starts_with(s, seq![0xc2u8, 0xb5u8, 115u8]) {
        Some((NANOS_PER_MICRO, 3))
    } else if starts_with(s, seq![117u8, 115u8]) {
        Some((NANOS_PER_MICRO, 2))
    } else if starts_with(s, seq![109u8, 115u8]) {
        Some((NANOS_PER_MILLI, 2))
    } else if starts_with(s, seq![115u8]) {
        Some((NANOS_PER_SEC, 1))
    } else if starts_with(s, seq![109u8]) {
        Some((NANOS_PER_MIN, 1))
    } else if starts_with(s, seq![104u8]) {
        Some((NANOS_PER_HOUR, 1))
    } else if starts_with(s, seq![100u8]) {
        Some((NANOS_PER_DAY, 1))
    } else if starts_with(s, seq![119u8]) {
        Some((NANOS_PER_WEEK, 1))
    } else {
        None
    }
}

proof fn lemma_starts_with_1(s: Seq<u8>, a: u8)
    ensures
        starts_with(s, seq![a]) <==> (s.len() >= 1 && s[0] == a),
{
    if s.len() >= 1 {
        if s[0] == a {
            assert(s.take(1) =~= seq![a]);
        } else {
            assert(s.take(1)[0] != seq![a][0]);
        }
    }
}

proof fn lemma_starts_with_2(s: Seq<u8>, a: u8, b: u8)
    ensures
        starts_with(s, seq![a, b]) <==> (s.len() >= 2 && s[0] == a && s[1] == b),
{
    if s.len() >= 2 {
        if s[0] == a && s[1] == b {
            assert(s.take(2) =~= seq![a, b]);
        } else {
            assert(s.take(2)[0] != seq![a, b][0] || s.take(2)[1] != seq![a, b][1]);
        }
    }
}

proof fn lemma_starts_with_3(s: Seq<u8>, a: u8, b: u8, c: u8)
    ensures
        starts_with(s, seq![a, b, c]) <==> (s.len() >= 3 && s[0] == a && s[1] == b && s[2] == c),
{
    if s.len() >= 3 {
        if s[0] == a && s[1] == b && s[2] == c {
            assert(s.take(3) =~= seq![a, b, c]);
        } else {
            assert(s.take(3)[0] != seq![a, b, c][0] || s.take(3)[1] != seq![a, b, c][1] || s.take(
                3,
            )[2] != seq![a, b, c][2]);
        }
    }
}

/// Reads the unit at the start of `i`.
fn unit(i: &[u8]) -> (res: Option<(i64, usize)>)
    ensures
        match (res, spec_unit(i@)) {
            (Some((per, n)), Some((nanos, len))) => per == nanos && n == len && 0 < n <= i@.len(),
            (None, None) => true,
            _ => false,
        },
        res matches Some((per, _)) ==> 1 <= per <= NANOS_PER_WEEK,
{
    proof {
        lemma_starts_with_2(i@, 110, 115);
        lemma_starts_with_3(i@, 0xc2, 0xb5, 115);
        lemma_starts_with_2(i@, 117, 115);
        lemma_starts_with_2(i@, 109, 115);
        lemma_starts_with_1(i@, 115);
        lemma_starts_with_1(i@, 109);
        lemma_starts_with_1(i@, 104);
        lemma_starts_with_1(i@, 100);
        lemma_starts_with_1(i@, 119);
    }
    let n = i.len();
    if n >= 2 && i[0] == 110 && i[1] == 115 {
        Some((1, 2))
    } else if n >= 3 && i[0] == 0xc2 && i[1] == 0xb5 && i[2] == 115 {
        Some((NANOS_PER_MICRO, 3))
    } else if n >= 2 && i[0] == 117 && i[1] == 115 {
        Some((NANOS_PER_MICRO, 2))
    } else if n >= 2 && i[0] == 109 && i[1] == 115 {
        Some((NANOS_PER_MILLI, 2))
    } else if n >= 1 && i[0] == 115 {
        Some((NANOS_PER_SEC, 1))
    } else if n >= 1 && i[0] == 109 {
        Some((NANOS_PER_MIN, 1))
    } else if n >= 1 && i[0] == 104 {
        Some((NANOS_PER_HOUR, 1))
    } else if n >= 1 && i[0] == 100 {
        Some((NANOS_PER_DAY, 1))
    } else if n >= 1 && i[0] == 119 {
        Some((NANOS_PER_WEEK, 1))
    } else {
        None
    }
}

/// What [`single_duration`] makes of `s`: a number, then a unit; the value
/// in nanoseconds, if an `i64` holds it, and how many bytes spell it.
pub open spec fn spec_single_duration(s: Seq<u8>) -> Result<(i64, int), ParseError> {
    match spec_integer(s) {
        Err(e) => Err(e),
        Ok((count, n)) => match spec_unit(s.skip(n)) {
            None => Err(ParseError::Tag),
            Some((nanos, m)) => if count * nanos > i64::MAX {
                Err(ParseError::OutOfRange)
            } else {
                Ok(((count * nanos) as i64, n + m))
            },
        },
    }
}

/// Parse the input for a duration fragment and returns the value in
/// nanoseconds.
pub fn single_duration(i: &[u8]) -> (res: Result<(&[u8], i64), ParseError>)
    ensures
        match (res, spec_single_duration(i@)) {
            (Ok((rest, v)), Ok((value, len))) => rest@ == i@.skip(len) && v == value && v >= 0 && 0
                < len <= i@.len(),
            (Err(e), Err(err)) => e == err,
            _ => false,
        },
{
    let (count, n) = match number(i, 0x7fff_ffff_ffff_ffff) {
        Ok((n, v)) => (v as i64, n),
        Err(e) => {
            return Err(e);
        },
    };
    let after_number = slice_subrange(i, n, i.len());
    assert(after_number@ =~= i@.skip(n as int));
    match unit(after_number) {
        None => Err(ParseError::Tag),
        Some((nanos, m)) => {
            match count.checked_mul(nanos) {
                None => Err(ParseError::OutOfRange),
                Some(value) => {
                    let rest = slice_subrange(after_number, m, after_number.len());
                    assert(rest@ =~= i@.skip(n + m));
                    assert(count * nanos >= 0) by (nonlinear_arith)
                        requires
                            count >= 0,
                            nanos >= 1,
                    ;
                    Ok((rest, value))
                },
            }
        },
    }
}

/// The sum of the fragments that start at `at`, on top of `sum`, and where
/// they end: fragments are taken as long as they parse and the sum stays
/// within an `i64`.
pub open spec fn spec_fragments(s: Seq<u8>, at: int, sum: int) -> (int, int)
    decreases s.len() - at,
{
    match spec_single_duration(s.skip(at)) {
        Ok((value, len)) => if 0 <= at && 0 < len <= s.len() - at && sum + value <= i64::MAX {
            spec_fragments(s, at + len, sum + value)
        } else {
            (sum, at)
        },
        Err(_) => (sum, at),
    }
}

/// What [`duration`] makes of `s`: one fragment or more; their sum and how
/// many bytes spell them.
pub open spec fn spec_duration(s: Seq<u8>) -> Result<(int, int), ParseError> {
    match spec_single_duration(s) {
        Err(e) => Err(e),
        Ok((value, len)) => Ok(spec_fragments(s, len, value as int)),
    }
}

/// Parse the input for a duration and returns the value in nanoseconds.
pub fn duration(i: &[u8]) -> (res: Result<(&[u8], Duration), ParseError>)
    ensures
        match (res, spec_duration(i@)) {
            (Ok((rest, d)), Ok((value, len))) => rest@ == i@.skip(len) && d.0 == value,
            (Err(e), Err(err)) => e == err,
            _ => false,
        },
{
    let (mut rest, mut sum) = match single_duration(i) {
        Ok((rest, value)) => (rest, value),
        Err(e) => {
            return Err(e);
        },
    };
    let ghost mut at: int = spec_single_duration(i@)->Ok_0.1;
    loop
        invariant
            0 <= at <= i@.len(),
            rest@ == i@.skip(at),
            sum >= 0,
            spec_duration(i@) == Ok::<(int, int), ParseError>(spec_fragments(i@, at, sum as int)),
        decreases i@.len() - at,
    {
        match single_duration(rest) {
            Err(_) => {
                return Ok((rest, Duration(sum)));
            },
            Ok((next, value)) => {
                match sum.checked_add(value) {
                    None => {
                        return Ok((rest, Duration(sum)));
                    },
                    Some(total) => {
                        proof {
                            let len = spec_single_duration(i@.skip(at))->Ok_0.1;
                            assert(i@.skip(at).skip(len) =~= i@.skip(at + len));
                            at = at + len;
                        }
                        sum = total;
                        rest = next;
                    },
                }
            },
        }
    }
}

/// A literal that is a number, a duration or a boolean. Of a floating point
/// number only the place is known: the bytes that spell it.
#[derive(Clone, Copy, Debug, PartialEq, Eq, Structural)]
pub enum LiteralKind {
    /// The first `span` bytes of the input spell a floating point number.
    Float { span: usize },
    /// Duration literal in nanoseconds.
    Duration(Duration),
    /// Unsigned integer literal.
    Unsigned(u64),
    /// Boolean literal.
    Boolean(bool),
}

/// What [`literal_kind`] makes of `s`: the literal and how many bytes spell
/// it. The kinds are tried in this order, and the first that fits is taken:
/// floating point number, duration, unsigned integer, boolean. A floating
/// point number comes first, since it starts like an integer or a duration.
pub open spec fn spec_literal_kind(s: Seq<u8>) -> Result<(LiteralKind, int), ParseError> {
    if let Some(span) = spec_float_span(s) {
        Ok((LiteralKind::Float { span: span as usize }, span))
    } else if let Ok((nanos, len)) = spec_duration(s) {
        Ok((LiteralKind::Duration(Duration(nanos as i64)), len))
    } else if let Ok((value, len)) = spec_unsigned_integer(s) {
        Ok((LiteralKind::Unsigned(value as u64), len))
    } else if let Some((value, len)) = spec_boolean(s) {
        Ok((LiteralKind::Boolean(value), len))
    } else {
        Err(ParseError::Tag)
    }
}

/// Parse a literal that is a number, a duration or a boolean, and hand
/// back what follows it.
pub fn literal_kind(i: &[u8]) -> (res: Result<(&[u8], LiteralKind), ParseError>)
    ensures
        match (res, spec_literal_kind(i@)) {
            (Ok((rest, kind)), Ok((literal, len))) => rest@ == i@.skip(len) && kind == literal,
            (Err(e), Err(err)) => e == err,
            _ => false,
        },
{
    // NOTE: order is important, as floats should be tested before durations and integers.
    if let Some(span) = float_span(i) {
        return Ok((slice_subrange(i, span, i.len()), LiteralKind::Float { span }));
    }
    if let Ok((rest, d)) = duration(i) {
        return Ok((rest, LiteralKind::Duration(d)));
    }
    if let Ok((rest, value)) = unsigned_integer(i) {
        return Ok((rest, LiteralKind::Unsigned(value)));
    }
    match boolean(i) {
        Ok((rest, value)) => Ok((rest, LiteralKind::Boolean(value))),
        Err(_) => Err(ParseError::Tag),
    }
}

/// How many nanoseconds the unit at place `k` of the display order holds:
/// weeks first, nanoseconds last.
pub open spec fn spec_divisor(k: int) -> int {
    if k == 0 {
        NANOS_PER_WEEK as int
    } else if k == 1 {
        NANOS_PER_DAY as int
    } else if k == 2 {
        NANOS_PER_HOUR as int
    } else if k == 3 {
        NANOS_PER_MIN as int
    } else if k == 4 {
        NANOS_PER_SEC as int
    } else if k == 5 {
        NANOS_PER_MILLI as int
    } else if k == 6 {
        NANOS_PER_MICRO as int
    } else {
        1
    }
}

/// How the unit at place `k` of the display order is written.
pub open spec fn spec_unit_name(k: int) -> Seq<char> {
    if k == 0 {
        "w"@
    } else if k == 1 {
        "d"@
    } else if k == 2 {
        "h"@
    } else if k == 3 {
        "m"@
    } else if k == 4 {
        "s"@
    } else if k == 5 {
        "ms"@
    } else if k == 6 {
        "us"@
    } else {
        "ns"@
    }
}

/// The character of a digit.
pub open spec fn digit_char(d: int) -> char {
    if d == 0 {
        '0'
    } else if d == 1 {
        '1'
    } else if d == 2 {
        '2'
    } else if d == 3 {
        '3'
    } else if d == 4 {
        '4'
    } else if d == 5 {
        '5'
    } else if d == 6 {
        '6'
    } else if d == 7 {
        '7'
    } else if d == 8 {
        '8'
    } else {
        '9'
    }
}

/// A number in decimal digits, without leading zeros.
pub open spec fn decimal(n: nat) -> Seq<char>
    decreases n,
{
    if n < 10 {
        seq![digit_char(n as int)]
    } else {
        decimal(n / 10).push(digit_char((n % 10) as int))
    }
}

/// What is written for `rest` nanoseconds from the unit at place `k` on,
/// of a duration of `total` nanoseconds: for each unit that is shorter than
/// the whole duration, how many times it goes into what is left, if at all.
pub open spec fn spec_display_from(total: int, rest: int, k: int) -> Seq<char>
    decreases 8 - k,
{
    if k >= 8 || k < 0 {
        Seq::empty()
    } else if total > spec_divisor(k) && rest / spec_divisor(k) > 0 {
        decimal((rest / spec_divisor(k)) as nat) + spec_unit_name(k) + spec_display_from(
            total,
            rest % spec_divisor(k),
            k + 1,
        )
    } else {
        spec_display_from(total, rest, k + 1)
    }
}

/// How a duration is written: `0s` for none; else its units in falling
/// order, each with its count, those left out that do not occur.
pub open spec fn spec_display(nanos: i64) -> Seq<char> {
    if nanos == 0 {
        "0s"@
    } else {
        spec_display_from(nanos as int, nanos as int, 0)
    }
}

fn digit_str(d: u64) -> (s: &'static str)
    requires
        d < 10,
    ensures
        s@ == seq![digit_char(d as int)],
{
    proof {
        reveal_strlit("0");
        reveal_strlit("1");
        reveal_strlit("2");
        reveal_strlit("3");
        reveal_strlit("4");
        reveal_strlit("5");
        reveal_strlit("6");
        reveal_strlit("7");
        reveal_strlit("8");
        reveal_strlit("9");
    }
    let s = if d == 0 {
        "0"
    } else if d == 1 {
        "1"
    } else if d == 2 {
        "2"
    } else if d == 3 {
        "3"
    } else if d == 4 {
        "4"
    } else if d == 5 {
        "5"
    } else if d == 6 {
        "6"
    } else if d == 7 {
        "7"
    } else if d == 8 {
        "8"
    } else {
        "9"
    };
    assert(s@ =~= seq![digit_char(d as int)]);
    s
}

/// Writes `n` in decimal digits to the end of `out`.
fn push_decimal(out: &mut String, n: u64)
    ensures
        final(out)@ == old(out)@ + decimal(n as nat),
    decreases n,
{
    if n >= 10 {
        push_decimal(out, n / 10);
    }
    out.append(digit_str(n % 10));
    assert(out@ =~= old(out)@ + decimal(n as nat));
}

fn divisor(k: usize) -> (res: (i64, &'static str))
    requires
        k < 8,
    ensures
        res.0 == spec_divisor(k as int),
        res.1@ == spec_unit_name(k as int),
        res.0 >= 1,
{
    if k == 0 {
        (NANOS_PER_WEEK, "w")
    } else if k == 1 {
        (NANOS_PER_DAY, "d")
    } else if k == 2 {
        (NANOS_PER_HOUR, "h")
    } else if k == 3 {
        (NANOS_PER_MIN, "m")
    } else if k == 4 {
        (NANOS_PER_SEC, "s")
    } else if k == 5 {
        (NANOS_PER_MILLI, "ms")
    } else if k == 6 {
        (NANOS_PER_MICRO, "us")
    } else {
        (1, "ns")
    }
}

impl Duration {
    /// The duration in nanoseconds.
    pub fn nanos(&self) -> (n: i64)
        ensures
            n == self.0,
    {
        self.0
    }

    /// Writes the duration out in the units of the query language.
    pub fn display(&self) -> (text: String)
        ensures
            text@ == spec_display(self.0),
    {
        if self.0 == 0 {
            return "0s".to_owned();
        }
        let total = self.0;
        let mut out = String::new();
        let mut rest: i64 = total;
        let mut k: usize = 0;
        while k < 8
            invariant
                k <= 8,
                total == self.0,
                total > 0 ==> 0 <= rest <= total,
                out@ + spec_display_from(total as int, rest as int, k as int) == spec_display_from(
                    total as int,
                    total as int,
                    0,
                ),
            decreases 8 - k,
        {
            let (div, unit) = divisor(k);
            // only the divisors that the whole duration exceeds
            if total > div {
                let units = rest / div;
                if units > 0 {
                    let ghost before = out@;
                    push_decimal(&mut out, units as u64);
                    out.append(unit);
                    proof {
                        assert(rest - units * div == rest % div) by (nonlinear_arith)
                            requires
                                units == rest / div,
                                div >= 1,
                                rest >= 0,
                        ;
                        assert(0 <= rest % div <= rest) by (nonlinear_arith)
                            requires
                                div >= 1,
                                rest >= 0,
                        ;
                        assert(out@ + spec_display_from(total as int, (rest % div) as int, k + 1)
                            =~= before + (decimal((rest / div) as nat) + spec_unit_name(k as int)
                            + spec_display_from(total as int, (rest % div) as int, k + 1)));
                    }
                    rest = rest % div;
                }
            }
            k += 1;
        }
        proof {
            assert(out@ + Seq::<char>::empty() =~= out@);
        }
        out
    }
}

/// The bytes of a text whose characters are all ASCII.
pub open spec fn text_bytes(text: Seq<char>) -> Seq<u8> {
    text.map_values(|c: char| c as u8)
}

/// What is left unwritten of `rest` nanoseconds once the units from place
/// `k` on have been written.
pub open spec fn leftover(total: int, rest: int, k: int) -> int
    decreases 8 - k,
{
    if k >= 8 || k < 0 {
        rest
    } else if total > spec_divisor(k) && rest / spec_divisor(k) > 0 {
        leftover(total, rest % spec_divisor(k), k + 1)
    } else {
        leftover(total, rest, k + 1)
    }
}

proof fn lemma_digit_byte(d: int)
    requires
        0 <= d <= 9,
    ensures
        digit_char(d) as u8 == 48 + d,
        is_digit(digit_char(d) as u8),
{
}

proof fn lemma_decimal_bytes(n: nat)
    ensures
        text_bytes(decimal(n)).len() >= 1,
        forall|i: int|
            0 <= i < text_bytes(decimal(n)).len() ==> is_digit(#[trigger] text_bytes(decimal(n))[i]),
        decimal_value(text_bytes(decimal(n))) == n,
    decreases n,
{
    let digits = text_bytes(decimal(n));
    if n < 10 {
        lemma_digit_byte(n as int);
        assert(digits =~= seq![(48 + n) as u8]);
        assert(digits.drop_last() =~= Seq::<u8>::empty());
        assert(decimal_value(digits.drop_last()) == 0);
    } else {
        lemma_decimal_bytes(n / 10);
        lemma_digit_byte((n % 10) as int);
        let front = text_bytes(decimal(n / 10));
        assert(digits =~= front.push((48 + n % 10) as u8));
        assert(digits.drop_last() =~= front);
        assert forall|i: int| 0 <= i < digits.len() implies is_digit(#[trigger] digits[i]) by {
            if i < front.len() {
                assert(digits[i] == front[i]);
            }
        }
    }
}

proof fn lemma_digits_then_other(s: Seq<u8>, n: int, at: int)
    requires
        0 <= at <= n <= s.len(),
        forall|i: int| 0 <= i < n ==> is_digit(#[trigger] s[i]),
        n == s.len() || !is_digit(s[n]),
    ensures
        digits_end(s, at) == n,
    decreases n - at,
{
    if at < n {
        lemma_digits_then_other(s, n, at + 1);
    }
}

proof fn lemma_unit_bytes(k: int, rest: Seq<u8>)
    requires
        0 <= k < 8,
        rest.len() == 0 || is_digit(rest[0]),
    ensures
        spec_unit(text_bytes(spec_unit_name(k)) + rest) == Some(
            (spec_divisor(k) as i64, text_bytes(spec_unit_name(k)).len() as int),
        ),
        text_bytes(spec_unit_name(k)).len() >= 1,
        !is_digit(text_bytes(spec_unit_name(k))[0]),
{
    reveal_strlit("w");
    reveal_strlit("d");
    reveal_strlit("h");
    reveal_strlit("m");
    reveal_strlit("s");
    reveal_strlit("ms");
    reveal_strlit("us");
    reveal_strlit("ns");
    let name = text_bytes(spec_unit_name(k));
    let s = name + rest;
    lemma_starts_with_2(s, 110, 115);
    lemma_starts_with_3(s, 0xc2, 0xb5, 115);
    lemma_starts_with_2(s, 117, 115);
    lemma_starts_with_2(s, 109, 115);
    lemma_starts_with_1(s, 115);
    lemma_starts_with_1(s, 109);
    lemma_starts_with_1(s, 104);
    lemma_starts_with_1(s, 100);
    lemma_starts_with_1(s, 119);
    if k == 0 {
        assert(name =~= seq![119u8]);
    } else if k == 1 {
        assert(name =~= seq![100u8]);
    } else if k == 2 {
        assert(name =~= seq![104u8]);
    } else if k == 3 {
        assert(name =~= seq![109u8]);
        if rest.len() > 0 {
            assert(s[1] == rest[0]);
        }
    } else if k == 4 {
        assert(name =~= seq![115u8]);
    } else if k == 5 {
        assert(name =~= seq![109u8, 115u8]);
    } else if k == 6 {
        assert(name =~= seq![117u8, 115u8]);
    } else {
        assert(name =~= seq![110u8, 115u8]);
    }
    assert(s[0] == name[0]);
    if name.len() > 1 {
        assert(s[1] == name[1]);
    }
}

proof fn lemma_fragment_bytes(count: nat, k: int, rest: Seq<u8>)
    requires
        0 <= k < 8,
        count * spec_divisor(k) <= i64::MAX,
        rest.len() == 0 || is_digit(rest[0]),
    ensures
        spec_single_duration(text_bytes(decimal(count) + spec_unit_name(k)) + rest) == Ok::<
            (i64, int),
            ParseError,
        >(
            (
                (count * spec_divisor(k)) as i64,
                text_bytes(decimal(count) + spec_unit_name(k)).len() as int,
            ),
        ),
        text_bytes(decimal(count) + spec_unit_name(k)).len() > 0,
        is_digit(text_bytes(decimal(count) + spec_unit_name(k))[0]),
{
    let digits = text_bytes(decimal(count));
    let name = text_bytes(spec_unit_name(k));
    let frag = text_bytes(decimal(count) + spec_unit_name(k));
    let s = frag + rest;
    lemma_decimal_bytes(count);
    lemma_unit_bytes(k, rest);
    assert(frag =~= digits + name);
    assert(s =~= digits + (name + rest));
    let n = digits.len() as int;
    assert forall|i: int| 0 <= i < n implies is_digit(#[trigger] s[i]) by {
        assert(s[i] == digits[i]);
    }
    assert(s[n] == name[0]);
    lemma_digits_then_other(s, n, 0);
    assert(s.take(n) =~= digits);
    assert(s.skip(n) =~= name + rest);
    assert(count <= count * spec_divisor(k)) by (nonlinear_arith)
        requires
            spec_divisor(k) >= 1,
    ;
    assert(frag[0] == digits[0]);
}

proof fn lemma_display_parses(prefix: Seq<u8>, total: int, rest: int, k: int, sum: int)
    requires
        0 <= k <= 8,
        0 <= rest,
        0 <= sum,
        sum + rest <= i64::MAX,
    ensures
        spec_fragments(
            prefix + text_bytes(spec_display_from(total, rest, k)),
            prefix.len() as int,
            sum,
        ) == (
            sum + rest - leftover(total, rest, k),
            (prefix + text_bytes(spec_display_from(total, rest, k))).len() as int,
        ),
        text_bytes(spec_display_from(total, rest, k)).len() == 0 || is_digit(
            text_bytes(spec_display_from(total, rest, k))[0],
        ),
        0 <= leftover(total, rest, k) <= rest,
    decreases 8 - k,
{
    let tail = text_bytes(spec_display_from(total, rest, k));
    let s = prefix + tail;
    let at = prefix.len() as int;
    if k == 8 {
        assert(tail =~= Seq::<u8>::empty());
        assert(s.skip(at) =~= Seq::<u8>::empty());
        assert(digits_end(s.skip(at), 0) == 0);
    } else {
        let div = spec_divisor(k);
        if total > div && rest / div > 0 {
            let units = rest / div;
            let less = rest % div;
            assert(units * div + less == rest && 0 <= less < div && units * div <= rest) by (nonlinear_arith)
                requires
                    units == rest / div,
                    less == rest % div,
                    div >= 1,
                    rest >= 0,
            ;
            let frag = text_bytes(decimal(units as nat) + spec_unit_name(k));
            let later = text_bytes(spec_display_from(total, less, k + 1));
            lemma_display_parses(prefix + frag, total, less, k + 1, sum + units * div);
            lemma_fragment_bytes(units as nat, k, later);
            assert(tail =~= frag + later);
            assert(s.skip(at) =~= frag + later);
            assert((prefix + frag) + later =~= s);
            assert(tail[0] == frag[0]);
        } else {
            lemma_display_parses(prefix, total, rest, k + 1, sum);
        }
    }
}

proof fn lemma_leftover_none(total: int, rest: int, k: int)
    requires
        total >= 2,
        0 <= rest,
        0 <= k <= 7,
    ensures
        leftover(total, rest, k) == 0,
    decreases 7 - k,
{
    let div = spec_divisor(k);
    if k < 7 {
        if total > div && rest / div > 0 {
            assert(0 <= rest % div) by (nonlinear_arith)
                requires
                    div >= 1,
                    rest >= 0,
            ;
            lemma_leftover_none(total, rest % div, k + 1);
        } else {
            lemma_leftover_none(total, rest, k + 1);
        }
    } else {
        assert(leftover(total, 0, 8) == 0);
    }
}

/// What `display` writes, `duration` reads back: it takes up all of the
/// text and gives the same number of nanoseconds. This holds for no time at
/// all and from two nanoseconds on; one nanosecond is written as the empty
/// text, which is no duration.
pub proof fn lemma_display_then_parse(nanos: i64)
    requires
        nanos == 0 || nanos >= 2,
    ensures
        spec_duration(text_bytes(spec_display(nanos))) == Ok::<(int, int), ParseError>(
            (nanos as int, text_bytes(spec_display(nanos)).len() as int),
        ),
{
    let s = text_bytes(spec_display(nanos));
    if nanos == 0 {
        reveal_strlit("0s");
        assert(s =~= seq![48u8, 115u8]);
        let none = Seq::<u8>::empty();
        assert(s =~= text_bytes(decimal(0) + spec_unit_name(4)) + none) by {
            reveal_strlit("s");
            assert(text_bytes(decimal(0) + spec_unit_name(4)) =~= seq![48u8, 115u8]);
        }
        lemma_fragment_bytes(0, 4, none);
        assert(s.skip(2) =~= none);
        assert(digits_end(s.skip(2), 0) == 0);
    } else {
        let none = Seq::<u8>::empty();
        lemma_display_parses(none, nanos as int, nanos as int, 0, 0);
        lemma_leftover_none(nanos as int, nanos as int, 0);
        assert(none + s =~= s);
        assert(s.skip(0) =~= s);
    }
}

} // verus!
