use compactor::literal::{
    boolean, duration, float_span, integer, literal_kind, single_duration, unsigned_integer,
    Duration, LiteralKind, ParseError,
    NANOS_PER_DAY, NANOS_PER_HOUR, NANOS_PER_MICRO, NANOS_PER_MILLI, NANOS_PER_MIN, NANOS_PER_SEC,
    NANOS_PER_WEEK,
};

#[test]
fn test_integer() {
    let (_, got) = integer("42".as_bytes()).unwrap();
    assert_eq!(got, 42);

    let (_, got) = integer(i64::MAX.to_string().as_bytes()).unwrap();
    assert_eq!(got, i64::MAX);

    // Fallible cases

    integer("hello".as_bytes()).unwrap_err();
}

#[test]
fn test_unsigned_integer() {
    let (_, got) = unsigned_integer("42".as_bytes()).unwrap();
    assert_eq!(got, 42);

    let (_, got) = unsigned_integer(u64::MAX.to_string().as_bytes()).unwrap();
    assert_eq!(got, u64::MAX);

    // Fallible cases

    unsigned_integer("hello".as_bytes()).unwrap_err();
}

/// Reads a floating point number: the library finds its end, std its value.
fn float(i: &str) -> Option<(&str, f64)> {
    let span = float_span(i.as_bytes())?;
    Some((&i[span..], i[..span].parse().ok()?))
}

#[test]
fn test_float() {
    let (_, got) = float("42.69").unwrap();
    assert_eq!(got, 42.69);

    let (_, got) = float(&format!("{:.1}", f64::MAX)[..]).unwrap();
    assert_eq!(got, f64::MAX);

    // Fallible cases

    // missing trailing digits
    assert!(float("41.").is_none());

    // missing decimal
    assert!(float("41").is_none());
}

#[test]
fn float_span_covers_digits_dot_digits() {
    assert_eq!(float_span("42.69".as_bytes()), Some(5));
    assert_eq!(float_span("0.5s".as_bytes()), Some(3));
    assert_eq!(float_span("1.2.3".as_bytes()), Some(3));
    assert_eq!(float_span("007.250abc".as_bytes()), Some(7));
    assert_eq!(float_span(".5".as_bytes()), None);
    assert_eq!(float_span("5.".as_bytes()), None);
    assert_eq!(float_span("5.x".as_bytes()), None);
    assert_eq!(float_span("5".as_bytes()), None);
    assert_eq!(float_span("-1.5".as_bytes()), None);
    assert_eq!(float_span("".as_bytes()), None);
}

#[test]
fn test_boolean() {
    let (_, got) = boolean("true".as_bytes()).unwrap();
    assert!(got);
    let (_, got) = boolean("false".as_bytes()).unwrap();
    assert!(!got);
}

#[test]
fn test_duration_fragment() {
    let (_, got) = single_duration("38ns".as_bytes()).unwrap();
    assert_eq!(got, 38);

    let (_, got) = single_duration("22us".as_bytes()).unwrap();
    assert_eq!(got, 22 * NANOS_PER_MICRO);

    let (_, got) = single_duration("7µs".as_bytes()).unwrap();
    assert_eq!(got, 7 * NANOS_PER_MICRO);

    let (_, got) = single_duration("15ms".as_bytes()).unwrap();
    assert_eq!(got, 15 * NANOS_PER_MILLI);

    let (_, got) = single_duration("53s".as_bytes()).unwrap();
    assert_eq!(got, 53 * NANOS_PER_SEC);

    let (_, got) = single_duration("158m".as_bytes()).unwrap();
    assert_eq!(got, 158 * NANOS_PER_MIN);

    let (_, got) = single_duration("39h".as_bytes()).unwrap();
    assert_eq!(got, 39 * NANOS_PER_HOUR);

    let (_, got) = single_duration("2d".as_bytes()).unwrap();
    assert_eq!(got, 2 * NANOS_PER_DAY);

    let (_, got) = single_duration("5w".as_bytes()).unwrap();
    assert_eq!(got, 5 * NANOS_PER_WEEK);
}

#[test]
fn test_duration() {
    let (_, got) = duration("10h3m2s".as_bytes()).unwrap();
    assert_eq!(
        got,
        Duration(10 * NANOS_PER_HOUR + 3 * NANOS_PER_MIN + 2 * NANOS_PER_SEC)
    );
}

#[test]
fn test_display_duration() {
    let (_, d) = duration("3w2h15ms".as_bytes()).unwrap();
    let got = d.display();
    assert_eq!(got, "3w2h15ms");

    let (_, d) = duration("5s5s5s5s5s".as_bytes()).unwrap();
    let got = d.display();
    assert_eq!(got, "25s");

    let d = Duration(0);
    let got = d.display();
    assert_eq!(got, "0s");

    let d = Duration(
        20 * NANOS_PER_WEEK
            + 6 * NANOS_PER_DAY
            + 13 * NANOS_PER_HOUR
            + 11 * NANOS_PER_MIN
            + 10 * NANOS_PER_SEC
            + 9 * NANOS_PER_MILLI
            + 8 * NANOS_PER_MICRO
            + 500,
    );
    let got = d.display();
    assert_eq!(got, "20w6d13h11m10s9ms8us500ns");
}

#[test]
fn integer_hands_back_what_follows_the_digits() {
    let (rest, got) = integer("0042abc".as_bytes()).unwrap();
    assert_eq!(got, 42);
    assert_eq!(rest, "abc".as_bytes());

    let (rest, got) = unsigned_integer("7".as_bytes()).unwrap();
    assert_eq!(got, 7);
    assert!(rest.is_empty());
}

#[test]
fn integer_errors_say_why() {
    assert_eq!(integer("".as_bytes()), Err(ParseError::Digit));
    assert_eq!(integer("-1".as_bytes()), Err(ParseError::Digit));
    assert_eq!(integer("x1".as_bytes()), Err(ParseError::Digit));
    // one more than an i64 holds
    assert_eq!(integer("9223372036854775808".as_bytes()), Err(ParseError::OutOfRange));
    assert_eq!(integer("99999999999999999999999".as_bytes()), Err(ParseError::OutOfRange));
    // an u64 holds it
    assert_eq!(
        unsigned_integer("9223372036854775808".as_bytes()).unwrap().1,
        9223372036854775808
    );
    assert_eq!(
        unsigned_integer("18446744073709551616".as_bytes()),
        Err(ParseError::OutOfRange)
    );
}

#[test]
fn boolean_ignores_case_and_keeps_the_rest() {
    let (rest, got) = boolean("TrUe!".as_bytes()).unwrap();
    assert!(got);
    assert_eq!(rest, "!".as_bytes());
    let (rest, got) = boolean("FALSEhood".as_bytes()).unwrap();
    assert!(!got);
    assert_eq!(rest, "hood".as_bytes());
    assert_eq!(boolean("tru".as_bytes()), Err(ParseError::Tag));
    assert_eq!(boolean("yes".as_bytes()), Err(ParseError::Tag));
    assert_eq!(boolean("".as_bytes()), Err(ParseError::Tag));
}

#[test]
fn duration_fragment_needs_number_and_unit() {
    assert_eq!(single_duration("ms".as_bytes()), Err(ParseError::Digit));
    assert_eq!(single_duration("15".as_bytes()), Err(ParseError::Tag));
    assert_eq!(single_duration("15x".as_bytes()), Err(ParseError::Tag));
    assert_eq!(single_duration("15 ms".as_bytes()), Err(ParseError::Tag));
    // more nanoseconds than an i64 holds
    assert_eq!(single_duration("9223372036854775807w".as_bytes()), Err(ParseError::OutOfRange));
    assert_eq!(single_duration("9223372036854775808ns".as_bytes()), Err(ParseError::OutOfRange));
}

#[test]
fn duration_fragment_prefers_the_longer_unit() {
    let (rest, got) = single_duration("3msx".as_bytes()).unwrap();
    assert_eq!(got, 3 * NANOS_PER_MILLI);
    assert_eq!(rest, "x".as_bytes());
    let (rest, got) = single_duration("3mx".as_bytes()).unwrap();
    assert_eq!(got, 3 * NANOS_PER_MIN);
    assert_eq!(rest, "x".as_bytes());
    let (rest, got) = single_duration("3nsx".as_bytes()).unwrap();
    assert_eq!(got, 3);
    assert_eq!(rest, "x".as_bytes());
}

#[test]
fn duration_stops_at_the_first_thing_that_is_no_fragment() {
    let (rest, got) = duration("1h30m and more".as_bytes()).unwrap();
    assert_eq!(got, Duration(NANOS_PER_HOUR + 30 * NANOS_PER_MIN));
    assert_eq!(rest, " and more".as_bytes());

    let (rest, got) = duration("2s5".as_bytes()).unwrap();
    assert_eq!(got, Duration(2 * NANOS_PER_SEC));
    assert_eq!(rest, "5".as_bytes());

    assert_eq!(duration("h".as_bytes()), Err(ParseError::Digit));
    assert_eq!(duration("12".as_bytes()), Err(ParseError::Tag));
}

#[test]
fn duration_stops_before_its_sum_leaves_the_range() {
    // 9223372036854775807ns is i64::MAX: one more nanosecond does not fit
    let (rest, got) = duration("9223372036854775807ns1ns".as_bytes()).unwrap();
    assert_eq!(got, Duration(i64::MAX));
    assert_eq!(rest, "1ns".as_bytes());
}

#[test]
fn display_uses_only_units_shorter_than_the_whole() {
    // A unit is used only where the duration is longer than one of it.
    assert_eq!(Duration(NANOS_PER_SEC).display(), "1000ms");
    assert_eq!(Duration(NANOS_PER_SEC + 1).display(), "1s1ns");
    assert_eq!(Duration(NANOS_PER_WEEK).display(), "7d");
    assert_eq!(Duration(2).display(), "2ns");
    assert_eq!(Duration(1).display(), "");
    assert_eq!(Duration(-5).display(), "");
    assert_eq!(Duration(i64::MAX).display(), "15250w1d23h47m16s854ms775us807ns");
}

#[test]
fn duration_from_nanoseconds() {
    assert_eq!(Duration::from(42), Duration(42));
    assert_eq!(Duration::from(42).nanos(), 42);
}

#[test]
fn literal_kinds_are_tried_in_order() {
    let (rest, got) = literal_kind("42".as_bytes()).unwrap();
    assert_eq!(got, LiteralKind::Unsigned(42));
    assert!(rest.is_empty());

    let (rest, got) = literal_kind("42.69".as_bytes()).unwrap();
    assert_eq!(got, LiteralKind::Float { span: 5 });
    assert!(rest.is_empty());
    let value: f64 = "42.69"[..5].parse().unwrap();
    assert_eq!(value, 42.69);

    let (_, got) = literal_kind("false".as_bytes()).unwrap();
    assert_eq!(got, LiteralKind::Boolean(false));

    let (_, got) = literal_kind("true".as_bytes()).unwrap();
    assert_eq!(got, LiteralKind::Boolean(true));

    let (_, got) = literal_kind("3h25m".as_bytes()).unwrap();
    assert_eq!(
        got,
        LiteralKind::Duration(Duration(3 * NANOS_PER_HOUR + 25 * NANOS_PER_MIN))
    );
}

#[test]
fn literal_kind_takes_the_first_kind_that_fits() {
    // a float, not the integer 1 followed by ".5s"
    let (rest, got) = literal_kind("1.5s".as_bytes()).unwrap();
    assert_eq!(got, LiteralKind::Float { span: 3 });
    assert_eq!(rest, "s".as_bytes());

    // a duration, not the integer 10 followed by "s"
    let (rest, got) = literal_kind("10s,".as_bytes()).unwrap();
    assert_eq!(got, LiteralKind::Duration(Duration(10 * NANOS_PER_SEC)));
    assert_eq!(rest, ",".as_bytes());

    // no digits behind the dot: an integer, and the dot is left
    let (rest, got) = literal_kind("41.".as_bytes()).unwrap();
    assert_eq!(got, LiteralKind::Unsigned(41));
    assert_eq!(rest, ".".as_bytes());

    // too large for a duration in nanoseconds, but an unsigned integer
    let (rest, got) = literal_kind("18446744073709551615s".as_bytes()).unwrap();
    assert_eq!(got, LiteralKind::Unsigned(u64::MAX));
    assert_eq!(rest, "s".as_bytes());

    let (rest, got) = literal_kind("TRUE story".as_bytes()).unwrap();
    assert_eq!(got, LiteralKind::Boolean(true));
    assert_eq!(rest, " story".as_bytes());
}

#[test]
fn literal_kind_fails_where_no_kind_fits() {
    assert_eq!(literal_kind("".as_bytes()), Err(ParseError::Tag));
    assert_eq!(literal_kind("'quick draw'".as_bytes()), Err(ParseError::Tag));
    assert_eq!(literal_kind("-1".as_bytes()), Err(ParseError::Tag));
    assert_eq!(literal_kind("99999999999999999999".as_bytes()), Err(ParseError::Tag));
}

#[test]
fn what_display_writes_duration_reads_back() {
    let samples = [
        0,
        2,
        999,
        1000,
        1001,
        NANOS_PER_MILLI,
        NANOS_PER_SEC,
        NANOS_PER_SEC + 1,
        59 * NANOS_PER_MIN + 59 * NANOS_PER_SEC,
        NANOS_PER_DAY,
        NANOS_PER_WEEK,
        NANOS_PER_WEEK + 1,
        3 * NANOS_PER_WEEK + 2 * NANOS_PER_HOUR + 15 * NANOS_PER_MILLI,
        i64::MAX - 1,
        i64::MAX,
    ];
    for nanos in samples {
        let text = Duration(nanos).display();
        let (rest, got) = duration(text.as_bytes()).unwrap();
        assert_eq!(got, Duration(nanos), "{}", text);
        assert!(rest.is_empty(), "{}", text);
    }
    for nanos in 2..5000 {
        let text = Duration(nanos).display();
        assert_eq!(duration(text.as_bytes()), Ok(("".as_bytes(), Duration(nanos))));
    }
}

#[test]
fn one_nanosecond_is_written_as_nothing() {
    let text = Duration(1).display();
    assert_eq!(text, "");
    assert_eq!(duration(text.as_bytes()), Err(ParseError::Digit));
}
