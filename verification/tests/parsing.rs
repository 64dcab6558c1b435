use tencent_scf::decimal::{int_error_message, parse_usize, IntErrorKind};

fn std_kind(s: &str) -> Result<usize, IntErrorKind> {
    match s.parse::<usize>() {
        Ok(v) => Ok(v),
        Err(e) => Err(match e.kind() {
            std::num::IntErrorKind::Empty => IntErrorKind::Empty,
            std::num::IntErrorKind::InvalidDigit => IntErrorKind::InvalidDigit,
            std::num::IntErrorKind::PosOverflow => IntErrorKind::PosOverflow,
            other => panic!("unexpected kind {:?}", other),
        }),
    }
}

#[test]
fn parse_usize_reads_plain_numbers() {
    assert_eq!(parse_usize("128"), Ok(128));
    assert_eq!(parse_usize("0"), Ok(0));
    assert_eq!(parse_usize("007"), Ok(7));
    assert_eq!(parse_usize("+5"), Ok(5));
}

#[test]
fn parse_usize_errors() {
    assert_eq!(parse_usize(""), Err(IntErrorKind::Empty));
    assert_eq!(parse_usize("+"), Err(IntErrorKind::InvalidDigit));
    assert_eq!(parse_usize("-"), Err(IntErrorKind::InvalidDigit));
    assert_eq!(parse_usize("-1"), Err(IntErrorKind::InvalidDigit));
    assert_eq!(parse_usize("12a"), Err(IntErrorKind::InvalidDigit));
    assert_eq!(parse_usize(" 1"), Err(IntErrorKind::InvalidDigit));
    assert_eq!(parse_usize("1 "), Err(IntErrorKind::InvalidDigit));
}

#[test]
fn parse_usize_limits() {
    let max = usize::MAX.to_string();
    assert_eq!(parse_usize(&max), Ok(usize::MAX));
    let over = format!("{}0", max);
    assert_eq!(parse_usize(&over), Err(IntErrorKind::PosOverflow));
    let over_then_junk = format!("{}0x", max);
    assert_eq!(parse_usize(&over_then_junk), Err(IntErrorKind::PosOverflow));
}

#[test]
fn parse_usize_agrees_with_std() {
    let max = usize::MAX.to_string();
    let cases = [
        "", "+", "-", "0", "1", "+0", "+12", "-0", "12x", "x12", "٣", "1_000", &max,
        "99999999999999999999999", "000000000000000000000001",
    ];
    for case in cases.iter() {
        assert_eq!(parse_usize(case), std_kind(case), "input {:?}", case);
    }
}

#[test]
fn int_error_messages_match_std() {
    for (text, kind) in [
        ("", IntErrorKind::Empty),
        ("z", IntErrorKind::InvalidDigit),
        ("99999999999999999999999", IntErrorKind::PosOverflow),
    ] {
        let std_message = text.parse::<usize>().unwrap_err().to_string();
        assert_eq!(int_error_message(kind), std_message);
    }
}
