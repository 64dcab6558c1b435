use vstd::prelude::*;
use vstd::string::*;

verus! {

/// Why a decimal number could not be read, as the standard library's
/// `FromStr` for `usize` tells it apart.
#[derive(Debug, Clone, Copy, PartialEq, Eq)]
pub enum IntErrorKind {
    /// the text is empty
    Empty,
    /// a byte that is not a decimal digit (a lone sign counts as one)
    InvalidDigit,
    /// the number does not fit in a `usize`
    PosOverflow,
}

/// True when `b` is an ASCII decimal digit.
pub open spec fn is_digit(b: u8) -> bool {
    48 <= b <= 57
}

/// Reads the digits `d` from the left, starting from the value `acc`: the
/// first byte that is not a digit, or the first digit after which the value no
/// longer fits in a `usize`, decides the error.
pub open spec fn scan_decimal(d: Seq<u8>, acc: int) -> Result<int, IntErrorKind>
    decreases d.len(),
{
    if d.len() == 0 {
        Ok(acc)
    } else if !is_digit(d[0]) {
        Err(IntErrorKind::InvalidDigit)
    } else if acc * 10 + (d[0] - 48) > usize::MAX {
        Err(IntErrorKind::PosOverflow)
    } else {
        scan_decimal(d.drop_first(), acc * 10 + (d[0] - 48))
    }
}

/// The result of reading the bytes `s` as an unsigned decimal number: an
/// optional leading `+`, then one digit or more.
pub open spec fn decimal_value(s: Seq<u8>) -> Result<int, IntErrorKind> {
    if s.len() == 0 {
        Err(IntErrorKind::Empty)
    } else if s.len() == 1 && (s[0] == 43 || s[0] == 45) {
        Err(IntErrorKind::InvalidDigit)
    } else if s[0] == 43 {
        scan_decimal(s.drop_first(), 0)
    } else {
        scan_decimal(s, 0)
    }
}

/// Reads `s` as an unsigned decimal number, as `str::parse::<usize>` does.
pub fn parse_usize(s: &str) -> (res: Result<usize, IntErrorKind>)
    ensures
        match (res, decimal_value(s.spec_bytes())) {
            (Ok(v), Ok(w)) => v == w,
            (Err(e), Err(f)) => e == f,
            _ => false,
        },
{
    let bytes = s.as_bytes();
    let n = bytes.len();
    if n == 0 {
        return Err(IntErrorKind::Empty);
    }
    if n == 1 && (bytes[0] == 43 || bytes[0] == 45) {
        return Err(IntErrorKind::InvalidDigit);
    }
    let start: usize = if bytes[0] == 43 { 1 } else { 0 };
    let ghost digits = bytes@.subrange(start as int, n as int);
    assert(digits == if bytes@[0] == 43 { bytes@.drop_first() } else { bytes@ });
    assert(decimal_value(bytes@) == scan_decimal(digits, 0));
    let mut acc: usize = 0;
    let mut i: usize = start;
    assert(bytes@.subrange(i as int, n as int) == digits);
    while i < n
        invariant
            n == bytes@.len(),
            start <= i <= n,
            digits == bytes@.subrange(start as int, n as int),
            bytes@ == s.spec_bytes(),
            decimal_value(bytes@) == scan_decimal(digits, 0),
            scan_decimal(digits, 0) == scan_decimal(bytes@.subrange(i as int, n as int), acc as int),
        decreases n - i,
    {
        let b = bytes[i];
        let ghost rest = bytes@.subrange(i as int, n as int);
        assert(rest[0] == b);
        assert(rest.drop_first() == bytes@.subrange(i + 1, n as int));
        if !(48 <= b && b <= 57) {
            return Err(IntErrorKind::InvalidDigit);
        }
        let d: usize = (b - 48) as usize;
        match acc.checked_mul(10) {
            None => {
                return Err(IntErrorKind::PosOverflow);
            },
            Some(m) => match m.checked_add(d) {
                None => {
                    return Err(IntErrorKind::PosOverflow);
                },
                Some(next) => {
                    acc = next;
                },
            },
        }
        i = i + 1;
    }
    assert(bytes@.subrange(n as int, n as int).len() == 0);
    Ok(acc)
}

/// The text with which the standard library describes each kind of error.
pub fn int_error_message(kind: IntErrorKind) -> (res: String)
    ensures
        res@ == int_error_text(kind),
{
    match kind {
        IntErrorKind::Empty => String::from_str("cannot parse integer from empty string"),
        IntErrorKind::InvalidDigit => String::from_str("invalid digit found in string"),
        IntErrorKind::PosOverflow => String::from_str("number too large to fit in target type"),
    }
}

/// The text of each kind of error.
pub open spec fn int_error_text(kind: IntErrorKind) -> Seq<char> {
    match kind {
        IntErrorKind::Empty => "cannot parse integer from empty string"@,
        IntErrorKind::InvalidDigit => "invalid digit found in string"@,
        IntErrorKind::PosOverflow => "number too large to fit in target type"@,
    }
}

/// Reading one digit more than `d`, from `acc`: where `d` reads as `v`, the
/// digits `d` then `x` read as `v * 10` plus the value of `x`.
proof fn lemma_scan_decimal_push(d: Seq<u8>, acc: int, x: u8)
    requires
        scan_decimal(d, acc) is Ok,
    ensures
        scan_decimal(d.push(x), acc) == (if !(48 <= x <= 57) {
            Err(IntErrorKind::InvalidDigit)
        } else if scan_decimal(d, acc)->Ok_0 * 10 + (x - 48) > usize::MAX {
            Err(IntErrorKind::PosOverflow)
        } else {
            Ok(scan_decimal(d, acc)->Ok_0 * 10 + (x - 48))
        }),
    decreases d.len(),
{
    let e = d.push(x);
    if d.len() == 0 {
        reveal_with_fuel(scan_decimal, 2);
        assert(e.drop_first() =~= Seq::<u8>::empty());
        assert(e[0] == x);
    } else {
        assert(e[0] == d[0]);
        assert(e.drop_first() =~= d.drop_first().push(x));
        lemma_scan_decimal_push(d.drop_first(), acc * 10 + (d[0] - 48), x);
    }
}

/// Reading decimal numbers: nothing at all is `Empty`; a single digit reads as
/// its value and any other single byte is an invalid digit; a `+` before one
/// digit or more changes nothing.
pub proof fn decimal_value_basics(b: u8, s: Seq<u8>)
    ensures
        decimal_value(Seq::<u8>::empty()) == Err::<int, IntErrorKind>(IntErrorKind::Empty),
        48 <= b <= 57 ==> decimal_value(seq![b]) == Ok::<int, IntErrorKind>(b - 48),
        !(48 <= b <= 57) ==> decimal_value(seq![b]) == Err::<int, IntErrorKind>(IntErrorKind::InvalidDigit),
        s.len() > 0 && (forall|i: int| 0 <= i < s.len() ==> 48 <= #[trigger] s[i] <= 57) ==> decimal_value(
            seq![43u8] + s,
        ) == decimal_value(s),
{
    reveal_with_fuel(scan_decimal, 2);
    let one = seq![b];
    assert(one.drop_first() =~= Seq::<u8>::empty());
    assert(one[0] == b);
    if s.len() > 0 && (forall|i: int| 0 <= i < s.len() ==> 48 <= #[trigger] s[i] <= 57) {
        let t = seq![43u8] + s;
        assert(t[0] == 43);
        assert(t.drop_first() =~= s);
        assert(s[0] != 43);
    }
}

/// Reading one more digit: where the digits `s` read as `v`, the digits `s`
/// followed by the digit `d` read as `10 * v` plus the value of `d` when that
/// fits in a `usize`, and are too large otherwise.
pub proof fn decimal_value_of_one_more_digit(s: Seq<u8>, d: u8)
    requires
        s.len() > 0,
        forall|i: int| 0 <= i < s.len() ==> 48 <= #[trigger] s[i] <= 57,
        48 <= d <= 57,
        decimal_value(s) is Ok,
    ensures
        decimal_value(s.push(d)) == (if decimal_value(s)->Ok_0 * 10 + (d - 48) <= usize::MAX {
            Ok::<int, IntErrorKind>(decimal_value(s)->Ok_0 * 10 + (d - 48))
        } else {
            Err::<int, IntErrorKind>(IntErrorKind::PosOverflow)
        }),
{
    assert(48 <= s[0] <= 57);
    assert(s.push(d)[0] == s[0]);
    lemma_scan_decimal_push(s, 0, d);
}

} // verus!
