//! Field elements from text: hexadecimal with the prefix `0x`, or decimal.

use crate::field::GF128;
use vstd::prelude::*;
use vstd::string::StringSliceAdditionalSpecFns;

verus! {

/// Why a text is no field element.
#[derive(Clone, Copy, Debug, PartialEq, Eq)]
pub enum ParseError {
    /// More than 32 hexadecimal digits behind the prefix.
    HexTooLong,
    /// A character behind the prefix that is no hexadecimal digit.
    InvalidHex,
    /// No decimal number, or one that does not fit 128 bits.
    InvalidDecimal,
    /// Neither a hexadecimal nor a decimal number that fits 128 bits.
    InvalidFormat,
}

/// The value of a digit in the given radix, which is 10 or 16.
pub open spec fn digit_value(b: u8, radix: nat) -> Option<nat> {
    if 0x30 <= b <= 0x39 {
        Some((b - 0x30) as nat)
    } else if radix == 16 && 0x61 <= b <= 0x66 {
        Some((b - 0x61 + 10) as nat)
    } else if radix == 16 && 0x41 <= b <= 0x46 {
        Some((b - 0x41 + 10) as nat)
    } else {
        None
    }
}

/// Whether the first `n` bytes are digits.
pub open spec fn all_digits(s: Seq<u8>, radix: nat, n: nat) -> bool {
    forall|i: int| 0 <= i < n ==> (#[trigger] digit_value(s[i], radix)) is Some
}

/// The number that the first `n` bytes spell, for bytes that are digits.
pub open spec fn digits_value(s: Seq<u8>, radix: nat, n: nat) -> nat
    decreases n,
{
    if n == 0 {
        0
    } else {
        digits_value(s, radix, (n - 1) as nat) * radix + match digit_value(s[n - 1], radix) {
            Some(d) => d,
            None => 0,
        }
    }
}

/// The number that a run of digits spells: `None` where the run is empty,
/// holds another byte, or spells more than 128 bits hold.
pub open spec fn digits_number(s: Seq<u8>, radix: nat) -> Option<u128> {
    if s.len() > 0 && all_digits(s, radix, s.len()) && digits_value(s, radix, s.len())
        <= u128::MAX {
        Some(digits_value(s, radix, s.len()) as u128)
    } else {
        None
    }
}

/// The number that a text spells: a run of digits, with or without a plus
/// sign before it.
pub open spec fn signed_number(s: Seq<u8>, radix: nat) -> Option<u128> {
    if s.len() > 0 && s[0] == 0x2b {
        digits_number(s.skip(1), radix)
    } else {
        digits_number(s, radix)
    }
}

/// The text without the prefixes `0x` at its start, however many there are.
pub open spec fn without_prefixes(s: Seq<u8>, second: u8) -> Seq<u8>
    decreases s.len(),
{
    if s.len() >= 2 && s[0] == 0x30 && s[1] == second {
        without_prefixes(s.skip(2), second)
    } else {
        s
    }
}

/// What a text means where a number is expected in either notation: the
/// hexadecimal number behind any prefixes `0x`; where there is none, the
/// decimal number that the whole text spells.
pub open spec fn lenient_number(s: Seq<u8>) -> Option<u128> {
    match signed_number(without_prefixes(s, 0x78), 16) {
        Some(v) => Some(v),
        None => signed_number(s, 10),
    }
}

/// What a trimmed text means as a field element: with a prefix `0x` or `0X`
/// the at most 32 hexadecimal digits behind all such prefixes, none of them
/// standing for zero, and a plus sign allowed where it is the first of 32
/// characters; without a prefix a decimal number.
pub open spec fn strict_number(s: Seq<u8>) -> Result<u128, ParseError> {
    if s.len() >= 2 && s[0] == 0x30 && (s[1] == 0x78 || s[1] == 0x58) {
        let digits = without_prefixes(without_prefixes(s, 0x78), 0x58);
        if digits.len() > 32 {
            Err(ParseError::HexTooLong)
        } else if digits.len() == 0 {
            Ok(0)
        } else if digits.len() == 32 {
            match signed_number(digits, 16) {
                Some(v) => Ok(v),
                None => Err(ParseError::InvalidHex),
            }
        } else {
            match digits_number(digits, 16) {
                Some(v) => Ok(v),
                None => Err(ParseError::InvalidHex),
            }
        }
    } else {
        match signed_number(s, 10) {
            Some(v) => Ok(v),
            None => Err(ParseError::InvalidDecimal),
        }
    }
}

/// A longer run of digits spells no smaller a number.
pub proof fn lemma_digits_value_grows(s: Seq<u8>, radix: nat, n: nat, m: nat)
    requires
        n <= m,
        radix >= 1,
    ensures
        digits_value(s, radix, n) <= digits_value(s, radix, m),
    decreases m,
{
    if n < m {
        lemma_digits_value_grows(s, radix, n, (m - 1) as nat);
        let v = digits_value(s, radix, (m - 1) as nat);
        assert(v <= v * radix) by (nonlinear_arith)
            requires
                radix >= 1,
                v >= 0,
        ;
    }
}

/// The value of a digit in radix 10 or 16.
pub fn digit_of(b: u8, hexadecimal: bool) -> (d: Option<u8>)
    ensures
        match d {
            Some(v) => digit_value(b, if hexadecimal { 16 } else { 10 }) == Some(v as nat) && v < 16,
            None => digit_value(b, if hexadecimal { 16 } else { 10 }) is None,
        },
{
    if 0x30 <= b && b <= 0x39 {
        Some(b - 0x30)
    } else if hexadecimal && 0x61 <= b && b <= 0x66 {
        Some(b - 0x61 + 10)
    } else if hexadecimal && 0x41 <= b && b <= 0x46 {
        Some(b - 0x41 + 10)
    } else {
        None
    }
}

/// The number that the bytes from `start` on spell as a run of digits.
pub fn parse_digits(s: &[u8], start: usize, hexadecimal: bool) -> (out: Option<u128>)
    requires
        start <= s@.len(),
    ensures
        out == digits_number(s@.skip(start as int), if hexadecimal { 16 } else { 10 }),
{
    let ghost radix: nat = if hexadecimal { 16 } else { 10 };
    let ghost t = s@.skip(start as int);
    let len = s.len();
    if start == len {
        return None;
    }
    let base: u128 = if hexadecimal { 16 } else { 10 };
    let mut acc: u128 = 0;
    let mut i: usize = start;
    while i < len
        invariant
            start <= i <= len,
            len == s@.len(),
            t == s@.skip(start as int),
            radix == base,
            radix == if hexadecimal { 16nat } else { 10nat },
            all_digits(t, radix, (i - start) as nat),
            acc == digits_value(t, radix, (i - start) as nat),
        decreases len - i,
    {
        let ghost n = (i - start) as nat;
        assert(t[n as int] == s@[i as int]);
        let digit = match digit_of(s[i], hexadecimal) {
            Some(d) => d,
            None => {
                assert(!all_digits(t, radix, t.len()));
                return None;
            },
        };
        let next = match acc.checked_mul(base) {
            Some(v) => v.checked_add(digit as u128),
            None => None,
        };
        match next {
            Some(v) => {
                acc = v;
            },
            None => {
                proof {
                    assert(digits_value(t, radix, n + 1) > u128::MAX);
                    lemma_digits_value_grows(t, radix, n + 1, t.len());
                }
                return None;
            },
        }
        i = i + 1;
    }
    Some(acc)
}

/// The number that the bytes from `start` on spell, with or without a plus
/// sign before the digits.
pub fn parse_signed(s: &[u8], start: usize, hexadecimal: bool) -> (out: Option<u128>)
    requires
        start <= s@.len(),
    ensures
        out == signed_number(s@.skip(start as int), if hexadecimal { 16 } else { 10 }),
{
    let ghost t = s@.skip(start as int);
    if start < s.len() && s[start] == 0x2b {
        assert(t[0] == s@[start as int]);
        assert(t.skip(1) =~= s@.skip(start + 1));
        parse_digits(s, start + 1, hexadecimal)
    } else {
        if start < s.len() {
            assert(t[0] == s@[start as int]);
        }
        parse_digits(s, start, hexadecimal)
    }
}

/// Where the text begins behind the prefixes `0` and `second` from `start` on.
pub fn skip_prefixes(s: &[u8], start: usize, second: u8) -> (at: usize)
    requires
        start <= s@.len(),
    ensures
        start <= at <= s@.len(),
        s@.skip(at as int) == without_prefixes(s@.skip(start as int), second),
{
    let len = s.len();
    let mut at: usize = start;
    while len - at >= 2 && s[at] == 0x30 && s[at + 1] == second
        invariant
            start <= at <= len,
            len == s@.len(),
            without_prefixes(s@.skip(at as int), second) == without_prefixes(
                s@.skip(start as int),
                second,
            ),
        decreases len - at,
    {
        proof {
            let t = s@.skip(at as int);
            assert(t[0] == s@[at as int] && t[1] == s@[at + 1]);
            assert(t.skip(2) =~= s@.skip(at + 2));
        }
        at = at + 2;
    }
    proof {
        let t = s@.skip(at as int);
        if t.len() >= 2 {
            assert(t[0] == s@[at as int] && t[1] == s@[at + 1]);
        }
    }
    at
}

/// The field element that a text names in either notation.
pub fn parse_bytes_to_gf128(s: &[u8]) -> (out: Result<GF128, ParseError>)
    ensures
        match out {
            Ok(element) => lenient_number(s@) == Some(element@),
            Err(e) => lenient_number(s@) is None && e == ParseError::InvalidFormat,
        },
{
    let at = skip_prefixes(s, 0, 0x78);
    assert(s@.skip(0) =~= s@);
    if let Some(v) = parse_signed(s, at, true) {
        return Ok(GF128 { value: v });
    }
    if let Some(v) = parse_signed(s, 0, false) {
        return Ok(GF128 { value: v });
    }
    Err(ParseError::InvalidFormat)
}

/// The field element that a text names in either notation.
pub fn parse_str_to_gf128(s: &str) -> (out: Result<GF128, ParseError>)
    ensures
        match out {
            Ok(element) => lenient_number(s.spec_bytes()) == Some(element@),
            Err(e) => lenient_number(s.spec_bytes()) is None && e == ParseError::InvalidFormat,
        },
{
    parse_bytes_to_gf128(s.as_bytes())
}

/// The field element that a trimmed text names: hexadecimal behind a prefix
/// `0x` or `0X`, decimal without one.
pub fn parse_strict(s: &[u8]) -> (out: Result<GF128, ParseError>)
    ensures
        match out {
            Ok(element) => strict_number(s@) == Ok::<u128, ParseError>(element@),
            Err(e) => strict_number(s@) == Err::<u128, ParseError>(e),
        },
{
    assert(s@.skip(0) =~= s@);
    let len = s.len();
    if len >= 2 && s[0] == 0x30 && (s[1] == 0x78 || s[1] == 0x58) {
        let first = skip_prefixes(s, 0, 0x78);
        let at = skip_prefixes(s, first, 0x58);
        if len - at > 32 {
            return Err(ParseError::HexTooLong);
        }
        if at == len {
            return Ok(GF128 { value: 0 });
        }
        let parsed = if len - at == 32 {
            parse_signed(s, at, true)
        } else {
            parse_digits(s, at, true)
        };
        match parsed {
            Some(v) => Ok(GF128 { value: v }),
            None => Err(ParseError::InvalidHex),
        }
    } else {
        match parse_signed(s, 0, false) {
            Some(v) => Ok(GF128 { value: v }),
            None => Err(ParseError::InvalidDecimal),
        }
    }
}

impl ParseError {
    /// The error as a sentence.
    pub open spec fn spec_message(&self) -> Seq<char> {
        match self {
            ParseError::HexTooLong => "Hex string too long for Gf128"@,
            ParseError::InvalidHex => "Invalid hexadecimal string"@,
            ParseError::InvalidDecimal => "Invalid decimal string"@,
            ParseError::InvalidFormat => "Invalid string format"@,
        }
    }

    /// The error as a sentence.
    pub fn message(&self) -> (text: &'static str)
        ensures
            text@ == self.spec_message(),
    {
        match self {
            ParseError::HexTooLong => "Hex string too long for Gf128",
            ParseError::InvalidHex => "Invalid hexadecimal string",
            ParseError::InvalidDecimal => "Invalid decimal string",
            ParseError::InvalidFormat => "Invalid string format",
        }
    }
}

/// What is left of a text when the white space at its ends is taken away.
pub uninterp spec fn trimmed(s: Seq<u8>) -> Seq<u8>;

/// `str::trim`: the text without the white space at its ends. The result
/// is named.
#[verifier::external_body]
fn trim_text(s: &str) -> (out: &str)
    ensures
        out.spec_bytes() == trimmed(s.spec_bytes()),
{
    s.trim()
}

impl core::str::FromStr for GF128 {
    type Err = &'static str;

    /// The field element that a text names once the white space at its ends
    /// is taken away: hexadecimal behind a prefix `0x` or `0X`, decimal
    /// without one; otherwise the sentence of the error that the text meets.
    fn from_str(s: &str) -> (out: Result<GF128, &'static str>)
        ensures
            match out {
                Ok(element) => strict_number(trimmed(s.spec_bytes())) == Ok::<u128, ParseError>(
                    element@,
                ),
                Err(text) => strict_number(trimmed(s.spec_bytes())) matches Err(e) && text@
                    == e.spec_message(),
            },
    {
        match parse_strict(trim_text(s).as_bytes()) {
            Ok(element) => Ok(element),
            Err(e) => Err(e.message()),
        }
    }
}

/// The field element that a text names once the white space at its ends is
/// taken away: hexadecimal behind a prefix `0x` or `0X`, decimal without one.
pub fn parse_text(s: &str) -> (out: Result<GF128, ParseError>)
    ensures
        match out {
            Ok(element) => strict_number(trimmed(s.spec_bytes())) == Ok::<u128, ParseError>(
                element@,
            ),
            Err(e) => strict_number(trimmed(s.spec_bytes())) == Err::<u128, ParseError>(e),
        },
{
    parse_strict(trim_text(s).as_bytes())
}

} // verus!
