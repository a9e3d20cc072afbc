//! Parsing of the configuration surface: decimal sizes, preset numbers, and
//! the user-supplied initial state.
//!
//! An initial state is given as bytes: with a `0b` prefix each remaining byte
//! is one binary cell, with a `0x` prefix each remaining byte is a
//! hexadecimal digit contributing four cells, and otherwise every byte must
//! be ASCII and contributes its eight bits, most significant first.

use vstd::prelude::*;

use crate::preset::PresetOption;

verus! {

/// An ASCII decimal digit, `'0'` through `'9'`.
pub open spec fn is_digit(b: u8) -> bool {
    48 <= b <= 57
}

/// The value of a decimal digit; 0 for any other byte.
pub open spec fn digit_val(b: u8) -> nat {
    if is_digit(b) {
        (b - 48) as nat
    } else {
        0
    }
}

/// The number written by a sequence of decimal digits, most significant
/// first.
pub open spec fn dec_val(s: Seq<u8>) -> nat
    decreases s.len(),
{
    if s.len() == 0 {
        0
    } else {
        dec_val(s.drop_last()) * 10 + digit_val(s.last())
    }
}

/// How many leading bytes of a decimal literal are its sign: one for an
/// optional leading `'+'`, else none.
pub open spec fn sign_skip(s: Seq<u8>) -> int {
    if s.len() >= 1 && s[0] == 43 {
        1
    } else {
        0
    }
}

/// The digit part of a decimal literal: everything after the optional sign.
pub open spec fn dec_digits_of(s: Seq<u8>) -> Seq<u8> {
    s.subrange(sign_skip(s), s.len() as int)
}

/// A well-formed decimal literal: an optional `'+'` sign followed by at
/// least one digit, and nothing else.
pub open spec fn is_dec_literal(s: Seq<u8>) -> bool {
    &&& dec_digits_of(s).len() >= 1
    &&& forall|i: int| 0 <= i < dec_digits_of(s).len() ==> is_digit(dec_digits_of(s)[i])
}

/// Reading more digits never shrinks the value.
proof fn lemma_dec_val_prefix(t: Seq<u8>, i: int)
    requires
        0 <= i <= t.len(),
    ensures
        dec_val(t) >= dec_val(t.subrange(0, i)),
    decreases t.len(),
{
    if i == t.len() {
        assert(t.subrange(0, i) =~= t);
    } else {
        lemma_dec_val_prefix(t.drop_last(), i);
        assert(t.drop_last().subrange(0, i) =~= t.subrange(0, i));
    }
}

/// Parse a decimal literal into a `usize`: `Some` exactly when the bytes
/// are a well-formed literal whose value fits.
pub fn parse_decimal(s: &Vec<u8>) -> (r: Option<usize>)
    ensures
        match r {
            Some(v) => is_dec_literal(s@) && v == dec_val(dec_digits_of(s@)),
            None => !is_dec_literal(s@) || dec_val(dec_digits_of(s@)) > usize::MAX,
        },
{
    let n = s.len();
    let start: usize = if n >= 1 && s[0] == 43 {
        1
    } else {
        0
    };
    if n == start {
        return None;
    }
    let ghost digits = dec_digits_of(s@);
    proof {
        assert(digits =~= s@.subrange(start as int, n as int));
    }
    let mut i: usize = start;
    let mut acc: usize = 0;
    while i < n
        invariant
            start <= i <= n,
            n == s@.len(),
            start == sign_skip(s@),
            digits == dec_digits_of(s@),
            digits == s@.subrange(start as int, n as int),
            forall|j: int| start <= j < i ==> is_digit(s@[j]),
            acc == dec_val(s@.subrange(start as int, i as int)),
        decreases n - i,
    {
        let b = s[i];
        if !(48 <= b && b <= 57) {
            proof {
                assert(dec_digits_of(s@)[i - start] == s@[i as int]);
                assert(!is_digit(dec_digits_of(s@)[i - start]));
                assert(!is_dec_literal(s@));
            }
            return None;
        }
        let d: usize = (b - 48) as usize;
        let ghost prefix = s@.subrange(start as int, i as int);
        let ghost prefix1 = s@.subrange(start as int, i + 1);
        proof {
            assert(prefix1.drop_last() =~= prefix);
            assert(prefix1.last() == s@[i as int]);
            assert(dec_val(prefix1) == acc * 10 + d);
        }
        if acc > usize::MAX / 10 || (acc == usize::MAX / 10 && d > usize::MAX % 10) {
            proof {
                assert(usize::MAX == 10 * (usize::MAX / 10) + usize::MAX % 10);
                assert(acc * 10 + d > usize::MAX);
                assert(prefix1 =~= digits.subrange(0, i + 1 - start));
                lemma_dec_val_prefix(digits, i + 1 - start);
                assert(dec_val(digits) >= dec_val(prefix1));
                assert(dec_val(dec_digits_of(s@)) > usize::MAX);
            }
            return None;
        }
        proof {
            assert(usize::MAX == 10 * (usize::MAX / 10) + usize::MAX % 10);
            assert(acc * 10 + d <= usize::MAX);
        }
        acc = acc * 10 + d;
        i = i + 1;
    }
    proof {
        assert(s@.subrange(start as int, i as int) =~= digits);
    }
    Some(acc)
}

/// Why a size argument was rejected.
#[derive(Clone, Copy, Debug, PartialEq, Eq, Structural)]
pub enum SizeError {
    /// The bytes are not a decimal number that fits the machine.
    NotANumber,
    /// The number is below the minimum simulation size of 3.
    TooSmall,
}

/// Parse a width or height argument: a decimal number of at least 3.
pub fn parse_size(s: &Vec<u8>) -> (r: Result<usize, SizeError>)
    ensures
        match r {
            Ok(v) => is_dec_literal(s@) && v == dec_val(dec_digits_of(s@)) && v >= 3,
            Err(e) => match e {
                SizeError::NotANumber => !is_dec_literal(s@) || dec_val(dec_digits_of(s@))
                    > usize::MAX,
                SizeError::TooSmall => is_dec_literal(s@) && dec_val(dec_digits_of(s@)) < 3,
            },
        },
{
    match parse_decimal(s) {
        None => Err(SizeError::NotANumber),
        Some(v) => {
            if v >= 3 {
                Ok(v)
            } else {
                Err(SizeError::TooSmall)
            }
        },
    }
}

/// Why a preset argument was rejected.
#[derive(Clone, Copy, Debug, PartialEq, Eq, Structural)]
pub enum PresetError {
    /// The bytes are not a decimal number in an 8-bit range.
    NotANumber,
    /// The number names no preset.
    NoSuchOption,
}

/// The preset named by a number: 0 is `Random`, 1 `Centre`, 2 `Corners`,
/// 3 `Alternate`.
pub open spec fn preset_of(v: nat) -> PresetOption {
    if v == 0 {
        PresetOption::Random
    } else if v == 1 {
        PresetOption::Centre
    } else if v == 2 {
        PresetOption::Corners
    } else {
        PresetOption::Alternate
    }
}

/// Parse a preset argument: a decimal number naming one of the four
/// presets. Numbers above the 8-bit range are rejected as malformed, as a
/// byte-sized option is.
pub fn parse_preset(s: &Vec<u8>) -> (r: Result<PresetOption, PresetError>)
    ensures
        match r {
            Ok(p) => is_dec_literal(s@) && dec_val(dec_digits_of(s@)) <= 3 && p == preset_of(
                dec_val(dec_digits_of(s@)),
            ),
            Err(e) => match e {
                PresetError::NotANumber => !is_dec_literal(s@) || dec_val(dec_digits_of(s@)) > 255,
                PresetError::NoSuchOption => is_dec_literal(s@) && 3 < dec_val(dec_digits_of(s@))
                    <= 255,
            },
        },
{
    match parse_decimal(s) {
        None => Err(PresetError::NotANumber),
        Some(v) => {
            if v > 255 {
                Err(PresetError::NotANumber)
            } else if v == 0 {
                Ok(PresetOption::Random)
            } else if v == 1 {
                Ok(PresetOption::Centre)
            } else if v == 2 {
                Ok(PresetOption::Corners)
            } else if v == 3 {
                Ok(PresetOption::Alternate)
            } else {
                Err(PresetError::NoSuchOption)
            }
        },
    }
}

/// Why an initial-state argument was rejected.
#[derive(Clone, Copy, Debug, PartialEq, Eq, Structural)]
pub enum InputError {
    /// The argument is empty.
    LengthOutOfRange,
    /// A byte after the `0b` prefix is not `'0'` or `'1'`.
    InvalidBinary,
    /// A byte after the `0x` prefix is not a hexadecimal digit.
    InvalidHexadecimal,
    /// A byte of a plain-text state is not ASCII.
    InvalidAscii,
    /// The decoded row has fewer than the minimum 3 cells.
    TooShort,
}

/// The low `n` bits of `v`, most significant first.
pub open spec fn byte_bits(v: nat, n: nat) -> Seq<bool>
    decreases n,
{
    if n == 0 {
        Seq::empty()
    } else {
        byte_bits(v / 2, (n - 1) as nat).push(v % 2 == 1)
    }
}

/// Every byte is the ASCII digit `'0'` or `'1'`.
pub open spec fn is_binary(s: Seq<u8>) -> bool {
    forall|i: int| 0 <= i < s.len() ==> (s[i] == 48 || s[i] == 49)
}

/// One cell per byte: `'1'` is alive.
pub open spec fn binary_bits(s: Seq<u8>) -> Seq<bool> {
    s.map(|i: int, b: u8| b == 49)
}

/// An ASCII hexadecimal digit, either case.
pub open spec fn is_hex_digit(b: u8) -> bool {
    is_digit(b) || (97 <= b <= 102) || (65 <= b <= 70)
}

/// Every byte is a hexadecimal digit.
pub open spec fn is_hex(s: Seq<u8>) -> bool {
    forall|i: int| 0 <= i < s.len() ==> is_hex_digit(s[i])
}

/// The value of a hexadecimal digit; 0 for any other byte.
pub open spec fn hex_val(b: u8) -> nat {
    if is_digit(b) {
        (b - 48) as nat
    } else if 97 <= b <= 102 {
        (b - 87) as nat
    } else if 65 <= b <= 70 {
        (b - 55) as nat
    } else {
        0
    }
}

/// Four cells per byte: the bits of each hexadecimal digit, most
/// significant first.
pub open spec fn hex_bits(s: Seq<u8>) -> Seq<bool>
    decreases s.len(),
{
    if s.len() == 0 {
        Seq::empty()
    } else {
        hex_bits(s.drop_last()) + byte_bits(hex_val(s.last()), 4)
    }
}

/// Every byte is ASCII.
pub open spec fn is_ascii_bytes(s: Seq<u8>) -> bool {
    forall|i: int| 0 <= i < s.len() ==> s[i] < 128
}

/// Eight cells per byte: each ASCII byte's bits, most significant first.
pub open spec fn ascii_bits(s: Seq<u8>) -> Seq<bool>
    decreases s.len(),
{
    if s.len() == 0 {
        Seq::empty()
    } else {
        ascii_bits(s.drop_last()) + byte_bits(s.last() as nat, 8)
    }
}

/// Append the low `n` bits of `v`, most significant first.
fn push_byte_bits(out: &mut Vec<bool>, v: u8, n: usize)
    ensures
        final(out)@ == old(out)@ + byte_bits(v as nat, n as nat),
    decreases n,
{
    if n == 0 {
        proof {
            assert(out@ =~= out@ + byte_bits(v as nat, 0));
        }
    } else {
        push_byte_bits(out, v / 2, n - 1);
        out.push(v % 2 == 1);
        proof {
            assert(out@ =~= old(out)@ + byte_bits(v as nat, n as nat));
        }
    }
}

/// Decode a plain-text state: every byte must be ASCII, and each
/// contributes its eight bits, most significant first.
pub fn ascii_to_binary(s: &Vec<u8>) -> (r: Result<Vec<bool>, InputError>)
    ensures
        match r {
            Ok(row) => is_ascii_bytes(s@) && row@ == ascii_bits(s@),
            Err(e) => !is_ascii_bytes(s@) && e == InputError::InvalidAscii,
        },
{
    let n = s.len();
    let mut out: Vec<bool> = Vec::new();
    let mut i: usize = 0;
    while i < n
        invariant
            i <= n,
            n == s@.len(),
            forall|j: int| 0 <= j < i ==> s@[j] < 128,
            out@ == ascii_bits(s@.subrange(0, i as int)),
        decreases n - i,
    {
        let b = s[i];
        if b >= 128 {
            return Err(InputError::InvalidAscii);
        }
        push_byte_bits(&mut out, b, 8);
        proof {
            let p1 = s@.subrange(0, i + 1);
            assert(p1.drop_last() =~= s@.subrange(0, i as int));
            assert(p1.last() == s@[i as int]);
        }
        i = i + 1;
    }
    proof {
        assert(s@.subrange(0, n as int) =~= s@);
    }
    Ok(out)
}

/// What parsing an initial state yields: the decoded row, or the first
/// error in the order the bytes are read.
pub open spec fn spec_parse_input(s: Seq<u8>) -> Result<Seq<bool>, InputError> {
    if s.len() == 0 {
        Err(InputError::LengthOutOfRange)
    } else if s.len() > 2 && s[0] == 48 && s[1] == 98 {
        let rest = s.subrange(2, s.len() as int);
        if !is_binary(rest) {
            Err(InputError::InvalidBinary)
        } else if rest.len() < 3 {
            Err(InputError::TooShort)
        } else {
            Ok(binary_bits(rest))
        }
    } else if s.len() > 2 && s[0] == 48 && s[1] == 120 {
        let rest = s.subrange(2, s.len() as int);
        if !is_hex(rest) {
            Err(InputError::InvalidHexadecimal)
        } else {
            Ok(hex_bits(rest))
        }
    } else if !is_ascii_bytes(s) {
        Err(InputError::InvalidAscii)
    } else {
        Ok(ascii_bits(s))
    }
}

/// Parse an initial-state argument.
///
/// A `0b` prefix starts a row of binary digits, a `0x` prefix a row of
/// hexadecimal digits at four cells each; anything else, including inputs
/// of at most two bytes, is read as ASCII text at eight cells per byte.
/// The decoded row must have at least 3 cells; only a `0b` input can come
/// up short.
pub fn parse_input(s: &Vec<u8>) -> (r: Result<Vec<bool>, InputError>)
    ensures
        match (r, spec_parse_input(s@)) {
            (Ok(row), Ok(bits)) => row@ == bits,
            (Err(e), Err(e2)) => e == e2,
            _ => false,
        },
{
    let n = s.len();
    if n == 0 {
        return Err(InputError::LengthOutOfRange);
    }
    if n > 2 && s[0] == 48 && s[1] == 98 {
        let ghost rest = s@.subrange(2, n as int);
        let mut out: Vec<bool> = Vec::new();
        let mut i: usize = 2;
        while i < n
            invariant
                2 <= i <= n,
                n == s@.len(),
                n > 2 && s@[0] == 48 && s@[1] == 98,
                rest == s@.subrange(2, n as int),
                out@.len() == i - 2,
                forall|j: int| 2 <= j < i ==> (s@[j] == 48 || s@[j] == 49),
                forall|j: int| 0 <= j < i - 2 ==> out@[j] == (s@[j + 2] == 49),
            decreases n - i,
        {
            let b = s[i];
            if !(b == 48 || b == 49) {
                proof {
                    assert(rest[i - 2] == s@[i as int]);
                    assert(!is_binary(rest));
                }
                return Err(InputError::InvalidBinary);
            }
            out.push(b == 49);
            i = i + 1;
        }
        proof {
            assert(is_binary(rest));
            assert(out@ =~= binary_bits(rest));
        }
        if out.len() < 3 {
            return Err(InputError::TooShort);
        }
        Ok(out)
    } else if n > 2 && s[0] == 48 && s[1] == 120 {
        let ghost rest = s@.subrange(2, n as int);
        let mut out: Vec<bool> = Vec::new();
        let mut i: usize = 2;
        while i < n
            invariant
                2 <= i <= n,
                n == s@.len(),
                n > 2 && s@[0] == 48 && s@[1] == 120,
                rest == s@.subrange(2, n as int),
                forall|j: int| 2 <= j < i ==> is_hex_digit(s@[j]),
                out@ == hex_bits(s@.subrange(2, i as int)),
            decreases n - i,
        {
            let b = s[i];
            let v: u8 = if 48 <= b && b <= 57 {
                b - 48
            } else if 97 <= b && b <= 102 {
                b - 87
            } else if 65 <= b && b <= 70 {
                b - 55
            } else {
                proof {
                    assert(rest[i - 2] == s@[i as int]);
                    assert(!is_hex_digit(rest[i - 2]));
                    assert(!is_hex(rest));
                }
                return Err(InputError::InvalidHexadecimal);
            };
            push_byte_bits(&mut out, v, 4);
            proof {
                let p1 = s@.subrange(2, i + 1);
                assert(p1.drop_last() =~= s@.subrange(2, i as int));
                assert(p1.last() == s@[i as int]);
                assert(v as nat == hex_val(s@[i as int]));
            }
            i = i + 1;
        }
        proof {
            assert(is_hex(rest));
            assert(s@.subrange(2, n as int) =~= rest);
        }
        Ok(out)
    } else {
        ascii_to_binary(s)
    }
}

} // verus!
