//! Addressing and editing a leaf inside an inspected component.

use super::value::Scalar;
use crate::text::{
    chars_of, decimal_value, parse_digits_u128, signed_decimal_value,
};
use vstd::prelude::*;

verus! {

/// One step of a path from a component to one of its leaves.
#[derive(Debug, Clone, PartialEq, Eq)]
pub enum PathSegment {
    Field(String),
    Index(usize),
    /// Checks the active variant before traversing its payload.
    Variant(String),
}

/// The new content asked for a leaf.
#[derive(Debug, Clone)]
pub enum Edit {
    Scalar(Scalar),
    Variant(String),
}

/// Why an inspection or an edit was refused.
#[derive(Debug, PartialEq, Eq)]
pub struct InspectionError(pub &'static str);

/// The type of a leaf that an edit decodes into, other than floating point.
#[derive(Debug, Clone, Copy, PartialEq, Eq)]
pub enum LeafType {
    I8,
    I16,
    I32,
    I64,
    I128,
    Isize,
    U8,
    U16,
    U32,
    U64,
    U128,
    Usize,
    Bool,
    Char,
    Text,
}

/// A decoded leaf: an integer of a signed or an unsigned leaf type, widened,
/// or a boolean, a character or a string.
#[derive(Debug, PartialEq, Eq)]
pub enum Decoded {
    Signed(i128),
    Unsigned(u128),
    Bool(bool),
    Char(char),
    Text(String),
}

/// Whether `l` is a signed integer type.
pub open spec fn is_signed_leaf(l: LeafType) -> bool {
    l is I8 || l is I16 || l is I32 || l is I64 || l is I128 || l is Isize
}

/// Whether `l` is an unsigned integer type.
pub open spec fn is_unsigned_leaf(l: LeafType) -> bool {
    l is U8 || l is U16 || l is U32 || l is U64 || l is U128 || l is Usize
}

/// The least value of an integer leaf type.
pub open spec fn leaf_min(l: LeafType) -> int {
    match l {
        LeafType::I8 => i8::MIN as int,
        LeafType::I16 => i16::MIN as int,
        LeafType::I32 => i32::MIN as int,
        LeafType::I64 => i64::MIN as int,
        LeafType::I128 => i128::MIN as int,
        LeafType::Isize => isize::MIN as int,
        _ => 0,
    }
}

/// The greatest value of an integer leaf type.
pub open spec fn leaf_max(l: LeafType) -> int {
    match l {
        LeafType::I8 => i8::MAX as int,
        LeafType::I16 => i16::MAX as int,
        LeafType::I32 => i32::MAX as int,
        LeafType::I64 => i64::MAX as int,
        LeafType::I128 => i128::MAX as int,
        LeafType::Isize => isize::MAX as int,
        LeafType::U8 => u8::MAX as int,
        LeafType::U16 => u16::MAX as int,
        LeafType::U32 => u32::MAX as int,
        LeafType::U64 => u64::MAX as int,
        LeafType::U128 => u128::MAX as int,
        LeafType::Usize => usize::MAX as int,
        _ => 0,
    }
}

/// The integer that text denotes for a leaf type, as the type's `str::parse`
/// reads it: a signed type takes an optional `+` or `-`, an unsigned one an
/// optional `+`, then one or more digits.
pub open spec fn text_integer(l: LeafType, t: Seq<char>) -> Option<int> {
    if is_signed_leaf(l) {
        signed_decimal_value(t)
    } else {
        match decimal_value(t) {
            Some(v) => Some(v as int),
            None => None,
        }
    }
}

/// The integer an edit asks for: an integer as it is, a decimal or a string as
/// the text it holds; none for other scalars.
pub open spec fn integer_of(l: LeafType, input: Scalar) -> Option<int> {
    match input {
        Scalar::Integer(v) => Some(v as int),
        Scalar::Decimal(t) => text_integer(l, t@),
        Scalar::String(t) => text_integer(l, t@),
        _ => None,
    }
}

/// Whether `r` is the refusal of an edit that does not decode.
pub open spec fn is_decode_failure(r: Result<Decoded, InspectionError>) -> bool {
    r matches Err(e) && e.0@ == "decode failure"@
}

/// What decoding `input` into a leaf of type `l` gives. An integer type takes
/// an integer inside its range; a boolean takes a boolean; a string takes a
/// string; a character takes a character or a string of exactly one character.
/// Anything else does not decode.
pub open spec fn decodes_to(l: LeafType, input: Scalar, r: Result<Decoded, InspectionError>) -> bool {
    if is_signed_leaf(l) || is_unsigned_leaf(l) {
        match integer_of(l, input) {
            Some(n) => if leaf_min(l) <= n <= leaf_max(l) {
                if is_signed_leaf(l) {
                    r == Ok::<Decoded, InspectionError>(Decoded::Signed(n as i128))
                } else {
                    r == Ok::<Decoded, InspectionError>(Decoded::Unsigned(n as u128))
                }
            } else {
                is_decode_failure(r)
            },
            None => is_decode_failure(r),
        }
    } else {
        match l {
            LeafType::Bool => match input {
                Scalar::Bool(b) => r == Ok::<Decoded, InspectionError>(Decoded::Bool(b)),
                _ => is_decode_failure(r),
            },
            LeafType::Text => match input {
                Scalar::String(t) => r matches Ok(Decoded::Text(u)) && u@ == t@,
                _ => is_decode_failure(r),
            },
            _ => match input {
                Scalar::Char(c) => r == Ok::<Decoded, InspectionError>(Decoded::Char(c)),
                Scalar::String(t) => if t@.len() == 1 {
                    r == Ok::<Decoded, InspectionError>(Decoded::Char(t@[0]))
                } else {
                    is_decode_failure(r)
                },
                _ => is_decode_failure(r),
            },
        }
    }
}

/// The magnitude of the least value and the greatest value of an integer leaf
/// type.
fn integer_bounds(l: LeafType) -> (bounds: (u128, u128))
    requires
        is_signed_leaf(l) || is_unsigned_leaf(l),
    ensures
        bounds.0 == -leaf_min(l),
        bounds.1 == leaf_max(l),
{
    match l {
        LeafType::I8 => (128, 127),
        LeafType::I16 => (32768, 32767),
        LeafType::I32 => (2147483648, 2147483647),
        LeafType::I64 => (9223372036854775808, 9223372036854775807),
        LeafType::I128 => (170141183460469231731687303715884105728, 170141183460469231731687303715884105727),
        LeafType::Isize => ((isize::MAX as u128) + 1, isize::MAX as u128),
        LeafType::U8 => (0, 255),
        LeafType::U16 => (0, 65535),
        LeafType::U32 => (0, 4294967295),
        LeafType::U64 => (0, 18446744073709551615),
        LeafType::U128 => (0, u128::MAX),
        _ => (0, usize::MAX as u128),
    }
}

/// The sign and magnitude of the integer text `t` for leaf type `l`: none when
/// the text denotes no integer, or one whose magnitude does not fit a `u128`.
fn text_magnitude(l: LeafType, t: &str) -> (m: Option<(bool, u128)>)
    ensures
        m matches Some((neg, mag)) ==> text_integer(l, t@) == Some(if neg { -mag } else { mag as int }),
        m is None ==> text_integer(l, t@) is None || text_integer(l, t@).unwrap() > u128::MAX
            || text_integer(l, t@).unwrap() < -u128::MAX,
{
    let chars = chars_of(t);
    if is_signed(l) && chars.len() > 0 && chars[0] == '-' {
        assert(chars@.subrange(1, chars@.len() as int) =~= t@.drop_first());
        match parse_digits_u128(&chars, 1) {
            Some(mag) => Some((true, mag)),
            None => None,
        }
    } else {
        let start: usize = if chars.len() > 0 && chars[0] == '+' { 1 } else { 0 };
        assert(chars@.subrange(start as int, chars@.len() as int) =~= crate::text::unsigned_digits(t@));
        match parse_digits_u128(&chars, start) {
            Some(mag) => Some((false, mag)),
            None => None,
        }
    }
}

/// Whether `l` is a signed integer type.
fn is_signed(l: LeafType) -> (signed: bool)
    ensures
        signed == is_signed_leaf(l),
{
    match l {
        LeafType::I8 | LeafType::I16 | LeafType::I32 | LeafType::I64 | LeafType::I128
        | LeafType::Isize => true,
        _ => false,
    }
}

/// Decodes the new content `input` of a leaf of type `l`, as `decodes_to`
/// says; floating-point content is decoded by the caller.
pub fn decode_scalar(l: LeafType, input: &Scalar) -> (r: Result<Decoded, InspectionError>)
    requires
        !(input is Float),
    ensures
        decodes_to(l, *input, r),
{
    let signed = is_signed(l);
    if signed || is_unsigned(l) {
        let magnitude: Option<(bool, u128)> = match input {
            Scalar::Integer(v) => if *v < 0 {
                Some((true, (0i128 - (*v as i128)) as u128))
            } else {
                Some((false, *v as u128))
            },
            Scalar::Decimal(t) => text_magnitude(l, t.as_str()),
            Scalar::String(t) => text_magnitude(l, t.as_str()),
            _ => None,
        };
        let (min_mag, max) = integer_bounds(l);
        match magnitude {
            Some((neg, mag)) => {
                if signed {
                    if neg && mag <= min_mag {
                        let value: i128 = if mag == 170141183460469231731687303715884105728u128 {
                            i128::MIN
                        } else {
                            0i128 - (mag as i128)
                        };
                        Ok(Decoded::Signed(value))
                    } else if !neg && mag <= max {
                        Ok(Decoded::Signed(mag as i128))
                    } else {
                        Err(InspectionError("decode failure"))
                    }
                } else if (!neg || mag == 0) && mag <= max {
                    Ok(Decoded::Unsigned(mag))
                } else {
                    Err(InspectionError("decode failure"))
                }
            },
            None => Err(InspectionError("decode failure")),
        }
    } else {
        match l {
            LeafType::Bool => match input {
                Scalar::Bool(b) => Ok(Decoded::Bool(*b)),
                _ => Err(InspectionError("decode failure")),
            },
            LeafType::Text => match input {
                Scalar::String(t) => Ok(Decoded::Text(t.as_str().to_owned())),
                _ => Err(InspectionError("decode failure")),
            },
            _ => match input {
                Scalar::Char(c) => Ok(Decoded::Char(*c)),
                Scalar::String(t) => {
                    let s = t.as_str();
                    if s.unicode_len() == 1 {
                        Ok(Decoded::Char(s.get_char(0)))
                    } else {
                        Err(InspectionError("decode failure"))
                    }
                },
                _ => Err(InspectionError("decode failure")),
            },
        }
    }
}

/// Whether `l` is an unsigned integer type.
fn is_unsigned(l: LeafType) -> (unsigned: bool)
    ensures
        unsigned == is_unsigned_leaf(l),
{
    match l {
        LeafType::U8 | LeafType::U16 | LeafType::U32 | LeafType::U64 | LeafType::U128
        | LeafType::Usize => true,
        _ => false,
    }
}

} // verus!
