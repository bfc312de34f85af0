//! Decoding a parsed value into a typed property value.
//!
//! Numbers decode from their digit slice with an overflow check; the byte
//! string decodes from a string literal; the unit decodes from an empty
//! tuple. Aggregates walk named fields (see `components`).

use vstd::prelude::*;

use crate::ast::BsnStruct;
use crate::ast::BsnValue;
use crate::ast::SpecStruct;
use crate::ast::SpecValue;
use crate::parse_spec::is_digit;

verus! {

/// Why a value did not decode.
#[derive(Debug, PartialEq, Eq)]
pub enum FromBsnError {
    /// The value's shape did not match the expected type.
    MismatchedType,
    /// A named field that the expected type does not have.
    UnexpectedField(Vec<u8>),
    /// A failure of the underlying conversion, with its message.
    Custom(Vec<u8>),
}

/// The model of a decode failure. The message of `Custom` is not part of
/// the model.
pub enum SpecFromBsnError {
    MismatchedType,
    UnexpectedField(Seq<u8>),
    Custom,
}

impl FromBsnError {
    pub open spec fn m(&self) -> SpecFromBsnError {
        match self {
            FromBsnError::MismatchedType => SpecFromBsnError::MismatchedType,
            FromBsnError::UnexpectedField(f) => SpecFromBsnError::UnexpectedField(f@),
            FromBsnError::Custom(_) => SpecFromBsnError::Custom,
        }
    }
}

/// Every byte of `d` is an ASCII digit.
pub open spec fn is_digits(d: Seq<u8>) -> bool {
    forall|i: int| 0 <= i < d.len() ==> is_digit(#[trigger] d[i])
}

/// The number that a run of ASCII digits denotes.
pub open spec fn digits_val(d: Seq<u8>) -> int
    decreases d.len(),
{
    if d.len() == 0 {
        0
    } else {
        digits_val(d.drop_last()) * 10 + (d.last() - 48)
    }
}

/// Digit runs denote nonnegative numbers, and a prefix never denotes more
/// than the whole.
pub proof fn lemma_digits_val_bounds(d: Seq<u8>, n: int)
    requires
        is_digits(d),
        0 <= n <= d.len(),
    ensures
        0 <= digits_val(d.subrange(0, n)) <= digits_val(d),
    decreases d.len(),
{
    if d.len() == 0 {
    } else if n == d.len() {
        assert(d.subrange(0, n) =~= d);
        lemma_digits_val_bounds(d.drop_last(), n - 1);
    } else {
        assert(d.drop_last().subrange(0, n) =~= d.subrange(0, n));
        assert(is_digits(d.drop_last()));
        lemma_digits_val_bounds(d.drop_last(), n);
        assert(0 <= d.last() - 48);
        assert(digits_val(d.drop_last()) * 10 + (d.last() - 48) >= digits_val(d.drop_last())) by {
            assert(digits_val(d.drop_last()) >= 0) by {
                lemma_digits_val_bounds(d.drop_last(), d.len() - 1);
                assert(d.drop_last().subrange(0, d.len() - 1) =~= d.drop_last());
            }
        }
    }
}

/// What a decode of the digit run `d` as an unsigned number bounded by
/// `max` gives: the number when the run is sound and in range, otherwise
/// the conversion failure.
pub open spec fn spec_decode_digits(d: Seq<u8>, max: int) -> Result<int, SpecFromBsnError> {
    if is_digits(d) && d.len() > 0 && digits_val(d) <= max {
        Ok(digits_val(d))
    } else {
        Err(SpecFromBsnError::Custom)
    }
}

/// Parse a run of ASCII digits as a `u64`, failing on an empty run, a
/// non-digit byte, or overflow.
pub fn parse_u64_digits(d: &Vec<u8>) -> (r: Result<u64, FromBsnError>)
    ensures
        match spec_decode_digits(d@, u64::MAX as int) {
            Ok(v) => r matches Ok(x) && x as int == v,
            Err(e) => r matches Err(x) && x.m() == e,
        },
{
    if d.len() == 0 {
        return Err(FromBsnError::Custom(invalid_number_message()));
    }
    let mut acc: u64 = 0;
    let mut i: usize = 0;
    while i < d.len()
        invariant
            0 <= i <= d@.len(),
            is_digits(d@.subrange(0, i as int)),
            acc as int == digits_val(d@.subrange(0, i as int)),
        decreases d@.len() - i,
    {
        let c = d[i];
        if !(48 <= c && c <= 57) {
            assert(!is_digits(d@));
            return Err(FromBsnError::Custom(invalid_number_message()));
        }
        let digit = (c - 48) as u64;
        if acc > (u64::MAX - digit) / 10 {
            proof {
                let pre = d@.subrange(0, i as int);
                let ext = d@.subrange(0, i as int + 1);
                assert(ext.drop_last() =~= pre);
                assert(digits_val(ext) == acc * 10 + digit);
                assert(digits_val(ext) > u64::MAX) by {
                    assert(acc >= (u64::MAX - digit) / 10 + 1);
                    assert(((u64::MAX - digit) / 10 + 1) * 10 + digit > u64::MAX) by (nonlinear_arith)
                        requires
                            0 <= digit <= 9,
                    ;
                    assert(acc * 10 + digit >= ((u64::MAX - digit) / 10 + 1) * 10 + digit) by (nonlinear_arith)
                        requires
                            acc >= (u64::MAX - digit) / 10 + 1,
                    ;
                }
                if is_digits(d@) {
                    lemma_digits_val_bounds(d@, i as int + 1);
                    assert(digits_val(d@) > u64::MAX);
                }
            }
            return Err(FromBsnError::Custom(invalid_number_message()));
        }
        proof {
            let pre = d@.subrange(0, i as int);
            let ext = d@.subrange(0, i as int + 1);
            assert(ext.drop_last() =~= pre);
            assert(acc * 10 + digit <= u64::MAX) by (nonlinear_arith)
                requires
                    0 <= digit <= 9,
                    0 <= acc <= (u64::MAX - digit) / 10,
            ;
        }
        acc = acc * 10 + digit;
        i = i + 1;
    }
    proof {
        assert(d@.subrange(0, d@.len() as int) =~= d@);
    }
    Ok(acc)
}


/// Parse a run of ASCII digits as a `u128`, failing on an empty run, a
/// non-digit byte, or overflow.
pub fn parse_u128_digits(d: &Vec<u8>) -> (r: Result<u128, FromBsnError>)
    ensures
        match spec_decode_digits(d@, u128::MAX as int) {
            Ok(v) => r matches Ok(x) && x as int == v,
            Err(e) => r matches Err(x) && x.m() == e,
        },
{
    if d.len() == 0 {
        return Err(FromBsnError::Custom(invalid_number_message()));
    }
    let mut acc: u128 = 0;
    let mut i: usize = 0;
    while i < d.len()
        invariant
            0 <= i <= d@.len(),
            is_digits(d@.subrange(0, i as int)),
            acc as int == digits_val(d@.subrange(0, i as int)),
        decreases d@.len() - i,
    {
        let c = d[i];
        if !(48 <= c && c <= 57) {
            assert(!is_digits(d@));
            return Err(FromBsnError::Custom(invalid_number_message()));
        }
        let digit = (c - 48) as u128;
        if acc > (u128::MAX - digit) / 10 {
            proof {
                let pre = d@.subrange(0, i as int);
                let ext = d@.subrange(0, i as int + 1);
                assert(ext.drop_last() =~= pre);
                assert(digits_val(ext) == acc * 10 + digit);
                assert(digits_val(ext) > u128::MAX) by {
                    assert(acc >= (u128::MAX - digit) / 10 + 1);
                    assert(((u128::MAX - digit) / 10 + 1) * 10 + digit > u128::MAX) by (nonlinear_arith)
                        requires
                            0 <= digit <= 9,
                    ;
                    assert(acc * 10 + digit >= ((u128::MAX - digit) / 10 + 1) * 10 + digit) by (nonlinear_arith)
                        requires
                            acc >= (u128::MAX - digit) / 10 + 1,
                    ;
                }
                if is_digits(d@) {
                    lemma_digits_val_bounds(d@, i as int + 1);
                    assert(digits_val(d@) > u128::MAX);
                }
            }
            return Err(FromBsnError::Custom(invalid_number_message()));
        }
        proof {
            let pre = d@.subrange(0, i as int);
            let ext = d@.subrange(0, i as int + 1);
            assert(ext.drop_last() =~= pre);
            assert(acc * 10 + digit <= u128::MAX) by (nonlinear_arith)
                requires
                    0 <= digit <= 9,
                    0 <= acc <= (u128::MAX - digit) / 10,
            ;
        }
        acc = acc * 10 + digit;
        i = i + 1;
    }
    proof {
        assert(d@.subrange(0, d@.len() as int) =~= d@);
    }
    Ok(acc)
}

/// The message carried by number-conversion failures: the bytes of
/// "invalid number".
fn invalid_number_message() -> (r: Vec<u8>)
{
    let mut v: Vec<u8> = Vec::new();
    v.push(105);
    v.push(110);
    v.push(118);
    v.push(97);
    v.push(108);
    v.push(105);
    v.push(100);
    v.push(32);
    v.push(110);
    v.push(117);
    v.push(109);
    v.push(98);
    v.push(101);
    v.push(114);
    v
}

/// A typed value that can be decoded from a parsed value. `M` is the
/// value's model; `from_bsn_spec` says exactly what each parsed value
/// decodes to.
pub trait FromBsn: Sized {
    type M;

    spec fn m(&self) -> Self::M;

    spec fn from_bsn_spec(v: SpecValue) -> Result<Self::M, SpecFromBsnError>;

    fn from_bsn(value: BsnValue) -> (r: Result<Self, FromBsnError>)
        ensures
            match Self::from_bsn_spec(value.deep()) {
                Ok(m) => r matches Ok(x) && x.m() == m,
                Err(e) => r matches Err(x) && x.m() == e,
            },
    ;
}

impl FromBsn for u64 {
    type M = u64;

    open spec fn m(&self) -> u64 {
        *self
    }

    open spec fn from_bsn_spec(v: SpecValue) -> Result<u64, SpecFromBsnError> {
        match v {
            SpecValue::Number(d) => match spec_decode_digits(d, u64::MAX as int) {
                Ok(n) => Ok(n as u64),
                Err(e) => Err(e),
            },
            _ => Err(SpecFromBsnError::MismatchedType),
        }
    }

    fn from_bsn(value: BsnValue) -> (r: Result<Self, FromBsnError>) {
        match value {
            BsnValue::Number(d) => parse_u64_digits(&d),
            _ => Err(FromBsnError::MismatchedType),
        }
    }
}

impl FromBsn for u32 {
    type M = u32;

    open spec fn m(&self) -> u32 {
        *self
    }

    open spec fn from_bsn_spec(v: SpecValue) -> Result<u32, SpecFromBsnError> {
        match v {
            SpecValue::Number(d) => match spec_decode_digits(d, u32::MAX as int) {
                Ok(n) => Ok(n as u32),
                Err(e) => Err(e),
            },
            _ => Err(SpecFromBsnError::MismatchedType),
        }
    }

    fn from_bsn(value: BsnValue) -> (r: Result<Self, FromBsnError>) {
        match value {
            BsnValue::Number(d) => match parse_u64_digits(&d) {
                Ok(v) => {
                    if v <= u32::MAX as u64 {
                        Ok(v as u32)
                    } else {
                        Err(FromBsnError::Custom(invalid_number_message()))
                    }
                },
                Err(e) => Err(e),
            },
            _ => Err(FromBsnError::MismatchedType),
        }
    }
}

impl FromBsn for u16 {
    type M = u16;

    open spec fn m(&self) -> u16 {
        *self
    }

    open spec fn from_bsn_spec(v: SpecValue) -> Result<u16, SpecFromBsnError> {
        match v {
            SpecValue::Number(d) => match spec_decode_digits(d, u16::MAX as int) {
                Ok(n) => Ok(n as u16),
                Err(e) => Err(e),
            },
            _ => Err(SpecFromBsnError::MismatchedType),
        }
    }

    fn from_bsn(value: BsnValue) -> (r: Result<Self, FromBsnError>) {
        match value {
            BsnValue::Number(d) => match parse_u64_digits(&d) {
                Ok(v) => {
                    if v <= u16::MAX as u64 {
                        Ok(v as u16)
                    } else {
                        Err(FromBsnError::Custom(invalid_number_message()))
                    }
                },
                Err(e) => Err(e),
            },
            _ => Err(FromBsnError::MismatchedType),
        }
    }
}

impl FromBsn for u8 {
    type M = u8;

    open spec fn m(&self) -> u8 {
        *self
    }

    open spec fn from_bsn_spec(v: SpecValue) -> Result<u8, SpecFromBsnError> {
        match v {
            SpecValue::Number(d) => match spec_decode_digits(d, u8::MAX as int) {
                Ok(n) => Ok(n as u8),
                Err(e) => Err(e),
            },
            _ => Err(SpecFromBsnError::MismatchedType),
        }
    }

    fn from_bsn(value: BsnValue) -> (r: Result<Self, FromBsnError>) {
        match value {
            BsnValue::Number(d) => match parse_u64_digits(&d) {
                Ok(v) => {
                    if v <= u8::MAX as u64 {
                        Ok(v as u8)
                    } else {
                        Err(FromBsnError::Custom(invalid_number_message()))
                    }
                },
                Err(e) => Err(e),
            },
            _ => Err(FromBsnError::MismatchedType),
        }
    }
}


impl FromBsn for u128 {
    type M = u128;

    open spec fn m(&self) -> u128 {
        *self
    }

    open spec fn from_bsn_spec(v: SpecValue) -> Result<u128, SpecFromBsnError> {
        match v {
            SpecValue::Number(d) => match spec_decode_digits(d, u128::MAX as int) {
                Ok(n) => Ok(n as u128),
                Err(e) => Err(e),
            },
            _ => Err(SpecFromBsnError::MismatchedType),
        }
    }

    fn from_bsn(value: BsnValue) -> (r: Result<Self, FromBsnError>) {
        match value {
            BsnValue::Number(d) => parse_u128_digits(&d),
            _ => Err(FromBsnError::MismatchedType),
        }
    }
}

impl FromBsn for usize {
    type M = usize;

    open spec fn m(&self) -> usize {
        *self
    }

    open spec fn from_bsn_spec(v: SpecValue) -> Result<usize, SpecFromBsnError> {
        match v {
            SpecValue::Number(d) => match spec_decode_digits(d, usize::MAX as int) {
                Ok(n) => Ok(n as usize),
                Err(e) => Err(e),
            },
            _ => Err(SpecFromBsnError::MismatchedType),
        }
    }

    fn from_bsn(value: BsnValue) -> (r: Result<Self, FromBsnError>) {
        match value {
            BsnValue::Number(d) => match parse_u128_digits(&d) {
                Ok(v) => {
                    if v <= usize::MAX as u128 {
                        Ok(v as usize)
                    } else {
                        Err(FromBsnError::Custom(invalid_number_message()))
                    }
                },
                Err(e) => Err(e),
            },
            _ => Err(FromBsnError::MismatchedType),
        }
    }
}

/// Byte strings decode from string literals; the bytes carry over
/// untouched.
impl FromBsn for Vec<u8> {
    type M = Seq<u8>;

    open spec fn m(&self) -> Seq<u8> {
        self@
    }

    open spec fn from_bsn_spec(v: SpecValue) -> Result<Seq<u8>, SpecFromBsnError> {
        match v {
            SpecValue::String(b) => Ok(b),
            _ => Err(SpecFromBsnError::MismatchedType),
        }
    }

    fn from_bsn(value: BsnValue) -> (r: Result<Self, FromBsnError>) {
        match value {
            BsnValue::String(b) => Ok(b),
            _ => Err(FromBsnError::MismatchedType),
        }
    }
}

/// The unit decodes from an empty tuple struct.
impl FromBsn for () {
    type M = ();

    open spec fn m(&self) -> () {
        ()
    }

    open spec fn from_bsn_spec(v: SpecValue) -> Result<(), SpecFromBsnError> {
        match v {
            SpecValue::Struct(SpecStruct::Tuple(vs)) => if vs.len() == 0 {
                Ok(())
            } else {
                Err(SpecFromBsnError::MismatchedType)
            },
            _ => Err(SpecFromBsnError::MismatchedType),
        }
    }

    fn from_bsn(value: BsnValue) -> (r: Result<Self, FromBsnError>) {
        match value {
            BsnValue::Struct(BsnStruct::Tuple(vs)) => {
                proof {
                    crate::ast::lemma_deep_values(vs@);
                }
                if vs.len() == 0 {
                    Ok(())
                } else {
                    Err(FromBsnError::MismatchedType)
                }
            },
            _ => Err(FromBsnError::MismatchedType),
        }
    }
}

} // verus!
