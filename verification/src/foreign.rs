//! Bridges to unverified library calls: IEEE-754 bit-pattern conversions and
//! UTF-8 decoding. Floating-point fields of the data model are carried as bit
//! patterns; the conversions below name their results so that contracts can
//! speak of them exactly.
//!
//! The float-token parsers are guarded by `MAX_FLOAT_TOKEN_LEN`: the outside
//! parser's exponent bookkeeping aborts on tokens whose length approaches
//! `i32::MAX`, and its big-number arithmetic makes absurdly long decimal
//! tokens effectively non-terminating, so tokens over the bound are rejected
//! as invalid without reaching it. The bound is far beyond any float token a
//! real reconstruction file holds.

use vstd::prelude::*;

verus! {

/// Longest float token the decoders accept, in bytes.
pub const MAX_FLOAT_TOKEN_LEN: usize = 4096;

/// The IEEE-754 double bit pattern the outside parser reads from a decimal
/// token, if it accepts the token.
pub uninterp spec fn f64_parse_bits(t: Seq<u8>) -> Option<u64>;

/// The IEEE-754 single bit pattern the outside parser reads from a decimal
/// token, if it accepts the token.
pub uninterp spec fn f32_parse_bits(t: Seq<u8>) -> Option<u32>;

/// The IEEE-754 single bit pattern a double bit pattern narrows to.
pub uninterp spec fn f32_bits_of_f64_bits(b: u64) -> u32;

/// The characters a byte run decodes to as UTF-8, if it is valid UTF-8.
pub uninterp spec fn utf8_chars(b: Seq<u8>) -> Option<Seq<char>>;

/// Value of a double token as the decoders read it: the outside parse, with
/// tokens over the length bound rejected.
pub open spec fn f64_token_bits(t: Seq<u8>) -> Option<u64> {
    if t.len() <= MAX_FLOAT_TOKEN_LEN {
        f64_parse_bits(t)
    } else {
        None
    }
}

/// Value of a single token as the decoders read it: the outside parse, with
/// tokens over the length bound rejected.
pub open spec fn f32_token_bits(t: Seq<u8>) -> Option<u32> {
    if t.len() <= MAX_FLOAT_TOKEN_LEN {
        f32_parse_bits(t)
    } else {
        None
    }
}

/// Relies on rustc_apfloat's `Double: FromStr` (correctly rounded decimal
/// parsing, nearest ties to even): the bit pattern parsed from a token
/// depends on the token's bytes alone; rejected tokens, and byte runs that
/// are not UTF-8, yield `None`. Tokens of absurd length can make the parser
/// abort or effectively not return, so `requires` leaves them out.
#[verifier::external_body]
fn apfloat_f64_bits(t: &[u8]) -> (r: Option<u64>)
    requires
        t@.len() <= MAX_FLOAT_TOKEN_LEN,
    ensures
        r == f64_parse_bits(t@),
{
    match core::str::from_utf8(t) {
        Ok(s) => match <rustc_apfloat::ieee::Double as core::str::FromStr>::from_str(s) {
            Ok(d) => Some(rustc_apfloat::Float::to_bits(d) as u64),
            Err(_) => None,
        },
        Err(_) => None,
    }
}

/// Relies on rustc_apfloat's `Single: FromStr`, as `apfloat_f64_bits` relies
/// on `Double: FromStr`, with the same length guard.
#[verifier::external_body]
fn apfloat_f32_bits(t: &[u8]) -> (r: Option<u32>)
    requires
        t@.len() <= MAX_FLOAT_TOKEN_LEN,
    ensures
        r == f32_parse_bits(t@),
{
    match core::str::from_utf8(t) {
        Ok(s) => match <rustc_apfloat::ieee::Single as core::str::FromStr>::from_str(s) {
            Ok(d) => Some(rustc_apfloat::Float::to_bits(d) as u32),
            Err(_) => None,
        },
        Err(_) => None,
    }
}

/// Value of a double token: the outside parse, guarded by the length bound.
pub(crate) fn parse_f64_token(t: &[u8]) -> (r: Option<u64>)
    ensures
        r == f64_token_bits(t@),
{
    if t.len() > MAX_FLOAT_TOKEN_LEN {
        None
    } else {
        apfloat_f64_bits(t)
    }
}

/// Value of a single token: the outside parse, guarded by the length bound.
pub(crate) fn parse_f32_token(t: &[u8]) -> (r: Option<u32>)
    ensures
        r == f32_token_bits(t@),
{
    if t.len() > MAX_FLOAT_TOKEN_LEN {
        None
    } else {
        apfloat_f32_bits(t)
    }
}

/// Relies on rustc_apfloat's `Double` to `Single` `convert` (IEEE-754
/// narrowing, nearest ties to even): the narrowed bit pattern depends on the
/// input bits alone, and the conversion is total on every 64-bit pattern.
#[verifier::external_body]
pub(crate) fn narrow_f64_bits(b: u64) -> (r: u32)
    ensures
        r == f32_bits_of_f64_bits(b),
{
    let d = <rustc_apfloat::ieee::Double as rustc_apfloat::Float>::from_bits(b as u128);
    let mut loses_info = false;
    let s: rustc_apfloat::StatusAnd<rustc_apfloat::ieee::Single> =
        rustc_apfloat::FloatConvert::convert(d, &mut loses_info);
    (rustc_apfloat::Float::to_bits(s.value) as u32)
}

/// Relies on `core::str::from_utf8`: whether a byte run is valid UTF-8, and
/// which characters it decodes to, depend on the bytes alone.
#[verifier::external_body]
pub(crate) fn utf8_to_string(b: &[u8]) -> (r: Option<String>)
    ensures
        r is Some <==> utf8_chars(b@) is Some,
        r matches Some(s) ==> Some(s@) == utf8_chars(b@),
{
    match core::str::from_utf8(b) {
        Ok(s) => Some(s.to_owned()),
        Err(_) => None,
    }
}

} // verus!
