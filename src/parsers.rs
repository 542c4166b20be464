//! Decoders for the fields of a DTED file.
//!
//! Each decoder takes the input bytes and returns the rest of the input with
//! the decoded value, or an [`Error`]. Its contract states the result over a
//! spec function of the input bytes.
use vstd::prelude::*;

use crate::dted::{
    DT2_ACC_RECORD_LENGTH, DT2_DSI_RECORD_LENGTH, RecognitionSentinel, RawDTEDHeader, RawDTEDRecord,
    RawDTEDFile, RecordModel, record_models,
};
use crate::primitives::{Angle, AngleError, AxisElement, MAS_PER_DEG, MAS_PER_MIN, MAS_PER_SEC};
use crate::Error;

verus! {

/// What a decoder returned, with the rest of the input as a sequence.
pub open spec fn outcome<T>(r: Result<(&[u8], T), Error>) -> Result<(Seq<u8>, T), Error> {
    match r {
        Ok((rest, v)) => Ok((rest@, v)),
        Err(e) => Err(e),
    }
}

/// What a decoder returned, with the rest of the input and the value both
/// as their views.
pub open spec fn outcome_view<T: View>(r: Result<(&[u8], T), Error>) -> Result<(Seq<u8>, T::V), Error> {
    match r {
        Ok((rest, v)) => Ok((rest@, v@)),
        Err(e) => Err(e),
    }
}

/// An ASCII digit.
pub open spec fn is_digit(b: u8) -> bool {
    0x30 <= b <= 0x39
}

/// Every byte is an ASCII digit.
pub open spec fn all_digits(s: Seq<u8>) -> bool {
    forall|i: int| 0 <= i < s.len() ==> is_digit(#[trigger] s[i])
}

/// The value of a string of decimal digits, most significant first.
pub open spec fn digits_value(s: Seq<u8>) -> nat
    decreases s.len(),
{
    if s.len() == 0 {
        0
    } else {
        digits_value(s.drop_last()) * 10 + (s.last() - 0x30) as nat
    }
}

/// Ten to the power `n`.
pub open spec fn pow10(n: nat) -> nat
    decreases n,
{
    if n == 0 {
        1
    } else {
        10 * pow10((n - 1) as nat)
    }
}

/// A prefix of digits is worth no more than the whole.
pub proof fn lemma_digits_value_prefix(s: Seq<u8>, i: int)
    requires
        all_digits(s),
        0 <= i <= s.len(),
    ensures
        digits_value(s.take(i)) <= digits_value(s),
    decreases s.len(),
{
    if i == s.len() {
        assert(s.take(i) =~= s);
    } else {
        let t = s.drop_last();
        assert(t.take(i) =~= s.take(i));
        assert(all_digits(t)) by {
            assert forall|k: int| 0 <= k < t.len() implies is_digit(#[trigger] t[k]) by {
                assert(t[k] == s[k]);
            }
        }
        lemma_digits_value_prefix(t, i);
    }
}

/// A string of `n` digits is worth less than `10^n`.
pub proof fn lemma_digits_value_bound(s: Seq<u8>)
    requires
        all_digits(s),
    ensures
        digits_value(s) < pow10(s.len()),
    decreases s.len(),
{
    if s.len() > 0 {
        let t = s.drop_last();
        assert(all_digits(t)) by {
            assert forall|k: int| 0 <= k < t.len() implies is_digit(#[trigger] t[k]) by {
                assert(t[k] == s[k]);
            }
        }
        lemma_digits_value_bound(t);
        assert(is_digit(s[s.len() - 1]));
        let v = digits_value(t);
        let d = (s.last() - 0x30) as nat;
        let p = pow10(t.len());
        assert(v * 10 + d < 10 * p) by (nonlinear_arith)
            requires
                v < p,
                d <= 9,
        ;
    }
}

/// Extending a prefix of digits by one digit.
proof fn lemma_digits_value_step(s: Seq<u8>, i: int)
    requires
        0 <= i < s.len(),
    ensures
        digits_value(s.take(i + 1)) == digits_value(s.take(i)) * 10 + (s[i] - 0x30) as nat,
{
    assert(s.take(i + 1).drop_last() =~= s.take(i));
}

/// Decodes a string of ASCII digits as an unsigned integer.
///
/// The caller guarantees that every byte is a digit and that the value fits.
pub fn u32_parser(input: &[u8]) -> (r: u32)
    requires
        all_digits(input@),
        digits_value(input@) <= u32::MAX,
    ensures
        r == digits_value(input@),
{
    let mut acc: u32 = 0;
    let mut i: usize = 0;
    while i < input.len()
        invariant
            0 <= i <= input.len(),
            acc == digits_value(input@.take(i as int)),
            all_digits(input@),
            digits_value(input@) <= u32::MAX,
        decreases input.len() - i,
    {
        proof {
            lemma_digits_value_step(input@, i as int);
            lemma_digits_value_prefix(input@, i + 1);
            assert(is_digit(input@[i as int]));
        }
        acc = acc * 10 + (input[i] - 0x30) as u32;
        i = i + 1;
    }
    assert(input@.take(i as int) =~= input@);
    acc
}

/// Decodes a string of ASCII digits as an unsigned integer; `None` when a
/// byte is not a digit or the value does not fit in a `u32`.
pub fn to_uint(input: &[u8]) -> (r: Option<u32>)
    ensures
        r == (if all_digits(input@) && digits_value(input@) <= u32::MAX {
            Some(digits_value(input@) as u32)
        } else {
            None::<u32>
        }),
{
    let mut acc: u32 = 0;
    let mut i: usize = 0;
    while i < input.len()
        invariant
            0 <= i <= input.len(),
            acc == digits_value(input@.take(i as int)),
            forall|k: int| 0 <= k < i ==> is_digit(#[trigger] input@[k]),
        decreases input.len() - i,
    {
        let b = input[i];
        if b < 0x30 || b > 0x39 {
            return None;
        }
        proof {
            lemma_digits_value_step(input@, i as int);
        }
        let next: u64 = acc as u64 * 10 + (b - 0x30) as u64;
        if next > u32::MAX as u64 {
            proof {
                if all_digits(input@) {
                    lemma_digits_value_prefix(input@, i + 1);
                }
            }
            return None;
        }
        acc = next as u32;
        i = i + 1;
    }
    assert(input@.take(i as int) =~= input@);
    Some(acc)
}

/// What [`uint_parser`] returns: `count` digits as an unsigned integer.
pub open spec fn spec_uint(s: Seq<u8>, count: nat) -> Result<(Seq<u8>, u32), Error> {
    if s.len() < count {
        Err(Error::Incomplete)
    } else if all_digits(s.take(count as int)) && digits_value(s.take(count as int)) <= u32::MAX {
        Ok((s.skip(count as int), digits_value(s.take(count as int)) as u32))
    } else {
        Err(Error::Digit)
    }
}

/// Decodes the next `count` bytes as ASCII digits.
pub fn uint_parser(input: &[u8], count: usize) -> (r: Result<(&[u8], u32), Error>)
    ensures
        outcome(r) == spec_uint(input@, count as nat),
{
    if input.len() < count {
        return Err(Error::Incomplete);
    }
    let (field, rest) = input.split_at(count);
    match to_uint(field) {
        Some(v) => Ok((rest, v)),
        None => Err(Error::Digit),
    }
}

/// What [`uint_parser_with_default`] returns.
pub open spec fn spec_uint_or(s: Seq<u8>, count: nat, default: u32) -> Result<(Seq<u8>, u32), Error> {
    if count == 0 {
        Ok((s, default))
    } else {
        spec_uint(s, count)
    }
}

/// Decodes the next `count` bytes as ASCII digits; a width of zero consumes
/// nothing and yields `default`.
pub fn uint_parser_with_default(input: &[u8], count: usize, default: u32) -> (r: Result<
    (&[u8], u32),
    Error,
>)
    ensures
        outcome(r) == spec_uint_or(input@, count as nat, default),
{
    if count == 0 {
        Ok((input, default))
    } else {
        uint_parser(input, count)
    }
}

/// What [`hemisphere`] returns: the rest of the input and whether the angle
/// is negative.
pub open spec fn spec_hemisphere(s: Seq<u8>) -> (Seq<u8>, bool) {
    if s.len() > 0 && (s[0] == 0x4E || s[0] == 0x45) {
        (s.skip(1), false)
    } else if s.len() > 0 && (s[0] == 0x53 || s[0] == 0x57) {
        (s.skip(1), true)
    } else {
        (s, false)
    }
}

/// Decodes an optional hemisphere letter: `N` or `E` is positive, `S` or `W`
/// negative; any other byte, or none, is positive and left in the input.
pub fn hemisphere(input: &[u8]) -> (r: (&[u8], bool))
    ensures
        (r.0@, r.1) == spec_hemisphere(input@),
{
    if input.len() > 0 && (input[0] == 0x4E || input[0] == 0x45) {
        let (_, rest) = input.split_at(1);
        (rest, false)
    } else if input.len() > 0 && (input[0] == 0x53 || input[0] == 0x57) {
        let (_, rest) = input.split_at(1);
        (rest, true)
    } else {
        (input, false)
    }
}

/// The angle made of decoded whole degrees, minutes and seconds.
pub open spec fn angle_from_fields(deg: u32, min: u32, sec: u32, negative: bool) -> Result<
    Angle,
    AngleError,
> {
    if min >= 60 {
        Err(AngleError::MinutesUpperBoundBreached)
    } else if sec >= 60 {
        Err(AngleError::SecondsUpperBoundBreached)
    } else if deg > 0xFFFF {
        let magnitude = deg * MAS_PER_DEG + min * MAS_PER_MIN + sec * MAS_PER_SEC;
        Err(AngleError::TooLarge((if negative { -magnitude } else { magnitude }) as i128))
    } else {
        Ok(Angle { deg: deg as u16, min: min as u8, sec: (sec * MAS_PER_SEC) as u16, negative })
    }
}

/// What [`to_angle`] returns.
pub open spec fn spec_angle(s: Seq<u8>, num_deg: nat, num_min: nat, num_sec: nat) -> Result<
    (Seq<u8>, Angle),
    Error,
> {
    match spec_uint_or(s, num_deg, 0) {
        Err(e) => Err(e),
        Ok((s1, deg)) => match spec_uint_or(s1, num_min, 0) {
            Err(e) => Err(e),
            Ok((s2, min)) => match spec_uint_or(s2, num_sec, 0) {
                Err(e) => Err(e),
                Ok((s3, sec)) => {
                    let (s4, negative) = spec_hemisphere(s3);
                    match angle_from_fields(deg, min, sec, negative) {
                        Ok(a) => Ok((s4, a)),
                        Err(e) => Err(Error::Angle(e)),
                    }
                },
            },
        },
    }
}

/// Decodes an angle: `num_deg` digits of degrees, `num_min` of minutes,
/// `num_sec` of seconds, then an optional hemisphere letter. A width of zero
/// reads nothing and gives zero.
pub fn to_angle(input: &[u8], num_deg: usize, num_min: usize, num_sec: usize) -> (r: Result<
    (&[u8], Angle),
    Error,
>)
    ensures
        outcome(r) == spec_angle(input@, num_deg as nat, num_min as nat, num_sec as nat),
        r is Ok ==> r->Ok_0.1.wf(),
{
    let (input, deg) = match uint_parser_with_default(input, num_deg, 0) {
        Ok(x) => x,
        Err(e) => return Err(e),
    };
    let (input, min) = match uint_parser_with_default(input, num_min, 0) {
        Ok(x) => x,
        Err(e) => return Err(e),
    };
    let (input, sec) = match uint_parser_with_default(input, num_sec, 0) {
        Ok(x) => x,
        Err(e) => return Err(e),
    };
    let (input, negative) = hemisphere(input);
    match angle_of_fields(deg, min, sec, negative) {
        Ok(a) => Ok((input, a)),
        Err(e) => Err(Error::Angle(e)),
    }
}

/// Builds the angle of decoded whole degrees, minutes and seconds.
fn angle_of_fields(deg: u32, min: u32, sec: u32, negative: bool) -> (r: Result<Angle, AngleError>)
    ensures
        r == angle_from_fields(deg, min, sec, negative),
        r is Ok ==> r->Ok_0.wf(),
{
    if min >= 60 {
        return Err(AngleError::MinutesUpperBoundBreached);
    }
    if sec >= 60 {
        return Err(AngleError::SecondsUpperBoundBreached);
    }
    if deg > 0xFFFF {
        let d: i128 = deg as i128;
        assert(0 <= d * 3_600_000 <= 0xFFFF_FFFF * 3_600_000) by (nonlinear_arith)
            requires
                0 <= d <= 0xFFFF_FFFF,
        ;
        let magnitude: i128 = d * MAS_PER_DEG as i128 + min as i128 * MAS_PER_MIN as i128
            + sec as i128 * 1000;
        let total: i128 = if negative {
            -magnitude
        } else {
            magnitude
        };
        return Err(AngleError::TooLarge(total));
    }
    Ok(Angle { deg: deg as u16, min: min as u8, sec: (sec * 1000) as u16, negative })
}

/// The bytes that mark a value of width `count` as not available: `NA`
/// followed by `$` up to the width (`NA$$` for four bytes).
pub open spec fn na_sentinel(count: nat) -> Seq<u8> {
    RecognitionSentinel::NA.bytes() + Seq::new((count - 2) as nat, |i: int| 0x24u8)
}

/// What [`to_nan`] returns.
pub open spec fn spec_nan(s: Seq<u8>, count: nat) -> Result<(Seq<u8>, Option<u32>), Error> {
    if s.len() < count {
        Err(Error::Incomplete)
    } else if count >= 2 && s.take(count as int) == na_sentinel(count) {
        Ok((s.skip(count as int), None))
    } else {
        match spec_uint(s, count) {
            Err(e) => Err(e),
            Ok((rest, v)) => Ok((rest, Some(v))),
        }
    }
}

/// Decodes a value of width `count` that may be marked not available: the
/// sentinel gives `None`, digits give `Some` of their value.
pub fn to_nan(input: &[u8], count: usize) -> (r: Result<(&[u8], Option<u32>), Error>)
    ensures
        outcome(r) == spec_nan(input@, count as nat),
{
    if input.len() < count {
        return Err(Error::Incomplete);
    }
    if count >= 2 && input[0] == 0x4E && input[1] == 0x41 {
        let mut i: usize = 2;
        let mut padded = true;
        while i < count
            invariant
                2 <= i <= count <= input.len(),
                padded == (forall|k: int| 2 <= k < i ==> #[trigger] input@[k] == 0x24u8),
            decreases count - i,
        {
            if input[i] != 0x24 {
                padded = false;
            }
            i = i + 1;
        }
        assert(padded == (input@.take(count as int) =~= na_sentinel(count as nat))) by {
            if padded {
                assert(input@.take(count as int) =~= na_sentinel(count as nat));
            } else {
                let k = choose|k: int| 2 <= k < count && input@[k] != 0x24u8;
                assert(input@.take(count as int)[k] != na_sentinel(count as nat)[k]);
            }
        }
        if padded {
            let (_, rest) = input.split_at(count);
            return Ok((rest, None));
        }
    } else {
        assert(count >= 2 ==> input@.take(count as int)[0] != na_sentinel(count as nat)[0]
            || input@.take(count as int)[1] != na_sentinel(count as nat)[1]);
    }
    match uint_parser(input, count) {
        Ok((rest, v)) => Ok((rest, Some(v))),
        Err(e) => Err(e),
    }
}

/// The value of a 16-bit signed-magnitude word: bit 15 is the sign, bits 0
/// to 14 the magnitude.
pub open spec fn signed_magnitude(x: u16) -> int {
    if x >= 0x8000 {
        -(x - 0x8000)
    } else {
        x as int
    }
}

/// Converts a signed-magnitude word to an `i16`. This is not two's
/// complement: `0x8003` is `-3`, and `0x8000` is zero.
pub fn to_i16(x: u16) -> (r: i16)
    ensures
        r == signed_magnitude(x),
{
    let magnitude: u16 = x & 0x7FFF;
    let sign_bit: u16 = (x & 0x8000) >> 15;
    proof {
        assert(x & 0x7FFF == x % 0x8000) by (bit_vector);
        assert((x & 0x8000) >> 15 == (if x >= 0x8000 { 1u16 } else { 0u16 })) by (bit_vector);
    }
    let v = magnitude as i16;
    let s = sign_bit as i16;
    proof {
        assert(s << 1 == 2 * s) by (bit_vector)
            requires
                0 <= s <= 1,
        ;
    }
    let factor: i16 = 1 - (s << 1);
    factor * v
}

/// The big-endian 16-bit word of two bytes.
pub open spec fn be16(hi: u8, lo: u8) -> u16 {
    (hi * 256 + lo) as u16
}

/// What [`be_u16`] returns.
pub open spec fn spec_be_u16(s: Seq<u8>) -> Result<(Seq<u8>, u16), Error> {
    if s.len() < 2 {
        Err(Error::Incomplete)
    } else {
        Ok((s.skip(2), be16(s[0], s[1])))
    }
}

/// Decodes a big-endian unsigned 16-bit word.
pub fn be_u16(input: &[u8]) -> (r: Result<(&[u8], u16), Error>)
    ensures
        outcome(r) == spec_be_u16(input@),
{
    if input.len() < 2 {
        return Err(Error::Incomplete);
    }
    let w: u16 = input[0] as u16 * 256 + input[1] as u16;
    let (_, rest) = input.split_at(2);
    Ok((rest, w))
}

/// What [`signed_mag_parser`] returns.
pub open spec fn spec_signed_mag(s: Seq<u8>) -> Result<(Seq<u8>, i16), Error> {
    if s.len() < 2 {
        Err(Error::Incomplete)
    } else {
        Ok((s.skip(2), signed_magnitude(be16(s[0], s[1])) as i16))
    }
}

/// Decodes a big-endian signed-magnitude 16-bit integer.
pub fn signed_mag_parser(input: &[u8]) -> (r: Result<(&[u8], i16), Error>)
    ensures
        outcome(r) == spec_signed_mag(input@),
{
    match be_u16(input) {
        Ok((rest, w)) => Ok((rest, to_i16(w))),
        Err(e) => Err(e),
    }
}

/// What [`tag`] returns.
pub open spec fn spec_tag(s: Seq<u8>, sentinel: RecognitionSentinel) -> Result<(Seq<u8>, ()), Error> {
    let t = sentinel.bytes();
    if s.len() < t.len() {
        Err(Error::Incomplete)
    } else if s.take(t.len() as int) == t {
        Ok((s.skip(t.len() as int), ()))
    } else {
        Err(Error::Tag)
    }
}

/// Consumes a sentinel; fails when the next bytes are not exactly its bytes.
pub fn tag(input: &[u8], sentinel: RecognitionSentinel) -> (r: Result<(&[u8], ()), Error>)
    ensures
        outcome(r) == spec_tag(input@, sentinel),
{
    let t = sentinel.value();
    if input.len() < t.len() {
        return Err(Error::Incomplete);
    }
    let mut i: usize = 0;
    while i < t.len()
        invariant
            0 <= i <= t.len() <= input.len(),
            t@ == sentinel.bytes(),
            forall|k: int| 0 <= k < i ==> #[trigger] input@[k] == t@[k],
        decreases t.len() - i,
    {
        if input[i] != t[i] {
            assert(input@.take(t.len() as int)[i as int] != t@[i as int]);
            return Err(Error::Tag);
        }
        i = i + 1;
    }
    assert(input@.take(t.len() as int) =~= t@);
    let (_, rest) = input.split_at(t.len());
    Ok((rest, ()))
}

/// What [`take`] returns: the next `count` bytes.
pub open spec fn spec_take(s: Seq<u8>, count: nat) -> Result<(Seq<u8>, Seq<u8>), Error> {
    if s.len() < count {
        Err(Error::Incomplete)
    } else {
        Ok((s.skip(count as int), s.take(count as int)))
    }
}

/// Consumes the next `count` bytes and returns them.
pub fn take(input: &[u8], count: usize) -> (r: Result<(&[u8], &[u8]), Error>)
    ensures
        match r {
            Ok((rest, taken)) => spec_take(input@, count as nat) == Ok::<(Seq<u8>, Seq<u8>), Error>((rest@, taken@)),
            Err(e) => spec_take(input@, count as nat) == Err::<(Seq<u8>, Seq<u8>), Error>(e),
        },
{
    if input.len() < count {
        return Err(Error::Incomplete);
    }
    let (taken, rest) = input.split_at(count);
    Ok((rest, taken))
}

/// Four digits fit in a `u16`.
proof fn lemma_four_digits_fit(s: Seq<u8>)
    requires
        spec_uint(s, 4) is Ok,
    ensures
        spec_uint(s, 4)->Ok_0.1 < 10_000,
{
    lemma_digits_value_bound(s.take(4));
    assert(pow10(4) == 10_000) by {
        reveal_with_fuel(pow10, 5);
    }
}

/// The header with its decoded fields narrowed to their types.
pub open spec fn header_of(
    lon_origin: Angle,
    lat_origin: Angle,
    lon_interval: u32,
    lat_interval: u32,
    accuracy: Option<u32>,
    lon_count: u32,
    lat_count: u32,
) -> RawDTEDHeader {
    RawDTEDHeader {
        origin: AxisElement { lat: lat_origin, lon: lon_origin },
        interval_secs_x_10: AxisElement { lat: lat_interval as u16, lon: lon_interval as u16 },
        accuracy: match accuracy {
            Some(v) => Some(v as u16),
            None => None,
        },
        count: AxisElement { lat: lat_count as u16, lon: lon_count as u16 },
    }
}

/// The value of a whole field of decimal digits.
pub open spec fn spec_digits(f: Seq<u8>) -> Result<u32, Error> {
    match spec_uint(f, f.len()) {
        Err(e) => Err(e),
        Ok((_, v)) => Ok(v),
    }
}

/// The angle in an 8-byte origin slot of the header: 3 digits of degrees, 2
/// of minutes, 2 of seconds, then a hemisphere byte, `S` or `W` making the
/// angle negative.
pub open spec fn spec_origin_angle(f: Seq<u8>) -> Result<Angle, Error> {
    match spec_digits(f.subrange(0, 3)) {
        Err(e) => Err(e),
        Ok(deg) => match spec_digits(f.subrange(3, 5)) {
            Err(e) => Err(e),
            Ok(min) => match spec_digits(f.subrange(5, 7)) {
                Err(e) => Err(e),
                Ok(sec) => match angle_from_fields(deg, min, sec, f[7] == 0x53 || f[7] == 0x57) {
                    Ok(a) => Ok(a),
                    Err(e) => Err(Error::Angle(e)),
                },
            },
        },
    }
}

/// The accuracy slot of the header: `NA$$`, or 4 digits.
pub open spec fn spec_accuracy(f: Seq<u8>) -> Result<Option<u32>, Error> {
    match spec_nan(f, 4) {
        Err(e) => Err(e),
        Ok((_, v)) => Ok(v),
    }
}

/// What [`dted_uhl_parser`] returns: the 80-byte User Header Label, each
/// field read from its fixed byte range.
///
/// | bytes  | field                                   |
/// |--------|-----------------------------------------|
/// | 0..4   | sentinel `UHL1`                         |
/// | 4..12  | longitude of the origin                 |
/// | 12..20 | latitude of the origin                  |
/// | 20..24 | longitude interval, tenths of a second  |
/// | 24..28 | latitude interval, tenths of a second   |
/// | 28..32 | accuracy in metres, or `NA$$`           |
/// | 32..47 | reserved                                |
/// | 47..51 | number of longitude lines               |
/// | 51..55 | number of latitude points               |
/// | 55..80 | reserved                                |
pub open spec fn spec_uhl(s: Seq<u8>) -> Result<(Seq<u8>, RawDTEDHeader), Error> {
    if s.len() < 4 {
        Err(Error::Incomplete)
    } else if s.take(4) != RecognitionSentinel::UHL.bytes() {
        Err(Error::Tag)
    } else if s.len() < 80 {
        Err(Error::Incomplete)
    } else {
        match spec_origin_angle(s.subrange(4, 12)) {
            Err(e) => Err(e),
            Ok(lon_origin) => match spec_origin_angle(s.subrange(12, 20)) {
                Err(e) => Err(e),
                Ok(lat_origin) => match spec_digits(s.subrange(20, 24)) {
                    Err(e) => Err(e),
                    Ok(lon_interval) => match spec_digits(s.subrange(24, 28)) {
                        Err(e) => Err(e),
                        Ok(lat_interval) => match spec_accuracy(s.subrange(28, 32)) {
                            Err(e) => Err(e),
                            Ok(accuracy) => match spec_digits(s.subrange(47, 51)) {
                                Err(e) => Err(e),
                                Ok(lon_count) => match spec_digits(s.subrange(51, 55)) {
                                    Err(e) => Err(e),
                                    Ok(lat_count) => Ok(
                                        (
                                            s.skip(80),
                                            header_of(
                                                lon_origin,
                                                lat_origin,
                                                lon_interval,
                                                lat_interval,
                                                accuracy,
                                                lon_count,
                                                lat_count,
                                            ),
                                        ),
                                    ),
                                },
                            },
                        },
                    },
                },
            },
        }
    }
}

/// Decodes a whole field of decimal digits.
fn digits_field(f: &[u8]) -> (r: Result<u32, Error>)
    ensures
        r == spec_digits(f@),
{
    match uint_parser(f, f.len()) {
        Ok((_, v)) => Ok(v),
        Err(e) => Err(e),
    }
}

/// Decodes an 8-byte origin slot of the header; the hemisphere byte is
/// always consumed.
fn origin_angle_field(f: &[u8]) -> (r: Result<Angle, Error>)
    requires
        f.len() == 8,
    ensures
        r == spec_origin_angle(f@),
        r is Ok ==> r->Ok_0.wf(),
{
    let deg = match digits_field(&f[0..3]) {
        Ok(v) => v,
        Err(e) => return Err(e),
    };
    let min = match digits_field(&f[3..5]) {
        Ok(v) => v,
        Err(e) => return Err(e),
    };
    let sec = match digits_field(&f[5..7]) {
        Ok(v) => v,
        Err(e) => return Err(e),
    };
    let negative = f[7] == 0x53 || f[7] == 0x57;
    match angle_of_fields(deg, min, sec, negative) {
        Ok(a) => Ok(a),
        Err(e) => Err(Error::Angle(e)),
    }
}

/// Decodes the 80-byte User Header Label: the `UHL1` sentinel, longitude and
/// latitude of the origin (3 digits of degrees, 2 of minutes, 2 of seconds, a
/// hemisphere byte), longitude and latitude intervals (4 digits each, in
/// tenths of an arc-second), the accuracy (4 digits or `NA$$`), 15 reserved
/// bytes, longitude and latitude counts (4 digits each), 25 reserved bytes.
/// Exactly 80 bytes are consumed.
pub fn dted_uhl_parser(input: &[u8]) -> (r: Result<(&[u8], RawDTEDHeader), Error>)
    ensures
        outcome(r) == spec_uhl(input@),
        r is Ok ==> r->Ok_0.0@ == input@.skip(80),
        r is Ok ==> r->Ok_0.1.origin.lat.wf() && r->Ok_0.1.origin.lon.wf(),
{
    match tag(input, RecognitionSentinel::UHL) {
        Ok(_) => {},
        Err(e) => return Err(e),
    }
    if input.len() < 80 {
        return Err(Error::Incomplete);
    }
    let lon_origin = match origin_angle_field(&input[4..12]) {
        Ok(a) => a,
        Err(e) => return Err(e),
    };
    let lat_origin = match origin_angle_field(&input[12..20]) {
        Ok(a) => a,
        Err(e) => return Err(e),
    };
    let lon_interval = match digits_field(&input[20..24]) {
        Ok(v) => v,
        Err(e) => return Err(e),
    };
    let lat_interval = match digits_field(&input[24..28]) {
        Ok(v) => v,
        Err(e) => return Err(e),
    };
    let accuracy = match to_nan(&input[28..32], 4) {
        Ok((_, v)) => v,
        Err(e) => return Err(e),
    };
    let lon_count = match digits_field(&input[47..51]) {
        Ok(v) => v,
        Err(e) => return Err(e),
    };
    let lat_count = match digits_field(&input[51..55]) {
        Ok(v) => v,
        Err(e) => return Err(e),
    };
    proof {
        lemma_four_digits_fit(input@.subrange(20, 24));
        lemma_four_digits_fit(input@.subrange(24, 28));
        lemma_four_digits_fit(input@.subrange(47, 51));
        lemma_four_digits_fit(input@.subrange(51, 55));
        if accuracy is Some {
            lemma_four_digits_fit(input@.subrange(28, 32));
        }
    }
    let accuracy: Option<u16> = match accuracy {
        Some(v) => Some(v as u16),
        None => None,
    };
    let (_, rest) = input.split_at(80);
    Ok(
        (
            rest,
            RawDTEDHeader {
                origin: AxisElement::new(lat_origin, lon_origin),
                interval_secs_x_10: AxisElement::new(lat_interval as u16, lon_interval as u16),
                accuracy,
                count: AxisElement::new(lat_count as u16, lon_count as u16),
            },
        ),
    )
}

/// Length in bytes of a data record after its sentinel: a reserved byte, the
/// block low word, two count words, the elevations and the checksum.
pub open spec fn record_body_len(line_len: nat) -> nat {
    11 + 2 * line_len
}

/// What [`parse_dted_record`] returns.
pub open spec fn spec_record(s: Seq<u8>, line_len: nat) -> Result<(Seq<u8>, RecordModel), Error> {
    match spec_tag(s, RecognitionSentinel::DATA) {
        Err(e) => Err(e),
        Ok((b, _)) => if b.len() < record_body_len(line_len) {
            Err(Error::Incomplete)
        } else {
            Ok(
                (
                    b.skip(record_body_len(line_len) as int),
                    RecordModel {
                        blk_count: (b[0] * 0x10000 + be16(b[1], b[2])) as u32,
                        lon_count: be16(b[3], b[4]),
                        lat_count: be16(b[5], b[6]),
                        elevations: Seq::new(
                            line_len,
                            |i: int| signed_magnitude(be16(b[7 + 2 * i], b[8 + 2 * i])) as i16,
                        ),
                    },
                ),
            )
        },
    }
}

/// Decodes one data record of `line_len` elevations: the `0xAA` sentinel, the
/// high byte of the block index, the low word of the block index, the
/// longitude and latitude count words, the signed-magnitude elevations from
/// south to north, and a 4-byte checksum that is not checked.
pub fn parse_dted_record(input: &[u8], line_len: usize) -> (r: Result<(&[u8], RawDTEDRecord), Error>)
    ensures
        outcome_view(r) == spec_record(input@, line_len as nat),
{
    let (b, _) = match tag(input, RecognitionSentinel::DATA) {
        Ok(x) => x,
        Err(e) => return Err(e),
    };
    if b.len() < 11 || (b.len() - 11) / 2 < line_len {
        assert(b@.len() < record_body_len(line_len as nat));
        return Err(Error::Incomplete);
    }
    assert(b@.len() >= record_body_len(line_len as nat));
    let blk_count: u32 = b[0] as u32 * 0x10000 + (b[1] as u32 * 256 + b[2] as u32);
    let lon_count: u16 = b[3] as u16 * 256 + b[4] as u16;
    let lat_count: u16 = b[5] as u16 * 256 + b[6] as u16;
    let ghost line = Seq::new(
        line_len as nat,
        |i: int| signed_magnitude(be16(b@[7 + 2 * i], b@[8 + 2 * i])) as i16,
    );
    let mut elevations: Vec<i16> = Vec::with_capacity(line_len);
    let mut i: usize = 0;
    while i < line_len
        invariant
            0 <= i <= line_len,
            11 + 2 * line_len <= b.len(),
            elevations@ =~= line.take(i as int),
            line == Seq::new(
                line_len as nat,
                |i: int| signed_magnitude(be16(b@[7 + 2 * i], b@[8 + 2 * i])) as i16,
            ),
        decreases line_len - i,
    {
        let w: u16 = b[7 + 2 * i] as u16 * 256 + b[8 + 2 * i] as u16;
        assert(w == be16(b@[7 + 2 * i], b@[8 + 2 * i]));
        let e = to_i16(w);
        assert(e == line[i as int]);
        elevations.push(e);
        i = i + 1;
    }
    assert(line.take(line_len as int) =~= line);
    assert(blk_count == (b@[0] * 0x10000 + be16(b@[1], b@[2])) as u32);
    assert(lon_count == be16(b@[3], b@[4]));
    assert(lat_count == be16(b@[5], b@[6]));
    let (_, rest) = b.split_at(11 + 2 * line_len);
    Ok((rest, RawDTEDRecord { blk_count, lon_count, lat_count, elevations }))
}

/// What [`parse_dted_file`]'s loop returns: `n` records of `line_len`
/// elevations, back to back.
pub open spec fn spec_records(s: Seq<u8>, n: nat, line_len: nat) -> Result<(Seq<u8>, Seq<RecordModel>), Error>
    decreases n,
{
    if n == 0 {
        Ok((s, Seq::empty()))
    } else {
        match spec_records(s, (n - 1) as nat, line_len) {
            Err(e) => Err(e),
            Ok((rest, records)) => match spec_record(rest, line_len) {
                Err(e) => Err(e),
                Ok((rest2, record)) => Ok((rest2, records.push(record))),
            },
        }
    }
}

/// Once a record fails, so does every longer run of records, with the same error.
proof fn lemma_records_error_persists(s: Seq<u8>, k: nat, n: nat, line_len: nat)
    requires
        k <= n,
        spec_records(s, k, line_len) is Err,
    ensures
        spec_records(s, n, line_len) == spec_records(s, k, line_len),
    decreases n,
{
    if n > k {
        lemma_records_error_persists(s, k, (n - 1) as nat, line_len);
    }
}

/// Length in bytes of a whole data record of `line_len` elevations.
pub open spec fn record_len(line_len: nat) -> nat {
    1 + record_body_len(line_len)
}

/// Records follow one another at fixed offsets: `n` records decode exactly
/// when the input holds `n` whole records, each starting with the `0xAA`
/// sentinel, and record `k` is then the one decoded at offset `k * R`, where
/// `R` is the length of one record.
pub proof fn lemma_records_at_offsets(s: Seq<u8>, n: nat, line_len: nat)
    ensures
        (spec_records(s, n, line_len) is Ok) == (s.len() >= n * record_len(line_len) && forall|k: int|
            0 <= k < n ==> #[trigger] s[k * record_len(line_len)] == 0xAAu8),
        spec_records(s, n, line_len) is Ok ==> ({
            let (rest, records) = spec_records(s, n, line_len)->Ok_0;
            &&& rest == s.skip((n * record_len(line_len)) as int)
            &&& records.len() == n
            &&& forall|k: int|
                0 <= k < n ==> #[trigger] records[k] == spec_record(
                    s.skip(k * record_len(line_len)),
                    line_len,
                )->Ok_0.1
        }),
    decreases n,
{
    let r: int = record_len(line_len) as int;
    if n == 0 {
        assert(s.skip(0) =~= s);
    } else {
        let m: int = n - 1;
        lemma_records_at_offsets(s, m as nat, line_len);
        assert(m * r + r == n * r) by (nonlinear_arith)
            requires
                m + 1 == n,
        ;
        assert(0 <= m * r) by (nonlinear_arith)
            requires
                0 <= m,
                0 <= r,
        ;
        if spec_records(s, m as nat, line_len) is Ok {
            let (rest, records) = spec_records(s, m as nat, line_len)->Ok_0;
            assert(rest.len() == s.len() - m * r);
            if rest.len() >= 1 {
                assert(rest[0] == s[m * r]);
                if rest[0] == 0xAAu8 {
                    assert(rest.take(1) =~= RecognitionSentinel::DATA.bytes());
                } else {
                    assert(rest.take(1)[0] != RecognitionSentinel::DATA.bytes()[0]);
                }
            }
            if spec_records(s, n, line_len) is Ok {
                let b = rest.skip(1);
                assert(b.skip(record_body_len(line_len) as int) =~= s.skip(n * r));
                let (_, all) = spec_records(s, n, line_len)->Ok_0;
                assert forall|k: int| 0 <= k < n implies #[trigger] all[k] == spec_record(
                    s.skip(k * r),
                    line_len,
                )->Ok_0.1 by {
                    if k < m {
                        assert(all[k] == records[k]);
                    }
                }
                assert forall|k: int| 0 <= k < n implies #[trigger] s[k * r] == 0xAAu8 by {
                    if k < m {
                        assert(s[k * r] == 0xAAu8);
                    }
                }
            } else if s.len() >= n * r {
                assert(s[m * r] != 0xAAu8);
            }
        } else {
            if s.len() >= n * r {
                assert(s.len() >= m * r) by (nonlinear_arith)
                    requires
                        s.len() >= n * r,
                        m < n,
                        r >= 0,
                ;
                let k = choose|k: int| 0 <= k < m && #[trigger] s[k * r] != 0xAAu8;
                assert(s[k * r] != 0xAAu8);
            }
        }
    }
}

/// What [`parse_dted_file`] returns: the header, then the two opaque
/// metadata blocks skipped, then one record per longitude line.
pub open spec fn spec_file(s: Seq<u8>) -> Result<(Seq<u8>, (RawDTEDHeader, Seq<RecordModel>)), Error> {
    match spec_uhl(s) {
        Err(e) => Err(e),
        Ok((s1, header)) => match spec_take(s1, DT2_DSI_RECORD_LENGTH as nat) {
            Err(e) => Err(e),
            Ok((s2, _)) => match spec_take(s2, DT2_ACC_RECORD_LENGTH as nat) {
                Err(e) => Err(e),
                Ok((s3, _)) => match spec_records(
                    s3,
                    header.count.lon as nat,
                    header.count.lat as nat,
                ) {
                    Err(e) => Err(e),
                    Ok((s4, records)) => if s4.len() > 0 {
                        Err(Error::TrailingBytes)
                    } else {
                        Ok((s4, (header, records)))
                    },
                },
            },
        },
    }
}

/// Offset of the first data record: after the header and the two metadata blocks.
pub open spec fn records_start() -> int {
    80 + DT2_DSI_RECORD_LENGTH + DT2_ACC_RECORD_LENGTH
}

/// A file is laid out at fixed offsets. Once its header decodes, the file
/// decodes exactly when it is `3428 + n * R` bytes long (`n` longitude lines,
/// `R` bytes per record) and each record starts with `0xAA`; record `k` is
/// then the one decoded at offset `3428 + k * R`. The metadata blocks are
/// not read.
pub proof fn lemma_file_layout(s: Seq<u8>)
    ensures
        spec_uhl(s) is Err ==> spec_file(s) == Err::<(Seq<u8>, (RawDTEDHeader, Seq<RecordModel>)), Error>(
            spec_uhl(s)->Err_0,
        ),
        spec_uhl(s) is Ok ==> ({
            let h = spec_uhl(s)->Ok_0.1;
            let n = h.count.lon as nat;
            let line_len = h.count.lat as nat;
            let r = record_len(line_len) as int;
            &&& (spec_file(s) is Ok) == (s.len() == records_start() + n * r && forall|k: int|
                0 <= k < n ==> #[trigger] s[records_start() + k * r] == 0xAAu8)
            &&& spec_file(s) is Ok ==> ({
                let (header, records) = spec_file(s)->Ok_0.1;
                &&& header == h
                &&& records.len() == n
                &&& forall|k: int|
                    0 <= k < n ==> #[trigger] records[k] == spec_record(
                        s.skip(records_start() + k * r),
                        line_len,
                    )->Ok_0.1
            })
        }),
{
    if spec_uhl(s) is Ok {
        let h = spec_uhl(s)->Ok_0.1;
        let n = h.count.lon as nat;
        let line_len = h.count.lat as nat;
        let r = record_len(line_len) as int;
        assert(0 <= n * r) by (nonlinear_arith)
            requires
                0 <= n,
                0 <= r,
        ;
        let s1 = s.skip(80);
        if s.len() >= records_start() {
            let s3 = s1.skip(648).skip(2700);
            assert(s3 =~= s.skip(records_start()));
            lemma_records_at_offsets(s3, n, line_len);
            assert forall|k: int|
                0 <= k < n && s3.len() >= n * r implies #[trigger] s3[k * r] == s[records_start() + k
                * r] by {
                assert(0 <= k * r && k * r + r <= n * r) by (nonlinear_arith)
                    requires
                        0 <= k < n,
                        0 < r,
                ;
            }
            if spec_file(s) is Ok {
                let (_, records) = spec_file(s)->Ok_0.1;
                assert forall|k: int| 0 <= k < n implies #[trigger] records[k] == spec_record(
                    s.skip(records_start() + k * r),
                    line_len,
                )->Ok_0.1 by {
                    assert(0 <= k * r && k * r + r <= n * r) by (nonlinear_arith)
                        requires
                            0 <= k < n,
                            0 < r,
                    ;
                    assert(s3.skip(k * r) =~= s.skip(records_start() + k * r));
                }
                assert forall|k: int| 0 <= k < n implies #[trigger] s[records_start() + k * r] == 0xAAu8 by {
                    assert(s3[k * r] == 0xAAu8);
                }
            } else if s.len() == records_start() + n * r {
                if spec_records(s3, n, line_len) is Ok {
                    assert(spec_records(s3, n, line_len)->Ok_0.0.len() == 0);
                } else {
                    let k = choose|k: int| 0 <= k < n && #[trigger] s3[k * r] != 0xAAu8;
                    assert(s[records_start() + k * r] != 0xAAu8);
                }
            } else if spec_records(s3, n, line_len) is Ok && s.len() > records_start() + n * r {
                assert(spec_records(s3, n, line_len)->Ok_0.0.len() > 0);
            }
        }
    }
}

/// Decodes a whole DTED file; fails when bytes are left after the last
/// record, so the rest returned is always empty.
pub fn parse_dted_file(input: &[u8]) -> (r: Result<(&[u8], RawDTEDFile), Error>)
    ensures
        outcome_view(r) == spec_file(input@),
        r is Ok ==> r->Ok_0.0@.len() == 0,
        r is Ok ==> r->Ok_0.1.wf() && r->Ok_0.1.dsi_record is None && r->Ok_0.1.acc_record is None,
{
    let (after_header, header) = match dted_uhl_parser(input) {
        Ok(x) => x,
        Err(e) => return Err(e),
    };
    let (after_dsi, _) = match take(after_header, DT2_DSI_RECORD_LENGTH) {
        Ok(x) => x,
        Err(e) => return Err(e),
    };
    let (start, _) = match take(after_dsi, DT2_ACC_RECORD_LENGTH) {
        Ok(x) => x,
        Err(e) => return Err(e),
    };
    let line_len: usize = header.count.lat as usize;
    let mut rest: &[u8] = start;
    let mut data: Vec<RawDTEDRecord> = Vec::new();
    let mut i: u16 = 0;
    assert(record_models(data@) =~= Seq::<RecordModel>::empty());
    while i < header.count.lon
        invariant
            0 <= i <= header.count.lon,
            data@.len() == i,
            spec_file(input@) == match spec_records(
                start@,
                header.count.lon as nat,
                header.count.lat as nat,
            ) {
                Err(e) => Err(e),
                Ok((s4, records)) => if s4.len() > 0 {
                    Err(Error::TrailingBytes)
                } else {
                    Ok((s4, (header, records)))
                },
            },
            line_len == header.count.lat,
            spec_records(start@, i as nat, line_len as nat) == Ok::<
                (Seq<u8>, Seq<RecordModel>),
                Error,
            >((rest@, record_models(data@))),
            forall|k: int| 0 <= k < data@.len() ==> (#[trigger] data@[k]).elevations@.len() == line_len,
        decreases header.count.lon - i,
    {
        match parse_dted_record(rest, line_len) {
            Ok((next, record)) => {
                proof {
                    assert(record_models(data@.push(record)) =~= record_models(data@).push(record@));
                }
                data.push(record);
                rest = next;
            },
            Err(e) => {
                proof {
                    assert(spec_records(start@, (i + 1) as nat, line_len as nat) == Err::<
                        (Seq<u8>, Seq<RecordModel>),
                        Error,
                    >(e));
                    lemma_records_error_persists(
                        start@,
                        (i + 1) as nat,
                        header.count.lon as nat,
                        line_len as nat,
                    );
                }
                return Err(e);
            },
        }
        i = i + 1;
    }
    if rest.len() > 0 {
        return Err(Error::TrailingBytes);
    }
    Ok((rest, RawDTEDFile { header, data, dsi_record: None, acc_record: None }))
}

} // verus!
