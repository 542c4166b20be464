use dted2::dted::RecognitionSentinel;
use dted2::parsers::{
    be_u16, dted_uhl_parser, hemisphere, parse_dted_record, signed_mag_parser, tag, take, to_angle, to_i16,
    to_nan, to_uint, u32_parser, uint_parser, uint_parser_with_default,
};
use dted2::primitives::{Angle, AngleError};
use dted2::Error;

fn header_bytes(lon: &str, lat: &str, lon_int: &str, lat_int: &str, acc: &str, lon_cnt: &str, lat_cnt: &str) -> Vec<u8> {
    let mut v = Vec::new();
    v.extend_from_slice(b"UHL1");
    v.extend_from_slice(lon.as_bytes());
    v.extend_from_slice(lat.as_bytes());
    v.extend_from_slice(lon_int.as_bytes());
    v.extend_from_slice(lat_int.as_bytes());
    v.extend_from_slice(acc.as_bytes());
    v.extend_from_slice(&[b' '; 15]);
    v.extend_from_slice(lon_cnt.as_bytes());
    v.extend_from_slice(lat_cnt.as_bytes());
    v.extend_from_slice(&[b' '; 25]);
    v
}

#[test]
fn signed_magnitude_values() {
    assert_eq!(to_i16(0x0000), 0);
    assert_eq!(to_i16(0x0003), 3);
    assert_eq!(to_i16(0x8003), -3);
    assert_eq!(to_i16(0x7fff), 32767);
    assert_eq!(to_i16(0xffff), -32767);
    assert_eq!(to_i16(0x8000), 0);
}

#[test]
fn signed_magnitude_parser_reads_big_endian() {
    assert_eq!(signed_mag_parser(&[0x80, 0x03, 0x11]).unwrap(), (&[0x11u8][..], -3));
    assert_eq!(signed_mag_parser(&[0x01, 0x02]).unwrap(), (&[][..], 258));
    assert!(matches!(signed_mag_parser(&[0x01]), Err(Error::Incomplete)));
    assert_eq!(be_u16(&[0xAB, 0xCD]).unwrap(), (&[][..], 0xABCD));
}

#[test]
fn not_available_decode() {
    assert_eq!(to_nan(b"NA$$", 4).unwrap(), (&b""[..], None));
    assert_eq!(to_nan(b"1234", 4).unwrap(), (&b""[..], Some(1234)));
    assert_eq!(to_nan(b"12345", 4).unwrap(), (&b"5"[..], Some(1234)));
    assert!(matches!(to_nan(b"NA$1", 4), Err(Error::Digit)));
    assert!(matches!(to_nan(b"12A4", 4), Err(Error::Digit)));
    assert!(matches!(to_nan(b"NA$", 4), Err(Error::Incomplete)));
}

#[test]
fn decimal_fields() {
    assert_eq!(u32_parser(b"123"), 123);
    assert_eq!(u32_parser(b""), 0);
    assert_eq!(to_uint(b"0042"), Some(42));
    assert_eq!(to_uint(b"12a"), None);
    assert_eq!(to_uint(b"4294967295"), Some(u32::MAX));
    assert_eq!(to_uint(b"4294967296"), None);
    assert_eq!(uint_parser(b"123", 3).unwrap(), (&b""[..], 123));
    assert_eq!(uint_parser(b"12345", 2).unwrap(), (&b"345"[..], 12));
    assert!(matches!(uint_parser(b"1x3", 3), Err(Error::Digit)));
    assert!(matches!(uint_parser(b"12", 3), Err(Error::Incomplete)));
    assert_eq!(uint_parser_with_default(b"123", 3, 0).unwrap(), (&b""[..], 123));
    assert_eq!(uint_parser_with_default(b"123", 0, 7).unwrap(), (&b"123"[..], 7));
}

#[test]
fn hemisphere_letters() {
    assert_eq!(hemisphere(b"Nx"), (&b"x"[..], false));
    assert_eq!(hemisphere(b"E"), (&b""[..], false));
    assert_eq!(hemisphere(b"S"), (&b""[..], true));
    assert_eq!(hemisphere(b"W1"), (&b"1"[..], true));
    assert_eq!(hemisphere(b"1"), (&b"1"[..], false));
    assert_eq!(hemisphere(b""), (&b""[..], false));
}

#[test]
fn angle_fields() {
    let (rest, a) = to_angle(b"12345", 3, 1, 1).unwrap();
    assert!(rest.is_empty());
    assert_eq!(a, Angle::new(123, 4, 5_000, false).unwrap());
    let (_, a) = to_angle(b"12345W", 3, 1, 1).unwrap();
    assert_eq!(a, Angle::new(123, 4, 5_000, true).unwrap());
    let (rest, a) = to_angle(b"0420000N...", 3, 2, 2).unwrap();
    assert_eq!(rest, b"...");
    assert_eq!(a, Angle::new(42, 0, 0, false).unwrap());
    let (_, a) = to_angle(b"7", 1, 0, 0).unwrap();
    assert_eq!(a, Angle::new(7, 0, 0, false).unwrap());
    assert!(matches!(to_angle(b"0426000N", 3, 2, 2), Err(Error::Angle(AngleError::MinutesUpperBoundBreached))));
    assert!(matches!(to_angle(b"0420060N", 3, 2, 2), Err(Error::Angle(AngleError::SecondsUpperBoundBreached))));
    assert!(matches!(
        to_angle(b"65536S", 5, 0, 0),
        Err(Error::Angle(AngleError::TooLarge(-235_929_600_000)))
    ));
    assert!(matches!(to_angle(b"04A0000N", 3, 2, 2), Err(Error::Digit)));
    assert!(matches!(to_angle(b"04200", 3, 2, 2), Err(Error::Incomplete)));
}

#[test]
fn sentinels() {
    assert_eq!(RecognitionSentinel::UHL.value(), b"UHL1".to_vec());
    assert_eq!(RecognitionSentinel::DSI.value(), b"DSIU".to_vec());
    assert_eq!(RecognitionSentinel::ACC.value(), b"ACC".to_vec());
    assert_eq!(RecognitionSentinel::DATA.value(), vec![0xAA]);
    assert_eq!(RecognitionSentinel::NA.value(), b"NA".to_vec());
    assert!(matches!(tag(b"DSI", RecognitionSentinel::UHL), Err(Error::Incomplete)));
    assert!(matches!(tag(b"xxxUHL1xxx", RecognitionSentinel::UHL), Err(Error::Tag)));
    assert_eq!(tag(b"UHL1xy", RecognitionSentinel::UHL).unwrap(), (&b"xy"[..], ()));
    assert_eq!(take(b"abcdef", 4).unwrap(), (&b"ef"[..], &b"abcd"[..]));
    assert!(matches!(take(b"abc", 4), Err(Error::Incomplete)));
}

#[test]
fn header_round_trip() {
    let bytes = header_bytes("0150000E", "0420000N", "0010", "0010", "NA$$", "3601", "3601");
    assert_eq!(bytes.len(), 80);
    let (rest, h) = dted_uhl_parser(&bytes).unwrap();
    assert!(rest.is_empty());
    assert_eq!(h.origin.lat, Angle::new(42, 0, 0, false).unwrap());
    assert_eq!(h.origin.lon, Angle::new(15, 0, 0, false).unwrap());
    assert_eq!(h.interval_secs_x_10.lat, 10);
    assert_eq!(h.interval_secs_x_10.lon, 10);
    assert_eq!(h.accuracy, None);
    assert_eq!(h.count.lat, 3601);
    assert_eq!(h.count.lon, 3601);
}

#[test]
fn header_fields_in_order() {
    let mut bytes = header_bytes("1234530W", "0012000S", "0030", "0020", "0025", "0121", "1201");
    bytes.extend_from_slice(b"tail");
    let (rest, h) = dted_uhl_parser(&bytes).unwrap();
    assert_eq!(rest, b"tail");
    assert_eq!(h.origin.lon, Angle::new(123, 45, 30_000, true).unwrap());
    assert_eq!(h.origin.lat, Angle::new(1, 20, 0, true).unwrap());
    assert_eq!((h.interval_secs_x_10.lon, h.interval_secs_x_10.lat), (30, 20));
    assert_eq!(h.accuracy, Some(25));
    assert_eq!((h.count.lon, h.count.lat), (121, 1201));
}

#[test]
fn header_errors() {
    let good = header_bytes("0150000E", "0420000N", "0010", "0010", "NA$$", "3601", "3601");
    assert!(matches!(dted_uhl_parser(&good[..79]), Err(Error::Incomplete)));
    assert!(matches!(dted_uhl_parser(&good[..2]), Err(Error::Incomplete)));
    let mut bad_tag = good.clone();
    bad_tag[3] = b'2';
    assert!(matches!(dted_uhl_parser(&bad_tag), Err(Error::Tag)));
    let bad_digit = header_bytes("0150000E", "0420000N", "00x0", "0010", "NA$$", "3601", "3601");
    assert!(matches!(dted_uhl_parser(&bad_digit), Err(Error::Digit)));
    let bad_minutes = header_bytes("0157000E", "0420000N", "0010", "0010", "NA$$", "3601", "3601");
    assert!(matches!(dted_uhl_parser(&bad_minutes), Err(Error::Angle(AngleError::MinutesUpperBoundBreached))));
}

#[test]
fn header_hemisphere_slot_is_always_one_byte() {
    // both hemisphere letters left out: 78 bytes, not a whole header
    let mut short = Vec::new();
    short.extend_from_slice(b"UHL1");
    short.extend_from_slice(b"0150000");
    short.extend_from_slice(b"0420000");
    short.extend_from_slice(b"00100010NA$$");
    short.extend_from_slice(&[b' '; 15]);
    short.extend_from_slice(b"36013601");
    short.extend_from_slice(&[b' '; 25]);
    assert_eq!(short.len(), 78);
    assert!(matches!(dted_uhl_parser(&short), Err(Error::Incomplete)));
    // a blank hemisphere byte is consumed and reads as positive
    let mut bytes = header_bytes("0150000 ", "0420000 ", "0010", "0020", "0007", "0121", "0101");
    bytes.extend_from_slice(b"xy");
    let (rest, h) = dted_uhl_parser(&bytes).unwrap();
    assert_eq!(rest, b"xy");
    assert_eq!(h.origin.lon, Angle::new(15, 0, 0, false).unwrap());
    assert_eq!(h.origin.lat, Angle::new(42, 0, 0, false).unwrap());
    assert_eq!((h.interval_secs_x_10.lon, h.interval_secs_x_10.lat), (10, 20));
    assert_eq!(h.accuracy, Some(7));
    assert_eq!((h.count.lon, h.count.lat), (121, 101));
}

#[test]
fn record_decode() {
    let bytes = [0xAA, 0x01, 0x00, 0x02, 0x00, 0x05, 0x00, 0x03, 0x00, 0x0A, 0x80, 0x0A, 0x7F, 0xFF, 1, 2, 3, 4, 0x99];
    let (rest, r) = parse_dted_record(&bytes, 3).unwrap();
    assert_eq!(rest, &[0x99]);
    assert_eq!(r.blk_count, 65538);
    assert_eq!(r.lon_count, 5);
    assert_eq!(r.lat_count, 3);
    assert_eq!(r.elevations, vec![10, -10, 32767]);
    assert!(matches!(parse_dted_record(&bytes[..17], 3), Err(Error::Incomplete)));
    assert!(matches!(parse_dted_record(&bytes[1..], 3), Err(Error::Tag)));
    assert!(matches!(parse_dted_record(&[], 3), Err(Error::Incomplete)));
}
