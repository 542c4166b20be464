use dted2::dted::{Elevation, GridIndex, RawDTEDFile, RawDTEDHeader, RawDTEDRecord};
use dted2::parsers::parse_dted_file;
use dted2::primitives::{Angle, AngleError, AxisElement};
use dted2::{DTEDData, Error};

/// Encodes a value as signed magnitude, big endian.
fn signed_magnitude(e: i16) -> [u8; 2] {
    let w: u16 = if e < 0 { 0x8000 | (-(e as i32)) as u16 } else { e as u16 };
    w.to_be_bytes()
}

/// A whole file: 42N 15E origin, the given spacing (tenths of an arc-second)
/// and counts, and elevations from `elev(lon_index, lat_index)`.
fn file_bytes(interval: u16, lon_count: u16, lat_count: u16, elev: &dyn Fn(usize, usize) -> i16) -> Vec<u8> {
    let mut v = Vec::new();
    v.extend_from_slice(b"UHL1");
    v.extend_from_slice(b"0150000E");
    v.extend_from_slice(b"0420000N");
    let interval = format!("{:04}", interval);
    v.extend_from_slice(interval.as_bytes());
    v.extend_from_slice(interval.as_bytes());
    v.extend_from_slice(b"NA$$");
    v.extend_from_slice(&[b' '; 15]);
    v.extend_from_slice(format!("{:04}", lon_count).as_bytes());
    v.extend_from_slice(format!("{:04}", lat_count).as_bytes());
    v.extend_from_slice(&[b' '; 25]);
    v.resize(80 + 648 + 2700, b' ');
    for i in 0..lon_count as usize {
        v.push(0xAA);
        v.push(0);
        v.extend_from_slice(&(i as u16).to_be_bytes());
        v.extend_from_slice(&(i as u16).to_be_bytes());
        v.extend_from_slice(&0u16.to_be_bytes());
        for j in 0..lat_count as usize {
            v.extend_from_slice(&signed_magnitude(elev(i, j)));
        }
        v.extend_from_slice(&[0, 0, 0, 0]);
    }
    v
}

fn angle(deg: u16, min: u8, sec: i32) -> Angle {
    Angle::new(deg, min, sec, false).unwrap()
}

fn value(e: Elevation) -> f64 {
    e.numerator as f64 / e.denominator as f64
}

#[test]
fn test_input_data() {
    let content = file_bytes(10, 3601, 3601, &|i, j| ((i * 7 + j) % 3000) as i16);
    let data = DTEDData::decode(&content, "tests/test_data.dt2").unwrap();
    assert_eq!(data.metadata.origin_angle.lat.deg, 42);
    assert_eq!(data.metadata.origin_angle.lat.min, 0);
    assert_eq!(data.metadata.origin_angle.lat.sec as f64 / 1000.0, 0.0);
    assert_eq!(data.metadata.origin_angle.lon.deg, 15);
    assert_eq!(data.metadata.origin_angle.lon.min, 0);
    assert_eq!(data.metadata.origin_angle.lon.sec as f64 / 1000.0, 0.0);
    assert_eq!(data.metadata.interval_secs_x_10.lat as f64 / 36000.0, 10.0 / 36000.0);
    assert_eq!(data.metadata.interval_secs_x_10.lat as f32 / 10.0, 1.0);
    assert_eq!(data.metadata.interval_secs_x_10.lon as f64 / 36000.0, 10.0 / 36000.0);
    assert_eq!(data.metadata.interval_secs_x_10.lon as f32 / 10.0, 1.0);
    assert_eq!(data.metadata.count.lat, 3601);
    assert_eq!(data.metadata.count.lon, 3601);
    assert_eq!(data.metadata.filename, "tests/test_data.dt2");
    assert_eq!(data.data.len(), 3601);
    assert_eq!(data.data[3600].elevations[3600], ((3600 * 7 + 3600) % 3000) as i16);
}

#[test]
fn test_read_header_only() {
    // the User Header Label of a 3601 x 3601 file, followed by its metadata blocks
    let mut content = file_bytes(10, 0, 0, &|_, _| 0);
    content[47..55].copy_from_slice(b"36013601");
    let header = DTEDData::decode_header(&content, "tests/test_data.dt2").unwrap();
    assert_eq!(header.origin_angle.lat.deg, 42);
    assert_eq!(header.origin_angle.lat.min, 0);
    assert_eq!(header.origin_angle.lat.sec as f64 / 1000.0, 0.0);
    assert_eq!(header.origin_angle.lon.deg, 15);
    assert_eq!(header.origin_angle.lon.min, 0);
    assert_eq!(header.origin_angle.lon.sec as f64 / 1000.0, 0.0);
    assert_eq!(header.interval_secs_x_10.lat as f64 / 36000.0, 10.0 / 36000.0);
    assert_eq!(header.interval_secs_x_10.lat as f32 / 10.0, 1.0);
    assert_eq!(header.interval_secs_x_10.lon as f64 / 36000.0, 10.0 / 36000.0);
    assert_eq!(header.interval_secs_x_10.lon as f32 / 10.0, 1.0);
    assert_eq!(header.count.lat, 3601);
    assert_eq!(header.count.lon, 3601);
    assert_eq!(header.accuracy, None);
    assert_eq!(header.filename, "tests/test_data.dt2");
    let first_80 = DTEDData::decode_header(&content[..80], "x").unwrap();
    assert_eq!(first_80.count.lat, 3601);
    assert!(matches!(DTEDData::decode_header(&content[..79], "x"), Err(Error::Incomplete)));
}

#[test]
fn bounds_of_full_grid() {
    let content = file_bytes(10, 3601, 3601, &|i, j| ((i + j) % 500) as i16);
    let data = DTEDData::decode(&content, "grid").unwrap();
    assert!(data.is_well_formed());
    assert_eq!(data.min.lat, angle(42, 0, 0));
    assert_eq!(data.max.lat, angle(43, 0, 0));
    assert_eq!(data.max.lon, angle(16, 0, 0));
    assert!(data.get_elevation(angle(42, 0, 0), angle(15, 0, 0)).is_some());
    assert!(data.get_elevation(angle(0, 0, 0), angle(0, 0, 0)).is_none());
    assert!(data.get_elevation(angle(42, 31, 12_000), angle(15, 45, 0)).is_some());
    assert!(data.get_elevation(angle(43, 0, 1), angle(15, 30, 0)).is_none());
    assert!(data.get_elevation(angle(42, 30, 0), angle(14, 59, 59_999)).is_none());
    assert!(data.get_indices(angle(0, 0, 0), angle(0, 0, 0)).is_none());
}

#[test]
fn elevation_on_the_upper_bounds() {
    let content = file_bytes(10, 3, 4, &|i, j| (100 * i + j) as i16);
    let data = DTEDData::decode(&content, "grid").unwrap();
    let e = data.get_elevation(data.max.lat, data.max.lon).unwrap();
    assert_eq!(e.numerator, 203 * e.denominator as i64);
    let e = data.get_elevation(data.max.lat, data.min.lon).unwrap();
    assert_eq!(value(e), 3.0);
    let e = data.get_elevation(data.min.lat, data.max.lon).unwrap();
    assert_eq!(value(e), 200.0);
    let e = data.get_elevation(data.min.lat, data.min.lon).unwrap();
    assert_eq!(value(e), 0.0);
}

#[test]
fn elevation_at_grid_points() {
    let content = file_bytes(20, 3, 4, &|i, j| (100 * i + j) as i16 - 150);
    let data = DTEDData::decode(&content, "grid").unwrap();
    for i in 0..3u16 {
        for j in 0..4u16 {
            let lat = angle(42, 0, 2_000 * j as i32);
            let lon = angle(15, 0, 2_000 * i as i32);
            let e = data.get_elevation(lat, lon).unwrap();
            assert_eq!(e.denominator, 4_000_000);
            assert_eq!(e.numerator, (100 * i as i64 + j as i64 - 150) * 4_000_000);
        }
    }
}

#[test]
fn bilinear_centre_is_mean() {
    let corners = [[0i16, 10], [20, 30]];
    let content = file_bytes(10, 2, 2, &|i, j| corners[i][j]);
    let data = DTEDData::decode(&content, "grid").unwrap();
    let e = data.get_elevation(angle(42, 0, 500), angle(15, 0, 500)).unwrap();
    assert_eq!(e.denominator, 1_000_000);
    assert_eq!(e.numerator, 15_000_000);
    assert_eq!(value(e), 15.0);
}

#[test]
fn bilinear_exact_weights() {
    let corners = [[0i16, 10], [20, 30]];
    let content = file_bytes(10, 2, 2, &|i, j| corners[i][j]);
    let data = DTEDData::decode(&content, "grid").unwrap();
    // latitude a quarter of the way, longitude three quarters of the way
    let e = data.get_elevation(angle(42, 0, 250), angle(15, 0, 750)).unwrap();
    // 0*.25*.75 + 10*.25*.25 + 20*.75*.75 + 30*.75*.25 = 17.5
    assert_eq!(value(e), 17.5);
    assert_eq!(e, Elevation { numerator: 17_500_000, denominator: 1_000_000 });
    let e = data.get_elevation(angle(42, 0, 0), angle(15, 0, 1_000)).unwrap();
    assert_eq!(value(e), 20.0);
    let negative = file_bytes(10, 2, 2, &|_, _| -5);
    let data = DTEDData::decode(&negative, "grid").unwrap();
    assert_eq!(value(data.get_elevation(angle(42, 0, 333), angle(15, 0, 10)).unwrap()), -5.0);
}

#[test]
fn grid_indices() {
    let content = file_bytes(30, 3, 3, &|_, _| 0);
    let data = DTEDData::decode(&content, "grid").unwrap();
    let (lat, lon) = data.get_indices(angle(42, 0, 4_500), angle(15, 0, 6_000)).unwrap();
    assert_eq!(lat, GridIndex { index: 1, offset: 1_500, step: 3_000 });
    assert_eq!(lon, GridIndex { index: 2, offset: 0, step: 3_000 });
}

#[test]
fn file_decode_errors() {
    let content = file_bytes(10, 2, 2, &|_, _| 1);
    let mut longer = content.clone();
    longer.push(0);
    assert!(matches!(DTEDData::decode(&longer, "grid"), Err(Error::TrailingBytes)));
    assert!(matches!(DTEDData::decode(&content[..content.len() - 1], "grid"), Err(Error::Incomplete)));
    assert!(matches!(DTEDData::decode(&content[..1000], "grid"), Err(Error::Incomplete)));
    let mut bad_record = content.clone();
    bad_record[80 + 648 + 2700 + 16] = 0xAB;
    assert!(matches!(DTEDData::decode(&bad_record, "grid"), Err(Error::Tag)));
    assert!(matches!(parse_dted_file(&longer), Err(Error::TrailingBytes)));
    let (rest, file) = parse_dted_file(&content).unwrap();
    assert!(rest.is_empty());
    assert_eq!(file.data.len(), 2);
    assert_eq!(file.data[1].elevations, vec![1, 1]);
    let mut no_records = file_bytes(10, 0, 2, &|_, _| 0);
    no_records.push(0);
    assert!(matches!(parse_dted_file(&no_records), Err(Error::TrailingBytes)));
}

#[test]
fn degenerate_grids_have_no_cells() {
    let single = file_bytes(10, 1, 1, &|_, _| 7);
    let data = DTEDData::decode(&single, "grid").unwrap();
    assert!(data.get_elevation(angle(42, 0, 0), angle(15, 0, 0)).is_none());
    let flat = file_bytes(0, 2, 2, &|_, _| 7);
    let data = DTEDData::decode(&flat, "grid").unwrap();
    assert!(data.get_indices(angle(42, 0, 0), angle(15, 0, 0)).is_none());
    assert!(data.get_elevation(angle(42, 0, 0), angle(15, 0, 0)).is_none());
}

#[test]
fn bounds_beyond_the_angle_range() {
    let origin = AxisElement::new(angle(65535, 0, 0), angle(0, 0, 0));
    let record = RawDTEDRecord { blk_count: 0, lon_count: 0, lat_count: 0, elevations: vec![0, 0] };
    let raw = RawDTEDFile {
        header: RawDTEDHeader {
            origin,
            interval_secs_x_10: AxisElement::new(36000, 10),
            accuracy: Some(3),
            count: AxisElement::new(2, 2),
        },
        data: vec![record.clone(), record],
        dsi_record: None,
        acc_record: None,
    };
    assert!(matches!(
        DTEDData::from_raw(raw, "grid"),
        Err(Error::Angle(AngleError::TooLarge(235_929_600_000)))
    ));
}
