//! The entities decoded from a DTED file, and the elevation grid built from them.
//!
//! The main entry point is [`DTEDData`].
use vstd::prelude::*;

use crate::parsers::{dted_uhl_parser, parse_dted_file, spec_file, spec_uhl};
use crate::primitives::{Angle, AngleError, AxisElement, both_axes, lemma_from_total_wf};
use crate::Error;

verus! {

/// User Header Label (UHL) length, in bytes.
pub const DT2_UHL_LENGTH: u64 = 80;

/// Data Set Identification (DSI) record length, in bytes.
pub const DT2_DSI_RECORD_LENGTH: usize = 648;

/// Accuracy Description (ACC) record length, in bytes.
pub const DT2_ACC_RECORD_LENGTH: usize = 2700;

/// Literal byte sequences that mark the parts of a DTED file.
#[derive(Debug, Clone, Copy, PartialEq, Eq, Structural)]
pub enum RecognitionSentinel {
    /// User Header Label: `UHL1`.
    UHL,
    /// Data Set Identification: `DSIU`.
    DSI,
    /// Accuracy Description: `ACC`.
    ACC,
    /// Data record: the single byte `0xAA`.
    DATA,
    /// Not available: `NA`.
    NA,
}

impl RecognitionSentinel {
    /// The bytes of the sentinel.
    pub open spec fn bytes(self) -> Seq<u8> {
        match self {
            RecognitionSentinel::UHL => seq![0x55u8, 0x48u8, 0x4Cu8, 0x31u8],
            RecognitionSentinel::DSI => seq![0x44u8, 0x53u8, 0x49u8, 0x55u8],
            RecognitionSentinel::ACC => seq![0x41u8, 0x43u8, 0x43u8],
            RecognitionSentinel::DATA => seq![0xAAu8],
            RecognitionSentinel::NA => seq![0x4Eu8, 0x41u8],
        }
    }

    /// Returns the bytes of the sentinel.
    pub fn value(&self) -> (r: Vec<u8>)
        ensures
            r@ == self.bytes(),
    {
        let r = match self {
            RecognitionSentinel::UHL => vec![0x55u8, 0x48u8, 0x4Cu8, 0x31u8],
            RecognitionSentinel::DSI => vec![0x44u8, 0x53u8, 0x49u8, 0x55u8],
            RecognitionSentinel::ACC => vec![0x41u8, 0x43u8, 0x43u8],
            RecognitionSentinel::DATA => vec![0xAAu8],
            RecognitionSentinel::NA => vec![0x4Eu8, 0x41u8],
        };
        assert(r@ =~= self.bytes());
        r
    }
}

/// The decoded User Header Label.
///
/// * `origin` - latitude and longitude of the lower left corner of the grid
/// * `interval_secs_x_10` - spacing of the grid, in tenths of an arc-second
/// * `accuracy` - absolute vertical accuracy in metres, if available
/// * `count` - number of latitude points per line and number of longitude lines
#[derive(Debug, Clone, Copy, PartialEq)]
pub struct RawDTEDHeader {
    pub origin: AxisElement<Angle>,
    pub interval_secs_x_10: AxisElement<u16>,
    pub accuracy: Option<u16>,
    pub count: AxisElement<u16>,
}

/// Accuracy Description record; its contents are not decoded.
pub struct DTEDRecordACC {}

/// One decoded longitude line.
///
/// * `blk_count` - block index of the line
/// * `lon_count` - longitude index echoed by the record
/// * `lat_count` - latitude index echoed by the record
/// * `elevations` - elevations in metres, from south to north
#[derive(Debug, Clone)]
pub struct RawDTEDRecord {
    pub blk_count: u32,
    pub lon_count: u16,
    pub lat_count: u16,
    pub elevations: Vec<i16>,
}

/// What a [`RawDTEDRecord`] holds, with its elevations as a sequence.
pub struct RecordModel {
    pub blk_count: u32,
    pub lon_count: u16,
    pub lat_count: u16,
    pub elevations: Seq<i16>,
}

impl View for RawDTEDRecord {
    type V = RecordModel;

    open spec fn view(&self) -> RecordModel {
        RecordModel {
            blk_count: self.blk_count,
            lon_count: self.lon_count,
            lat_count: self.lat_count,
            elevations: self.elevations@,
        }
    }
}

/// A decoded file: the header and one record per longitude line, west to east.
pub struct RawDTEDFile {
    pub header: RawDTEDHeader,
    pub data: Vec<RawDTEDRecord>,
    pub dsi_record: Option<u8>,
    pub acc_record: Option<u8>,
}

impl View for RawDTEDFile {
    type V = (RawDTEDHeader, Seq<RecordModel>);

    open spec fn view(&self) -> (RawDTEDHeader, Seq<RecordModel>) {
        (self.header, record_models(self.data@))
    }
}

impl RawDTEDFile {
    /// One record per longitude line, each with one elevation per latitude point.
    pub open spec fn wf(&self) -> bool {
        &&& self.data@.len() == self.header.count.lon
        &&& forall|k: int|
            0 <= k < self.data@.len() ==> (#[trigger] self.data@[k]).elevations@.len()
                == self.header.count.lat
    }
}

/// Metadata of a decoded file.
///
/// * `filename` - name of the file the data came from
/// * `origin_angle` - position of the lower left corner of the grid
/// * `interval_secs_x_10` - spacing of the grid, in tenths of an arc-second
/// * `accuracy` - absolute vertical accuracy in metres, if available
/// * `count` - number of latitude points per line and number of longitude lines
#[derive(Debug, Clone)]
pub struct DTEDMetadata {
    pub filename: String,
    pub origin_angle: AxisElement<Angle>,
    pub interval_secs_x_10: AxisElement<u16>,
    pub accuracy: Option<u16>,
    pub count: AxisElement<u16>,
}

impl DTEDMetadata {
    /// The metadata holds the header's fields and the file name.
    pub open spec fn describes(&self, raw: RawDTEDHeader, fname: Seq<char>) -> bool {
        &&& self.filename@ == fname
        &&& self.origin_angle == raw.origin
        &&& self.interval_secs_x_10 == raw.interval_secs_x_10
        &&& self.accuracy == raw.accuracy
        &&& self.count == raw.count
    }

    /// Creates the metadata of a file from its header.
    pub fn from_header(raw: &RawDTEDHeader, fname: &str) -> (r: DTEDMetadata)
        ensures
            r.describes(*raw, fname@),
    {
        DTEDMetadata {
            filename: fname.to_owned(),
            origin_angle: raw.origin,
            interval_secs_x_10: raw.interval_secs_x_10,
            accuracy: raw.accuracy,
            count: raw.count,
        }
    }
}

/// Grid spacing in thousandths of an arc-second, for an interval in tenths.
pub open spec fn step_mas(interval: u16) -> int {
    interval * 100
}

/// The last grid line of an axis: `origin + interval * (count - 1)`.
pub open spec fn axis_end(origin: Angle, interval: u16, count: u16) -> int {
    origin@ + step_mas(interval) * (count - 1)
}

/// The upper bounds of the grid, as angles.
pub open spec fn spec_max(raw: RawDTEDHeader) -> Result<AxisElement<Angle>, AngleError> {
    both_axes(
        Angle::spec_from_secs(axis_end(raw.origin.lat, raw.interval_secs_x_10.lat, raw.count.lat)),
        Angle::spec_from_secs(axis_end(raw.origin.lon, raw.interval_secs_x_10.lon, raw.count.lon)),
    )
}

/// An interpolated elevation, kept exact as the fraction
/// `numerator / denominator` metres.
#[derive(Debug, Clone, Copy, PartialEq, Eq, Structural)]
pub struct Elevation {
    pub numerator: i64,
    pub denominator: u64,
}

/// A position along one axis of the grid: `index + offset / step` grid
/// lines from the origin, with `offset < step`.
#[derive(Debug, Clone, Copy, PartialEq, Eq, Structural)]
pub struct GridIndex {
    pub index: u64,
    pub offset: u64,
    pub step: u64,
}

/// The position `pos` (thousandths of an arc-second from the origin) on an
/// axis of spacing `step`.
pub open spec fn grid_index(pos: int, step: int) -> GridIndex {
    GridIndex { index: (pos / step) as u64, offset: (pos % step) as u64, step: step as u64 }
}

/// The grid cell used to interpolate at a position: its lower index and the
/// offset within it. On the last grid line the cell below is used, with the
/// offset of a whole step.
pub open spec fn cell(g: GridIndex, count: int) -> (int, int) {
    if g.index == count - 1 {
        (g.index - 1, g.offset + g.step)
    } else {
        (g.index as int, g.offset as int)
    }
}

/// Bilinear interpolation between four corners, scaled by the product of the
/// two steps: corner `eXY` is at longitude offset `X` and latitude offset `Y`.
pub open spec fn bilinear(
    e00: int,
    e01: int,
    e10: int,
    e11: int,
    lon_off: int,
    lon_step: int,
    lat_off: int,
    lat_step: int,
) -> int {
    e00 * (lon_step - lon_off) * (lat_step - lat_off) + e01 * (lon_step - lon_off) * lat_off + e10
        * lon_off * (lat_step - lat_off) + e11 * lon_off * lat_off
}

/// An elevation as a pair of integers.
pub open spec fn as_fraction(e: Option<Elevation>) -> Option<(int, int)> {
    match e {
        Some(v) => Some((v.numerator as int, v.denominator as int)),
        None => None,
    }
}

/// DTED data: the elevation grid of a decoded file, ready for queries.
///
/// * `metadata` - [DTEDMetadata]
/// * `min` - lower bounds of the grid (its origin)
/// * `max` - upper bounds of the grid
/// * `data` - one record per longitude line, west to east
pub struct DTEDData {
    pub metadata: DTEDMetadata,
    pub min: AxisElement<Angle>,
    pub max: AxisElement<Angle>,
    pub data: Vec<RawDTEDRecord>,
}

impl DTEDData {
    /// The header the grid was built from.
    pub open spec fn header(&self) -> RawDTEDHeader {
        RawDTEDHeader {
            origin: self.metadata.origin_angle,
            interval_secs_x_10: self.metadata.interval_secs_x_10,
            accuracy: self.metadata.accuracy,
            count: self.metadata.count,
        }
    }

    /// The bounds follow from the header, and there is one record per
    /// longitude line with one elevation per latitude point.
    pub open spec fn wf(&self) -> bool {
        &&& self.min == self.metadata.origin_angle
        &&& spec_max(self.header()) == Ok::<AxisElement<Angle>, AngleError>(self.max)
        &&& self.data@.len() == self.metadata.count.lon
        &&& forall|k: int|
            0 <= k < self.data@.len() ==> (#[trigger] self.data@[k]).elevations@.len()
                == self.metadata.count.lat
    }

    /// The elevation at a longitude line and a latitude point.
    pub open spec fn sample(&self, lon_i: int, lat_i: int) -> int {
        self.data@[lon_i].elevations@[lat_i] as int
    }

    /// The latitude and longitude (in thousandths of an arc-second) lie within the bounds.
    pub open spec fn covers(&self, lat: int, lon: int) -> bool {
        &&& self.min.lat@ <= lat <= self.max.lat@
        &&& self.min.lon@ <= lon <= self.max.lon@
    }

    /// The grid has a cell to interpolate in: at least two lines on each
    /// axis, and a non-zero spacing.
    pub open spec fn has_cells(&self) -> bool {
        &&& self.metadata.count.lat >= 2
        &&& self.metadata.count.lon >= 2
        &&& self.metadata.interval_secs_x_10.lat > 0
        &&& self.metadata.interval_secs_x_10.lon > 0
    }

    /// What [`DTEDData::get_indices`] returns.
    pub open spec fn spec_indices(&self, lat: int, lon: int) -> Option<(GridIndex, GridIndex)> {
        if !self.covers(lat, lon) || self.metadata.interval_secs_x_10.lat == 0
            || self.metadata.interval_secs_x_10.lon == 0 {
            None
        } else {
            Some(
                (
                    grid_index(lat - self.min.lat@, step_mas(self.metadata.interval_secs_x_10.lat)),
                    grid_index(lon - self.min.lon@, step_mas(self.metadata.interval_secs_x_10.lon)),
                ),
            )
        }
    }

    /// What [`DTEDData::get_elevation`] returns, as numerator and denominator.
    pub open spec fn spec_elevation(&self, lat: int, lon: int) -> Option<(int, int)> {
        if !self.has_cells() {
            None
        } else {
            match self.spec_indices(lat, lon) {
                None => None,
                Some((la, lo)) => {
                    let (lat_i, lat_off) = cell(la, self.metadata.count.lat as int);
                    let (lon_i, lon_off) = cell(lo, self.metadata.count.lon as int);
                    Some(
                        (
                            bilinear(
                                self.sample(lon_i, lat_i),
                                self.sample(lon_i, lat_i + 1),
                                self.sample(lon_i + 1, lat_i),
                                self.sample(lon_i + 1, lat_i + 1),
                                lon_off,
                                lo.step as int,
                                lat_off,
                                la.step as int,
                            ),
                            la.step * lo.step,
                        ),
                    )
                },
            }
        }
    }

    /// Builds the grid of a decoded file; `fname` names the file it came from.
    ///
    /// Fails when an upper bound of the grid is too large to be an angle.
    pub fn from_raw(raw: RawDTEDFile, fname: &str) -> (r: Result<DTEDData, Error>)
        requires
            raw.wf(),
        ensures
            match spec_max(raw.header) {
                Err(e) => r == Err::<DTEDData, Error>(Error::Angle(e)),
                Ok(max) => r is Ok && ({
                    let d = r->Ok_0;
                    &&& d.metadata.describes(raw.header, fname@)
                    &&& d.min == raw.header.origin
                    &&& d.max == max
                    &&& record_models(d.data@) == record_models(raw.data@)
                    &&& d.wf()
                }),
            },
    {
        let metadata = DTEDMetadata::from_header(&raw.header, fname);
        let origin = raw.header.origin;
        let lat_end = DTEDData::axis_end(origin.lat, raw.header.interval_secs_x_10.lat, raw.header.count.lat);
        let lon_end = DTEDData::axis_end(origin.lon, raw.header.interval_secs_x_10.lon, raw.header.count.lon);
        let lat_max = match Angle::from_secs(lat_end) {
            Ok(a) => a,
            Err(e) => return Err(Error::Angle(e)),
        };
        let lon_max = match Angle::from_secs(lon_end) {
            Ok(a) => a,
            Err(e) => return Err(Error::Angle(e)),
        };
        Ok(DTEDData { metadata, min: origin, max: AxisElement::new(lat_max, lon_max), data: raw.data })
    }

    /// Computes `origin + interval * (count - 1)` in thousandths of an arc-second.
    fn axis_end(origin: Angle, interval: u16, count: u16) -> (r: i64)
        ensures
            r == axis_end(origin, interval, count),
    {
        let step: i64 = interval as i64 * 100;
        let lines: i64 = count as i64 - 1;
        assert(-6_553_500 <= step * lines <= 6_553_500 * 65_535) by (nonlinear_arith)
            requires
                0 <= step <= 6_553_500,
                -1 <= lines <= 65_534,
        ;
        origin.total_secs() + step * lines
    }

    /// Checks that the bounds follow from the metadata and that the records
    /// match the counts, as [`DTEDData::get_elevation`] requires.
    pub fn is_well_formed(&self) -> (r: bool)
        ensures
            r == self.wf(),
    {
        let m = &self.metadata;
        let origin = m.origin_angle;
        if !(DTEDData::same_fields(self.min.lat, origin.lat) && DTEDData::same_fields(self.min.lon, origin.lon)) {
            return false;
        }
        let lat_max = Angle::from_secs(DTEDData::axis_end(origin.lat, m.interval_secs_x_10.lat, m.count.lat));
        let lon_max = Angle::from_secs(DTEDData::axis_end(origin.lon, m.interval_secs_x_10.lon, m.count.lon));
        let bounds_match = match (lat_max, lon_max) {
            (Ok(a), Ok(b)) => DTEDData::same_fields(a, self.max.lat) && DTEDData::same_fields(b, self.max.lon),
            _ => false,
        };
        if !bounds_match || self.data.len() != m.count.lon as usize {
            return false;
        }
        let mut k: usize = 0;
        while k < self.data.len()
            invariant
                0 <= k <= self.data@.len(),
                self.min == self.metadata.origin_angle,
                spec_max(self.header()) == Ok::<AxisElement<Angle>, AngleError>(self.max),
                self.data@.len() == self.metadata.count.lon,
                forall|j: int| 0 <= j < k ==> (#[trigger] self.data@[j]).elevations@.len() == self.metadata.count.lat,
            decreases self.data.len() - k,
        {
            let n = self.data[k].elevations.len();
            assert(n == self.data@[k as int].elevations@.len());
            if n != self.metadata.count.lat as usize {
                return false;
            }
            k = k + 1;
        }
        true
    }

    /// The two angles have the same fields, sign included.
    fn same_fields(a: Angle, b: Angle) -> (r: bool)
        ensures
            r == (a == b),
    {
        a.deg == b.deg && a.min == b.min && a.sec == b.sec && a.negative == b.negative
    }

    /// Gets the position of a latitude and longitude on the grid, as
    /// `(latitude, longitude)`; `None` when the point is outside the bounds
    /// or an axis has no spacing.
    pub fn get_indices(&self, lat: Angle, lon: Angle) -> (r: Option<(GridIndex, GridIndex)>)
        ensures
            r == self.spec_indices(lat@, lon@),
    {
        let lat_t = lat.total_secs();
        let lon_t = lon.total_secs();
        let min_lat = self.min.lat.total_secs();
        let min_lon = self.min.lon.total_secs();
        if lat_t < min_lat || lat_t > self.max.lat.total_secs() || lon_t < min_lon || lon_t
            > self.max.lon.total_secs() {
            return None;
        }
        if self.metadata.interval_secs_x_10.lat == 0 || self.metadata.interval_secs_x_10.lon == 0 {
            return None;
        }
        Some((DTEDData::axis_index(lat_t, min_lat, self.metadata.interval_secs_x_10.lat),
            DTEDData::axis_index(lon_t, min_lon, self.metadata.interval_secs_x_10.lon)))
    }

    /// The position of `t` on an axis starting at `start`, for an interval in tenths.
    fn axis_index(t: i64, start: i64, interval: u16) -> (r: GridIndex)
        requires
            start <= t,
            t - start <= 0x100_0000_0000,
            interval > 0,
        ensures
            r == grid_index(t - start, step_mas(interval)),
    {
        let pos: u64 = (t - start) as u64;
        let step: u64 = interval as u64 * 100;
        GridIndex { index: pos / step, offset: pos % step, step }
    }

    /// Gets the elevation at a latitude and longitude by bilinear
    /// interpolation between the four surrounding grid points.
    ///
    /// Returns `None` when the point is outside the bounds of the grid, or
    /// when the grid has no cell (fewer than two lines on an axis, or no
    /// spacing). On the upper bound of an axis the last cell is used, so the
    /// value there is the elevation of the last grid line.
    pub fn get_elevation(&self, lat: Angle, lon: Angle) -> (r: Option<Elevation>)
        requires
            self.wf(),
        ensures
            as_fraction(r) == self.spec_elevation(lat@, lon@),
    {
        let count = self.metadata.count;
        if count.lat < 2 || count.lon < 2 {
            return None;
        }
        let (la, lo) = match self.get_indices(lat, lon) {
            None => return None,
            Some(x) => x,
        };
        proof {
            lemma_index_in_range(lat@, la, count.lat, self.metadata.interval_secs_x_10.lat,
                self.min.lat, self.max.lat);
            lemma_index_in_range(lon@, lo, count.lon, self.metadata.interval_secs_x_10.lon,
                self.min.lon, self.max.lon);
        }
        let mut lat_i: usize = la.index as usize;
        let mut lat_off: u64 = la.offset;
        if lat_i == count.lat as usize - 1 {
            lat_i = lat_i - 1;
            lat_off = lat_off + la.step;
        }
        let mut lon_i: usize = lo.index as usize;
        let mut lon_off: u64 = lo.offset;
        if lon_i == count.lon as usize - 1 {
            lon_i = lon_i - 1;
            lon_off = lon_off + lo.step;
        }
        let e00 = self.data[lon_i].elevations[lat_i] as i64;
        let e01 = self.data[lon_i].elevations[lat_i + 1] as i64;
        let e10 = self.data[lon_i + 1].elevations[lat_i] as i64;
        let e11 = self.data[lon_i + 1].elevations[lat_i + 1] as i64;
        let lon_w0 = (lo.step - lon_off) as i64;
        let lon_w1 = lon_off as i64;
        let lat_w0 = (la.step - lat_off) as i64;
        let lat_w1 = lat_off as i64;
        let t00 = corner_term(e00, lon_w0, lat_w0);
        let t01 = corner_term(e01, lon_w0, lat_w1);
        let t10 = corner_term(e10, lon_w1, lat_w0);
        let t11 = corner_term(e11, lon_w1, lat_w1);
        proof {
            assert(self.sample(lon_i as int, lat_i as int) == e00);
            assert(self.sample(lon_i as int, lat_i + 1) == e01);
            assert(self.sample(lon_i + 1, lat_i as int) == e10);
            assert(self.sample(lon_i + 1, lat_i + 1) == e11);
        }
        assert(la.step * lo.step <= 6_553_500 * 6_553_500) by (nonlinear_arith)
            requires
                la.step <= 6_553_500,
                lo.step <= 6_553_500,
        ;
        let denominator: u64 = la.step * lo.step;
        Some(Elevation { numerator: t00 + t01 + t10 + t11, denominator })
    }

    /// Decodes a whole DTED file held in memory; `fname` names the file.
    ///
    /// Fails when the bytes do not decode, when bytes are left after the last
    /// record, or when an upper bound of the grid is too large to be an angle.
    pub fn decode(content: &[u8], fname: &str) -> (r: Result<DTEDData, Error>)
        ensures
            match spec_file(content@) {
                Err(e) => r == Err::<DTEDData, Error>(e),
                Ok((_, (header, records))) => {
                    match spec_max(header) {
                        Err(e) => r == Err::<DTEDData, Error>(Error::Angle(e)),
                        Ok(max) => r is Ok && ({
                            let d = r->Ok_0;
                            &&& d.metadata.describes(header, fname@)
                            &&& d.min == header.origin
                            &&& d.max == max
                            &&& record_models(d.data@) == records
                            &&& d.wf()
                        }),
                    }
                },
            },
    {
        match parse_dted_file(content) {
            Err(e) => Err(e),
            Ok((_, file)) => DTEDData::from_raw(file, fname),
        }
    }

    /// Decodes the User Header Label at the start of a DTED file held in
    /// memory; the bytes after it are not read.
    pub fn decode_header(content: &[u8], fname: &str) -> (r: Result<DTEDMetadata, Error>)
        ensures
            match spec_uhl(content@) {
                Err(e) => r == Err::<DTEDMetadata, Error>(e),
                Ok((_, header)) => r is Ok && r->Ok_0.describes(header, fname@),
            },
    {
        match dted_uhl_parser(content) {
            Err(e) => Err(e),
            Ok((_, header)) => Ok(DTEDMetadata::from_header(&header, fname)),
        }
    }
}

/// On a grid with cells, a covered position lies on a line of the axis,
/// or between two of them.
proof fn lemma_index_in_range(t: int, g: GridIndex, count: u16, interval: u16, lo: Angle, hi: Angle)
    requires
        interval > 0,
        count >= 2,
        lo@ <= t <= hi@,
        hi@ == axis_end(lo, interval, count),
        g == grid_index(t - lo@, step_mas(interval)),
    ensures
        g.index <= count - 1,
        g.offset < g.step,
        g.step == step_mas(interval),
        g.step <= 6_553_500,
        g.index == count - 1 ==> g.offset == 0,
{
    let pos = t - lo@;
    let step = step_mas(interval);
    assert(pos <= step * (count - 1));
    vstd::arithmetic::div_mod::lemma_div_is_ordered(pos, step * (count - 1), step);
    vstd::arithmetic::div_mod::lemma_div_by_multiple(count - 1, step);
    vstd::arithmetic::div_mod::lemma_fundamental_div_mod(pos, step);
    assert(step * (count - 1) == (count - 1) * step) by (nonlinear_arith);
}

/// One corner's weighted elevation: `e * a * b`, for an elevation and two
/// weights of at most one step each.
fn corner_term(e: i64, a: i64, b: i64) -> (r: i64)
    requires
        -32768 <= e <= 32767,
        0 <= a <= 6_553_500,
        0 <= b <= 6_553_500,
    ensures
        r == e * a * b,
        -32768 * 6_553_500 * 6_553_500 <= r <= 32767 * 6_553_500 * 6_553_500,
{
    assert(-32768 * 6_553_500 <= e * a <= 32767 * 6_553_500) by (nonlinear_arith)
        requires
            -32768 <= e <= 32767,
            0 <= a <= 6_553_500,
    ;
    let ea = e * a;
    assert(-32768 * 6_553_500 * 6_553_500 <= ea * b <= 32767 * 6_553_500 * 6_553_500) by (nonlinear_arith)
        requires
            -32768 * 6_553_500 <= ea <= 32767 * 6_553_500,
            0 <= b <= 6_553_500,
    ;
    ea * b
}

/// The upper bound of an axis of a well-formed grid is its last grid line.
proof fn lemma_bound_is_last_line(max: Angle, origin: Angle, interval: u16, count: u16)
    requires
        Angle::spec_from_secs(axis_end(origin, interval, count)) == Ok::<Angle, AngleError>(max),
    ensures
        max@ == axis_end(origin, interval, count),
{
    lemma_from_total_wf(axis_end(origin, interval, count));
}

/// At the bilinear weights of a cell's centre, the interpolation is the
/// plain mean of the four corners: each corner weighs a quarter.
pub proof fn lemma_bilinear_centre_is_mean(
    e00: int,
    e01: int,
    e10: int,
    e11: int,
    lon_step: int,
    lat_step: int,
)
    requires
        lon_step % 2 == 0,
        lat_step % 2 == 0,
    ensures
        4 * bilinear(e00, e01, e10, e11, lon_step / 2, lon_step, lat_step / 2, lat_step) == (e00
            + e01 + e10 + e11) * lon_step * lat_step,
{
    let h = lon_step / 2;
    let v = lat_step / 2;
    let w = h * v;
    assert(lon_step - h == h && lat_step - v == v);
    assert(bilinear(e00, e01, e10, e11, h, lon_step, v, lat_step) == e00 * h * v + e01 * h * v + e10
        * h * v + e11 * h * v);
    assert(e00 * h * v == e00 * w) by (nonlinear_arith)
        requires
            w == h * v,
    ;
    assert(e01 * h * v == e01 * w) by (nonlinear_arith)
        requires
            w == h * v,
    ;
    assert(e10 * h * v == e10 * w) by (nonlinear_arith)
        requires
            w == h * v,
    ;
    assert(e11 * h * v == e11 * w) by (nonlinear_arith)
        requires
            w == h * v,
    ;
    vstd::arithmetic::mul::lemma_mul_is_distributive_add_other_way(w, e00 + e01, e10 + e11);
    vstd::arithmetic::mul::lemma_mul_is_distributive_add_other_way(w, e00, e01);
    vstd::arithmetic::mul::lemma_mul_is_distributive_add_other_way(w, e10, e11);
    let total = e00 + e01 + e10 + e11;
    assert(4 * (total * w) == total * (2 * h) * (2 * v)) by (nonlinear_arith)
        requires
            w == h * v,
    ;
}

/// At a corner of a cell, bilinear interpolation gives that corner alone,
/// scaled by the product of the steps.
proof fn lemma_bilinear_at_corners(e00: int, e01: int, e10: int, e11: int, lon_step: int, lat_step: int)
    ensures
        bilinear(e00, e01, e10, e11, 0, lon_step, 0, lat_step) == e00 * lon_step * lat_step,
        bilinear(e00, e01, e10, e11, 0, lon_step, lat_step, lat_step) == e01 * lon_step * lat_step,
        bilinear(e00, e01, e10, e11, lon_step, lon_step, 0, lat_step) == e10 * lon_step * lat_step,
        bilinear(e00, e01, e10, e11, lon_step, lon_step, lat_step, lat_step) == e11 * lon_step
            * lat_step,
{
    assert(bilinear(e00, e01, e10, e11, 0, lon_step, 0, lat_step) == e00 * lon_step * lat_step)
        by (nonlinear_arith);
    assert(bilinear(e00, e01, e10, e11, 0, lon_step, lat_step, lat_step) == e01 * lon_step
        * lat_step) by (nonlinear_arith);
    assert(bilinear(e00, e01, e10, e11, lon_step, lon_step, 0, lat_step) == e10 * lon_step
        * lat_step) by (nonlinear_arith);
    assert(bilinear(e00, e01, e10, e11, lon_step, lon_step, lat_step, lat_step) == e11 * lon_step
        * lat_step) by (nonlinear_arith);
}

/// On an axis with `count >= 2` lines, the position of the `i`-th line falls
/// in the cell starting at line `i`, or, for the last line, at the far side
/// of the cell below it.
proof fn lemma_cell_of_line(i: int, step: int, count: int)
    requires
        0 <= i < count <= 0xFFFF,
        count >= 2,
        0 < step <= 6_553_500,
    ensures
        0 <= step * i <= step * (count - 1),
        ({
            let (c, off) = cell(grid_index(step * i, step), count);
            ||| (i < count - 1 && c == i && off == 0)
            ||| (i == count - 1 && c == i - 1 && off == step)
        }),
        grid_index(step * i, step).step == step,
{
    assert(0 <= step * i <= step * (count - 1)) by (nonlinear_arith)
        requires
            0 <= i < count,
            step > 0,
    ;
    assert(step * i == i * step) by (nonlinear_arith);
    vstd::arithmetic::div_mod::lemma_div_by_multiple(i, step);
    vstd::arithmetic::div_mod::lemma_mod_multiples_basic(i, step);
}

/// Querying a grid exactly at one of its points gives the elevation of that
/// point, exactly: the interpolation is that sample times the denominator.
/// This holds on the upper bounds too, where the cell below is used.
pub proof fn lemma_elevation_at_grid_point(d: &DTEDData, lon_i: int, lat_i: int)
    requires
        d.wf(),
        d.has_cells(),
        0 <= lon_i < d.metadata.count.lon,
        0 <= lat_i < d.metadata.count.lat,
    ensures
        ({
            let lat_step = step_mas(d.metadata.interval_secs_x_10.lat);
            let lon_step = step_mas(d.metadata.interval_secs_x_10.lon);
            d.spec_elevation(d.min.lat@ + lat_step * lat_i, d.min.lon@ + lon_step * lon_i) == Some(
                (d.sample(lon_i, lat_i) * lon_step * lat_step, lat_step * lon_step),
            )
        }),
{
    let h = d.header();
    lemma_bound_is_last_line(d.max.lat, h.origin.lat, h.interval_secs_x_10.lat, h.count.lat);
    lemma_bound_is_last_line(d.max.lon, h.origin.lon, h.interval_secs_x_10.lon, h.count.lon);
    let lat_step = step_mas(h.interval_secs_x_10.lat);
    let lon_step = step_mas(h.interval_secs_x_10.lon);
    lemma_cell_of_line(lat_i, lat_step, h.count.lat as int);
    lemma_cell_of_line(lon_i, lon_step, h.count.lon as int);
    let lat = d.min.lat@ + lat_step * lat_i;
    let lon = d.min.lon@ + lon_step * lon_i;
    assert(lat - d.min.lat@ == lat_step * lat_i);
    assert(lon - d.min.lon@ == lon_step * lon_i);
    let (la_c, _) = cell(grid_index(lat_step * lat_i, lat_step), h.count.lat as int);
    let (lo_c, _) = cell(grid_index(lon_step * lon_i, lon_step), h.count.lon as int);
    lemma_bilinear_at_corners(
        d.sample(lo_c, la_c),
        d.sample(lo_c, la_c + 1),
        d.sample(lo_c + 1, la_c),
        d.sample(lo_c + 1, la_c + 1),
        lon_step,
        lat_step,
    );
}

/// Querying a grid exactly at its upper bounds gives the elevation of the
/// last point of the last line, exactly: the interpolation is that sample
/// times the denominator.
pub proof fn lemma_elevation_at_max(d: &DTEDData)
    requires
        d.wf(),
        d.has_cells(),
    ensures
        ({
            let lat_step = step_mas(d.metadata.interval_secs_x_10.lat);
            let lon_step = step_mas(d.metadata.interval_secs_x_10.lon);
            let last = d.sample(d.metadata.count.lon - 1, d.metadata.count.lat - 1);
            d.spec_elevation(d.max.lat@, d.max.lon@) == Some((last * lon_step * lat_step, lat_step * lon_step))
        }),
{
    let h = d.header();
    lemma_bound_is_last_line(d.max.lat, h.origin.lat, h.interval_secs_x_10.lat, h.count.lat);
    lemma_bound_is_last_line(d.max.lon, h.origin.lon, h.interval_secs_x_10.lon, h.count.lon);
    lemma_elevation_at_grid_point(d, h.count.lon - 1, h.count.lat - 1);
}

/// The models of a sequence of records.
pub open spec fn record_models(data: Seq<RawDTEDRecord>) -> Seq<RecordModel> {
    data.map_values(|r: RawDTEDRecord| r@)
}

} // verus!
