//! Fixed-point geographic angles and latitude/longitude pairs.
use vstd::prelude::*;

verus! {

/// Thousandths of an arc-second in one arc-second.
pub const MAS_PER_SEC: u64 = 1000;

/// Thousandths of an arc-second in one arc-minute.
pub const MAS_PER_MIN: u64 = 60_000;

/// Thousandths of an arc-second in one degree.
pub const MAS_PER_DEG: u64 = 3_600_000;

/// Largest magnitude an [`Angle`] can hold: 65535 degrees, 59 minutes,
/// 59.999 seconds, in thousandths of an arc-second.
pub const MAX_TOTAL_MAS: u64 = 235_929_599_999;

/// Errors that can occur when building an angle.
#[derive(Debug, Clone, Copy, PartialEq, Eq, Structural)]
pub enum AngleError {
    /// Seconds must be less than 60.
    SecondsUpperBoundBreached,
    /// Seconds must be non-negative; the sign is carried by the whole angle.
    SecondsLowerBoundBreached,
    /// Minutes must be less than 60.
    MinutesUpperBoundBreached,
    /// The signed total (in thousandths of an arc-second) is too large to be an angle.
    TooLarge(i128),
}

/// An angle in degrees, minutes and seconds, with the sign carried once for
/// the whole angle.
///
/// Seconds are fixed point: `sec` counts thousandths of an arc-second, so
/// `43_800` stands for 43.8 seconds. A well-formed angle has `min < 60` and
/// `sec < 60_000`.
#[derive(Debug, Clone, Copy)]
pub struct Angle {
    pub deg: u16,
    pub min: u8,
    pub sec: u16,
    pub negative: bool,
}

/// The signed total of an angle, in thousandths of an arc-second.
impl View for Angle {
    type V = int;

    open spec fn view(&self) -> int {
        let magnitude = self.deg * MAS_PER_DEG + self.min * MAS_PER_MIN + self.sec;
        if self.negative {
            -magnitude
        } else {
            magnitude
        }
    }
}

impl Angle {
    /// The whole degrees of the angle, with its sign.
    pub open spec fn signed_degrees(self) -> int {
        if self.negative {
            -self.deg
        } else {
            self.deg as int
        }
    }

    /// Minutes and seconds are in range.
    pub open spec fn wf(self) -> bool {
        self.min < 60 && self.sec < 60_000
    }

    /// The angle with its three fields in the units of the total:
    /// `deg * 3_600_000 + min * 60_000 + sec` is the magnitude.
    pub open spec fn from_total(total: int) -> Angle {
        let magnitude = if total < 0 { -total } else { total };
        Angle {
            deg: (magnitude / MAS_PER_MIN as int / 60) as u16,
            min: (magnitude / MAS_PER_MIN as int % 60) as u8,
            sec: (magnitude % MAS_PER_MIN as int) as u16,
            negative: total < 0,
        }
    }

    /// What [`Angle::from_secs`] returns for a total.
    pub open spec fn spec_from_secs(total: int) -> Result<Angle, AngleError> {
        if -MAX_TOTAL_MAS <= total <= MAX_TOTAL_MAS {
            Ok(Angle::from_total(total))
        } else {
            Err(AngleError::TooLarge(total as i128))
        }
    }

    /// What [`Angle::new`] returns; `sec` is in thousandths of an arc-second.
    pub open spec fn spec_new(deg: u16, min: u8, sec: int, negative: bool) -> Result<Angle, AngleError> {
        if min >= 60 {
            Err(AngleError::MinutesUpperBoundBreached)
        } else if sec >= 60_000 {
            Err(AngleError::SecondsUpperBoundBreached)
        } else if sec < 0 {
            Err(AngleError::SecondsLowerBoundBreached)
        } else {
            Ok(Angle { deg, min, sec: sec as u16, negative })
        }
    }

    /// The angle with the sign of a zero angle made positive.
    pub open spec fn normal_form(self) -> Angle {
        if self.deg == 0 && self.min == 0 && self.sec == 0 {
            Angle { negative: false, ..self }
        } else {
            self
        }
    }

    /// Builds an angle from degrees, minutes, seconds (in thousandths of an
    /// arc-second) and a sign.
    ///
    /// Fails when `min` is at least 60, or `sec` is at least 60 seconds or negative.
    pub fn new(deg: u16, min: u8, sec: i32, negative: bool) -> (r: Result<Angle, AngleError>)
        ensures
            r == Angle::spec_new(deg, min, sec as int, negative),
            r is Ok ==> r->Ok_0.wf(),
    {
        if min >= 60 {
            return Err(AngleError::MinutesUpperBoundBreached);
        }
        if sec >= 60_000 {
            return Err(AngleError::SecondsUpperBoundBreached);
        }
        if sec < 0 {
            return Err(AngleError::SecondsLowerBoundBreached);
        }
        Ok(Angle { deg, min, sec: sec as u16, negative })
    }

    /// Returns whether the angle is negative.
    pub fn is_negative(&self) -> (r: bool)
        ensures
            r == self.negative,
    {
        self.negative
    }

    /// Returns the number of whole degrees (always positive).
    pub fn deg(&self) -> (r: u16)
        ensures
            r == self.deg,
    {
        self.deg
    }

    /// Returns the number of whole minutes (always positive).
    pub fn min(&self) -> (r: u8)
        ensures
            r == self.min,
    {
        self.min
    }

    /// Returns the seconds, in thousandths of an arc-second (always positive).
    pub fn sec(&self) -> (r: u16)
        ensures
            r == self.sec,
    {
        self.sec
    }

    /// The same angle, with a zero angle made positive.
    pub fn normalized(&self) -> (r: Angle)
        ensures
            r == self.normal_form(),
    {
        if self.deg == 0 && self.min == 0 && self.sec == 0 {
            Angle { negative: false, ..*self }
        } else {
            *self
        }
    }

    /// Computes the signed total of the angle, in thousandths of an arc-second.
    pub fn total_secs(&self) -> (r: i64)
        ensures
            r == self@,
    {
        let d: i64 = self.deg as i64;
        let m: i64 = self.min as i64;
        assert(d * 3_600_000 <= 65535 * 3_600_000) by (nonlinear_arith)
            requires
                0 <= d <= 65535,
        ;
        assert(m * 60_000 <= 255 * 60_000) by (nonlinear_arith)
            requires
                0 <= m <= 255,
        ;
        let magnitude: i64 = d * MAS_PER_DEG as i64 + m * MAS_PER_MIN as i64 + self.sec as i64;
        if self.negative {
            -magnitude
        } else {
            magnitude
        }
    }

    /// Converts a signed total of thousandths of an arc-second to degrees,
    /// minutes and seconds.
    ///
    /// Fails when the magnitude exceeds [`MAX_TOTAL_MAS`].
    pub fn from_secs(total_sec: i64) -> (r: Result<Angle, AngleError>)
        ensures
            r == Angle::spec_from_secs(total_sec as int),
            r is Ok ==> r->Ok_0.wf() && r->Ok_0@ == total_sec,
    {
        if total_sec > MAX_TOTAL_MAS as i64 || total_sec < -(MAX_TOTAL_MAS as i64) {
            return Err(AngleError::TooLarge(total_sec as i128));
        }
        proof {
            lemma_from_total_wf(total_sec as int);
        }
        let magnitude: u64 = if total_sec < 0 {
            (-total_sec) as u64
        } else {
            total_sec as u64
        };
        let minutes: u64 = magnitude / MAS_PER_MIN;
        Ok(
            Angle {
                deg: (minutes / 60) as u16,
                min: (minutes % 60) as u8,
                sec: (magnitude % MAS_PER_MIN) as u16,
                negative: total_sec < 0,
            },
        )
    }

    /// Converts a wide signed total to an angle, as [`Angle::from_secs`] does.
    fn from_wide(total: i128) -> (r: Result<Angle, AngleError>)
        ensures
            r == Angle::spec_from_secs(total as int),
    {
        if total > MAX_TOTAL_MAS as i128 || total < -(MAX_TOTAL_MAS as i128) {
            return Err(AngleError::TooLarge(total));
        }
        Angle::from_secs(total as i64)
    }

    /// Adds two angles.
    ///
    /// Fails when the sum is too large to be an angle.
    pub fn checked_add(self, rhs: Angle) -> (r: Result<Angle, AngleError>)
        ensures
            r == Angle::spec_from_secs(self@ + rhs@),
    {
        Angle::from_wide(self.total_secs() as i128 + rhs.total_secs() as i128)
    }

    /// Subtracts an angle from another.
    ///
    /// Fails when the difference is too large to be an angle.
    pub fn checked_sub(self, rhs: Angle) -> (r: Result<Angle, AngleError>)
        ensures
            r == Angle::spec_from_secs(self@ - rhs@),
    {
        Angle::from_wide(self.total_secs() as i128 - rhs.total_secs() as i128)
    }

    /// Multiplies an angle by an integer.
    ///
    /// Fails when the product is too large to be an angle.
    pub fn checked_mul(self, rhs: i64) -> (r: Result<Angle, AngleError>)
        ensures
            r == Angle::spec_from_secs(self@ * rhs),
    {
        let t: i128 = self.total_secs() as i128;
        let k: i128 = rhs as i128;
        assert(-0x100_0000_0000 * 0x8000_0000_0000_0000 <= t * k <= 0x100_0000_0000
            * 0x8000_0000_0000_0000) by (nonlinear_arith)
            requires
                -0x100_0000_0000 <= t <= 0x100_0000_0000,
                -0x8000_0000_0000_0000 <= k < 0x8000_0000_0000_0000,
        ;
        Angle::from_wide(t * k)
    }
}

/// Two angles are equal when their fields are, except that a zero angle
/// equals itself whatever its sign.
impl PartialEq for Angle {
    fn eq(&self, other: &Angle) -> (r: bool) {
        let a = self.normalized();
        let b = other.normalized();
        a.deg == b.deg && a.min == b.min && a.sec == b.sec && a.negative == b.negative
    }
}

impl vstd::std_specs::cmp::PartialEqSpecImpl for Angle {
    open spec fn obeys_eq_spec() -> bool {
        true
    }

    open spec fn eq_spec(&self, other: &Angle) -> bool {
        self.normal_form() == other.normal_form()
    }
}

/// The whole degrees of an angle, with its sign: minutes and seconds are
/// dropped, as an integer conversion truncates toward zero.
impl From<Angle> for i32 {
    fn from(value: Angle) -> i32 {
        let d = value.deg as i32;
        if value.negative {
            -d
        } else {
            d
        }
    }
}

impl vstd::std_specs::convert::FromSpecImpl<Angle> for i32 {
    open spec fn obeys_from_spec() -> bool {
        true
    }

    open spec fn from_spec(v: Angle) -> i32 {
        v.signed_degrees() as i32
    }
}

/// The whole degrees of an angle, with its sign: minutes and seconds are
/// dropped, as an integer conversion truncates toward zero.
impl From<Angle> for i64 {
    fn from(value: Angle) -> i64 {
        let d = value.deg as i64;
        if value.negative {
            -d
        } else {
            d
        }
    }
}

impl vstd::std_specs::convert::FromSpecImpl<Angle> for i64 {
    open spec fn obeys_from_spec() -> bool {
        true
    }

    open spec fn from_spec(v: Angle) -> i64 {
        v.signed_degrees() as i64
    }
}

/// The whole degrees of an angle, with its sign: minutes and seconds are
/// dropped, as an integer conversion truncates toward zero.
impl From<Angle> for i128 {
    fn from(value: Angle) -> i128 {
        let d = value.deg as i128;
        if value.negative {
            -d
        } else {
            d
        }
    }
}

impl vstd::std_specs::convert::FromSpecImpl<Angle> for i128 {
    open spec fn obeys_from_spec() -> bool {
        true
    }

    open spec fn from_spec(v: Angle) -> i128 {
        v.signed_degrees() as i128
    }
}

/// The whole degrees of an angle, with its sign: minutes and seconds are
/// dropped, as an integer conversion truncates toward zero.
impl From<Angle> for isize {
    fn from(value: Angle) -> isize {
        let d = value.deg as isize;
        if value.negative {
            -d
        } else {
            d
        }
    }
}

impl vstd::std_specs::convert::FromSpecImpl<Angle> for isize {
    open spec fn obeys_from_spec() -> bool {
        true
    }

    open spec fn from_spec(v: Angle) -> isize {
        v.signed_degrees() as isize
    }
}

/// The whole degrees of an angle, with its sign, wrapped to 16 bits.
impl From<Angle> for i16 {
    fn from(value: Angle) -> i16 {
        let d = value.deg as i32;
        let signed: i32 = if value.negative {
            -d
        } else {
            d
        };
        #[verifier::truncate]
        (signed as i16)
    }
}

impl vstd::std_specs::convert::FromSpecImpl<Angle> for i16 {
    open spec fn obeys_from_spec() -> bool {
        true
    }

    open spec fn from_spec(v: Angle) -> i16 {
        #[verifier::truncate]
        (v.signed_degrees() as i16)
    }
}

/// A value for each axis: latitude and longitude.
///
/// Operations apply to the two axes independently.
#[derive(Debug, Clone, Copy, PartialEq)]
pub struct AxisElement<T> {
    pub lat: T,
    pub lon: T,
}

impl<T> AxisElement<T> {
    pub fn new(lat: T, lon: T) -> (r: AxisElement<T>)
        ensures
            r.lat == lat,
            r.lon == lon,
    {
        AxisElement { lat, lon }
    }
}

/// Pairs a result for each axis; the latitude's error comes first.
pub open spec fn both_axes(lat: Result<Angle, AngleError>, lon: Result<Angle, AngleError>) -> Result<
    AxisElement<Angle>,
    AngleError,
> {
    match lat {
        Err(e) => Err(e),
        Ok(a) => match lon {
            Err(e) => Err(e),
            Ok(b) => Ok(AxisElement { lat: a, lon: b }),
        },
    }
}

impl AxisElement<Angle> {
    fn join(lat: Result<Angle, AngleError>, lon: Result<Angle, AngleError>) -> (r: Result<
        AxisElement<Angle>,
        AngleError,
    >)
        ensures
            r == both_axes(lat, lon),
    {
        match lat {
            Err(e) => Err(e),
            Ok(a) => match lon {
                Err(e) => Err(e),
                Ok(b) => Ok(AxisElement { lat: a, lon: b }),
            },
        }
    }

    /// Adds two pairs of angles, axis by axis.
    ///
    /// Fails when a sum is too large to be an angle.
    pub fn checked_add(self, rhs: AxisElement<Angle>) -> (r: Result<AxisElement<Angle>, AngleError>)
        ensures
            r == both_axes(
                Angle::spec_from_secs(self.lat@ + rhs.lat@),
                Angle::spec_from_secs(self.lon@ + rhs.lon@),
            ),
    {
        AxisElement::join(self.lat.checked_add(rhs.lat), self.lon.checked_add(rhs.lon))
    }

    /// Subtracts a pair of angles from another, axis by axis.
    ///
    /// Fails when a difference is too large to be an angle.
    pub fn checked_sub(self, rhs: AxisElement<Angle>) -> (r: Result<AxisElement<Angle>, AngleError>)
        ensures
            r == both_axes(
                Angle::spec_from_secs(self.lat@ - rhs.lat@),
                Angle::spec_from_secs(self.lon@ - rhs.lon@),
            ),
    {
        AxisElement::join(self.lat.checked_sub(rhs.lat), self.lon.checked_sub(rhs.lon))
    }

    /// Multiplies each angle by the integer of its axis.
    ///
    /// Fails when a product is too large to be an angle.
    pub fn checked_mul(self, rhs: AxisElement<i64>) -> (r: Result<AxisElement<Angle>, AngleError>)
        ensures
            r == both_axes(
                Angle::spec_from_secs(self.lat@ * rhs.lat),
                Angle::spec_from_secs(self.lon@ * rhs.lon),
            ),
    {
        AxisElement::join(self.lat.checked_mul(rhs.lat), self.lon.checked_mul(rhs.lon))
    }
}

/// The angle of a total in range is well formed and has that total.
pub proof fn lemma_from_total_wf(total: int)
    requires
        -MAX_TOTAL_MAS <= total <= MAX_TOTAL_MAS,
    ensures
        Angle::from_total(total).wf(),
        Angle::from_total(total)@ == total,
        Angle::from_total(total).negative == (total < 0),
{
    let magnitude = if total < 0 { -total } else { total };
    let minutes = magnitude / 60_000;
    assert(magnitude == minutes * 60_000 + magnitude % 60_000);
    assert(minutes == (minutes / 60) * 60 + minutes % 60);
    assert(minutes / 60 <= 65535);
    let a = Angle::from_total(total);
    assert(a.deg == minutes / 60);
    assert(a.min == minutes % 60);
    assert(a.sec == magnitude % 60_000);
    assert(a.deg * MAS_PER_DEG + a.min * MAS_PER_MIN + a.sec == magnitude) by (nonlinear_arith)
        requires
            magnitude == minutes * 60_000 + a.sec,
            minutes == a.deg * 60 + a.min,
    ;
}

/// The fields of a well-formed angle are recovered from its total.
pub proof fn lemma_total_determines_fields(a: Angle)
    requires
        a.wf(),
    ensures
        -MAX_TOTAL_MAS <= a@ <= MAX_TOTAL_MAS,
        Angle::from_total(a@) == a.normal_form(),
{
    let magnitude: int = a.deg * MAS_PER_DEG + a.min * MAS_PER_MIN + a.sec;
    let minutes: int = a.deg * 60 + a.min;
    assert(magnitude == minutes * 60_000 + a.sec) by (nonlinear_arith)
        requires
            magnitude == a.deg * MAS_PER_DEG + a.min * MAS_PER_MIN + a.sec,
            minutes == a.deg * 60 + a.min,
    ;
    assert(a.deg * MAS_PER_DEG <= 65535 * MAS_PER_DEG) by (nonlinear_arith)
        requires
            a.deg <= 65535,
    ;
    vstd::arithmetic::div_mod::lemma_fundamental_div_mod_converse(magnitude, 60_000, minutes, a.sec as int);
    vstd::arithmetic::div_mod::lemma_fundamental_div_mod_converse(minutes, 60, a.deg as int, a.min as int);
}

/// Converting a valid angle to its total and back gives the same angle, up to
/// the sign of zero: `Angle::from_secs(a.total_secs()) == Ok(a)`.
pub proof fn lemma_total_secs_round_trip(deg: u16, min: u8, sec: int, negative: bool)
    requires
        min < 60,
        0 <= sec < 60_000,
    ensures
        Angle::spec_new(deg, min, sec, negative) is Ok,
        ({
            let a = Angle::spec_new(deg, min, sec, negative)->Ok_0;
            &&& Angle::spec_from_secs(a@) is Ok
            &&& Angle::spec_from_secs(a@)->Ok_0 == a.normal_form()
            &&& a@ != 0 ==> Angle::spec_from_secs(a@) == Ok::<Angle, AngleError>(a)
        }),
{
    let a = Angle::spec_new(deg, min, sec, negative)->Ok_0;
    lemma_total_determines_fields(a);
}

/// Two well-formed angles are equal exactly when their totals are.
pub proof fn lemma_eq_iff_same_total(a: Angle, b: Angle)
    requires
        a.wf(),
        b.wf(),
    ensures
        (a.normal_form() == b.normal_form()) == (a@ == b@),
{
    lemma_total_determines_fields(a);
    lemma_total_determines_fields(b);
}

} // verus!
