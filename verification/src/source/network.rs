//! Network position source for the airplanes.live / adsb.fi REST API.
//!
//! Both expose `GET {base}/point/{lat}/{lon}/{radius}` returning `{ "ac": [ ... ] }` in the
//! readsb/tar1090 schema, with no API key required (~1 req/s).
use crate::double::{law_pattern_order, magnitude, unit, Double};
use crate::model::{Aircraft, AircraftView};
use crate::text::{
    ascii, ascii_lowered, decimal, decimal_of_u64, lowercase, optional, to_lowercase, trim,
    trim_end_matches, trimmed, trimmed_end,
};
use vstd::arithmetic::div_mod::lemma_fundamental_div_mod;
use vstd::arithmetic::power2::{lemma2_to64, lemma2_to64_rest, lemma_pow2_adds, lemma_pow2_pos, pow2};
use vstd::prelude::*;
use vstd::string::*;

verus! {

/// API minimum search radius in nautical miles: the bits of the double 1.
pub const MIN_RADIUS_BITS: u64 = 0x3ff0_0000_0000_0000;

/// API maximum search radius in nautical miles: the bits of the double 250.
pub const MAX_RADIUS_BITS: u64 = 0x406f_4000_0000_0000;

/// A source of positions over the network.
#[derive(Debug)]
pub struct NetworkSource {
    pub base_url: String,
}

/// The whole nautical miles to ask for: the radius brought into the API's range of 1 to 250 and
/// rounded up, or 0 for a radius that is not a number.
pub open spec fn whole_radius(radius_nm: Double) -> int {
    let u = unit();
    if radius_nm.is_nan() {
        0
    } else if radius_nm.value() <= u {
        1
    } else if radius_nm.value() >= 250 * u {
        250
    } else {
        (radius_nm.value() + u - 1) / u
    }
}

/// The values of the two ends of the API's range.
proof fn lemma_range()
    ensures
        magnitude(MIN_RADIUS_BITS as int) == unit(),
        magnitude(MAX_RADIUS_BITS as int) == 250 * unit(),
{
    lemma2_to64();
    lemma2_to64_rest();
    lemma_pow2_adds(52, 1022);
    lemma_pow2_adds(45, 1029);
    let p = pow2(1029) as int;
    assert((250 * 0x2000_0000_0000) * p == 250 * (0x2000_0000_0000 * p)) by (nonlinear_arith);
}

/// Rounding a significand up after the binary point has been put in its place.
proof fn lemma_rounding(significand: int, low: int, high: int, whole: int)
    requires
        low > 0,
        high > 0,
        whole == (significand + low - 1) / low,
    ensures
        whole == (significand * high + high * low - 1) / (high * low),
{
    assert((whole - 1) * low < significand <= whole * low) by (nonlinear_arith)
        requires
            low > 0,
            whole == (significand + low - 1) / low,
    ;
    assert((whole - 1) * (high * low) < significand * high <= whole * (high * low))
        by (nonlinear_arith)
        requires
            (whole - 1) * low < significand <= whole * low,
            high > 0,
    ;
    let u = high * low;
    let v = significand * high;
    assert(u > 0) by (nonlinear_arith)
        requires
            u == high * low,
            high > 0,
            low > 0,
    ;
    lemma_fundamental_div_mod(v + u - 1, u);
    let q = (v + u - 1) / u;
    assert(q == whole) by (nonlinear_arith)
        requires
            (whole - 1) * u < v <= whole * u,
            v + u - 1 == u * q + (v + u - 1) % u,
            0 <= (v + u - 1) % u < u,
            u > 0,
    ;
}

/// The whole nautical miles to ask for (see [`whole_radius`]).
pub fn query_radius(radius_nm: Double) -> (r: u64)
    ensures
        r == whole_radius(radius_nm),
{
    if radius_nm.nan() {
        return 0;
    }
    let least = Double { bits: MIN_RADIUS_BITS };
    let most = Double { bits: MAX_RADIUS_BITS };
    proof {
        lemma_range();
        lemma_pow2_pos(1074);
    }
    if radius_nm.le(least) {
        return 1;
    }
    if most.le(radius_nm) {
        return 250;
    }
    proof {
        law_pattern_order(radius_nm.bits as int, least.bits as int);
        law_pattern_order(most.bits as int, radius_nm.bits as int);
        law_pattern_order(0, radius_nm.unsigned_pattern());
    }
    let exponent: u64 = radius_nm.bits / 0x10_0000_0000_0000;
    let significand: u64 = 0x10_0000_0000_0000 + radius_nm.bits % 0x10_0000_0000_0000;
    // The significand counts in steps of one part in `low` of a nautical mile.
    let low: u64 = if exponent == 1023 {
        0x10_0000_0000_0000
    } else if exponent == 1024 {
        0x8_0000_0000_0000
    } else if exponent == 1025 {
        0x4_0000_0000_0000
    } else if exponent == 1026 {
        0x2_0000_0000_0000
    } else if exponent == 1027 {
        0x1_0000_0000_0000
    } else if exponent == 1028 {
        0x8000_0000_0000
    } else if exponent == 1029 {
        0x4000_0000_0000
    } else {
        0x2000_0000_0000
    };
    let whole: u64 = (significand + low - 1) / low;
    proof {
        lemma2_to64();
        lemma2_to64_rest();
        let high = pow2((exponent - 1) as nat) as int;
        lemma_pow2_pos((exponent - 1) as nat);
        lemma_pow2_adds((exponent - 1) as nat, (1075 - exponent) as nat);
        assert(low == pow2((1075 - exponent) as nat));
        lemma_rounding(significand as int, low as int, high, whole as int);
    }
    whole
}

impl Clone for NetworkSource {
    fn clone(&self) -> (r: Self)
        ensures
            r == *self,
    {
        NetworkSource { base_url: self.base_url.clone() }
    }
}

impl NetworkSource {
    /// A source at a base URL. Slashes at its end do not count.
    pub fn new(base_url: &str) -> (r: Self)
        ensures
            r.base_url@ == trimmed_end(base_url@, '/'),
    {
        NetworkSource { base_url: String::from_str(trim_end_matches(base_url, '/')) }
    }

    /// The URL that asks for the aircraft around a point. The coordinates come as they are
    /// written out.
    pub fn request_url(&self, lat: &str, lon: &str, radius_nm: Double) -> (r: String)
        ensures
            r@ == self.base_url@ + "/point/"@ + lat@ + "/"@ + lon@ + "/"@ + decimal(
                whole_radius(radius_nm),
            ),
    {
        let mut r = self.base_url.clone();
        r.append("/point/");
        r.append(lat);
        r.append("/");
        r.append(lon);
        r.append("/");
        let whole: u64 = query_radius(radius_nm);
        r.append(decimal_of_u64(whole).as_str());
        r
    }
}

/// The radius that is asked for lies in the API's range and, as far as the API's maximum allows,
/// is the smallest whole number that is no less than the radius that is needed.
pub proof fn law_query_radius_covers(radius_nm: Double)
    requires
        !radius_nm.is_nan(),
    ensures
        1 <= whole_radius(radius_nm) <= 250,
        radius_nm.value() <= 250 * unit() ==> radius_nm.value() <= whole_radius(radius_nm) * unit(),
        whole_radius(radius_nm) > 1 ==> (whole_radius(radius_nm) - 1) * unit() < radius_nm.value(),
{
    let u = unit();
    let v = radius_nm.value();
    lemma_pow2_pos(1074);
    if u < v < 250 * u {
        let q = (v + u - 1) / u;
        lemma_fundamental_div_mod(v + u - 1, u);
        assert((q - 1) * u < v <= q * u && 1 <= q <= 250) by (nonlinear_arith)
            requires
                v + u - 1 == u * q + (v + u - 1) % u,
                0 <= (v + u - 1) % u < u,
                u < v < 250 * u,
        ;
    } else if v >= 250 * u {
        let w = whole_radius(radius_nm);
        assert((w - 1) * u < v && (v <= 250 * u ==> v <= w * u)) by (nonlinear_arith)
            requires
                w == 250,
                v >= 250 * u,
                u > 0,
        ;
    } else {
        let w = whole_radius(radius_nm);
        assert(w * u == u) by (nonlinear_arith)
            requires
                w == 1,
        ;
    }
}

/// What a record says of its barometric altitude: a JSON number in feet, or something else, such
/// as the string `"ground"`.
#[derive(Debug, Clone, Copy)]
pub enum AltitudeField {
    Unsigned(u64),
    Negative(i64),
    Float(Double),
    Other,
}

/// An integer in JSON, as the double that it is read as.
pub uninterp spec fn json_integer_as_double(n: int) -> Double;

/// `serde_json::Number::as_f64` of an integer: claims that it depends on the integer alone, and
/// that an integer of at most 53 bits keeps its value.
#[verifier::external_body]
fn integer_as_double(n: i128) -> (r: Double)
    requires
        i64::MIN <= n <= u64::MAX,
    ensures
        r == json_integer_as_double(n as int),
        -0x20_0000_0000_0000 <= n <= 0x20_0000_0000_0000 ==> !r.is_nan() && r.value() == n * unit(),
{
    Double { bits: serde_json::Number::from_i128(n).unwrap().as_f64().unwrap().to_bits() }
}

impl AltitudeField {
    /// The altitude in feet, if there is one.
    pub open spec fn feet(self) -> Option<Double> {
        match self {
            AltitudeField::Unsigned(n) => Some(json_integer_as_double(n as int)),
            AltitudeField::Negative(n) => Some(json_integer_as_double(n as int)),
            AltitudeField::Float(x) => Some(x),
            AltitudeField::Other => None,
        }
    }

    /// The altitude in feet, if there is one. Small integers keep their value.
    pub fn to_feet(self) -> (r: Option<Double>)
        ensures
            r == self.feet(),
            self matches AltitudeField::Unsigned(n) ==> (n <= 0x20_0000_0000_0000 ==> r->0.value()
                == n * unit() && !r->0.is_nan()),
            self matches AltitudeField::Negative(n) ==> (-0x20_0000_0000_0000 <= n
                <= 0x20_0000_0000_0000 ==> r->0.value() == n * unit() && !r->0.is_nan()),
    {
        match self {
            AltitudeField::Unsigned(n) => Some(integer_as_double(n as i128)),
            AltitudeField::Negative(n) => Some(integer_as_double(n as i128)),
            AltitudeField::Float(x) => Some(x),
            AltitudeField::Other => None,
        }
    }
}

/// A single aircraft record. `flight`, `alt_baro`, etc. are frequently absent.
#[derive(Debug)]
pub struct RawAircraft {
    pub hex: Option<String>,
    pub flight: Option<String>,
    pub lat: Option<Double>,
    pub lon: Option<Double>,
    /// Altitude is a number in feet, or the string `"ground"`.
    pub alt_baro: AltitudeField,
    pub gs: Option<Double>,
    pub track: Option<Double>,
    pub t: Option<String>,
    pub r: Option<String>,
    pub squawk: Option<String>,
}

/// The callsign in a flight field: trimmed, and none when nothing is left.
pub open spec fn callsign_of(flight: Option<String>) -> Option<Seq<char>> {
    match flight {
        Some(f) if trimmed(f@).len() > 0 => Some(trimmed(f@)),
        _ => None,
    }
}

impl RawAircraft {
    /// The aircraft that the record describes, given its address in lower case and its altitude.
    /// A record without address or position describes none.
    pub open spec fn described(
        self,
        lower_hex: Seq<char>,
        altitude_ft: Option<Double>,
    ) -> Option<AircraftView> {
        if self.hex is Some && self.lat is Some && self.lon is Some {
            Some(
                AircraftView {
                    hex: lower_hex,
                    callsign: callsign_of(self.flight),
                    lat: self.lat->0,
                    lon: self.lon->0,
                    altitude_ft,
                    ground_speed_kt: self.gs,
                    track_deg: self.track,
                    type_code: optional(self.t),
                    registration: optional(self.r),
                    squawk: optional(self.squawk),
                },
            )
        } else {
            None
        }
    }

    /// The aircraft that the record describes.
    pub open spec fn aircraft(self) -> Option<AircraftView> {
        self.described(lowercase(self.hex->0@), self.alt_baro.feet())
    }

    /// The aircraft that the record describes, given its address in lower case and its altitude.
    pub fn describe(self, lower_hex: String, altitude_ft: Option<Double>) -> (r: Option<Aircraft>)
        ensures
            match r {
                Some(a) => self.described(lower_hex@, altitude_ft) == Some(a@),
                None => self.described(lower_hex@, altitude_ft) is None,
            },
    {
        match (self.hex, self.lat, self.lon) {
            (Some(_), Some(lat), Some(lon)) => {
                let callsign = match self.flight {
                    Some(f) => {
                        let text = trim(f.as_str());
                        if text.is_empty() {
                            None
                        } else {
                            Some(String::from_str(text))
                        }
                    },
                    None => None,
                };
                Some(
                    Aircraft {
                        hex: lower_hex,
                        callsign,
                        lat,
                        lon,
                        altitude_ft,
                        ground_speed_kt: self.gs,
                        track_deg: self.track,
                        type_code: self.t,
                        registration: self.r,
                        squawk: self.squawk,
                    },
                )
            },
            _ => None,
        }
    }

    /// Convert to the shared model, returning `None` for records without identity or position.
    pub fn into_aircraft(self) -> (r: Option<Aircraft>)
        ensures
            match r {
                Some(a) => {
                    &&& self.aircraft() == Some(a@)
                    &&& ascii(self.hex->0@) ==> a.hex@ == ascii_lowered(self.hex->0@)
                    &&& self.alt_baro matches AltitudeField::Unsigned(n) ==> (n
                        <= 0x20_0000_0000_0000 ==> a.altitude_ft is Some
                        && !a.altitude_ft->0.is_nan() && a.altitude_ft->0.value() == n * unit())
                    &&& self.alt_baro matches AltitudeField::Negative(n) ==> (
                    -0x20_0000_0000_0000 <= n <= 0x20_0000_0000_0000 ==> a.altitude_ft is Some
                        && !a.altitude_ft->0.is_nan() && a.altitude_ft->0.value() == n * unit())
                },
                None => self.aircraft() is None,
            },
    {
        let lower_hex = match &self.hex {
            Some(hex) => to_lowercase(hex.as_str()),
            None => return None,
        };
        let altitude_ft = self.alt_baro.to_feet();
        self.describe(lower_hex, altitude_ft)
    }
}

/// The aircraft that a list of records describes, in order.
pub open spec fn described_aircraft(records: Seq<RawAircraft>) -> Seq<AircraftView>
    decreases records.len(),
{
    if records.len() == 0 {
        Seq::empty()
    } else {
        match records.last().aircraft() {
            Some(a) => described_aircraft(records.drop_last()).push(a),
            None => described_aircraft(records.drop_last()),
        }
    }
}

/// The aircraft of a response, leaving out the records without identity or position.
pub fn aircraft_in(records: Vec<RawAircraft>) -> (r: Vec<Aircraft>)
    ensures
        r@.map_values(|a: Aircraft| a@) == described_aircraft(records@),
{
    let mut out: Vec<Aircraft> = Vec::new();
    let ghost all = records@;
    proof {
        assert(all.take(0) =~= Seq::empty());
        assert(out@.map_values(|a: Aircraft| a@) =~= Seq::empty());
    }
    for record in it: records
        invariant
            it.seq() == all,
            out@.map_values(|a: Aircraft| a@) == described_aircraft(all.take(it.index())),
    {
        let ghost before = out@;
        let ghost n = it.index();
        proof {
            assert(all.take(n + 1).drop_last() =~= all.take(n));
            assert(all.take(n + 1).last() == record);
        }
        if let Some(a) = record.into_aircraft() {
            out.push(a);
            proof {
                assert(out@.map_values(|x: Aircraft| x@) =~= before.map_values(
                    |x: Aircraft| x@,
                ).push(a@));
            }
        }
    }
    proof {
        assert(all.take(all.len() as int) =~= all);
    }
    out
}

} // verus!
