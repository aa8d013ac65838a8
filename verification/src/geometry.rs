//! Fixed-point geographic points and great-circle distance.
//!
//! A coordinate is stored as an integer count of ten-thousandths of a
//! degree, so point equality, hashing and ordering are exact and total.
//! Distance is computed entirely in integer arithmetic: an equirectangular
//! approximation of the great circle on a sphere of radius 6,371,000 m,
//! with the cosine of the mean latitude evaluated by a truncated Taylor
//! series in fixed point.  At the sub-2-km separations that matter for
//! vertex snapping the approximation error is far below the 2,000 m
//! tolerance.

use vstd::prelude::*;

verus! {

/// Coordinates are scaled by this factor: one unit is 1/10,000 degree.
pub const COORD_SCALE: i64 = 10_000;

/// A geographic point with latitude and longitude in ten-thousandths of a
/// degree.  Equality is structural on the two scaled integers.
#[derive(Clone, Copy, Debug, Hash, PartialEq, Eq, Structural)]
pub struct Point {
    /// Latitude in 1/10,000 degree.
    pub lat: i64,
    /// Longitude in 1/10,000 degree.
    pub lon: i64,
}

/// An ordered, non-empty polyline of points.
pub type Path = Vec<Point>;

/// Clamps `v` into `[lo, hi]`.
pub open spec fn clamp_spec(v: int, lo: int, hi: int) -> int {
    if v < lo {
        lo
    } else if v > hi {
        hi
    } else {
        v
    }
}

/// Absolute value.
pub open spec fn abs_spec(v: int) -> int {
    if v < 0 {
        -v
    } else {
        v
    }
}

/// Cosine of half of `lat_sum_abs` (a sum of two clamped scaled latitudes,
/// taken in absolute value), scaled by one million.  Evaluated as the
/// Taylor series 1 - x^2/2 + x^4/24 - x^6/720 in fixed point and clamped
/// into [0, 1,000,000].
pub open spec fn cos_e6_spec(lat_sum_abs: int) -> int {
    let x_e9 = lat_sum_abs * 174_533 / 200;
    let x2_e12 = x_e9 * x_e9 / 1_000_000;
    let t1_e6 = x2_e12 / 2_000_000;
    let x4_e12 = x2_e12 * x2_e12 / 1_000_000_000_000;
    let t2_e6 = x4_e12 / 24_000_000;
    let x6_e12 = x4_e12 * x2_e12 / 1_000_000_000_000;
    let t3_e6 = x6_e12 / 720_000_000;
    clamp_spec(1_000_000 - t1_e6 + t2_e6 - t3_e6, 0, 1_000_000)
}

/// Squared distance between `a` and `b` in square millimetres, on the
/// equirectangular projection.  Latitudes are clamped to +/-90 degrees and
/// longitudes to +/-180 degrees first; the longitude difference wraps at
/// the antimeridian; one scaled degree unit spans 11,119 millimetres of
/// arc.
pub open spec fn sum_sq_mm2(a: Point, b: Point) -> int {
    let la = clamp_spec(a.lat as int, -900_000, 900_000);
    let lb = clamp_spec(b.lat as int, -900_000, 900_000);
    let oa = clamp_spec(a.lon as int, -1_800_000, 1_800_000);
    let ob = clamp_spec(b.lon as int, -1_800_000, 1_800_000);
    let dlat = abs_spec(la - lb);
    let dlon0 = abs_spec(oa - ob);
    let dlon = if dlon0 <= 3_600_000 - dlon0 {
        dlon0
    } else {
        3_600_000 - dlon0
    };
    let c_e6 = cos_e6_spec(abs_spec(la + lb));
    let north_mm = dlat * 11_119;
    let east_mm = dlon * 11_119 * c_e6 / 1_000_000;
    north_mm * north_mm + east_mm * east_mm
}

/// `r` is the integer square root of `x`.
pub open spec fn is_sqrt_floor(x: int, r: int) -> bool {
    0 <= r && r * r <= x && x < (r + 1) * (r + 1)
}

/// The integer square root: the unique `r >= 0` with
/// `r * r <= x < (r + 1) * (r + 1)`.
pub open spec fn sqrt_floor(x: int) -> int {
    choose|r: int| is_sqrt_floor(x, r)
}

/// Great-circle distance between `a` and `b` in whole metres.
pub open spec fn dist_m_spec(a: Point, b: Point) -> int {
    sqrt_floor(sum_sq_mm2(a, b)) / 1000
}

/// The integer square root exists for every non-negative argument; the
/// returned value is a witness.
proof fn lemma_sqrt_floor_exists(x: int) -> (r: int)
    requires
        0 <= x,
    ensures
        is_sqrt_floor(x, r),
    decreases x,
{
    if x == 0 {
        0
    } else {
        let q = lemma_sqrt_floor_exists(x - 1);
        if (q + 1) * (q + 1) <= x {
            assert(x < (q + 2) * (q + 2)) by (nonlinear_arith)
                requires
                    0 <= q,
                    x - 1 < (q + 1) * (q + 1),
            {}
            assert(is_sqrt_floor(x, q + 1));
            q + 1
        } else {
            assert(is_sqrt_floor(x, q));
            q
        }
    }
}

/// Any `r` meeting the square-root bounds is the `sqrt_floor`.
pub proof fn lemma_sqrt_floor_is(x: int, r: int)
    requires
        0 <= r,
        r * r <= x,
        x < (r + 1) * (r + 1),
    ensures
        sqrt_floor(x) == r,
{
    assert(is_sqrt_floor(x, r));
    let q = sqrt_floor(x);
    assert(is_sqrt_floor(x, q));
    assert(q == r) by (nonlinear_arith)
        requires
            0 <= r,
            r * r <= x,
            x < (r + 1) * (r + 1),
            0 <= q,
            q * q <= x,
            x < (q + 1) * (q + 1),
    {}
}

/// The distance from a point to itself is zero.
pub proof fn lemma_distance_self(a: Point)
    ensures
        dist_m_spec(a, a) == 0,
{
    let la = clamp_spec(a.lat as int, -900_000, 900_000);
    let oa = clamp_spec(a.lon as int, -1_800_000, 1_800_000);
    let c_e6 = cos_e6_spec(abs_spec(la + la));
    assert(abs_spec(la - la) == 0);
    assert(abs_spec(oa - oa) == 0);
    assert(0 * 11_119 == 0);
    assert(0 * c_e6 == 0) by (nonlinear_arith);
    assert(sum_sq_mm2(a, a) == 0);
    lemma_sqrt_floor_is(0, 0);
}

/// Distances are never negative.
pub proof fn lemma_distance_nonneg(a: Point, b: Point)
    ensures
        dist_m_spec(a, b) >= 0,
{
    let q = sum_sq_mm2(a, b);
    let la = clamp_spec(a.lat as int, -900_000, 900_000);
    let lb = clamp_spec(b.lat as int, -900_000, 900_000);
    let oa = clamp_spec(a.lon as int, -1_800_000, 1_800_000);
    let ob = clamp_spec(b.lon as int, -1_800_000, 1_800_000);
    let dlat = abs_spec(la - lb);
    let dlon0 = abs_spec(oa - ob);
    let dlon = if dlon0 <= 3_600_000 - dlon0 {
        dlon0
    } else {
        3_600_000 - dlon0
    };
    let c_e6 = cos_e6_spec(abs_spec(la + lb));
    let north_mm = dlat * 11_119;
    let east_mm = dlon * 11_119 * c_e6 / 1_000_000;
    assert(north_mm * north_mm >= 0 && east_mm * east_mm >= 0) by (nonlinear_arith) {}
    let r = lemma_sqrt_floor_exists(q);
    lemma_sqrt_floor_is(q, r);
}

/// Distance is symmetric in its two arguments.
pub proof fn lemma_distance_symmetric(a: Point, b: Point)
    ensures
        dist_m_spec(a, b) == dist_m_spec(b, a),
{
    assert(sum_sq_mm2(a, b) == sum_sq_mm2(b, a));
}

/// Two points are equal exactly when their scaled coordinate pairs match.
pub proof fn lemma_point_identity(a: Point, b: Point)
    ensures
        (a == b) <==> (a.lat == b.lat && a.lon == b.lon),
{
}

impl Point {
    /// Builds a point from scaled coordinates (ten-thousandths of a degree).
    pub fn new(lat: i64, lon: i64) -> (r: Point)
        ensures
            r.lat == lat,
            r.lon == lon,
    {
        Point { lat, lon }
    }

    /// Great-circle distance to `p` in whole metres.
    pub fn geo_distance(&self, p: &Point) -> (d: u64)
        ensures
            d == dist_m_spec(*self, *p),
            *self == *p ==> d == 0,
    {
        let la = clamp_i64(self.lat, -900_000, 900_000);
        let lb = clamp_i64(p.lat, -900_000, 900_000);
        let oa = clamp_i64(self.lon, -1_800_000, 1_800_000);
        let ob = clamp_i64(p.lon, -1_800_000, 1_800_000);
        let dlat: u64 = abs_diff_i64(la, lb);
        let dlon0: u64 = abs_diff_i64(oa, ob);
        assert(dlon0 <= 3_600_000);
        let dlon: u64 = if dlon0 <= 3_600_000 - dlon0 {
            dlon0
        } else {
            3_600_000 - dlon0
        };
        let lat_sum_abs: u64 = abs_sum_i64(la, lb);
        assert(dlat <= 1_800_000 && dlon <= 3_600_000 && lat_sum_abs <= 1_800_000);
        let c_e6: u64 = cos_e6(lat_sum_abs);
        let north_mm: u64 = dlat * 11_119;
        let e1: u64 = dlon * 11_119;
        assert(e1 * c_e6 <= 40_028_400_000_000_000) by (nonlinear_arith)
            requires
                e1 <= 40_028_400_000,
                c_e6 <= 1_000_000,
        {}
        let east_mm: u64 = e1 * c_e6 / 1_000_000;
        assert(north_mm <= 20_014_200_000 && east_mm <= 40_028_400_000);
        assert((north_mm as u128) * (north_mm as u128) <= 0x100_0000_0000_0000_0000
            && (east_mm as u128) * (east_mm as u128) <= 0x100_0000_0000_0000_0000)
            by (nonlinear_arith)
            requires
                north_mm <= 20_014_200_000,
                east_mm <= 40_028_400_000,
        {}
        let sq: u128 = (north_mm as u128) * (north_mm as u128) + (east_mm as u128) * (east_mm
            as u128);
        assert(sq == sum_sq_mm2(*self, *p));
        let root: u64 = isqrt(sq);
        proof {
            lemma_sqrt_floor_is(sq as int, root as int);
            if *self == *p {
                lemma_distance_self(*self);
            }
        }
        root / 1000
    }
}

/// Clamps `v` into `[lo, hi]`.
fn clamp_i64(v: i64, lo: i64, hi: i64) -> (r: i64)
    requires
        lo <= hi,
    ensures
        r == clamp_spec(v as int, lo as int, hi as int),
{
    if v < lo {
        lo
    } else if v > hi {
        hi
    } else {
        v
    }
}

/// `|a - b|` for values small enough that the difference cannot overflow.
fn abs_diff_i64(a: i64, b: i64) -> (r: u64)
    requires
        -2_000_000 <= a <= 2_000_000,
        -2_000_000 <= b <= 2_000_000,
    ensures
        r == abs_spec(a - b),
{
    if a >= b {
        (a - b) as u64
    } else {
        (b - a) as u64
    }
}

/// `|a + b|` for values small enough that the sum cannot overflow.
fn abs_sum_i64(a: i64, b: i64) -> (r: u64)
    requires
        -2_000_000 <= a <= 2_000_000,
        -2_000_000 <= b <= 2_000_000,
    ensures
        r == abs_spec(a + b),
{
    let s = a + b;
    if s >= 0 {
        s as u64
    } else {
        (-s) as u64
    }
}

/// Fixed-point cosine of half the (absolute) latitude sum, scaled by 1e6.
fn cos_e6(lat_sum_abs: u64) -> (r: u64)
    requires
        lat_sum_abs <= 1_800_000,
    ensures
        r == cos_e6_spec(lat_sum_abs as int),
        r <= 1_000_000,
{
    let x_e9: u64 = lat_sum_abs * 174_533 / 200;
    assert(x_e9 <= 1_570_797_000);
    assert(x_e9 * x_e9 <= 2_467_403_215_209_000_000) by (nonlinear_arith)
        requires
            x_e9 <= 1_570_797_000,
    {}
    let x2_e12: u64 = x_e9 * x_e9 / 1_000_000;
    assert(x2_e12 <= 2_467_403_215_209);
    assert((x2_e12 as u128) * (x2_e12 as u128) <= 6_088_078_626_423_710_768_913_681)
        by (nonlinear_arith)
        requires
            x2_e12 <= 2_467_403_215_209,
    {}
    let x4_pre: u128 = (x2_e12 as u128) * (x2_e12 as u128) / 1_000_000_000_000;
    assert(x4_pre <= 6_088_078_626_423);
    let x4_e12: u64 = x4_pre as u64;
    let t1_e6: u64 = x2_e12 / 2_000_000;
    let t2_e6: u64 = x4_e12 / 24_000_000;
    assert((x4_e12 as u128) * (x2_e12 as u128) <= 15_021_744_777_281_302_582_867_407)
        by (nonlinear_arith)
        requires
            x4_e12 <= 6_088_078_626_423,
            x2_e12 <= 2_467_403_215_209,
    {}
    let x6_pre: u128 = (x4_e12 as u128) * (x2_e12 as u128) / 1_000_000_000_000;
    assert(x6_pre <= 15_021_744_777_281);
    let x6_e12: u64 = x6_pre as u64;
    let t3_e6: u64 = x6_e12 / 720_000_000;
    let raw: i64 = 1_000_000 - (t1_e6 as i64) + (t2_e6 as i64) - (t3_e6 as i64);
    if raw < 0 {
        0
    } else if raw > 1_000_000 {
        1_000_000
    } else {
        raw as u64
    }
}

/// Integer square root by binary search.
fn isqrt(x: u128) -> (r: u64)
    requires
        x < 0x1_0000_0000_0000_0000_0000,
    ensures
        (r as int) * (r as int) <= x as int,
        (x as int) < (r as int + 1) * (r as int + 1),
{
    let mut lo: u128 = 0;
    let mut hi: u128 = 0x1_0000_0000_0000;
    assert(hi * hi > x) by (nonlinear_arith)
        requires
            hi == 0x1_0000_0000_0000,
            x < 0x1_0000_0000_0000_0000_0000,
    {}
    while hi - lo > 1
        invariant
            lo < hi,
            hi <= 0x1_0000_0000_0000,
            x < 0x1_0000_0000_0000_0000_0000,
            (lo as int) * (lo as int) <= x as int,
            (x as int) < (hi as int) * (hi as int),
        decreases hi - lo,
    {
        let mid = lo + (hi - lo) / 2;
        assert(mid * mid < 0x1_0000_0000_0000_0000_0000_0000) by (nonlinear_arith)
            requires
                mid < 0x1_0000_0000_0000,
        {}
        if mid * mid <= x {
            lo = mid;
        } else {
            hi = mid;
        }
    }
    lo as u64
}

/// The numeric pairs of a flat JSON linestring (an array of two-element
/// number arrays), each number rendered as its decimal text.
pub uninterp spec fn json_flat_pairs(s: Seq<char>) -> Option<Seq<(Seq<char>, Seq<char>)>>;

/// The numeric pairs of a nested JSON linestring (an array of arrays of
/// two-element number arrays), each number rendered as its decimal text.
pub uninterp spec fn json_nested_pairs(s: Seq<char>) -> Option<Seq<Seq<(Seq<char>, Seq<char>)>>>;

/// Relies on serde_json: parsing a JSON array of numeric pairs, with each
/// number rendered back as decimal text, is a function of the input text
/// alone.
#[verifier::external_body]
fn parse_flat_pairs(s: &str) -> (r: Option<Vec<(String, String)>>)
    ensures
        (r is Some) == (json_flat_pairs(s@) is Some),
        r matches Some(v) ==> Some(v@.map_values(|p: (String, String)| (p.0@, p.1@)))
            == json_flat_pairs(s@),
{
    match serde_json::from_str::<Vec<(serde_json::Number, serde_json::Number)>>(s) {
        Ok(v) => Some(v.into_iter().map(|(a, b)| (a.to_string(), b.to_string())).collect()),
        Err(_) => None,
    }
}

/// Relies on serde_json: parsing a JSON array of arrays of numeric pairs,
/// with each number rendered back as decimal text, is a function of the
/// input text alone.
#[verifier::external_body]
fn parse_nested_pairs(s: &str) -> (r: Option<Vec<Vec<(String, String)>>>)
    ensures
        (r is Some) == (json_nested_pairs(s@) is Some),
        r matches Some(v) ==> Some(
            v@.map_values(
                |row: Vec<(String, String)>| row@.map_values(|p: (String, String)| (p.0@, p.1@)),
            ),
        ) == json_nested_pairs(s@),
{
    match serde_json::from_str::<Vec<Vec<(serde_json::Number, serde_json::Number)>>>(s) {
        Ok(v) => Some(
            v.into_iter().map(
                |row| row.into_iter().map(|(a, b)| (a.to_string(), b.to_string())).collect(),
            ).collect(),
        ),
        Err(_) => None,
    }
}

/// The point denoted by one textual coordinate pair.  The provider sends
/// (longitude, latitude); the point stores (latitude, longitude).
pub open spec fn pair_point(p: (Seq<char>, Seq<char>)) -> Option<Point> {
    if crate::strutil::scaled_val(p.0) is Some && crate::strutil::scaled_val(p.1) is Some {
        Some(
            Point {
                lat: crate::strutil::scaled_val(p.1)->Some_0 as i64,
                lon: crate::strutil::scaled_val(p.0)->Some_0 as i64,
            },
        )
    } else {
        None
    }
}

/// The points of a list of textual coordinate pairs from index `i`, or
/// nothing if any pair fails to convert.
pub open spec fn pairs_points(ps: Seq<(Seq<char>, Seq<char>)>, i: int) -> Option<Seq<Point>>
    decreases ps.len() - i,
{
    if i < 0 || i >= ps.len() {
        Some(Seq::empty())
    } else {
        match pair_point(ps[i]) {
            None => None,
            Some(pt) => match pairs_points(ps, i + 1) {
                None => None,
                Some(rest) => Some(seq![pt] + rest),
            },
        }
    }
}

/// The paths of the nested rows from index `i`: each row that converts
/// to a non-empty point list yields one path; other rows are dropped.
pub open spec fn nested_paths(rows: Seq<Seq<(Seq<char>, Seq<char>)>>, i: int) -> Seq<Seq<Point>>
    decreases rows.len() - i,
{
    if i < 0 || i >= rows.len() {
        Seq::empty()
    } else {
        (match pairs_points(rows[i], 0) {
            Some(pts) => if pts.len() > 0 {
                seq![pts]
            } else {
                Seq::empty()
            },
            None => Seq::empty(),
        }) + nested_paths(rows, i + 1)
    }
}

/// The paths encoded by one linestring fragment: the flat form is tried
/// first, then the nested form; a fragment (or nested row) that does not
/// decode to a non-empty point list yields no path.
pub open spec fn fragment_paths_spec(s: Seq<char>) -> Seq<Seq<Point>> {
    match json_flat_pairs(s) {
        Some(pairs) => match pairs_points(pairs, 0) {
            Some(pts) => if pts.len() > 0 {
                seq![pts]
            } else {
                Seq::empty()
            },
            None => Seq::empty(),
        },
        None => match json_nested_pairs(s) {
            Some(rows) => nested_paths(rows, 0),
            None => Seq::empty(),
        },
    }
}

/// The paths encoded by a list of linestring fragments from index `i`.
pub open spec fn linestrings_paths_spec(ls: Seq<Seq<char>>, i: int) -> Seq<Seq<Point>>
    decreases ls.len() - i,
{
    if i < 0 || i >= ls.len() {
        Seq::empty()
    } else {
        fragment_paths_spec(ls[i]) + linestrings_paths_spec(ls, i + 1)
    }
}

/// Converts a list of textual coordinate pairs to points, swapping the
/// provider's (longitude, latitude) order into (latitude, longitude).
#[verifier::loop_isolation(false)]
fn pairs_to_points(pairs: &Vec<(String, String)>) -> (r: Option<Vec<Point>>)
    ensures
        ({
            let ps = pairs@.map_values(|p: (String, String)| (p.0@, p.1@));
            match r {
                Some(v) => Some(v@) == pairs_points(ps, 0),
                None => pairs_points(ps, 0) is None,
            }
        }),
{
    let ghost ps = pairs@.map_values(|p: (String, String)| (p.0@, p.1@));
    let mut out: Vec<Point> = Vec::new();
    let mut i: usize = 0;
    while i < pairs.len()
        invariant
            i <= pairs@.len(),
            (pairs_points(ps, 0) is Some) == (pairs_points(ps, i as int) is Some),
            pairs_points(ps, i as int) matches Some(rest) ==> pairs_points(ps, 0) == Some(
                out@ + rest,
            ),
        decreases pairs@.len() - i,
    {
        let lon = match crate::strutil::parse_scaled(pairs[i].0.as_str()) {
            None => {
                proof {
                    assert(pair_point(ps[i as int]) is None);
                }
                return None;
            },
            Some(v) => v,
        };
        let lat = match crate::strutil::parse_scaled(pairs[i].1.as_str()) {
            None => {
                proof {
                    assert(pair_point(ps[i as int]) is None);
                }
                return None;
            },
            Some(v) => v,
        };
        let ghost pre = out@;
        out.push(Point { lat, lon });
        proof {
            assert(pair_point(ps[i as int]) == Some(Point { lat, lon }));
            match pairs_points(ps, i as int + 1) {
                Some(rest2) => {
                    assert(pairs_points(ps, i as int) == Some(
                        seq![Point { lat, lon }] + rest2,
                    ));
                    assert(pre + (seq![Point { lat, lon }] + rest2) =~= out@ + rest2);
                },
                None => {},
            }
        }
        i = i + 1;
    }
    proof {
        match pairs_points(ps, 0) {
            Some(whole) => {
                assert(whole =~= out@);
            },
            None => {},
        }
    }
    Some(out)
}

/// Decodes raw JSON linestring fragments into paths: each fragment is a
/// JSON array of (longitude, latitude) number pairs, or an array of such
/// arrays; both shapes are accepted, the flat one first.  A fragment (or
/// nested row) is dropped when it does not decode: this includes a
/// fragment whose numbers use exponent notation, which `scaled_val` does
/// not accept, and one that decodes to an empty point list, which cannot
/// form a path.
#[verifier::loop_isolation(false)]
pub fn linestrings_to_paths(line_strings: &Vec<String>) -> (r: Vec<Path>)
    ensures
        r@.map_values(|p: Path| p@) == linestrings_paths_spec(
            line_strings@.map_values(|t: String| t@),
            0,
        ),
{
    let ghost ls = line_strings@.map_values(|t: String| t@);
    let mut out: Vec<Path> = Vec::new();
    let mut i: usize = 0;
    while i < line_strings.len()
        invariant
            i <= line_strings@.len(),
            out@.map_values(|p: Path| p@) + linestrings_paths_spec(ls, i as int)
                == linestrings_paths_spec(ls, 0),
        decreases line_strings@.len() - i,
    {
        let ghost pre = out@;
        let frag = &line_strings[i];
        match parse_flat_pairs(frag.as_str()) {
            Some(pairs) => {
                match pairs_to_points(&pairs) {
                    Some(pts) => {
                        if pts.len() > 0 {
                            out.push(pts);
                        }
                    },
                    None => {},
                }
            },
            None => {
                match parse_nested_pairs(frag.as_str()) {
                    Some(rows) => {
                        let ghost rowviews = rows@.map_values(
                            |row: Vec<(String, String)>| row@.map_values(
                                |p: (String, String)| (p.0@, p.1@),
                            ),
                        );
                        let mut k: usize = 0;
                        while k < rows.len()
                            invariant
                                k <= rows@.len(),
                                out@.map_values(|p: Path| p@) + nested_paths(rowviews, k as int)
                                    == pre.map_values(|p: Path| p@) + nested_paths(rowviews, 0),
                            decreases rows@.len() - k,
                        {
                            let ghost pre2 = out@;
                            match pairs_to_points(&rows[k]) {
                                Some(pts) => {
                                    if pts.len() > 0 {
                                        out.push(pts);
                                        proof {
                                            assert(out@.map_values(|p: Path| p@) =~= pre2.map_values(
                                                |p: Path| p@,
                                            ) + seq![pts@]);
                                            assert((pre2.map_values(|p: Path| p@) + seq![pts@])
                                                + nested_paths(rowviews, k as int + 1)
                                                =~= pre2.map_values(|p: Path| p@) + (seq![pts@]
                                                + nested_paths(rowviews, k as int + 1)));
                                        }
                                    }
                                },
                                None => {},
                            }
                            k = k + 1;
                        }
                    },
                    None => {},
                }
            },
        }
        proof {
            assert(out@.map_values(|p: Path| p@) =~= pre.map_values(|p: Path| p@)
                + fragment_paths_spec(ls[i as int]));
            assert((pre.map_values(|p: Path| p@) + fragment_paths_spec(ls[i as int]))
                + linestrings_paths_spec(ls, i as int + 1) =~= pre.map_values(|p: Path| p@) + (
            fragment_paths_spec(ls[i as int]) + linestrings_paths_spec(ls, i as int + 1)));
        }
        i = i + 1;
    }
    proof {
        assert(out@.map_values(|p: Path| p@) =~= linestrings_paths_spec(ls, 0));
    }
    out
}

/// Every path produced by nested rows is non-empty.
proof fn lemma_nested_paths_nonempty(rows: Seq<Seq<(Seq<char>, Seq<char>)>>, i: int)
    ensures
        forall|k: int|
            0 <= k < nested_paths(rows, i).len() ==> (#[trigger] nested_paths(rows, i)[k]).len()
                > 0,
    decreases rows.len() - i,
{
    if 0 <= i < rows.len() {
        lemma_nested_paths_nonempty(rows, i + 1);
        let head = match pairs_points(rows[i], 0) {
            Some(pts) => if pts.len() > 0 {
                seq![pts]
            } else {
                Seq::<Seq<Point>>::empty()
            },
            None => Seq::<Seq<Point>>::empty(),
        };
        let rest = nested_paths(rows, i + 1);
        assert forall|k: int|
            0 <= k < nested_paths(rows, i).len() implies (#[trigger] nested_paths(
            rows,
            i,
        )[k]).len() > 0 by {
            if k >= head.len() {
                assert(nested_paths(rows, i)[k] == rest[k - head.len()]);
            }
        }
    }
}

/// Every path decoded from linestring fragments is non-empty.
pub proof fn lemma_linestrings_nonempty(ls: Seq<Seq<char>>, i: int)
    ensures
        forall|k: int|
            0 <= k < linestrings_paths_spec(ls, i).len() ==> (#[trigger] linestrings_paths_spec(
                ls,
                i,
            )[k]).len() > 0,
    decreases ls.len() - i,
{
    if 0 <= i < ls.len() {
        lemma_linestrings_nonempty(ls, i + 1);
        let head = fragment_paths_spec(ls[i]);
        let rest = linestrings_paths_spec(ls, i + 1);
        match json_flat_pairs(ls[i]) {
            Some(pairs) => {},
            None => {
                match json_nested_pairs(ls[i]) {
                    Some(rows) => {
                        lemma_nested_paths_nonempty(rows, 0);
                    },
                    None => {},
                }
            },
        }
        assert(forall|k: int| 0 <= k < head.len() ==> (#[trigger] head[k]).len() > 0);
        assert forall|k: int|
            0 <= k < linestrings_paths_spec(ls, i).len() implies (
        #[trigger] linestrings_paths_spec(ls, i)[k]).len() > 0 by {
            if k < head.len() {
                assert(linestrings_paths_spec(ls, i)[k] == head[k]);
            } else {
                assert(linestrings_paths_spec(ls, i)[k] == rest[k - head.len()]);
            }
        }
    }
}

} // verus!
