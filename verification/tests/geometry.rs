use tfl_gtfs::geometry::{linestrings_to_paths, Point};
use tfl_gtfs::strutil::{fixed4_to_string, parse_scaled, parse_u64};

#[test]
fn point_equality_after_truncation() {
    // 51.50732 and -0.12768 scale to the same integers every time
    let lat = parse_scaled("51.50732").unwrap();
    let lon = parse_scaled("-0.12768").unwrap();
    assert_eq!(Point::new(lat, lon), Point::new(lat, lon));
    // distinct at four decimal places means distinct points
    let a = Point::new(parse_scaled("51.5073").unwrap(), lon);
    let b = Point::new(parse_scaled("51.5074").unwrap(), lon);
    assert_ne!(a, b);
    // a fifth decimal digit is truncated away
    assert_eq!(parse_scaled("51.507321").unwrap(), 515073);
    assert_eq!(parse_scaled("51.50733").unwrap(), 515073);
}

#[test]
fn scaled_parse_floors_toward_negative_infinity() {
    assert_eq!(parse_scaled("-0.12768"), Some(-1277));
    assert_eq!(parse_scaled("-0.1276"), Some(-1276));
    assert_eq!(parse_scaled("0.12768"), Some(1276));
    assert_eq!(parse_scaled("51.5"), Some(515000));
    assert_eq!(parse_scaled("51"), Some(510000));
    assert_eq!(parse_scaled("-51"), Some(-510000));
    assert_eq!(parse_scaled(""), None);
    assert_eq!(parse_scaled("-"), None);
    assert_eq!(parse_scaled("5."), None);
    assert_eq!(parse_scaled("5e1"), None);
    assert_eq!(parse_scaled("1.2.3"), None);
}

#[test]
fn distance_to_self_is_zero() {
    let p = Point::new(515000, 0);
    assert_eq!(p.geo_distance(&p), 0);
}

#[test]
fn distance_wraps_at_the_antimeridian() {
    // two renderings of the same meridian lie at distance zero
    let a = Point::new(0, -1800000);
    let b = Point::new(0, 1800000);
    assert_eq!(a.geo_distance(&b), 0);
    // just short of the antimeridian on either side: a small distance
    let c = Point::new(0, -1799990);
    let d = Point::new(0, 1799990);
    let dist = c.geo_distance(&d);
    assert!(dist > 0 && dist < 1000, "got {}", dist);
}

#[test]
fn distance_is_symmetric_and_plausible() {
    // one hundredth of a degree of latitude is about 1,112 m
    let a = Point::new(515000, -1000);
    let b = Point::new(515100, -1000);
    let d = a.geo_distance(&b);
    assert_eq!(d, b.geo_distance(&a));
    assert!(d > 1000 && d < 1250, "got {}", d);
}

#[test]
fn fixed_point_rendering() {
    assert_eq!(fixed4_to_string(515073), "51.5073");
    assert_eq!(fixed4_to_string(515000), "51.5");
    assert_eq!(fixed4_to_string(510000), "51");
    assert_eq!(fixed4_to_string(-1277), "-0.1277");
    assert_eq!(fixed4_to_string(0), "0");
}

#[test]
fn decimal_parse() {
    assert_eq!(parse_u64("23"), Some(23));
    assert_eq!(parse_u64("0"), Some(0));
    assert_eq!(parse_u64(""), None);
    assert_eq!(parse_u64("2x"), None);
    assert_eq!(parse_u64("18446744073709551615"), Some(u64::MAX));
    assert_eq!(parse_u64("18446744073709551616"), None);
}

#[test]
fn linestrings_decode_flat_and_nested() {
    let flat = "[[-0.1,51.5],[-0.12,51.51]]".to_owned();
    let nested = "[[[-0.2,52.0],[-0.21,52.01]],[[-0.3,53.0],[-0.31,53.01]]]".to_owned();
    let bad = "not json".to_owned();
    let paths = linestrings_to_paths(&vec![flat, nested, bad]);
    assert_eq!(paths.len(), 3);
    assert_eq!(paths[0].len(), 2);
    // the provider sends (longitude, latitude); the point holds (lat, lon)
    assert_eq!(paths[0][0], Point::new(515000, -1000));
    assert_eq!(paths[0][1], Point::new(515100, -1200));
    assert_eq!(paths[1][0], Point::new(520000, -2000));
    assert_eq!(paths[2][0], Point::new(530000, -3000));
}
