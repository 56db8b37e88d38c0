use attendance::geo::{parse_coordinate, parse_location, LocationError, Point, Square};

/// Millionths of a degree in the library's unit, 10^-18 degree.
fn micro(v: i128) -> i128 {
    v * 1_000_000_000_000
}

fn zone() -> Square {
    Square {
        top_left: Point { lat: micro(13_750_000), lng: micro(100_500_000) },
        bottom_right: Point { lat: micro(13_760_000), lng: micro(100_510_000) },
    }
}

#[test]
fn contains_point_inside() {
    assert!(zone().contains(&Point { lat: micro(13_756_300), lng: micro(100_501_800) }));
}

#[test]
fn contains_corners_of_ordered_zone() {
    let z = zone();
    assert!(z.contains(&z.top_left));
    assert!(z.contains(&z.bottom_right));
}

#[test]
fn contains_rejects_each_side() {
    let z = zone();
    assert!(!z.contains(&Point { lat: micro(13_749_999), lng: micro(100_505_000) }));
    assert!(!z.contains(&Point { lat: micro(13_760_001), lng: micro(100_505_000) }));
    assert!(!z.contains(&Point { lat: micro(13_755_000), lng: micro(100_499_999) }));
    assert!(!z.contains(&Point { lat: micro(13_755_000), lng: micro(100_510_001) }));
}

#[test]
fn contains_same_when_corners_swapped() {
    let z = Square { top_left: zone().bottom_right, bottom_right: zone().top_left };
    assert!(z.contains(&Point { lat: micro(13_755_000), lng: micro(100_505_000) }));
    assert!(!z.contains(&Point { lat: micro(13_765_000), lng: micro(100_505_000) }));
}

#[test]
fn contains_north_up_zone() {
    // top-left on a north-up map: the larger latitude, the smaller longitude
    let z = Square {
        top_left: Point { lat: micro(13_760_000), lng: micro(100_500_000) },
        bottom_right: Point { lat: micro(13_750_000), lng: micro(100_510_000) },
    };
    assert!(z.contains(&Point { lat: micro(13_756_300), lng: micro(100_501_800) }));
    assert!(z.contains(&z.top_left));
    assert!(z.contains(&z.bottom_right));
    assert!(!z.contains(&Point { lat: micro(13_749_000), lng: micro(100_501_800) }));
    assert!(!z.contains(&Point { lat: micro(13_756_300), lng: micro(100_511_000) }));
}

#[test]
fn contains_tells_close_values_apart() {
    let z = Square {
        top_left: Point { lat: 13_000_000_500_000_000_000, lng: 0 },
        bottom_right: Point { lat: 14_000_000_000_000_000_000, lng: 1 },
    };
    let p = parse_location(b"13.0000001,0").unwrap();
    assert!(!z.contains(&p));
    let q = parse_location(b"13.0000006,0").unwrap();
    assert!(z.contains(&q));
}

#[test]
fn coordinate_plain_decimal() {
    assert_eq!(parse_coordinate(b"13.7563"), Some(micro(13_756_300)));
    assert_eq!(parse_coordinate(b"100.5018"), Some(micro(100_501_800)));
    assert_eq!(parse_coordinate(b"0"), Some(0));
    assert_eq!(parse_coordinate(b"42"), Some(micro(42_000_000)));
}

#[test]
fn coordinate_signs() {
    assert_eq!(parse_coordinate(b"-13.7563"), Some(micro(-13_756_300)));
    assert_eq!(parse_coordinate(b"+13.7563"), Some(micro(13_756_300)));
    assert_eq!(parse_coordinate(b"-0.5"), Some(micro(-500_000)));
    assert_eq!(parse_coordinate(b"-0"), Some(0));
}

#[test]
fn coordinate_point_at_either_end() {
    assert_eq!(parse_coordinate(b"5."), Some(micro(5_000_000)));
    assert_eq!(parse_coordinate(b".5"), Some(micro(500_000)));
    assert_eq!(parse_coordinate(b"-.25"), Some(micro(-250_000)));
}

#[test]
fn coordinate_keeps_eighteen_decimals() {
    assert_eq!(parse_coordinate(b"1.0000001"), Some(1_000_000_100_000_000_000));
    assert_eq!(parse_coordinate(b"0.000000000000000001"), Some(1));
    assert_eq!(parse_coordinate(b"0.0000000000000000019"), Some(1));
    assert_eq!(parse_coordinate(b"-1.9999999999999999999"), Some(-1_999_999_999_999_999_999));
}

#[test]
fn coordinate_exponent_forms() {
    assert_eq!(parse_coordinate(b"1e1"), Some(micro(10_000_000)));
    assert_eq!(parse_coordinate(b"1e2"), Some(micro(100_000_000)));
    assert_eq!(parse_coordinate(b"1.5E-3"), Some(micro(1_500)));
    assert_eq!(parse_coordinate(b"-2.5e+1"), Some(micro(-25_000_000)));
    assert_eq!(parse_coordinate(b"1357e-2"), Some(micro(13_570_000)));
    assert_eq!(parse_coordinate(b"1.e1"), Some(micro(10_000_000)));
    assert_eq!(parse_coordinate(b".5e1"), Some(micro(5_000_000)));
    assert_eq!(parse_coordinate(b"0e999999999999999999999999"), Some(0));
    assert_eq!(parse_coordinate(b"5e-999999999999999999999999"), Some(0));
    assert_eq!(parse_coordinate(b"1e-18"), Some(1));
    assert_eq!(parse_coordinate(b"1e-19"), Some(0));
}

#[test]
fn coordinate_rejects_malformed() {
    assert_eq!(parse_coordinate(b""), None);
    assert_eq!(parse_coordinate(b"-"), None);
    assert_eq!(parse_coordinate(b"+"), None);
    assert_eq!(parse_coordinate(b"."), None);
    assert_eq!(parse_coordinate(b"-."), None);
    assert_eq!(parse_coordinate(b"1.2.3"), None);
    assert_eq!(parse_coordinate(b"12a"), None);
    assert_eq!(parse_coordinate(b" 1"), None);
    assert_eq!(parse_coordinate(b"--1"), None);
    assert_eq!(parse_coordinate(b"1,5"), None);
    assert_eq!(parse_coordinate(b"e5"), None);
    assert_eq!(parse_coordinate(b".e5"), None);
    assert_eq!(parse_coordinate(b"1e"), None);
    assert_eq!(parse_coordinate(b"1e+"), None);
    assert_eq!(parse_coordinate(b"1e5x"), None);
    assert_eq!(parse_coordinate(b"1e5.0"), None);
    assert_eq!(parse_coordinate(b"1ee5"), None);
    assert_eq!(parse_coordinate(b"inf"), None);
    assert_eq!(parse_coordinate(b"NaN"), None);
}

#[test]
fn coordinate_range_limits() {
    assert_eq!(parse_coordinate(b"170141183460469231731.687303715884105727"), Some(i128::MAX));
    assert_eq!(parse_coordinate(b"-170141183460469231731.687303715884105727"), Some(-i128::MAX));
    assert_eq!(parse_coordinate(b"170141183460469231731.687303715884105728"), None);
    assert_eq!(parse_coordinate(b"1e21"), None);
    assert_eq!(parse_coordinate(b"1e999999999999999999999999"), None);
    assert_eq!(parse_coordinate(b"99999999999999999999999"), None);
    assert_eq!(parse_coordinate(b"0000000000000000000000000000000000000000001.5"), Some(micro(1_500_000)));
}

#[test]
fn coordinate_sign_law() {
    for t in [&b"5"[..], b"13.75", b".5", b"x", b"1.", b"", b"2e3"] {
        let mut neg = vec![b'-'];
        neg.extend_from_slice(t);
        let mut pos = vec![b'+'];
        pos.extend_from_slice(t);
        assert_eq!(parse_coordinate(&neg), parse_coordinate(t).map(|v| -v));
        assert_eq!(parse_coordinate(&pos), parse_coordinate(t));
    }
}

#[test]
fn location_two_fields() {
    assert_eq!(
        parse_location(b"13.7563,100.5018"),
        Ok(Point { lat: micro(13_756_300), lng: micro(100_501_800) })
    );
    assert_eq!(
        parse_location(b"-33.8688,151.2093"),
        Ok(Point { lat: micro(-33_868_800), lng: micro(151_209_300) })
    );
}

#[test]
fn location_field_count() {
    assert_eq!(parse_location(b"13.7563"), Err(LocationError::FieldCount));
    assert_eq!(parse_location(b""), Err(LocationError::FieldCount));
    assert_eq!(parse_location(b"1,2,3"), Err(LocationError::FieldCount));
    assert_eq!(parse_location(b",,"), Err(LocationError::FieldCount));
}

#[test]
fn location_bad_coordinate() {
    assert_eq!(parse_location(b"abc,1"), Err(LocationError::BadCoordinate));
    assert_eq!(parse_location(b"1,"), Err(LocationError::BadCoordinate));
    assert_eq!(parse_location(b",1"), Err(LocationError::BadCoordinate));
    assert_eq!(parse_location(b"1, 2"), Err(LocationError::BadCoordinate));
}

#[test]
fn location_fields_law() {
    let fields: [&[u8]; 5] = [b"13.7", b"-100", b"x", b"", b"1e1"];
    for a in fields {
        for b in fields {
            let mut text = a.to_vec();
            text.push(b',');
            text.extend_from_slice(b);
            let expected = match (parse_coordinate(a), parse_coordinate(b)) {
                (Some(lat), Some(lng)) => Ok(Point { lat, lng }),
                _ => Err(LocationError::BadCoordinate),
            };
            assert_eq!(parse_location(&text), expected);
        }
    }
}
