use katastone::calculations::{plan_bearing, BearingCorrection, Geometry};
use katastone::parse::parse_records;

/// Latitude of the reference landmark, in degrees.
const FERNSEH_PHI: f64 = 52.520803;
/// Longitude of the reference landmark, in degrees.
const FERNSEH_LAMBDA: f64 = 13.40945;
/// Radius of earth in meters.
const EARTH_R: f64 = 6_371_000.785;

fn apply(c: BearingCorrection, x: f64) -> f64 {
    match c {
        BearingCorrection::Keep => x,
        BearingCorrection::MirrorHalf => 180.0 - x,
        BearingCorrection::MirrorFull => 360.0 - x,
        BearingCorrection::ShiftHalf => x + 180.0,
    }
}

/// Great-circle distance and initial bearing from the reference point, with
/// the quadrant correction decided by the library.
fn geometry(lat: f64, lon: f64) -> (f64, f64) {
    let phi_a = FERNSEH_PHI.to_radians();
    let lambda_a = FERNSEH_LAMBDA.to_radians();
    let phi_b = lat.to_radians();
    let lambda_b = lon.to_radians();
    let zeta =
        (phi_a.sin() * phi_b.sin() + phi_a.cos() * phi_b.cos() * (lambda_b - lambda_a).cos())
            .acos();
    let distance = EARTH_R * zeta;
    let alpha = ((phi_b.sin() - phi_a.sin() * zeta.cos()) / (phi_a.cos() * zeta.sin()))
        .acos()
        .to_degrees();
    let beta = ((phi_a.sin() - phi_b.sin() * zeta.cos()) / (phi_b.cos() * zeta.sin()))
        .acos()
        .to_degrees();
    let eastward = lambda_a <= lambda_b;
    let plan = plan_bearing(eastward, FERNSEH_PHI < 0.0, lat >= 0.0);
    let bearing = if plan.use_alpha {
        apply(plan.alpha_correction, alpha)
    } else {
        apply(plan.beta_correction, beta)
    };
    (distance, bearing)
}

/// An order-preserving integer key for a finite distance.
fn distance_key(d: f64) -> u64 {
    let bits = d.to_bits();
    if bits & (1u64 << 63) != 0 {
        !bits
    } else {
        bits | (1u64 << 63)
    }
}

fn computed_geometry(lat: f64, lon: f64) -> Geometry {
    let (distance, bearing) = geometry(lat, lon);
    Geometry {
        distance: format!("{distance}"),
        angle: format!("{bearing}"),
        distance_key: distance_key(distance),
    }
}

#[test]
fn calculates_gontardstrasse_9() {
    let latitude = 52.5207635f64;
    let longitude = 13.4098665f64;
    let (distance, bearing) = geometry(latitude, longitude);
    assert_eq!(distance as u64, 28);
    // the target lies eastward, and both latitudes are northern
    assert!(FERNSEH_LAMBDA.to_radians() <= longitude.to_radians());
    let plan = plan_bearing(true, FERNSEH_PHI < 0.0, latitude >= 0.0);
    assert!(plan.use_alpha);
    assert_eq!(plan.alpha_correction, BearingCorrection::Keep);
    assert_eq!(bearing as u64, 98);
}

#[test]
fn sets_gontardstrasse_9() {
    let latitude = 52.5207635f64;
    let longitude = 13.4098665f64;
    let mut record = katastone::record::Record {
        city: "Berlin".to_string(),
        street: "Gontard".to_string(),
        street_number: "9".to_string(),
        zipcode: "12456".to_string(),
        urban_unit: "unit".to_string(),
        old_unit: "unit".to_string(),
        district: "district".to_string(),
        latitude: format!("{latitude}"),
        longitude: format!("{longitude}"),
        distance: "0".to_string(),
        angle: "0".to_string(),
        distance_key: 0,
    };
    record.set_angle_direction(computed_geometry(latitude, longitude));
    assert_eq!(record.distance.parse::<f64>().unwrap() as u64, 28);
    assert_eq!(record.angle.parse::<f64>().unwrap() as u64, 98);
}

#[test]
fn sets_karl_liebknecht() {
    let entry = "Berlin;Karl-Liebknecht-Stra\u{FFFD}e;15;10178;Mitte;Mitte;Mitte;52.5229655;13.4099882";
    let mut vec = parse_records(entry).expect("row must parse");
    let record = &mut vec[0];
    let lat: f64 = record.latitude.parse().unwrap();
    let lon: f64 = record.longitude.parse().unwrap();
    record.set_angle_direction(computed_geometry(lat, lon));
    assert_eq!(record.distance.parse::<f64>().unwrap() as u64, 243);
    assert_eq!(record.angle.parse::<f64>().unwrap() as u64, 8);
}

#[test]
fn distance_stays_within_half_circumference() {
    let half_circumference = std::f64::consts::PI * EARTH_R;
    for (lat, lon) in [
        (52.5207635, 13.4098665),
        (52.5229655, 13.4099882),
        (-52.520803, -166.59055),
        (0.0, 0.0),
        (90.0, 0.0),
        (-90.0, 180.0),
    ] {
        let (distance, _) = geometry(lat, lon);
        assert!(distance >= 0.0, "distance for ({lat}, {lon}) is negative");
        assert!(
            distance <= half_circumference + 1.0,
            "distance for ({lat}, {lon}) exceeds half the great circle"
        );
    }
}

#[test]
fn degenerate_reference_point() {
    let (distance, bearing) = geometry(FERNSEH_PHI, FERNSEH_LAMBDA);
    assert!(distance.abs() < 1e-3, "distance to itself is {distance}");
    // the bearing of a point to itself is undefined and stays non-finite
    assert!(!bearing.is_finite());
}

#[test]
fn quadrant_corrections_follow_the_rule() {
    // eastward: alpha flips only for a southern reference point
    assert_eq!(plan_bearing(true, false, true).alpha_correction, BearingCorrection::Keep);
    assert_eq!(plan_bearing(true, true, true).alpha_correction, BearingCorrection::MirrorHalf);
    // eastward: beta flips only for a northern target
    assert_eq!(plan_bearing(true, false, true).beta_correction, BearingCorrection::MirrorHalf);
    assert_eq!(plan_bearing(true, false, false).beta_correction, BearingCorrection::Keep);
    // westward: alpha is mirrored on the full circle for a northern
    // reference point and shifted for a southern one
    assert_eq!(plan_bearing(false, false, true).alpha_correction, BearingCorrection::MirrorFull);
    assert_eq!(plan_bearing(false, true, true).alpha_correction, BearingCorrection::ShiftHalf);
    // westward: beta is shifted for a northern target and mirrored for a
    // southern one
    assert_eq!(plan_bearing(false, false, true).beta_correction, BearingCorrection::ShiftHalf);
    assert_eq!(plan_bearing(false, false, false).beta_correction, BearingCorrection::MirrorFull);
    // the bearing comes from alpha exactly when the target lies eastward
    assert!(plan_bearing(true, false, true).use_alpha);
    assert!(!plan_bearing(false, false, true).use_alpha);
}
