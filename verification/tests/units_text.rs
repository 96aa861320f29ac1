use sample_range::units::{ball_measures, split_distance, split_speed, BallTexts, DistanceUnit, SpeedUnit};

#[test]
fn split_distance_units() {
    assert_eq!(split_distance("108.1yds"), Some(("108.1".to_string(), DistanceUnit::Yards)));
    assert_eq!(split_distance(" 108.1 yd "), Some(("108.1".to_string(), DistanceUnit::Yards)));
    assert_eq!(split_distance("50ft"), Some(("50".to_string(), DistanceUnit::Feet)));
    assert_eq!(split_distance("24in"), Some(("24".to_string(), DistanceUnit::Inches)));
    assert_eq!(split_distance("180.5m"), Some(("180.5".to_string(), DistanceUnit::Meters)));
    assert_eq!(split_distance("12"), None);
    assert_eq!(split_distance(""), None);
    assert_eq!(split_distance("m"), Some(("".to_string(), DistanceUnit::Meters)));
}

#[test]
fn split_speed_units() {
    assert_eq!(split_speed("67.2mps"), Some(("67.2".to_string(), SpeedUnit::MetersPerSecond)));
    assert_eq!(split_speed("90mph"), Some(("90".to_string(), SpeedUnit::MilesPerHour)));
    assert_eq!(split_speed("120 kph"), Some(("120".to_string(), SpeedUnit::KilometersPerHour)));
    assert_eq!(split_speed("132fps"), Some(("132".to_string(), SpeedUnit::FeetPerSecond)));
    assert_eq!(split_speed("90 m/s"), None);
}

#[test]
fn distance_unit_does_not_depend_on_suffix_order() {
    for s in ["3yds", "3yd", "3ft", "3in", "3m", "3"] {
        let suffixes = ["yds", "yd", "ft", "in", "m"];
        let matching = suffixes.iter().filter(|suf| s.ends_with(*suf)).count();
        assert!(matching <= 1);
        assert_eq!(split_distance(s).is_some(), matching == 1);
    }
}

fn ball_texts(carry: Option<&str>, total: Option<&str>, height: Option<&str>, speed: Option<&str>) -> BallTexts {
    BallTexts {
        carry_distance: carry.map(str::to_owned),
        total_distance: total.map(str::to_owned),
        max_height: height.map(str::to_owned),
        launch_speed: speed.map(str::to_owned),
    }
}

#[test]
fn ball_measures_splits_each_required_text() {
    let b = ball_texts(Some("98.8m"), Some("105.3m"), Some("13.6m"), Some("40.4mps"));
    let m = ball_measures(&b).expect("all four are given with units");
    assert_eq!(m.carry, ("98.8".to_string(), DistanceUnit::Meters));
    assert_eq!(m.total, ("105.3".to_string(), DistanceUnit::Meters));
    assert_eq!(m.height, ("13.6".to_string(), DistanceUnit::Meters));
    assert_eq!(m.speed, ("40.4".to_string(), SpeedUnit::MetersPerSecond));

    let b = ball_texts(Some("108.1yds"), Some("115.1 yd"), Some("44.7ft"), Some("90.3mph"));
    let m = ball_measures(&b).expect("all four are given with units");
    assert_eq!(m.carry, ("108.1".to_string(), DistanceUnit::Yards));
    assert_eq!(m.total, ("115.1".to_string(), DistanceUnit::Yards));
    assert_eq!(m.height, ("44.7".to_string(), DistanceUnit::Feet));
    assert_eq!(m.speed, ("90.3".to_string(), SpeedUnit::MilesPerHour));
}

#[test]
fn ball_measures_needs_every_required_text() {
    assert!(ball_measures(&ball_texts(None, Some("1m"), Some("1m"), Some("1mps"))).is_none());
    assert!(ball_measures(&ball_texts(Some("1m"), None, Some("1m"), Some("1mps"))).is_none());
    assert!(ball_measures(&ball_texts(Some("1m"), Some("1m"), None, Some("1mps"))).is_none());
    assert!(ball_measures(&ball_texts(Some("1m"), Some("1m"), Some("1m"), None)).is_none());
    // A unit of the wrong kind, or none, is refused too.
    assert!(ball_measures(&ball_texts(Some("1mph"), Some("1m"), Some("1m"), Some("1mps"))).is_none());
    assert!(ball_measures(&ball_texts(Some("1m"), Some("1m"), Some("1m"), Some("1m"))).is_none());
    assert!(ball_measures(&ball_texts(Some("1"), Some("1m"), Some("1m"), Some("1mps"))).is_none());
}
