use sensor_station::weather::{
    local_hour, parse_valid_time_start, pick_latest_or_current_at, wind_speed_unit,
    ForecastEntry, WindUnit,
};

fn entry(t: &str, has_value: bool) -> ForecastEntry {
    ForecastEntry { valid_time: t.to_owned(), has_value }
}

#[test]
fn valid_time_start_reads_before_the_slash() {
    assert_eq!(parse_valid_time_start("1970-01-01T01:00:00+00:00/PT1H"), Some((3600, 0)));
    assert_eq!(parse_valid_time_start("1970-01-01T00:00:01Z"), Some((1, 0)));
    assert_eq!(parse_valid_time_start("garbage/PT1H"), None);
    assert_eq!(parse_valid_time_start(""), None);
}

#[test]
fn picks_the_latest_started_entry() {
    let entries = vec![
        entry("1970-01-01T00:00:10Z/PT1H", true),
        entry("1970-01-01T00:00:30Z/PT1H", false),
        entry("1970-01-01T00:00:20Z/PT1H", true),
        entry("1970-01-01T00:01:00Z/PT1H", true),
        entry("bad", true),
    ];
    assert_eq!(pick_latest_or_current_at(&entries, (25, 0)), Some(2));
    assert_eq!(pick_latest_or_current_at(&entries, (15, 0)), Some(0));
    assert_eq!(pick_latest_or_current_at(&entries, (100, 0)), Some(3));
    // Nothing has started yet: the first entry with a value.
    assert_eq!(pick_latest_or_current_at(&entries, (5, 0)), Some(0));
}

#[test]
fn ties_go_to_the_last_entry() {
    let entries = vec![
        entry("1970-01-01T00:00:10Z", true),
        entry("1970-01-01T00:00:10Z", true),
        entry("1970-01-01T00:00:05Z", true),
    ];
    assert_eq!(pick_latest_or_current_at(&entries, (20, 0)), Some(1));
}

#[test]
fn nothing_to_pick_without_values() {
    let entries = vec![entry("1970-01-01T00:00:10Z", false)];
    assert_eq!(pick_latest_or_current_at(&entries, (20, 0)), None);
    assert_eq!(pick_latest_or_current_at(&vec![], (20, 0)), None);
    let entries = vec![entry("bad", false), entry("also bad", true)];
    assert_eq!(pick_latest_or_current_at(&entries, (20, 0)), Some(1));
}

#[test]
fn wind_units() {
    assert_eq!(wind_speed_unit("wmoUnit:km_h-1"), WindUnit::KilometresPerHour);
    assert_eq!(wind_speed_unit("wmoUnit:m_s-1"), WindUnit::MetresPerSecond);
    assert_eq!(wind_speed_unit("wmoUnit:kn"), WindUnit::Knots);
    assert_eq!(wind_speed_unit("mph"), WindUnit::Other);
    assert_eq!(wind_speed_unit(""), WindUnit::Other);
}

#[test]
fn local_hours() {
    assert_eq!(local_hour(10, 0), 10);
    assert_eq!(local_hour(3, -8), 19);
    assert_eq!(local_hour(23, 2), 1);
    assert_eq!(local_hour(0, -24), 0);
    assert_eq!(local_hour(5, 48), 5);
}
