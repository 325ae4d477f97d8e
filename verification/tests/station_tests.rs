use sensor_station::http::{internal_error, into_http_error, BAD_REQUEST, INTERNAL_SERVER_ERROR};
use sensor_station::station::{check_location_update, parse_surface, Surface, STATION_ID};

#[test]
fn surface_names() {
    assert_eq!(parse_surface("land").ok(), Some(Surface::Land));
    assert_eq!(parse_surface("water").ok(), Some(Surface::Water));
    for bad in ["", "Land", "air", "water "] {
        let e = parse_surface(bad).err().unwrap();
        assert_eq!(e.status, BAD_REQUEST);
        assert_eq!(e.field, "error");
        assert_eq!(e.message, "surface must be either 'land' or 'water'");
    }
    assert_eq!(Surface::Land.name(), "land");
    assert_eq!(Surface::Water.name(), "water");
    assert_eq!(parse_surface(&Surface::Water.name()).ok(), Some(Surface::Water));
}

#[test]
fn surface_sql() {
    assert_eq!(Surface::Land.select_sql(), "SELECT land_bitmap FROM stations WHERE id = $1");
    assert_eq!(Surface::Water.select_sql(), "SELECT water_bitmap FROM stations WHERE id = $1");
    assert!(Surface::Land.update_sql().contains("land_bitmap = $1::bit(768)"));
    assert!(Surface::Water.update_sql().contains("RETURNING water_bitmap"));
    assert_eq!(STATION_ID, 1);
}

#[test]
fn location_needs_both_coordinates() {
    assert!(check_location_update(false, false).is_ok());
    assert!(check_location_update(true, true).is_ok());
    for (a, b) in [(true, false), (false, true)] {
        let e = check_location_update(a, b).err().unwrap();
        assert_eq!(e.status, 400);
        assert_eq!(
            e.message,
            "latitude and longitude must both be supplied when updating location"
        );
    }
}

#[test]
fn http_errors() {
    let e = into_http_error("nope".to_owned());
    assert_eq!((e.status, e.field.as_str(), e.message.as_str()), (400, "error", "nope"));
    let e = internal_error("error finding recordings count", "db down".to_owned());
    assert_eq!(e.status, INTERNAL_SERVER_ERROR);
    assert_eq!(e.field, "error finding recordings count");
    assert_eq!(e.message, "db down");
}
