use sensor_station::recordings::{
    is_allowed_column, is_white_space, parse_requested_columns, plan_recordings,
    recordings_query, RecordingsQuery,
};

#[test]
fn columns_are_split_trimmed_and_checked() {
    assert_eq!(
        parse_requested_columns("co2,humidity").unwrap(),
        vec!["co2".to_owned(), "humidity".to_owned()]
    );
    assert_eq!(
        parse_requested_columns(" co2 , ,wind_speed,\t,").unwrap(),
        vec!["co2".to_owned(), "wind_speed".to_owned()]
    );
    assert_eq!(
        parse_requested_columns("rate_of_evaporation").unwrap(),
        vec!["rate_of_evaporation".to_owned()]
    );
}

#[test]
fn no_column_is_refused() {
    for text in ["", ",", " , \n ,", "   "] {
        assert_eq!(
            parse_requested_columns(text).unwrap_err(),
            "at least one recording column must be requested"
        );
    }
}

#[test]
fn unknown_column_is_refused() {
    assert_eq!(
        parse_requested_columns("co2, id , bogus").unwrap_err(),
        "unsupported recording column: id"
    );
    assert_eq!(
        parse_requested_columns("co2;humidity").unwrap_err(),
        "unsupported recording column: co2;humidity"
    );
    assert!(is_allowed_column(&"net_irradiance".to_owned()));
    assert!(!is_allowed_column(&"CO2".to_owned()));
}

#[test]
fn query_choice_follows_the_count() {
    let cols = vec!["co2".to_owned(), "humidity".to_owned()];
    assert!(matches!(recordings_query(&cols, 10, 0), RecordingsQuery::Empty));
    match recordings_query(&cols, 10, 5) {
        RecordingsQuery::All { sql } => {
            assert!(sql.contains(
                "timestamp::text AS timestamp,\n                co2::double precision AS co2, humidity::double precision AS humidity\n            FROM recordings"
            ));
            assert!(sql.contains("ORDER BY timestamp"));
        }
        _ => panic!("expected every row"),
    }
    match recordings_query(&cols, 10, 10) {
        RecordingsQuery::All { .. } => {}
        _ => panic!("expected every row"),
    }
    match recordings_query(&cols, 3, 11) {
        RecordingsQuery::Aggregated { sql, buckets } => {
            assert_eq!(buckets, 3);
            assert!(sql.contains("co2::double precision AS co2, humidity::double precision AS humidity,\n                    NTILE($4)"));
            assert!(sql.contains("AVG(co2)::double precision AS co2, AVG(humidity)::double precision AS humidity\n            FROM grouped"));
        }
        _ => panic!("expected averages"),
    }
}

#[test]
fn recordings_request_checks_in_order() {
    let e = plan_recordings(0, "bogus", "x", "y").err().unwrap();
    assert_eq!(e.message, "preferred_rows must be greater than 0");
    assert_eq!(e.status, 400);
    let e = plan_recordings(5, "bogus", "x", "y").err().unwrap();
    assert_eq!(e.message, "unsupported recording column: bogus");
    let e = plan_recordings(5, "co2", "yesterday", "y").err().unwrap();
    assert!(e.message.starts_with("invalid start timestamp: "));
    assert!(e.message.len() > "invalid start timestamp: ".len());
    let e = plan_recordings(5, "co2", "2024-01-01T00:00:00Z", "y").err().unwrap();
    assert!(e.message.starts_with("invalid end timestamp: "));
    let p = plan_recordings(5, "co2", "1970-01-01T00:00:10Z", "1970-01-02T01:00:00.5+01:00").ok().unwrap();
    assert_eq!(p.columns, vec!["co2".to_owned()]);
    assert_eq!(p.start, (10, 0));
    assert_eq!(p.end, (86400, 500_000_000));
    assert_eq!(p.preferred_rows, 5);
}

#[test]
fn white_space_matches_std() {
    for c in '\0'..=char::MAX {
        assert_eq!(is_white_space(c), c.is_whitespace(), "{:?}", c);
    }
    let spaces: Vec<char> = ('\0'..=char::MAX).filter(|c| is_white_space(*c)).collect();
    assert_eq!(spaces.len(), 25);
}

#[test]
fn unicode_spaces_are_trimmed() {
    assert_eq!(
        parse_requested_columns("\u{3000}co2\u{a0},\u{2028}humidity\u{85}").unwrap(),
        vec!["co2".to_owned(), "humidity".to_owned()]
    );
    assert_eq!(
        parse_requested_columns("co2\u{200b}").unwrap_err(),
        "unsupported recording column: co2\u{200b}"
    );
}

#[test]
fn two_accepted_lists_joined_by_a_comma() {
    let a = " co2 ,humidity";
    let b = "wind_speed,,co2";
    let x = parse_requested_columns(a).unwrap();
    let y = parse_requested_columns(b).unwrap();
    let joined = parse_requested_columns(&format!("{a},{b}")).unwrap();
    assert_eq!(joined, [x, y].concat());
    assert_eq!(joined, vec!["co2", "humidity", "wind_speed", "co2"]);
}

#[test]
fn accepted_list_joined_reads_back() {
    let v = parse_requested_columns("\tpressure , net_irradiance,, co2 ").unwrap();
    assert_eq!(parse_requested_columns(&v.join(",")).unwrap(), v);
    assert_eq!(v.join(","), "pressure,net_irradiance,co2");
}
