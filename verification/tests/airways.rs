use navdata::double::Point;
use navdata::enroute::airway_assembly::{
    apply_airway_segment_metrics, build_airway_segment_metrics, list_segment_tasks,
    process_airways_to_db, SegmentMetric, SegmentTask,
};
use navdata::enroute::airway_points::{
    collect_airways_resolver_identifiers, get_scoped_airways_icao_resolver, load_earth_fix_items,
    load_earth_nav_items, prefetch_queries, resolve_point_icao, AidType, AirwayCoordCache,
    CoordinateRow,
};
use navdata::enroute::airway_rows::{
    airway_record_from_row, apply_airway_direction_restrictions, build_airway_reference_id,
    normalize_direction_restriction, reverse_direction_restriction, AirwayRecord, StoredAirway,
};
use navdata::enroute::airway_table::{
    bind_airway_rows, delete_routes, fetch_existing_airway_rows, insert_airway_rows,
    list_airway_columns,
};
use navdata::enroute::airways::{
    parse_airway_csv_rows, parse_airway_csv_rows_simple, AirwayCodeType, AirwayCsvError,
    ParsedAirwayCsvRow,
};
use navdata::enroute::route_merge::{merge_airway_route_order, CsvRoutePoint, DbRoutePoint};
use navdata::keyed::TextSet;

fn lines(items: &[&str]) -> Vec<String> {
    items.iter().map(|item| item.to_string()).collect()
}

fn test_airway_record(route: &str, waypoint: &str, seqno: i64) -> AirwayRecord {
    AirwayRecord {
        area_code: "EEU".to_string(),
        crusing_table_identifier: Some("EE".to_string()),
        direction_restriction: Some("STALE".to_string()),
        flightlevel: "B".to_string(),
        icao_code: None,
        inbound_course: 0,
        inbound_distance: 0,
        maximum_altitude: Some(99999),
        minimum_altitude1: Some(5000),
        minimum_altitude2: None,
        outbound_course: 0,
        route_identifier: route.to_string(),
        route_type: "O".to_string(),
        seqno,
        waypoint_description_code: String::new(),
        waypoint_identifier: waypoint.to_string(),
        waypoint_latitude: None,
        waypoint_longitude: None,
        id: None,
    }
}

fn test_csv_row(
    route: &str,
    start: &str,
    direction: Option<&str>,
    end: Option<&str>,
) -> ParsedAirwayCsvRow<String, u64> {
    ParsedAirwayCsvRow {
        route_identifier: route.to_string(),
        start_waypoint: start.to_string(),
        start_code_type: AirwayCodeType::DesignatedPoint,
        direction_restriction: direction.map(str::to_string),
        outbound_course: 0,
        inbound_distance: 0,
        end_waypoint: end.map(str::to_string),
        end_code_type: Some(AirwayCodeType::DesignatedPoint),
    }
}

fn point(latitude: f64, longitude: f64) -> Point {
    Point { latitude: latitude.to_bits(), longitude: longitude.to_bits() }
}

fn ends(a: Option<f64>, b: Option<f64>, c: Option<f64>, d: Option<f64>) -> Option<(Point, Point)> {
    Some((point(a?, b?), point(c?, d?)))
}

fn kilometres(from: Point, to: Point) -> f64 {
    let radians = |bits: u64| f64::from_bits(bits).to_radians();
    let half_lat = (radians(to.latitude) - radians(from.latitude)) / 2.0;
    let half_lon = (radians(to.longitude) - radians(from.longitude)) / 2.0;
    let a = half_lat.sin().powi(2)
        + radians(from.latitude).cos() * radians(to.latitude).cos() * half_lon.sin().powi(2);
    2.0 * 6371.0 * a.sqrt().atan2((1.0 - a).sqrt())
}

fn course(from: Point, to: Point) -> f64 {
    let radians = |bits: u64| f64::from_bits(bits).to_radians();
    let delta = radians(to.longitude) - radians(from.longitude);
    let y = delta.sin() * radians(to.latitude).cos();
    let x = radians(from.latitude).cos() * radians(to.latitude).sin()
        - radians(from.latitude).sin() * radians(to.latitude).cos() * delta.cos();
    (y.atan2(x).to_degrees() + 360.0) % 360.0
}

#[test]
fn airway_segment_metrics_default_when_coordinates_missing() {
    let tasks = vec![
        SegmentTask { current: 0, points: ends(Some(30.0), Some(120.0), Some(31.0), Some(121.0)) },
        SegmentTask { current: 2, points: ends(None, Some(120.0), Some(31.0), Some(121.0)) },
        SegmentTask { current: 4, points: ends(Some(30.0), Some(120.0), Some(31.0), None) },
    ];
    let measured = tasks
        .iter()
        .map(|task| {
            let (from, to) = task.points.unwrap_or((point(1.0, 1.0), point(2.0, 2.0)));
            SegmentMetric {
                distance: kilometres(from, to).to_bits(),
                course: course(from, to).to_bits(),
            }
        })
        .collect();
    let metrics = build_airway_segment_metrics(&tasks, &measured).unwrap();
    assert_eq!(metrics.len(), 3);
    assert_eq!(tasks[0].current, 0);
    assert!(f64::from_bits(metrics[0].distance) > 0.0);
    assert!((0.0..=360.0).contains(&f64::from_bits(metrics[0].course)));
    assert_eq!(f64::from_bits(metrics[1].distance), 0.0);
    assert_eq!(f64::from_bits(metrics[1].course), 0.0);
    assert_eq!(f64::from_bits(metrics[2].distance), 0.0);
    assert_eq!(f64::from_bits(metrics[2].course), 0.0);
}

#[test]
fn airway_segment_metrics_reject_length_mismatch() {
    let tasks = vec![SegmentTask {
        current: 0,
        points: ends(Some(30.0), Some(120.0), Some(31.0), Some(121.0)),
    }];
    let measured = vec![];
    let result = build_airway_segment_metrics(&tasks, &measured);
    assert!(result.is_err());
}

#[test]
fn parse_airway_csv_rows_reads_code_dir_column() {
    let csv = "\u{feff}TXT_DESIG,CODE_POINT_START,CODE_TYPE_START,CODE_DIR,CODE_POINT_END,CODE_TYPE_END,VAL_MAG_TRACK,VAL_LEN\r\nA1,AAA,DESIGNATED_POINT,F,BBB,DESIGNATED_POINT,123,10\r\n";
    let rows = parse_airway_csv_rows_simple(csv).unwrap();
    assert_eq!(rows.len(), 1);
    assert_eq!(rows[0].direction_restriction.as_deref(), Some("F"));
}

#[test]
fn airway_direction_restrictions_follow_final_route_order() {
    let csv_rows = vec![
        test_csv_row("A1", "AAA", Some("F"), Some("BBB")),
        test_csv_row("A1", "BBB", Some("X"), Some("CCC")),
        test_csv_row("B1", "DDD", Some("B"), Some("EEE")),
        test_csv_row("D1", "HHH", Some("F"), Some("III")),
        test_csv_row("C1", "FFF", Some("F"), Some("GGG")),
    ];
    let mut rows = vec![
        test_airway_record("A1", "AAA", 1000),
        test_airway_record("A1", "BBB", 1005),
        test_airway_record("A1", "CCC", 1010),
        test_airway_record("B1", "EEE", 1000),
        test_airway_record("B1", "DDD", 1005),
        test_airway_record("D1", "HHH", 1000),
        test_airway_record("D1", "III", 1005),
        test_airway_record("C1", "FFF", 1000),
        test_airway_record("C1", "XXX", 1005),
        test_airway_record("C1", "GGG", 1010),
    ];

    apply_airway_direction_restrictions(&mut rows, &csv_rows);

    assert_eq!(rows[0].direction_restriction.as_deref(), Some("F"));
    assert_eq!(rows[1].direction_restriction, None);
    assert_eq!(rows[2].direction_restriction, None);
    assert_eq!(rows[3].direction_restriction.as_deref(), Some("F"));
    assert_eq!(rows[4].direction_restriction.as_deref(), Some("F"));
    assert_eq!(rows[5].direction_restriction.as_deref(), Some("F"));
    assert_eq!(rows[6].direction_restriction.as_deref(), Some("F"));
    assert_eq!(rows[7].direction_restriction, None);
    assert_eq!(rows[8].direction_restriction, None);
    assert_eq!(rows[9].direction_restriction, None);
}

#[test]
fn load_earth_fix_items_keeps_zz_records() {
    let content = lines(&["31.0 121.0 FIXZZ ENRT ZZ", "31.0 121.0 FIXZS ENRT ZS"]);
    let required = TextSet::from_texts(&lines(&["FIXZZ", "FIXZS"]));
    let rows = load_earth_fix_items(&content, &required);
    assert!(rows
        .iter()
        .any(|(identifier, icao)| identifier == "FIXZZ" && icao == "ZZ"));
    assert!(rows
        .iter()
        .any(|(identifier, icao)| identifier == "FIXZS" && icao == "ZS"));
}

#[test]
fn load_earth_nav_items_keeps_zz_records() {
    let content = lines(&[
        "12 31.0 121.0 10 11320 50 X NAVZZ ENRT ZZ NAVNAME VOR/DME",
        "2 30.0 120.0 0 375 25 X NDBZZ ENRT ZZ NDBNAME NDB",
    ]);
    let vor_required = TextSet::from_texts(&lines(&["NAVZZ"]));
    let ndb_required = TextSet::from_texts(&lines(&["NDBZZ"]));
    let rows = load_earth_nav_items(&content, &vor_required, &ndb_required);
    assert!(rows.iter().any(|(identifier, nav_type, icao)| {
        identifier == "NAVZZ" && nav_type == "VOR/DME" && icao == "ZZ"
    }));
    assert!(rows.iter().any(|(identifier, nav_type, icao)| {
        identifier == "NDBZZ" && nav_type == "NDB" && icao == "ZZ"
    }));
}

#[test]
fn route_files_name_the_column_that_they_lack() {
    let error = |header: &str| parse_airway_csv_rows_simple(header).err().unwrap();
    assert_eq!(error("A,B\n"), AirwayCsvError::MissingRoute);
    assert_eq!(error("TXT_DESIG\n"), AirwayCsvError::MissingStartPoint);
    assert_eq!(error("TXT_DESIG,CODE_POINT_START\n"), AirwayCsvError::MissingStartType);
    assert_eq!(AirwayCsvError::MissingStartType.column(), "CODE_TYPE_START");
    assert!(parse_airway_csv_rows_simple("").unwrap().is_empty());
}

#[test]
fn route_files_are_decoded_from_gbk() {
    let mut bytes = b"TXT_DESIG,CODE_POINT_START,CODE_TYPE_START\nA1,AAA,".to_vec();
    bytes.extend_from_slice(&[0xB5, 0xD8, 0xC3, 0xFB, 0xB5, 0xE3, b'\n']);
    let rows = parse_airway_csv_rows(&bytes).unwrap();
    assert_eq!(rows.len(), 1);
    assert_eq!(rows[0].start_code_type, AirwayCodeType::DesignatedPoint);
    assert_eq!(rows[0].outbound_course, None);
}

#[test]
fn kinds_have_the_codes_that_name_them() {
    for kind in [AirwayCodeType::DesignatedPoint, AirwayCodeType::VorDme, AirwayCodeType::Ndb] {
        assert_eq!(AirwayCodeType::parse(kind.resolver_code().unwrap()), kind);
    }
    assert_eq!(AirwayCodeType::parse("?"), AirwayCodeType::Other);
    assert_eq!(AirwayCodeType::Other.resolver_code(), None);
}

#[test]
fn directions_are_reversed_and_back() {
    assert_eq!(normalize_direction_restriction(" f ").as_deref(), Some("f"));
    assert_eq!(normalize_direction_restriction("x"), None);
    assert_eq!(reverse_direction_restriction("F"), "B");
    assert_eq!(reverse_direction_restriction("b"), "F");
    assert_eq!(reverse_direction_restriction(&reverse_direction_restriction("B")), "B");
    assert_eq!(reverse_direction_restriction("Q"), "Q");
}

fn csv_points(names: &[&str]) -> Vec<CsvRoutePoint> {
    names
        .iter()
        .enumerate()
        .map(|(row, name)| CsvRoutePoint { waypoint: name.to_string(), row })
        .collect()
}

fn db_points(names: &[&str]) -> Vec<DbRoutePoint> {
    names
        .iter()
        .enumerate()
        .map(|(row, name)| DbRoutePoint {
            waypoint: name.to_string(),
            row,
            seqno: 1000 + 5 * row as i64,
        })
        .collect()
}

#[test]
fn stretches_of_the_file_are_merged_between_common_points() {
    let order = |db: &[&str], csv: &[&str]| {
        merge_airway_route_order(&db_points(db), &csv_points(csv)).items().clone()
    };
    assert_eq!(order(&["A", "D", "X"], &["A", "B", "C", "D"]), lines(&["A", "B", "C", "D", "X"]));
    assert_eq!(order(&["D", "A"], &["A", "B", "C", "D"]), lines(&["D", "C", "B", "A"]));
    assert_eq!(order(&["A", "Q", "C"], &["A", "B", "C"]), lines(&["A", "B", "Q", "C"]));
    assert!(order(&["X", "Y"], &["A", "B"]).is_empty());
}

#[test]
fn airways_are_merged_with_the_stored_rows() {
    let csv_rows = vec![
        test_csv_row("A1", "AAA", Some("F"), Some("BBB")),
        test_csv_row("A1", "BBB", Some("B"), Some("CCC")),
    ];
    let sets = collect_airways_resolver_identifiers(&csv_rows);
    assert_eq!(sets.fix_identifiers.items(), &lines(&["AAA", "BBB", "CCC"]));
    let resolver = get_scoped_airways_icao_resolver(
        &lines(&["31.0 121.0 AAA ENRT ZS", "31.0 121.0 BBB ENRT ZB"]),
        &Vec::new(),
        &sets,
    );
    assert_eq!(
        resolve_point_icao(&resolver, "AAA", Some(AirwayCodeType::DesignatedPoint)).as_deref(),
        Some("ZS")
    );
    let queries = prefetch_queries(&csv_rows);
    assert_eq!(queries.len(), 1);
    assert_eq!(queries[0].parameters, lines(&["AAA", "BBB", "CCC"]));
    let cache = AirwayCoordCache::from_rows(&vec![
        CoordinateRow {
            aid: AidType::Fix,
            identifier: "AAA".to_string(),
            latitude: Some(1),
            longitude: Some(2),
        },
        CoordinateRow {
            aid: AidType::Fix,
            identifier: "AAA".to_string(),
            latitude: Some(3),
            longitude: Some(4),
        },
    ]);
    assert_eq!(cache.get(AidType::Fix, "AAA"), Some(Point { latitude: 1, longitude: 2 }));
    assert_eq!(cache.get(AidType::Ndb, "AAA"), None);
    let stored = vec![test_airway_record("A1", "ZZZ", 2000), test_airway_record("A1", "BBB", 2005)];
    let merged = process_airways_to_db(&csv_rows, &stored, &cache, &resolver);
    let found: Vec<(String, i64, Option<String>)> = merged
        .rows
        .iter()
        .map(|row| {
            (row.waypoint_identifier.clone(), row.seqno, row.direction_restriction.clone())
        })
        .collect();
    let b = |s: &str| Some(s.to_string());
    assert_eq!(
        found,
        vec![
            ("ZZZ".to_string(), 1000, None),
            ("BBB".to_string(), 1005, b("B")),
            ("AAA".to_string(), 1010, None),
            ("CCC".to_string(), 1015, None),
        ]
    );
    assert_eq!(merged.routes_to_delete, lines(&["A1"]));
    assert_eq!(merged.routes_with_missing, lines(&["A1"]));
    assert_eq!(merged.rows[1].id.as_deref(), Some("tbl_enroute_waypoints|ZBBBB"));
    assert_eq!(merged.rows[2].waypoint_latitude, Some(1));
    assert_eq!(merged.rows[3].waypoint_description_code, "EEC");
}

#[test]
fn routes_without_a_common_point_are_numbered_on() {
    let csv_rows = vec![test_csv_row("A1", "AAA", None, None)];
    let sets = collect_airways_resolver_identifiers(&csv_rows);
    let resolver = get_scoped_airways_icao_resolver(&Vec::new(), &Vec::new(), &sets);
    let cache = AirwayCoordCache::from_rows(&Vec::new());
    let stored = vec![test_airway_record("A1", "ZZZ", 2000)];
    let merged = process_airways_to_db(&csv_rows, &stored, &cache, &resolver);
    assert_eq!(merged.rows[0].seqno, 2000);
    assert_eq!(merged.rows[1].seqno, 2005);
    assert_eq!(merged.rows[1].waypoint_identifier, "AAA");
    assert!(merged.routes_with_missing.is_empty());
}

#[test]
fn measured_legs_are_written_to_both_of_their_ends() {
    let mut rows = vec![
        test_airway_record("A1", "AAA", 1000),
        test_airway_record("A1", "BBB", 1005),
        test_airway_record("B1", "CCC", 1000),
    ];
    for row in rows.iter_mut() {
        row.waypoint_latitude = Some(1);
        row.waypoint_longitude = Some(2);
    }
    let affected = TextSet::from_texts(&lines(&["A1"]));
    let tasks = list_segment_tasks(&rows, &affected);
    assert_eq!(tasks.len(), 1);
    let measured = vec![SegmentMetric { distance: 7, course: 8 }];
    apply_airway_segment_metrics(&mut rows, &affected, &measured).unwrap();
    assert_eq!(rows[0].outbound_course, 8);
    assert_eq!(rows[0].inbound_distance, 7);
    assert_eq!(rows[1].inbound_course, 8);
    assert_eq!(rows[1].inbound_distance, 0);
    assert!(apply_airway_segment_metrics(&mut rows, &affected, &vec![]).is_err());
}

#[test]
fn reference_ids_need_a_table_a_region_and_a_point() {
    let icao = Some(" ZB ".to_string());
    assert_eq!(
        build_airway_reference_id("tbl_vhfnavaids", &icao, " VOR ").as_deref(),
        Some("tbl_vhfnavaids|ZBVOR")
    );
    assert_eq!(build_airway_reference_id("tbl_other", &icao, "VOR"), None);
    assert_eq!(build_airway_reference_id("tbl_vhfnavaids", &None, "VOR"), None);
    assert_eq!(build_airway_reference_id("tbl_vhfnavaids", &icao, " "), None);
}

#[test]
fn stored_rows_are_completed() {
    let row = airway_record_from_row(StoredAirway {
        area_code: None,
        route_identifier: Some("A1".to_string()),
        seqno: None,
        icao_code: Some(" ".to_string()),
        waypoint_identifier: Some("AAA".to_string()),
        waypoint_latitude: Some(1),
        waypoint_longitude: None,
        waypoint_description_code: None,
        route_type: None,
        flightlevel: None,
        direction_restriction: None,
        crusing_table_identifier: None,
        minimum_altitude1: None,
        minimum_altitude2: None,
        maximum_altitude: None,
        outbound_course: None,
        inbound_course: None,
        inbound_distance: None,
        id: None,
    });
    assert_eq!(row.route_identifier, "A1");
    assert_eq!(row.waypoint_latitude, Some(1));
    assert_eq!(row.outbound_course, 0);
    let cells = bind_airway_rows(&vec![row]);
    assert_eq!(cells[0].len(), list_airway_columns().len());
}

#[test]
fn airway_statements_bind_routes_in_batches() {
    let routes: Vec<String> = (0..501).map(|i| format!("R{i}")).collect();
    let queries = fetch_existing_airway_rows(&routes);
    assert_eq!(queries.len(), 2);
    assert_eq!(queries[0].parameters.len(), 500);
    assert_eq!(queries[1].parameters, lines(&["R500"]));
    assert_eq!(delete_routes(&lines(&["A1"])).len(), 1);
    assert!(insert_airway_rows().contains("tbl_enroute_airways"));
}
