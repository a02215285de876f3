use navdata::db::{BoundQuery, Cell};
use navdata::double::Point;
use navdata::keyed::TextSet;
use navdata::matchers::{CoordinateMatcher, FixEntry, NavEntry};
use navdata::parsers::split_cifp_fields;
use navdata::ref_tables::{
    ExtraColumn, RefBatch, RefLoad, RefMatchResult, RefRow, RefTable, RefTableMatcher,
};
use navdata::terminal::leg_fixes::{
    build_reference_id_cell, list_leg_requests, match_ref_requests, resolve_matched_procedure_cells,
    type_check, MatchCache, MatchCacheKey, MatchRequestKind, RefRequest, RequestMeasure,
};
use navdata::terminal::leg_rows::{get_area_code, list_leg_order, make_procedure_cell};
use navdata::terminal::legs::{
    collect_terminal_row_fields, compute_authorization_required, convert_number, convert_rnp,
    parse_altitude, row_requires_authorization, Rnp, TerminalRowFields,
};
use navdata::terminal::procedures::{
    airport_file_cache_key, build_insert_sql, collect_required_identifiers_from_line,
    collect_terminal_required_identifiers, delete_zuls_special_procedures, file_airport,
    list_file_airports, list_new_legs, list_procedure_columns, load_existing_proc_map,
    prepare_existing_proc_map, process_terminal_cifp_to_db, scan_airport_files, AirportFile,
    ExistingProcedures, TerminalProcedureConfig,
};
use rusqlite::{params_from_iter, Connection};
use std::collections::{HashMap, HashSet};

fn texts(items: &[&str]) -> Vec<String> {
    items.iter().map(|item| item.to_string()).collect()
}

fn bits(value: f64) -> u64 {
    value.to_bits()
}

fn point(latitude: f64, longitude: f64) -> Point {
    Point { latitude: bits(latitude), longitude: bits(longitude) }
}

fn leg(rnp: Option<Rnp>, path: &str) -> TerminalRowFields {
    let mut fields = empty_leg();
    fields.rnp = rnp;
    fields.path_termination = Some(path.to_string());
    fields
}

fn empty_leg() -> TerminalRowFields {
    TerminalRowFields {
        procedure_identifier: None,
        route_type: None,
        transition_identifier: None,
        seqno: None,
        waypoint_description_code: None,
        turn_direction: None,
        path_termination: None,
        altitude_description: None,
        altitude1: None,
        altitude2: None,
        transition_altitude: None,
        arc_radius: None,
        course: None,
        rho: None,
        theta: None,
        rnp: None,
        route_distance: None,
        speed_limit: None,
        speed_limit_description: None,
        vertical_angle: None,
    }
}

fn rounded(number: f64) -> u64 {
    let value = (number * 100_000_000.0).round() / 100_000_000.0;
    (if value == 0.0 { 0.0 } else { value }).to_bits()
}

#[test]
fn computes_authorization_required_like_python() {
    // 0.3 on an arc, and 1.0 on a track
    let rows = vec![
        leg(convert_rnp("302"), "RF"),
        leg(convert_rnp("101"), "TF"),
    ];
    assert_eq!(compute_authorization_required(&rows).as_deref(), Some("Y"));
}

#[test]
fn parses_altitude_and_numeric_converters() {
    assert_eq!(parse_altitude("FL300").as_deref(), Some("30000"));
    assert_eq!(parse_altitude("12345").as_deref(), Some("12345"));
    let rnp = convert_rnp("302").unwrap();
    assert_eq!(rnp.numerator as f64 / 10f64.powi(rnp.exponent as i32), 0.3);
    let number: f64 = convert_number("123").unwrap().parse().unwrap();
    assert_eq!(number / 10.0, 12.3);
    let angle: f64 = convert_number("315").unwrap().parse().unwrap();
    assert_eq!((angle / 100.0 * 10.0).round() / 10.0, 3.2);
}

#[test]
fn scans_airport_files_with_prefix_filter() {
    let files = scan_airport_files(
        &texts(&["ZBAA.dat", "KJFK.dat", "ZSPD.txt"]),
        &texts(&["ZB", "ZS"]),
    );
    assert_eq!(files, vec!["ZBAA.dat".to_string()]);
}

#[test]
fn keeps_missing_coordinates_empty_when_ref_match_fails() {
    let none = RefMatchResult { ref_table: None, latitude: None, longitude: None };
    let fields = split_cifp_fields("SID:010,1,P,T,FIX01,ZB", "SID:", 1).unwrap();
    let cells = resolve_matched_procedure_cells(&fields, "ZBAA", none, none, none);
    assert_eq!(cells.waypoint, none);
    assert_eq!(cells.waypoint_id, None);
    let leg = empty_leg();
    for column in ["waypoint_latitude", "waypoint_longitude", "waypoint_ref_table", "id"] {
        assert!(matches!(
            make_procedure_cell(column, "ZBAA", &leg, &cells, false, false),
            Cell::Null
        ));
    }
}

#[test]
fn match_cache_key_normalizes_coordinate_precision() {
    let request = |latitude: f64, longitude: f64| RefRequest {
        kind: MatchRequestKind::Waypoint,
        identifier: Some("FIX01".to_string()),
        point: Some(point(latitude, longitude)),
        is_airport: true,
        airport_id: "ZBAA".to_string(),
    };
    let key = |latitude: f64, longitude: f64| {
        MatchCacheKey::new(
            &request(latitude, longitude),
            Some(Point { latitude: rounded(latitude), longitude: rounded(longitude) }),
        )
    };
    let left = key(35.1234567841, 120.9876543249);
    let right = key(35.1234567844, 120.9876543246);
    assert!(left.matches_lookup(&right));
    assert!(right.matches_lookup(&left));
    assert!(!left.matches_lookup(&key(35.1234567941, 120.9876543249)));
}

fn run(conn: &Connection, query: &BoundQuery) {
    conn.execute(&query.sql, params_from_iter(query.parameters.iter()))
        .unwrap();
}

fn existing(conn: &Connection, queries: &[BoundQuery]) -> HashMap<String, HashSet<Option<String>>> {
    let mut out: HashMap<String, HashSet<Option<String>>> = HashMap::new();
    for query in queries {
        let mut stmt = conn.prepare(&query.sql).unwrap();
        let mut rows = stmt.query(params_from_iter(query.parameters.iter())).unwrap();
        while let Some(row) = rows.next().unwrap() {
            out.entry(row.get(0).unwrap()).or_default().insert(row.get(1).unwrap());
        }
    }
    out
}

fn procedure_table(table: &str, rows: &[(&str, &str)]) -> Connection {
    let conn = Connection::open_in_memory().unwrap();
    conn.execute(
        &format!("CREATE TABLE {table} (airport_identifier TEXT, procedure_identifier TEXT)"),
        [],
    )
    .unwrap();
    for (airport, procedure) in rows {
        conn.execute(
            &format!("INSERT INTO {table} (airport_identifier, procedure_identifier) VALUES (?, ?)"),
            [airport, procedure],
        )
        .unwrap();
    }
    conn
}

fn remaining(conn: &Connection, table: &str) -> Vec<(String, String)> {
    let mut stmt = conn
        .prepare(&format!("SELECT airport_identifier, procedure_identifier FROM {table}"))
        .unwrap();
    let rows = stmt.query_map([], |row| Ok((row.get(0)?, row.get(1)?))).unwrap();
    rows.map(|row| row.unwrap()).collect()
}

#[test]
fn loads_existing_procedures_only_for_requested_airports() {
    let conn = procedure_table("tbl_test_proc", &[("ZBAA", "PROC1"), ("ZSPD", "PROC2")]);
    let map = existing(&conn, &load_existing_proc_map("tbl_test_proc", &texts(&["ZBAA"])));
    assert_eq!(map.len(), 1);
    assert!(map.contains_key("ZBAA"));
    assert!(!map.contains_key("ZSPD"));
    assert!(load_existing_proc_map("tbl_test_proc", &Vec::new()).is_empty());
}

#[test]
fn prepare_existing_proc_map_excludes_zuls_rows_deleted_before_import() {
    let conn = procedure_table("tbl_sids", &[("ZULS", "DEP01"), ("ZULS", "KEEP")]);
    let plan = prepare_existing_proc_map("tbl_sids", &TextSet::from_texts(&texts(&["ZULS"])));
    run(&conn, &plan.delete.unwrap());
    let map = existing(&conn, &plan.queries);
    let zuls = map.get("ZULS").unwrap();
    assert!(zuls.contains(&Some("KEEP".to_string())));
    assert!(!zuls.contains(&Some("DEP01".to_string())));
    let plan = prepare_existing_proc_map("tbl_sids", &TextSet::from_texts(&texts(&["ZBAA"])));
    assert!(plan.delete.is_none());
}

#[test]
fn deletes_zuls_special_sids() {
    let conn = procedure_table("tbl_sids", &[("ZULS", "DEP01"), ("ZULS", "EO02"), ("ZULS", "KEEP")]);
    run(&conn, &delete_zuls_special_procedures("tbl_sids").unwrap());
    let remaining = remaining(&conn, "tbl_sids");
    assert!(remaining.contains(&("ZULS".to_string(), "KEEP".to_string())));
    assert!(!remaining.iter().any(|(a, p)| a == "ZULS" && p.starts_with("DEP")));
    assert!(!remaining.iter().any(|(a, p)| a == "ZULS" && p.starts_with("EO")));
}

#[test]
fn deletes_zuls_special_stars() {
    let removed = [
        "DUM08A", "DUM09A", "DUM10A", "DUM28A", "IGD10A", "IGD28A", "IKU10A", "IKU28A",
    ];
    let mut rows: Vec<(&str, &str)> = removed.iter().map(|name| ("ZULS", *name)).collect();
    rows.push(("ZULS", "KEEP"));
    let conn = procedure_table("tbl_stars", &rows);
    run(&conn, &delete_zuls_special_procedures("tbl_stars").unwrap());
    let remaining = remaining(&conn, "tbl_stars");
    assert!(remaining.contains(&("ZULS".to_string(), "KEEP".to_string())));
    assert!(!remaining
        .iter()
        .any(|(a, p)| a == "ZULS" && removed.contains(&p.as_str())));
}

#[test]
fn deletes_zuls_special_iaps() {
    let conn = procedure_table("tbl_iaps", &[("ZULS", "R01"), ("ZULS", "KEEP")]);
    run(&conn, &delete_zuls_special_procedures("tbl_iaps").unwrap());
    let remaining = remaining(&conn, "tbl_iaps");
    assert!(remaining.contains(&("ZULS".to_string(), "KEEP".to_string())));
    assert!(!remaining.iter().any(|(a, p)| a == "ZULS" && p.starts_with("R")));
    assert!(delete_zuls_special_procedures("tbl_airports").is_none());
}

#[test]
fn altitudes_that_are_no_levels_stand_as_they_are() {
    assert_eq!(parse_altitude("  ").as_deref(), None);
    assert_eq!(parse_altitude(" 05000 ").as_deref(), Some("05000"));
    assert_eq!(parse_altitude("FL+85").as_deref(), Some("8500"));
    assert_eq!(parse_altitude("FL-5").as_deref(), Some("-500"));
    assert_eq!(parse_altitude("FLX").as_deref(), None);
    assert_eq!(parse_altitude("FL0").as_deref(), Some("0"));
}

#[test]
fn authorization_is_needed_below_three_tenths() {
    let path = |p: &str| Some(p.to_string());
    assert!(row_requires_authorization(convert_rnp("101"), &None) == false);
    assert!(row_requires_authorization(convert_rnp("102"), &None));
    assert!(row_requires_authorization(convert_rnp("302"), &path(" rf ")));
    assert!(!row_requires_authorization(convert_rnp("302"), &path("TF")));
    assert!(!row_requires_authorization(convert_rnp("302"), &None));
    assert!(row_requires_authorization(convert_rnp("309"), &None));
    assert!(!row_requires_authorization(None, &path("RF")));
    assert_eq!(convert_rnp("30"), None);
    assert_eq!(convert_rnp("3A2"), None);
}

#[test]
fn airports_are_told_by_their_names() {
    let some = |s: &str| Some(s.to_string());
    assert!(type_check(&some("ZBAA"), &some("ZB")));
    assert!(!type_check(&some("ZBAA"), &some("ZZ")));
    assert!(type_check(&some(" ZBAA "), &None));
    assert!(!type_check(&some("KJFK"), &None));
    assert!(!type_check(&some("ZBA"), &None));
    assert!(!type_check(&some("Zü1"), &None) == false);
    assert!(!type_check(&None, &None));
    assert_eq!(get_area_code("OPKC"), "MES");
    assert_eq!(get_area_code("VHHH"), "PAC");
    assert_eq!(get_area_code("ZBAA"), "EEU");
}

#[test]
fn reference_ids_name_table_and_fix() {
    let some = |s: &str| Some(s.to_string());
    assert_eq!(
        build_reference_id_cell(Some(RefTable::EnrouteWaypoints), &some("FIX"), &some("ZB"), "ZBAA").as_deref(),
        Some("tbl_enroute_waypoints|ZBFIX")
    );
    assert_eq!(
        build_reference_id_cell(Some(RefTable::Runways), &some("RW01"), &some("ZB"), "ZBAA").as_deref(),
        Some("tbl_runways|ZBAAZBRW01")
    );
    assert_eq!(build_reference_id_cell(Some(RefTable::Gls), &some(" "), &some("ZB"), "ZBAA"), None);
    assert_eq!(build_reference_id_cell(None, &some("FIX"), &some("ZB"), "ZBAA"), None);
}

#[test]
fn required_identifiers_stand_in_three_fields() {
    let mut fields = vec!["x".to_string(); 31];
    fields[0] = "SID:010".to_string();
    fields[4] = " FIX01 ".to_string();
    fields[13] = "VOR".to_string();
    fields[30] = "CEN".to_string();
    let line = format!("{}\r\n", fields.join(","));
    assert_eq!(
        collect_required_identifiers_from_line(&line, "SID:"),
        texts(&["FIX01", "VOR", "CEN"])
    );
    assert!(collect_required_identifiers_from_line(&line, "STAR:").is_empty());
    assert_eq!(
        collect_required_identifiers_from_line("SID:,a,b,c,FIX02", "SID:"),
        texts(&["FIX02"])
    );
    let set = collect_terminal_required_identifiers(
        &vec![line.clone(), line, "SID:,a,b,c,FIX02".to_string()],
        &config("tbl_sids"),
    );
    assert_eq!(set.items(), &texts(&["FIX01", "VOR", "CEN", "FIX02"]));
}

#[test]
fn files_belong_to_airports() {
    assert_eq!(file_airport("ZBAA.dat"), "ZBAA");
    assert_eq!(file_airport("ZBAA"), "ZBAA");
    let airports = list_file_airports(&texts(&["ZBAA.dat", ".dat", "ZBAA.x.dat", "ZSPD.dat"]));
    assert_eq!(airports.items(), &texts(&["ZBAA", "ZSPD"]));
    assert_eq!(
        scan_airport_files(&texts(&["ZSPD.dat", "ZBAA.dat"]), &texts(&["Z"])),
        texts(&["ZBAA.dat", "ZSPD.dat"])
    );
    assert_eq!(airport_file_cache_key("dir", &texts(&["ZS", "ZB"])), "dir|ZB,ZS");
}

#[test]
fn insert_statement_exists_only_for_procedure_tables() {
    let sql = build_insert_sql("tbl_stars").unwrap();
    assert!(sql.starts_with("INSERT OR IGNORE INTO tbl_stars (area_code, airport_identifier, "));
    assert!(sql.ends_with("recommanded_id, center_id) VALUES (?, ?, ?, ?, ?, ?, ?, ?, ?, ?, ?, ?, ?, ?, ?, ?, ?, ?, ?, ?, ?, ?, ?, ?, ?, ?, ?, ?, ?, ?, ?, ?, ?, ?, ?, ?, ?)"));
    assert!(build_insert_sql("tbl_airports").is_err());
    assert_eq!(list_procedure_columns().len(), 37);
}

fn config(table: &str) -> TerminalProcedureConfig {
    TerminalProcedureConfig {
        table_name: table.to_string(),
        cifp_prefix: "SID:".to_string(),
        seqno_start: 4,
        seqno_end: 7,
        airport_prefixes: texts(&["ZB"]),
        compute_auth: true,
        use_iaps_logic: false,
        batch_size: 2,
        min_fields: 18,
    }
}

fn line(procedure: &str, fix: &str) -> String {
    let mut fields = vec![String::new(); 31];
    fields[0] = "SID:010".to_string();
    fields[1] = "1".to_string();
    fields[2] = procedure.to_string();
    fields[3] = "RW01".to_string();
    fields[4] = fix.to_string();
    fields[5] = "ZB".to_string();
    fields[20] = "1234".to_string();
    fields[23] = "FL100".to_string();
    fields.join(",")
}

fn matchers() -> (CoordinateMatcher, RefTableMatcher) {
    let coords = CoordinateMatcher::from_entries(
        vec![FixEntry {
            identifier: "FIX01".to_string(),
            icao_code: "ZB".to_string(),
            region_code: "ZBAA".to_string(),
            point: point(40.0, 116.0),
        }],
        vec![NavEntry {
            identifier: "VOR".to_string(),
            icao_code: "ZB".to_string(),
            point: point(41.0, 117.0),
        }],
    );
    let matcher = RefTableMatcher::create_ref_table_matcher_from_db(
        RefLoad::Full,
        &vec![RefBatch {
            table: RefTable::TerminalWaypoints,
            extra: ExtraColumn::Region,
            rows: vec![RefRow {
                identifier: "FIX01".to_string(),
                latitude: Some(bits(40.0)),
                longitude: Some(bits(116.0)),
                extra: Some("ZBAA".to_string()),
            }],
        }],
    );
    (coords, matcher)
}

fn text_of(cell: &Cell) -> Option<String> {
    match cell {
        Cell::Text(value) => Some(value.clone()),
        _ => None,
    }
}

#[test]
fn legs_are_laid_out_procedure_by_procedure() {
    let (coords, matcher) = matchers();
    let mut known = ExistingProcedures::new();
    known.insert("ZBAA", &Some("OLD".to_string()));
    let lines = vec![
        line("P1", "FIX01"),
        line("OLD", "FIX01"),
        line("P2", "NONE1"),
        line("P1", "FIX01"),
        "STAR:010".to_string(),
    ];
    let config = config("tbl_sids");
    let legs = list_new_legs(&lines, &config, "ZBAA", &known);
    assert_eq!(legs.len(), 3);
    let mut measures = Vec::new();
    for fields in &legs {
        for request in list_leg_requests(&coords, fields, "ZBAA") {
            measures.push(RequestMeasure {
                rounded: request.point,
                near: if request.point.is_some() { vec![true] } else { vec![false] },
            });
        }
    }
    let files = vec![AirportFile { name: "ZBAA.dat".to_string(), legs, measures }];
    let plan = match process_terminal_cifp_to_db(&files, &coords, &matcher, &config) {
        Ok(plan) => plan,
        Err(_) => panic!("the table is supported"),
    };
    assert_eq!(plan.files, 1);
    assert_eq!(plan.processed, 3);
    assert_eq!(plan.batches.iter().map(Vec::len).collect::<Vec<_>>(), vec![2, 1]);
    let columns = list_procedure_columns();
    let at = |name: &str| columns.iter().position(|column| column == name).unwrap();
    let rows: Vec<&Vec<Cell>> = plan.batches.iter().flatten().collect();
    let procedures: Vec<Option<String>> =
        rows.iter().map(|row| text_of(&row[at("procedure_identifier")])).collect();
    assert_eq!(
        procedures,
        vec![Some("P1".to_string()), Some("P1".to_string()), Some("P2".to_string())]
    );
    let first = rows[0];
    assert_eq!(text_of(&first[at("area_code")]).as_deref(), Some("EEU"));
    assert_eq!(text_of(&first[at("seqno")]).as_deref(), Some("010"));
    assert_eq!(text_of(&first[at("altitude1")]).as_deref(), Some("10000"));
    assert_eq!(text_of(&first[at("altitude_description")]).as_deref(), Some("@"));
    assert_eq!(text_of(&first[at("aircraft_category")]).as_deref(), Some("J"));
    assert_eq!(
        text_of(&first[at("id")]).as_deref(),
        Some("tbl_terminal_waypoints|ZBAAZBFIX01")
    );
    assert!(matches!(&first[at("waypoint_latitude")], Cell::Bits(b) if *b == bits(40.0)));
    assert!(matches!(&first[at("magnetic_course")], Cell::Quotient(n, 10) if n == "1234"));
    assert!(matches!(&first[at("distance_time")], Cell::Null));
    assert!(matches!(&rows[2][at("waypoint_latitude")], Cell::Null));
    assert!(process_terminal_cifp_to_db(&files, &coords, &matcher, &config_of("tbl_x")).is_err());
}

fn config_of(table: &str) -> TerminalProcedureConfig {
    config(table)
}

#[test]
fn a_remembered_answer_is_given_again() {
    let (_, matcher) = matchers();
    let mut cache = MatchCache::new();
    let request = |at: Point| RefRequest {
        kind: MatchRequestKind::Waypoint,
        identifier: Some("FIX01".to_string()),
        point: Some(at),
        is_airport: false,
        airport_id: "ZBAA".to_string(),
    };
    let measure = |near: bool| RequestMeasure {
        rounded: Some(point(40.0, 116.0)),
        near: vec![near],
    };
    let found = match_ref_requests(
        &matcher,
        &mut cache,
        &vec![request(point(40.0, 116.0)), request(point(40.000000001, 116.0))],
        &vec![measure(true), measure(false)],
    );
    assert_eq!(found[0].ref_table, Some(RefTable::TerminalWaypoints));
    assert_eq!(found[1], found[0]);
}

#[test]
fn legs_keep_their_order_where_they_are_not_grouped() {
    let named = |name: Option<&str>| {
        let mut leg = empty_leg();
        leg.procedure_identifier = name.map(str::to_string);
        leg
    };
    let legs = vec![named(Some("A")), named(None), named(Some("B")), named(Some("A")), named(None)];
    assert_eq!(list_leg_order(&legs, false), vec![0, 1, 2, 3, 4]);
    assert_eq!(list_leg_order(&legs, true), vec![0, 3, 1, 4, 2]);
}

#[test]
fn leg_fields_come_from_their_positions() {
    let mut fields: Vec<String> = (0..31).map(|i| format!("f{i}")).collect();
    fields[0] = "APPCH:020".to_string();
    fields[10] = "102".to_string();
    fields[17] = "3000".to_string();
    fields[18] = "bad".to_string();
    fields[22] = "+".to_string();
    fields[23] = "05000".to_string();
    fields[24] = String::new();
    fields[28] = "-300".to_string();
    let leg = collect_terminal_row_fields(
        &split_cifp_fields(&fields.join(","), "APPCH:", 18).unwrap(),
        6,
        9,
    );
    assert_eq!(leg.seqno.as_deref(), Some("020"));
    assert_eq!(leg.route_type.as_deref(), Some("f1"));
    assert_eq!(leg.altitude_description.as_deref(), Some("+"));
    assert_eq!(leg.rnp, Some(Rnp { numerator: 10, exponent: 2 }));
    assert_eq!(leg.arc_radius.as_deref(), Some("3000"));
    assert_eq!(leg.theta, None);
    assert_eq!(leg.vertical_angle.as_deref(), Some("-300"));
    assert_eq!(leg.speed_limit.as_deref(), Some("f27"));
    let short = split_cifp_fields("APPCH:0", "APPCH:", 1).unwrap();
    assert_eq!(collect_terminal_row_fields(&short, 6, 9).seqno, None);
}
