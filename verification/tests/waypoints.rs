use navdata::db::{pair_query_batch_size, Cell, SQLITE_MAX_VARIABLE_NUMBER};
use navdata::enroute::epoints::{self, insert_values, process_enroute_waypoints_to_db};
use navdata::keyed::RowSet;
use navdata::parsers::{
    for_each_cifp_line, is_supported_region, parse_enroute_waypoints_lines, parse_ndb_nav_lines,
    parse_terminal_waypoints_lines, parse_vhf_nav_lines, parse_waypoint_type_decimal,
    split_cifp_fields, TerminalWaypointRow,
};
use navdata::records::{bind_record, list_keys, retain_absent, retain_first_absent};
use navdata::regions::Dataset;
use navdata::terminal::tpoints::{
    build_insert_sql, ensure_terminal_waypoints_index, fetch_existing_pairs,
    process_terminal_waypoints_file_to_db, TerminalWaypointRecord,
};
use rusqlite::types::Value;
use rusqlite::{params_from_iter, Connection};

fn lines(items: &[&str]) -> Vec<String> {
    items.iter().map(|item| item.to_string()).collect()
}

fn number(literal: &str) -> f64 {
    literal.parse().unwrap()
}

fn value_of(cell: &Cell) -> Value {
    match cell {
        Cell::Null => Value::Null,
        Cell::Text(text) => Value::Text(text.clone()),
        Cell::Literal(text) => Value::Real(number(text)),
        Cell::Bits(bits) => Value::Real(f64::from_bits(*bits)),
        Cell::Integer(value) => Value::Integer(*value),
        _ => panic!("waypoints have no such cell"),
    }
}

#[test]
fn parses_terminal_and_enroute_waypoints_separately() {
    let content = lines(&[
        "hdr1",
        "hdr2",
        "hdr3",
        "31.1000 121.2000 FIX01 TERM ZS 65",
        "32.1000 122.2000 FIX02 ENRT ZB 65",
        "33.1000 123.2000 FIX03 ENRT XX 65",
    ]);
    let terminal = parse_terminal_waypoints_lines(&content);
    let enroute = parse_enroute_waypoints_lines(&content);
    assert_eq!(terminal.len(), 1);
    assert_eq!(terminal[0].region_code, "TERM");
    assert_eq!(terminal[0].icao_code, "ZS");
    assert_eq!(terminal[0].waypoint_identifier, "FIX01");
    assert!(terminal[0].waypoint_type.starts_with('A'));
    assert_eq!(enroute.len(), 1);
    assert_eq!(enroute[0].icao_code, "ZB");
    assert_eq!(enroute[0].waypoint_identifier, "FIX02");
    assert!(enroute[0].waypoint_type.starts_with('A'));
}

#[test]
fn parses_vhf_line_with_shared_nav_precheck() {
    let content = lines(&["12 31.0 121.0 10 11320 50 X VOR1 ZSPD ZS NAVNAME DME-ILS"]);
    let rows = parse_vhf_nav_lines(&content);
    assert_eq!(rows.len(), 1);
    let row = &rows[0];
    assert_eq!(row.airport_identifier.as_deref(), Some("ZSPD"));
    assert_eq!(row.icao_code, "ZS");
    assert_eq!(row.navaid_identifier, "VOR1");
    assert!((number(&row.navaid_frequency) - 113.20).abs() < 1e-6);
    assert_eq!(row.navaid_class, " IT N");
    assert!(row.has_dme_ident);
}

#[test]
fn parses_ndb_line_with_shared_nav_precheck() {
    let content = lines(&["2 30.0 120.0 0 375 25 X NDB1 ENRT ZS NDBNAME NDB"]);
    let rows = parse_ndb_nav_lines(&content);
    assert_eq!(rows.len(), 1);
    let row = &rows[0];
    assert_eq!(row.icao_code, "ZS");
    assert_eq!(row.navaid_identifier, "NDB1");
    assert_eq!(row.navaid_name, "NDBNAME");
    assert!((number(&row.navaid_frequency) - 375.0).abs() < 1e-6);
    assert!((number(&row.latitude) - 30.0).abs() < 1e-6);
    assert!((number(&row.longitude) - 120.0).abs() < 1e-6);
    assert!((number(&row.range) - 25.0).abs() < 1e-6);
}

#[test]
fn streams_cifp_rows_with_reused_field_buffer() {
    let content = "SKIP,1\r\nAPP, A , PROC1 , FIX1\r\nAPP,B\r\nAPP, C, PROC2, FIX2\r\n";
    let content: Vec<String> = content.split_inclusive('\n').map(str::to_string).collect();
    let rows: Vec<Vec<String>> = for_each_cifp_line(&content, "APP", 4)
        .iter()
        .map(|parts| parts.iter().iter().map(|field| field.to_string()).collect())
        .collect();
    assert_eq!(
        rows,
        vec![
            vec![
                "APP".to_string(),
                "A".to_string(),
                "PROC1".to_string(),
                "FIX1".to_string(),
            ],
            vec![
                "APP".to_string(),
                "C".to_string(),
                "PROC2".to_string(),
                "FIX2".to_string(),
            ],
        ]
    );
}

#[test]
fn clamps_pair_query_batch_size_to_sqlite_limit() {
    assert_eq!(pair_query_batch_size(500), SQLITE_MAX_VARIABLE_NUMBER / 2);
    assert_eq!(pair_query_batch_size(0), 1);
    assert_eq!(pair_query_batch_size(200), 200);
}

fn terminal_row(region: &str, icao: &str, name: &str, kind: &str, at: (&str, &str)) -> TerminalWaypointRow {
    TerminalWaypointRow {
        region_code: region.to_string(),
        icao_code: icao.to_string(),
        waypoint_identifier: name.to_string(),
        waypoint_name: name.to_string(),
        waypoint_type: kind.to_string(),
        latitude: at.0.to_string(),
        longitude: at.1.to_string(),
    }
}

#[test]
fn binds_terminal_waypoint_row_by_columns() {
    let row = TerminalWaypointRecord::from_parsed(&terminal_row(
        "TERM",
        "ZS",
        "FIX01",
        "A",
        ("31.1", "121.2"),
    ));
    let query = "INSERT INTO test_terminal_waypoints (region_code, waypoint_identifier, waypoint_latitude, waypoint_longitude) VALUES (?, ?, ?, ?)";

    let conn = Connection::open_in_memory().unwrap();
    conn.execute(
        "CREATE TABLE test_terminal_waypoints (region_code TEXT, waypoint_identifier TEXT, waypoint_latitude REAL, waypoint_longitude REAL, magnetic_variation REAL)",
        [],
    )
    .unwrap();

    let columns = lines(&[
        "region_code",
        "waypoint_identifier",
        "waypoint_latitude",
        "waypoint_longitude",
    ]);
    let cells = bind_record(&row, None, &columns);
    let tx = conn.unchecked_transaction().unwrap();
    {
        let mut stmt = tx.prepare(query).unwrap();
        stmt.execute(params_from_iter(cells.iter().map(value_of))).unwrap();
    }
    tx.commit().unwrap();

    let inserted = conn
        .query_row(
            "SELECT region_code, waypoint_identifier, waypoint_latitude, waypoint_longitude FROM test_terminal_waypoints",
            [],
            |row| {
                Ok((
                    row.get::<_, String>(0)?,
                    row.get::<_, String>(1)?,
                    row.get::<_, f64>(2)?,
                    row.get::<_, f64>(3)?,
                ))
            },
        )
        .unwrap();
    assert_eq!(inserted.0, "TERM");
    assert_eq!(inserted.1, "FIX01");
    assert!((inserted.2 - 31.1).abs() < f64::EPSILON);
    assert!((inserted.3 - 121.2).abs() < f64::EPSILON);
}

#[test]
fn binds_terminal_waypoint_id_for_new_schema() {
    let row = TerminalWaypointRecord::from_parsed(&terminal_row(
        "01OH",
        "K5",
        "WADON",
        "WMZ",
        ("39.49556389", "-84.30007778"),
    ));
    let query = "INSERT INTO test_terminal_waypoints_new (region_code, icao_code, waypoint_identifier, id) VALUES (?, ?, ?, ?)";

    let conn = Connection::open_in_memory().unwrap();
    conn.execute(
        "CREATE TABLE test_terminal_waypoints_new (region_code TEXT, icao_code TEXT, waypoint_identifier TEXT, id TEXT)",
        [],
    )
    .unwrap();

    let columns = lines(&["region_code", "icao_code", "waypoint_identifier", "id"]);
    let cells = bind_record(&row, None, &columns);
    let tx = conn.unchecked_transaction().unwrap();
    {
        let mut stmt = tx.prepare(query).unwrap();
        stmt.execute(params_from_iter(cells.iter().map(value_of))).unwrap();
    }
    tx.commit().unwrap();

    let inserted = conn
        .query_row(
            "SELECT region_code, icao_code, waypoint_identifier, id FROM test_terminal_waypoints_new",
            [],
            |row| {
                Ok((
                    row.get::<_, String>(0)?,
                    row.get::<_, String>(1)?,
                    row.get::<_, String>(2)?,
                    row.get::<_, String>(3)?,
                ))
            },
        )
        .unwrap();
    assert_eq!(inserted.0, "01OH");
    assert_eq!(inserted.1, "K5");
    assert_eq!(inserted.2, "WADON");
    assert_eq!(inserted.3, "01OHK5WADON");
}

#[test]
fn header_lines_give_no_waypoints() {
    let row = "31.1 121.2 FIX01 TERM ZS 65";
    assert_eq!(parse_terminal_waypoints_lines(&lines(&[row; 3])).len(), 0);
    assert_eq!(parse_terminal_waypoints_lines(&lines(&[row; 5])).len(), 2);
    assert!(is_supported_region("ZZ"));
    assert!(!is_supported_region("RK"));
}

#[test]
fn type_codes_spell_their_bytes() {
    assert_eq!(parse_waypoint_type_decimal("4530263").as_deref(), Some("W E"));
    assert_eq!(parse_waypoint_type_decimal("2115159").as_deref(), Some("WF"));
    assert_eq!(parse_waypoint_type_decimal("16777216"), None);
    assert_eq!(parse_waypoint_type_decimal("x"), None);
}

#[test]
fn no_line_is_both_a_terminal_and_an_enroute_waypoint() {
    let row = "31.1 121.2 FIX01 ENRT ZS 65";
    let content = lines(&["a", "b", "c", row]);
    assert_eq!(parse_terminal_waypoints_lines(&content).len(), 0);
    assert_eq!(parse_enroute_waypoints_lines(&content).len(), 1);
}

#[test]
fn fields_are_split_only_behind_the_prefix() {
    assert!(split_cifp_fields("APP,1", "SID", 1).is_none());
    assert!(split_cifp_fields("SID,1", "SID", 3).is_none());
    let fields = split_cifp_fields("SID , x ,\r\n", "SID", 3).unwrap();
    assert_eq!(fields.iter(), vec!["SID", "x", ""]);
    assert_eq!(fields.first(), Some("SID"));
    assert_eq!(fields.get(1), Some("x"));
    assert_eq!(fields.get(3), None);
}

#[test]
fn known_terminal_waypoints_are_left_out() {
    let rows = || {
        vec![
            terminal_row("ZSPD", "ZS", "FIX01", "A", ("1", "2")),
            terminal_row("ZSPD", "ZS", "FIX02", "A", ("1", "2")),
        ]
    };
    let queries = fetch_existing_pairs("tbl_terminal_waypoints", &rows(), 500);
    assert_eq!(queries.len(), 1);
    assert_eq!(queries[0].parameters, lines(&["ZSPD", "FIX01", "ZSPD", "FIX02"]));
    let mut existing = RowSet::new();
    existing.insert(lines(&["ZSPD", "FIX01"]));
    let plan = process_terminal_waypoints_file_to_db(rows(), "tbl_terminal_waypoints", &existing)
        .ok()
        .unwrap();
    assert_eq!(plan.parsed, 2);
    assert_eq!(plan.records.len(), 1);
    assert_eq!(plan.records[0].id, "ZSPDZSFIX02");
    assert_eq!(plan.records[0].area_code, "EEU");
    assert!(plan.insert.unwrap().starts_with("INSERT OR IGNORE INTO tbl_terminal_waypoints ("));

    existing.insert(lines(&["ZSPD", "FIX02"]));
    let plan = process_terminal_waypoints_file_to_db(rows(), "tbl_terminal_waypoints", &existing)
        .ok()
        .unwrap();
    assert!(plan.records.is_empty());
    assert!(plan.insert.is_none());
    assert!(build_insert_sql("tbl_other").is_err());
    assert!(ensure_terminal_waypoints_index("t").contains("ON \"t\"")
        || ensure_terminal_waypoints_index("t").contains("ON t"));
}

#[test]
fn records_are_kept_by_their_keys() {
    let rows = || {
        parse_vhf_nav_lines(&lines(&[
            "3 31.0 121.0 10 11320 50 X VOR1 ENRT ZS A VOR/DME",
            "3 31.0 121.0 10 11320 50 X VOR1 ENRT ZS B VOR/DME",
            "3 31.0 121.0 10 11320 50 X VOR2 ENRT ZS C VOR/DME",
        ]))
    };
    let keys = list_keys(&rows());
    assert_eq!(keys.rows().len(), 2);
    let none = RowSet::new();
    assert_eq!(retain_absent(rows(), &none).len(), 3);
    let fresh = retain_first_absent(rows(), &none);
    assert_eq!(fresh.len(), 2);
    assert_eq!(fresh[0].navaid_name.as_deref(), Some("A"));
    assert!(retain_first_absent(rows(), &keys).is_empty());
}

#[test]
fn enroute_waypoints_are_written_once() {
    let rows = || {
        parse_enroute_waypoints_lines(&lines(&["", "", "", "31.5 121.5 FIX02 ENRT VH 4530263"]))
    };
    let none = RowSet::new();
    let fresh = process_enroute_waypoints_to_db(Dataset::Pmdg, rows(), &none);
    assert_eq!(fresh[0].area_code, "PAC");
    assert_eq!(fresh[0].id, "VHFIX02");
    assert_eq!(fresh[0].waypoint_latitude, "31.5");
    assert_eq!(fresh[0].waypoint_type, "W E");
    let own = process_enroute_waypoints_to_db(Dataset::IniBuilds, rows(), &none);
    assert_eq!(own[0].area_code, "EEU");
    let columns = lines(&["waypoint_identifier", "waypoint_latitude", "magnetic_variation", "other"]);
    let variations = vec![1.5_f64.to_bits()];
    let values = insert_values(&own, Some(&variations), &columns).unwrap();
    assert!(matches!(&values[0][0], Cell::Text(text) if text == "FIX02"));
    assert!(matches!(&values[0][1], Cell::Literal(text) if text == "31.5"));
    assert!(matches!(&values[0][2], Cell::Bits(bits) if *bits == 1.5_f64.to_bits()));
    assert!(matches!(&values[0][3], Cell::Null));
    assert!(insert_values(&own, Some(&Vec::new()), &columns).is_err());
    assert_eq!(
        epoints::build_insert_sql(Dataset::Pmdg, &lines(&["a", "b"])),
        "INSERT OR IGNORE INTO \"tbl_enroute_waypoints\" (\"a\", \"b\") VALUES (?, ?)"
    );
    let keys = list_keys(&rows());
    assert!(process_enroute_waypoints_to_db(Dataset::Pmdg, rows(), &keys).is_empty());
}
