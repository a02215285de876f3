use navdata::compare::report::{
    self, build_report, exit_code_for_diff, format_sample_rows, has_any_difference, is_sampled,
    plan_table, show_entries, show_value, take_count, DataComparison, DataFound, SampleEntry,
    SampleRow, SampleValue, TableDiff, TablePlan,
};
use navdata::compare::rows::{
    compare_with_tolerance, group_rows, is_same_value, pair_group, sample_positions, write_hex,
    CellValue, RowGroup,
};
use navdata::compare::schema_diff::{build_schema_diff_lines, diff_operations, DiffOp};
use navdata::compare::tables::{
    clean_definition, column_exprs, comparison_tolerances, configured_normalization_digits,
    configured_tolerance, count_grouped_diff, count_rows, fetch_columns, fetch_create_sql,
    fetch_rows_as_records, fetch_table_names, fq_table, has_same_columns, list_sample_columns,
    normalized_group_expr, normalized_select_expr, part_tables, quote_ident, sample_grouped_diff,
    table_name_matches, ColumnInfo, TolerantColumn,
};
use rusqlite::types::ValueRef;
use rusqlite::{Connection, Row};

fn texts(items: &[&str]) -> Vec<String> {
    items.iter().map(|item| item.to_string()).collect()
}

fn setup_compare_conn() -> Connection {
    let conn = Connection::open_in_memory().unwrap();
    conn.execute("ATTACH DATABASE ':memory:' AS db_b", [])
        .unwrap();
    conn
}

fn read_value(row: &Row<'_>, index: usize) -> CellValue {
    match row.get_ref(index).unwrap() {
        ValueRef::Null => CellValue::Null,
        ValueRef::Integer(value) => CellValue::Integer(value),
        ValueRef::Real(value) => CellValue::Real(value.to_bits()),
        ValueRef::Text(value) => CellValue::Text(String::from_utf8_lossy(value).into_owned()),
        ValueRef::Blob(value) => CellValue::Blob(value.to_vec()),
    }
}

fn sample_value(value: &CellValue) -> SampleValue {
    match value {
        CellValue::Null => SampleValue::Null,
        CellValue::Integer(value) => SampleValue::Integer(*value),
        CellValue::Real(bits) => SampleValue::Real(f64::from_bits(*bits).to_string()),
        CellValue::Text(value) => SampleValue::Text(value.clone()),
        CellValue::Blob(bytes) => SampleValue::Blob(bytes.clone()),
    }
}

fn number(value: &CellValue) -> Option<f64> {
    match value {
        CellValue::Integer(value) => Some(*value as f64),
        CellValue::Real(bits) => Some(f64::from_bits(*bits)),
        CellValue::Text(value) => value.trim().parse::<f64>().ok(),
        _ => None,
    }
}

fn distance(left: &[CellValue], right: &[CellValue], tolerant: &[TolerantColumn]) -> Option<u64> {
    let mut total = 0.0_f64;
    for column in tolerant {
        let tolerance = column.tenths as f64 / 10.0;
        let (a, b) = (&left[column.index], &right[column.index]);
        let within = is_same_value(a, b)
            || (number(a)? - number(b)?).abs() < tolerance + 1e-12;
        if !within {
            return None;
        }
        if let (Some(x), Some(y)) = (number(a), number(b)) {
            total += (x - y).abs() / tolerance;
        }
    }
    Some(total.to_bits())
}

fn columns_of(conn: &Connection, schema: &str, table: &str) -> Vec<ColumnInfo> {
    let mut stmt = conn.prepare(&fetch_columns(schema, table)).unwrap();
    let rows = stmt
        .query_map([], |row| {
            Ok(ColumnInfo {
                name: row.get(1)?,
                data_type: row.get::<_, Option<String>>(2)?.unwrap_or_default(),
                not_null: row.get::<_, i64>(3)? != 0,
                default_value: row.get(4)?,
                primary_key_index: row.get(5)?,
            })
        })
        .unwrap();
    rows.map(|row| row.unwrap()).collect()
}

fn rows_of(
    conn: &Connection,
    schema: &str,
    table: &str,
    columns: &Vec<ColumnInfo>,
) -> Vec<Vec<CellValue>> {
    let mut stmt = conn
        .prepare(&fetch_rows_as_records(schema, table, columns))
        .unwrap();
    let mut rows = stmt.query([]).unwrap();
    let mut out = Vec::new();
    while let Some(row) = rows.next().unwrap() {
        out.push((0..columns.len()).map(|i| read_value(row, i)).collect());
    }
    out
}

fn grouped_sample(
    conn: &Connection,
    left: &str,
    right: &str,
    table: &str,
    columns: &Vec<ColumnInfo>,
    limit: i64,
) -> Vec<SampleRow> {
    let names = list_sample_columns(columns, true);
    let mut stmt = conn
        .prepare(&sample_grouped_diff(left, right, table, columns))
        .unwrap();
    let mut rows = stmt.query([limit]).unwrap();
    let mut out = Vec::new();
    while let Some(row) = rows.next().unwrap() {
        let values = (0..names.len())
            .map(|i| sample_value(&read_value(row, i)))
            .collect();
        out.push(SampleRow::from_columns_and_values(&names, values));
    }
    out
}

fn compare_table(conn: &Connection, table: &str, limit: usize, skip_data: bool) -> TableDiff {
    let definition = |schema: &str| {
        let sql = fetch_create_sql(schema);
        let found: Option<String> = conn.query_row(&sql, [table], |row| row.get(0)).unwrap();
        clean_definition(&found)
    };
    let count = |sql: String| -> i64 { conn.query_row(&sql, [], |row| row.get(0)).unwrap() };
    let columns = columns_of(conn, "main", table);
    let plan = plan_table(
        table,
        &definition("main"),
        &definition("db_b"),
        &columns,
        &columns_of(conn, "db_b", table),
        skip_data,
    );
    let row_count_a = count(count_rows("main", table));
    let row_count_b = count(count_rows("db_b", table));
    let found = match &plan.comparison {
        DataComparison::Skipped => None,
        DataComparison::Grouped => {
            let side = |left: &str, right: &str| {
                let groups = take_count(count(count_grouped_diff(left, right, table, &columns)));
                let sample = if is_sampled(&plan.comparison, groups) {
                    grouped_sample(conn, left, right, table, &columns, limit as i64)
                } else {
                    Vec::new()
                };
                (groups, sample)
            };
            let (only_in_a, sample_a) = side("main", "db_b");
            let (only_in_b, sample_b) = side("db_b", "main");
            Some(DataFound { only_in_a, only_in_b, sample_a, sample_b })
        }
        DataComparison::Tolerant(tolerant) => {
            let rows_a = rows_of(conn, "main", table, &columns);
            let rows_b = rows_of(conn, "db_b", table, &columns);
            let groups = group_rows(&rows_a, &rows_b, tolerant);
            let distances = groups
                .iter()
                .map(|group| {
                    let measure = |a: &usize| {
                        let apart = |b: &usize| distance(&rows_a[*a], &rows_b[*b], tolerant);
                        group.right.iter().map(apart).collect()
                    };
                    group.left.iter().map(measure).collect()
                })
                .collect();
            let unpaired = compare_with_tolerance(&groups, &distances);
            Some(DataFound {
                only_in_a: unpaired.left.len(),
                only_in_b: unpaired.right.len(),
                sample_a: Vec::new(),
                sample_b: Vec::new(),
            })
        }
    };
    report::compare_table(table, plan, row_count_a, row_count_b, found)
}

#[test]
fn a_sample_of_groups_needs_groups() {
    let plan = |comparison: DataComparison| TablePlan {
        schema_changed: false,
        schema_detail: Vec::new(),
        comparison,
    };
    let found = || DataFound {
        only_in_a: 0,
        only_in_b: 2,
        sample_a: vec![SampleRow { entries: Vec::new() }],
        sample_b: vec![SampleRow { entries: Vec::new() }],
    };
    assert_eq!(take_count(-3), 0);
    assert_eq!(take_count(7), 7);

    let grouped = report::compare_table("t", plan(DataComparison::Grouped), 5, 6, Some(found()));
    assert_eq!(grouped.table, "t");
    assert_eq!((grouped.row_count_a, grouped.row_count_b), (Some(5), Some(6)));
    assert_eq!((grouped.groups_only_in_a, grouped.groups_only_in_b), (Some(0), Some(2)));
    assert!(grouped.sample_only_in_a.is_empty());
    assert_eq!(grouped.sample_only_in_b.len(), 1);

    let tolerant = DataComparison::Tolerant(Vec::new());
    let tolerant = report::compare_table("t", plan(tolerant), 5, 6, Some(found()));
    assert_eq!(tolerant.sample_only_in_a.len(), 1);

    let skipped = report::compare_table("t", plan(DataComparison::Skipped), 5, 6, Some(found()));
    assert_eq!((skipped.groups_only_in_a, skipped.groups_only_in_b), (None, None));
    assert!(skipped.sample_only_in_b.is_empty());
}

#[test]
fn quotes_identifiers() {
    assert_eq!(quote_ident("simple"), "\"simple\"");
    assert_eq!(quote_ident("bad\"name"), "\"bad\"\"name\"");
}

#[test]
fn builds_schema_diff() {
    let diff = build_schema_diff_lines(
        "CREATE TABLE t (\n  id INTEGER\n)",
        "CREATE TABLE t (\n  id TEXT\n)",
    );
    assert!(diff.iter().any(|line| line == "--- db_a"));
    assert!(diff.iter().any(|line| line == "+++ db_b"));
    assert!(diff.iter().any(|line| line == "-  id INTEGER"));
    assert!(diff.iter().any(|line| line == "+  id TEXT"));
}

#[test]
fn compare_table_uses_tolerance() {
    let conn = setup_compare_conn();
    let create_sql_main = "\
        CREATE TABLE tbl_pc_terminal_waypoints (
            region_code TEXT,
            waypoint_identifier TEXT,
            waypoint_latitude REAL,
            waypoint_longitude REAL,
            magnetic_variation REAL
        )";
    let create_sql_attached = "\
        CREATE TABLE db_b.tbl_pc_terminal_waypoints (
            region_code TEXT,
            waypoint_identifier TEXT,
            waypoint_latitude REAL,
            waypoint_longitude REAL,
            magnetic_variation REAL
        )";
    conn.execute(create_sql_main, []).unwrap();
    conn.execute(create_sql_attached, []).unwrap();

    conn.execute(
        "INSERT INTO tbl_pc_terminal_waypoints VALUES ('ZB', 'FIX01', 30.123456781, 120.987654321, 1.0)",
        [],
    )
    .unwrap();
    conn.execute(
        "INSERT INTO db_b.tbl_pc_terminal_waypoints VALUES ('ZB', 'FIX01', 30.123456784, 120.987654324, 1.1)",
        [],
    )
    .unwrap();

    let diff = compare_table(&conn, "tbl_pc_terminal_waypoints", 5, false);
    assert!(!diff.schema_changed);
    assert_eq!(diff.groups_only_in_a, Some(0));
    assert_eq!(diff.groups_only_in_b, Some(0));
    assert!(!diff.has_difference());
}

#[test]
fn compare_table_uses_tolerance_for_pmdg_table_name() {
    let conn = setup_compare_conn();
    let create_sql_main = "\
        CREATE TABLE tbl_terminal_waypoints (
            region_code TEXT,
            waypoint_identifier TEXT,
            waypoint_latitude REAL,
            waypoint_longitude REAL,
            magnetic_variation REAL
        )";
    let create_sql_attached = "\
        CREATE TABLE db_b.tbl_terminal_waypoints (
            region_code TEXT,
            waypoint_identifier TEXT,
            waypoint_latitude REAL,
            waypoint_longitude REAL,
            magnetic_variation REAL
        )";
    conn.execute(create_sql_main, []).unwrap();
    conn.execute(create_sql_attached, []).unwrap();

    conn.execute(
        "INSERT INTO tbl_terminal_waypoints VALUES ('ZB', 'FIX01', 30.123456781, 120.987654321, 1.0)",
        [],
    )
    .unwrap();
    conn.execute(
        "INSERT INTO db_b.tbl_terminal_waypoints VALUES ('ZB', 'FIX01', 30.123456784, 120.987654324, 1.1)",
        [],
    )
    .unwrap();

    let diff = compare_table(&conn, "tbl_terminal_waypoints", 5, false);
    assert!(!diff.schema_changed);
    assert_eq!(diff.groups_only_in_a, Some(0));
    assert_eq!(diff.groups_only_in_b, Some(0));
    assert!(!diff.has_difference());
}

#[test]
fn table_name_match_supports_legacy_prefix() {
    assert!(table_name_matches("tbl_terminal_waypoints", "tbl_terminal_waypoints"));
    assert!(table_name_matches("tbl_pc_terminal_waypoints", "tbl_terminal_waypoints"));
    assert!(table_name_matches("tbl_db_enroute_ndbnavaids", "tbl_enroute_ndbnavaids"));
    assert!(!table_name_matches("tbl_xyz_terminal_waypoints", "tbl_terminal_waypoints"));
}

#[test]
fn compare_table_detects_grouped_count_difference() {
    let conn = setup_compare_conn();
    conn.execute("CREATE TABLE sample (id INTEGER, name TEXT)", [])
        .unwrap();
    conn.execute("CREATE TABLE db_b.sample (id INTEGER, name TEXT)", [])
        .unwrap();

    conn.execute("INSERT INTO sample VALUES (1, 'A')", [])
        .unwrap();
    conn.execute("INSERT INTO sample VALUES (1, 'A')", [])
        .unwrap();
    conn.execute("INSERT INTO db_b.sample VALUES (1, 'A')", [])
        .unwrap();

    let diff = compare_table(&conn, "sample", 5, false);
    assert_eq!(diff.groups_only_in_a, Some(1));
    assert_eq!(diff.groups_only_in_b, Some(1));
    assert!(diff.has_difference());
    assert_eq!(diff.sample_only_in_a.len(), 1);
    assert_eq!(
        diff.sample_only_in_a[0].render(),
        "{\"id\": 1, \"name\": \"A\", \"__row_count__\": 2}"
    );
}

#[test]
fn exit_code_is_zero_by_default_even_when_diff_exists() {
    assert_eq!(exit_code_for_diff(true, false), 0);
    assert_eq!(exit_code_for_diff(false, false), 0);
    assert_eq!(exit_code_for_diff(true, true), 1);
}

#[test]
fn data_is_not_compared_when_skipped_or_when_columns_differ() {
    let conn = setup_compare_conn();
    conn.execute("CREATE TABLE t (id INTEGER)", []).unwrap();
    conn.execute("CREATE TABLE db_b.t (id TEXT)", []).unwrap();
    let diff = compare_table(&conn, "t", 5, false);
    assert!(diff.schema_changed);
    assert_eq!(diff.groups_only_in_a, None);
    assert!(diff.has_difference());
    assert!(diff.schema_detail.iter().any(|line| line == "-CREATE TABLE t (id INTEGER)"));

    conn.execute("CREATE TABLE u (id INTEGER)", []).unwrap();
    conn.execute("CREATE TABLE db_b.u (id INTEGER)", []).unwrap();
    let diff = compare_table(&conn, "u", 5, true);
    assert!(!diff.schema_changed);
    assert_eq!(diff.groups_only_in_a, None);
    assert!(!diff.has_difference());
}

#[test]
fn rows_beyond_the_tolerance_stay_unpaired() {
    let conn = setup_compare_conn();
    for schema in ["main", "db_b"] {
        conn.execute(
            &format!("CREATE TABLE {schema}.tbl_vhfnavaids (id TEXT, magnetic_variation REAL)"),
            [],
        )
        .unwrap();
    }
    conn.execute("INSERT INTO tbl_vhfnavaids VALUES ('A', 1.0)", [])
        .unwrap();
    conn.execute("INSERT INTO tbl_vhfnavaids VALUES ('B', 1.0)", [])
        .unwrap();
    conn.execute("INSERT INTO db_b.tbl_vhfnavaids VALUES ('A', 1.5)", [])
        .unwrap();
    conn.execute("INSERT INTO db_b.tbl_vhfnavaids VALUES ('B', 1.6)", [])
        .unwrap();
    let diff = compare_table(&conn, "tbl_vhfnavaids", 5, false);
    assert_eq!(diff.groups_only_in_a, Some(1));
    assert_eq!(diff.groups_only_in_b, Some(1));
}

#[test]
fn schema_diff_of_equal_texts_is_empty_and_of_an_empty_one_names_it() {
    assert!(build_schema_diff_lines("CREATE", "CREATE").is_empty());
    assert!(build_schema_diff_lines("a\r\nb", "a\nb").is_empty());
    assert_eq!(
        build_schema_diff_lines("", "a\nb"),
        texts(&["--- db_a", "+++ db_b", "@@ -1,1 +1,2 @@", "-<EMPTY>", "+a", "+b"])
    );
}

#[test]
fn difference_keeps_the_longest_common_lines() {
    let left = texts(&["a", "b", "c", "d"]);
    let right = texts(&["b", "x", "d"]);
    let diff = diff_operations(&left, &right);
    let rebuilt_left: Vec<String> = diff
        .iter()
        .filter(|line| line.op != DiffOp::Insert)
        .map(|line| line.line.clone())
        .collect();
    let rebuilt_right: Vec<String> = diff
        .iter()
        .filter(|line| line.op != DiffOp::Delete)
        .map(|line| line.line.clone())
        .collect();
    assert_eq!(rebuilt_left, left);
    assert_eq!(rebuilt_right, right);
    assert_eq!(diff.iter().filter(|line| line.op == DiffOp::Equal).count(), 2);
    let marked: Vec<String> = build_schema_diff_lines("a\nb\nc\nd", "b\nx\nd");
    assert_eq!(
        marked[3..].to_vec(),
        texts(&["-a", " b", "-c", "+x", " d"])
    );
}

#[test]
fn rounding_and_tolerances_depend_on_table_and_column() {
    assert_eq!(configured_normalization_digits("tbl_airports", "airport_ref_latitude"), Some(8));
    assert_eq!(configured_normalization_digits("tbl_pa_airports", "airport_ref_longitude"), Some(8));
    assert_eq!(configured_normalization_digits("tbl_airports", "elevation"), None);
    assert_eq!(configured_normalization_digits("tbl_iaps", "recommanded_navaid_latitude"), Some(8));
    assert_eq!(configured_normalization_digits("tbl_localizers_glideslopes", "gs_longitude"), Some(8));
    assert_eq!(configured_normalization_digits("tbl_runways", "runway_latitude"), None);
    assert_eq!(configured_tolerance("tbl_enroute_airways", "inbound_course"), Some(10));
    assert_eq!(configured_tolerance("tbl_localizers_glideslopes", "llz_bearing"), Some(10));
    assert_eq!(configured_tolerance("tbl_localizers_glideslopes", "station_declination"), Some(5));
    assert_eq!(configured_tolerance("tbl_enroute_waypoints", "magnetic_variation"), Some(5));
    assert_eq!(configured_tolerance("tbl_airports", "magnetic_variation"), None);
}

fn column(name: &str) -> ColumnInfo {
    ColumnInfo {
        name: name.to_string(),
        data_type: "REAL".to_string(),
        not_null: false,
        default_value: None,
        primary_key_index: 0,
    }
}

#[test]
fn column_expressions_round_where_asked() {
    assert_eq!(normalized_group_expr("a", None), "\"a\"");
    assert_eq!(normalized_group_expr("a", Some(8)), "ROUND(CAST(\"a\" AS REAL), 8)");
    assert_eq!(
        normalized_select_expr("a", Some(8)),
        "ROUND(CAST(\"a\" AS REAL), 8) AS \"a\""
    );
    let columns = vec![column("airport_ref_latitude"), column("elevation")];
    let (select, group) = column_exprs("tbl_airports", &columns);
    assert_eq!(
        select,
        "ROUND(CAST(\"airport_ref_latitude\" AS REAL), 8) AS \"airport_ref_latitude\", \"elevation\""
    );
    assert_eq!(group, "ROUND(CAST(\"airport_ref_latitude\" AS REAL), 8), \"elevation\"");
    assert_eq!(fq_table("db_b", "t"), "db_b.\"t\"");
    assert_eq!(
        fetch_table_names("main"),
        "SELECT name FROM main.sqlite_master WHERE type='table' AND name NOT LIKE 'sqlite_%' ORDER BY name"
    );
}

#[test]
fn columns_are_the_same_only_in_every_respect() {
    let a = vec![column("x"), column("y")];
    let b = vec![column("x"), column("y")];
    assert!(has_same_columns(&a, &b));
    let mut c = vec![column("x"), column("y")];
    c[1].default_value = Some("0".to_string());
    assert!(!has_same_columns(&a, &c));
    assert!(!has_same_columns(&a, &vec![column("x")]));
    let tolerant = comparison_tolerances("tbl_vhfnavaids", &vec![column("id"), column("magnetic_variation")]);
    assert_eq!(tolerant, vec![TolerantColumn { index: 1, tenths: 5 }]);
}

#[test]
fn tables_are_parted_in_order() {
    let sets = part_tables(&texts(&["c", "a", "b"]), &texts(&["d", "b"]));
    assert_eq!(sets.only_in_a, texts(&["a", "c"]));
    assert_eq!(sets.only_in_b, texts(&["d"]));
    assert_eq!(sets.common, texts(&["b"]));
}

#[test]
fn values_are_equal_only_in_kind_and_content() {
    assert!(is_same_value(&CellValue::Null, &CellValue::Null));
    assert!(!is_same_value(&CellValue::Integer(1), &CellValue::Real(1.0_f64.to_bits())));
    assert!(!is_same_value(&CellValue::Text("1".to_string()), &CellValue::Integer(1)));
    assert!(is_same_value(&CellValue::Blob(vec![1, 255]), &CellValue::Blob(vec![1, 255])));
    assert!(!is_same_value(&CellValue::Blob(vec![1]), &CellValue::Blob(vec![16])));
    assert!(!is_same_value(&CellValue::Integer(-1), &CellValue::Integer(1)));
    assert_eq!(write_hex(&vec![0, 15, 255]), "000FFF");
}

#[test]
fn each_row_takes_the_nearest_free_partner() {
    let group = RowGroup { left: vec![10, 11, 12], right: vec![20, 21] };
    let bits = |value: f64| Some(value.to_bits());
    let unpaired = pair_group(
        &group,
        &vec![
            vec![bits(0.5), bits(0.25)],
            vec![bits(0.1), bits(0.1)],
            vec![bits(0.1), None],
        ],
    );
    assert_eq!(unpaired.left, vec![12]);
    assert!(unpaired.right.is_empty());

    let unpaired = pair_group(&group, &vec![vec![None, None], vec![None, bits(0.0)], vec![None, None]]);
    assert_eq!(unpaired.left, vec![10, 12]);
    assert_eq!(unpaired.right, vec![20]);
    assert_eq!(sample_positions(&vec![5, 6, 7], 2), vec![5, 6]);
    assert_eq!(sample_positions(&vec![5], 2), vec![5]);
}

#[test]
fn rows_are_grouped_by_what_may_not_differ() {
    let row = |name: &str, value: i64| vec![CellValue::Text(name.to_string()), CellValue::Integer(value)];
    let tolerant = vec![TolerantColumn { index: 1, tenths: 5 }];
    let groups = group_rows(
        &vec![row("a", 1), row("b", 2), row("a", 3)],
        &vec![row("c", 1), row("a", 9)],
        &tolerant,
    );
    assert_eq!(groups.len(), 3);
    assert_eq!(groups[0].left, vec![0, 2]);
    assert_eq!(groups[0].right, vec![1]);
    assert_eq!(groups[1].left, vec![1]);
    assert!(groups[1].right.is_empty());
    assert!(groups[2].left.is_empty());
    assert_eq!(groups[2].right, vec![0]);
}

#[test]
fn a_table_has_no_row_of_its_own_against_itself() {
    let row = |name: &str, value: i64| vec![CellValue::Text(name.to_string()), CellValue::Integer(value)];
    let rows = vec![row("a", 4), row("b", 2), row("a", 3), row("a", 4)];
    let tolerant = vec![TolerantColumn { index: 1, tenths: 20 }];
    let groups = group_rows(&rows, &rows, &tolerant);
    assert_eq!(groups.len(), 2);
    assert_eq!(groups[0].left, vec![0, 2, 3]);
    assert_eq!(groups[0].right, vec![0, 2, 3]);
    let near = Some(0.0f64.to_bits());
    let far = Some(0.5f64.to_bits());
    let distances = vec![
        vec![vec![near, far, near], vec![far, near, far], vec![near, far, near]],
        vec![vec![near]],
    ];
    let unpaired = compare_with_tolerance(&groups, &distances);
    assert!(unpaired.left.is_empty());
    assert!(unpaired.right.is_empty());
}

#[test]
fn rearranged_rows_leave_nothing_over() {
    let row = |name: &str, value: i64| vec![CellValue::Text(name.to_string()), CellValue::Integer(value)];
    let rows_a = vec![row("a", 3), row("a", 4), row("b", 2), row("a", 4), row("a", 5)];
    let rows_b = vec![row("b", 2), row("a", 4), row("a", 5), row("a", 3), row("a", 4)];
    let tolerant = vec![TolerantColumn { index: 1, tenths: 20 }];
    let groups = group_rows(&rows_a, &rows_b, &tolerant);
    let distances = groups
        .iter()
        .map(|group| {
            let measure = |a: &usize| {
                let apart = |b: &usize| distance(&rows_a[*a], &rows_b[*b], &tolerant);
                group.right.iter().map(apart).collect()
            };
            group.left.iter().map(measure).collect()
        })
        .collect();
    let unpaired = compare_with_tolerance(&groups, &distances);
    assert!(unpaired.left.is_empty());
    assert!(unpaired.right.is_empty());
}

#[test]
fn what_is_not_a_number_is_no_partner() {
    let tolerant = vec![TolerantColumn { index: 0, tenths: 20 }];
    let odd = vec![CellValue::Text("nan".to_string())];
    let even = vec![CellValue::Integer(1)];
    assert_eq!(distance(&odd, &even, &tolerant), None);
    assert!(distance(&odd, &odd, &tolerant).is_some());
    let group = RowGroup { left: vec![0], right: vec![0] };
    let unpaired = pair_group(&group, &vec![vec![distance(&odd, &even, &tolerant)]]);
    assert_eq!(unpaired.left, vec![0]);
    assert_eq!(unpaired.right, vec![0]);
}

#[test]
fn sample_values_are_shown_by_their_kind() {
    assert_eq!(SampleValue::Null.render(), "null");
    assert_eq!(SampleValue::Integer(-5).render(), "-5");
    assert_eq!(SampleValue::Real("1.5".to_string()).render(), "1.5");
    assert_eq!(SampleValue::Text("a\"b\n".to_string()).render(), "\"a\\\"b\\n\"");
    assert_eq!(SampleValue::Blob(vec![171]).render(), "X'AB'");
    assert_eq!(show_value(&SampleValue::Text("x".to_string()), "quoted"), "quoted");
    assert_eq!(show_entries(&texts(&["a", "b"])), "{a, b}");
}

fn diff_of(table: &str) -> TableDiff {
    TableDiff {
        table: table.to_string(),
        schema_changed: false,
        row_count_a: Some(1),
        row_count_b: Some(1),
        groups_only_in_a: Some(0),
        groups_only_in_b: Some(0),
        schema_detail: Vec::new(),
        sample_only_in_a: Vec::new(),
        sample_only_in_b: Vec::new(),
    }
}

#[test]
fn report_lists_only_what_differs() {
    let mut changed = diff_of("t");
    changed.groups_only_in_a = Some(1);
    changed.sample_only_in_a = vec![SampleRow {
        entries: vec![SampleEntry { name: "id".to_string(), value: SampleValue::Integer(7) }],
    }];
    let diffs = vec![diff_of("same"), changed];
    let none: Vec<String> = Vec::new();
    assert!(has_any_difference(&none, &none, &diffs));
    assert!(!has_any_difference(&none, &none, &vec![diff_of("same")]));
    assert!(has_any_difference(&texts(&["x"]), &none, &Vec::new()));
    let report = build_report("a.db", "b.db", &texts(&["only"]), &none, &diffs);
    assert_eq!(
        report,
        "=== SQLite 数据库对比报告 ===\nDB A: a.db\nDB B: b.db\n\
Note: configured coordinate columns are normalized with ROUND(..., 8) before diffing.\n\n\
仅在 DB A 存在的表 (1):\n  - only\n\n仅在 DB B 存在的表 (0):\n  (无)\n\n\
共同表中存在差异的表 (1):\n\n--- 表: t ---\n  [结构差异] 无\n  [行数] DB A=1, DB B=1\n  \
[数据差异] 仅在 DB A 的分组行: 1, 仅在 DB B 的分组行: 0\n  \
[样例] 仅在 DB A 的分组行（含 __row_count__）:\n    [1] {\"id\": 7}"
    );
    assert!(build_report("a", "b", &none, &none, &Vec::new()).ends_with("共同表中存在差异的表 (0):\n  (无)"));
    assert_eq!(format_sample_rows(&Vec::new()), "(无样例)");
}

#[test]
fn report_cuts_long_schema_differences() {
    let mut changed = diff_of("t");
    changed.schema_changed = true;
    changed.groups_only_in_a = None;
    changed.groups_only_in_b = None;
    changed.schema_detail = (0..201).map(|i| format!("line{i}")).collect();
    let none: Vec<String> = Vec::new();
    let report = build_report("a", "b", &none, &none, &vec![changed]);
    assert!(report.contains("\n  line199\n  ... (结构差异输出已截断)\n"));
    assert!(!report.contains("line200"));
    assert!(report.ends_with("  [数据差异] 未比较（结构不同或启用了 --skip-data）"));
}
