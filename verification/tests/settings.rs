use navdata::config::{
    default_file_name, list_default_names, list_needed_paths, list_relative_values, load_config,
    optional_or_default, read_settings, required_value, resolve_configured_path, resolve_paths,
    validate_config_paths, DefaultFile, PathsConfig,
};
use navdata::double::Point;
use navdata::magnetic::{
    batch_get_magnetic_variations_internal, coeff_idx, list_unique_points, parse_coefficients_buffer, read_coefficient_line, spread_values,
    CoefficientError, CoefficientField, LineMeaning, MAX_SIZE,
};
use navdata::matchers::{
    create_coordinate_matcher_from_files, read_fix_lines, read_nav_lines, CoordinateLookupRequest,
    CoordinateSearchType, IcaoCodeResolver,
};
use navdata::ref_tables::{
    ref_table_queries, ExtraColumn, RefBatch, RefLoad, RefMatchRequest, RefRow, RefTable,
    RefTableMatcher,
};
use navdata::steps::{
    after_attempt, drop_index_statement, execute_selected_steps, is_locked_error_message,
    run_terminal_cifp_step, step_name, AttemptOutcome, RetryAction, Step,
};

fn texts(items: &[&str]) -> Vec<String> {
    items.iter().map(|item| item.to_string()).collect()
}

const SETTINGS: &str = "[Paths]\nXPLANE_PATH=/xp\nNAIP_PATH = /naip \nDB_OUTPUT_PATH=out.db\nMASTER_NDB_PATH=ndb.db\nCIFP_PATH=cifp\nPATH_TO_FIX_DAT=fix.dat\nPATH_TO_NAV_DAT=nav.dat\nPATH_TO_RWY_CSV=\n";

#[test]
fn settings_are_read_from_the_section_for_paths() {
    let raw = read_settings(SETTINGS).unwrap();
    assert_eq!(raw.naip_path.as_deref(), Some("/naip"));
    assert_eq!(raw.path_to_vor_csv, None);
    let settings = load_config(&raw).unwrap();
    assert_eq!(settings.xplane_path, "/xp");
    assert_eq!(settings.path_to_nav_dat, "nav.dat");
    assert_eq!(settings.path_to_rwy_csv, None);
    assert!(read_settings("[Paths\nX=1\n").is_err());
}

#[test]
fn required_settings_are_named_when_they_are_missing() {
    let keys = [
        "NAIP_PATH",
        "DB_OUTPUT_PATH",
        "MASTER_NDB_PATH",
        "CIFP_PATH",
        "PATH_TO_FIX_DAT",
        "PATH_TO_NAV_DAT",
    ];
    for key in keys {
        let content: String = SETTINGS
            .lines()
            .filter(|line| !line.starts_with(key))
            .map(|line| format!("{line}\n"))
            .collect();
        let raw = read_settings(&content).unwrap();
        assert_eq!(load_config(&raw).err().unwrap().key, key);
    }
    assert_eq!(required_value(&Some(" a ".to_string())).as_deref(), Some("a"));
    assert_eq!(required_value(&Some("  ".to_string())), None);
}

#[test]
fn paths_are_put_together_from_the_settings() {
    let raw = read_settings(&format!("{SETTINGS}PATH_TO_VOR_CSV=own/VOR.csv\n")).unwrap();
    let settings = load_config(&raw).unwrap();
    let relative = list_relative_values(&settings);
    assert_eq!(relative, texts(&["cifp", "fix.dat", "nav.dat"]));
    let joined: Vec<String> = relative.iter().map(|value| format!("/xp/{value}")).collect();
    let defaults: Vec<String> = list_default_names().iter().map(|name| format!("/naip/{name}")).collect();
    let paths = resolve_paths(&settings, &vec![false, true, false], &joined, &defaults);
    assert_eq!(paths.db_output_path, "out.db");
    assert_eq!(paths.master_ndb_path, "ndb.db");
    assert_eq!(paths.cifp_path, "/xp/cifp");
    assert_eq!(paths.path_to_fix_dat, "fix.dat");
    assert_eq!(paths.path_to_nav_dat, "/xp/nav.dat");
    assert_eq!(paths.path_to_rwy_direction_csv, "/naip/RWY_DIRECTION.csv");
    assert_eq!(paths.path_to_rwy_csv, "/naip/RWY.csv");
    assert_eq!(paths.path_to_ad_hp_csv, "/naip/AD_HP.csv");
    assert_eq!(paths.path_to_rte_seg_csv, "/naip/RTE_SEG.csv");
    assert_eq!(paths.path_to_vor_csv, "own/VOR.csv");
    assert_eq!(paths.path_to_ndb_csv, "/naip/NDB.csv");
}

#[test]
fn paths_are_joined_only_to_a_base() {
    assert_eq!(resolve_configured_path("/xp", "a", true, false, "/xp/a"), "/xp/a");
    assert_eq!(resolve_configured_path(" ", "a", true, false, "/xp/a"), "a");
    assert_eq!(resolve_configured_path("/xp", "a", false, false, "/xp/a"), "a");
    assert_eq!(resolve_configured_path("/xp", "/a", true, true, "/a"), "/a");
    assert_eq!(optional_or_default(&None, "d"), "d");
    assert_eq!(optional_or_default(&Some("c".to_string()), "d"), "c");
    assert_ne!(default_file_name(DefaultFile::Vors), default_file_name(DefaultFile::Ndbs));
}

#[test]
fn the_first_missing_path_is_named() {
    let name = |s: &str| s.to_string();
    let config = PathsConfig {
        db_output_path: name("1"),
        master_ndb_path: name("2"),
        cifp_path: name("3"),
        path_to_fix_dat: name("4"),
        path_to_nav_dat: name("5"),
        path_to_rwy_direction_csv: name("6"),
        path_to_rwy_csv: name("7"),
        path_to_ad_hp_csv: name("8"),
        path_to_rte_seg_csv: name("9"),
        path_to_vor_csv: name("10"),
        path_to_ndb_csv: name("11"),
    };
    let needed = list_needed_paths(&config);
    assert!(validate_config_paths(&config, &vec![true; needed.len()]).is_ok());
    let mut exists = vec![true; needed.len()];
    exists[2] = false;
    exists[4] = false;
    let missing = validate_config_paths(&config, &exists).err().unwrap();
    assert_eq!(missing.path, needed[2].path);
    assert_eq!(missing.name, needed[2].name);
}

#[test]
fn a_full_run_takes_every_step_once() {
    let steps = execute_selected_steps(Step::All);
    assert_eq!(steps.len(), 11);
    for (i, step) in steps.iter().enumerate() {
        assert!(!steps[..i].contains(step));
        assert_eq!(execute_selected_steps(*step), vec![*step]);
    }
    assert_eq!(step_name(Step::EnrouteWaypoints), "enroute_waypoints");
}

#[test]
fn procedures_are_configured_by_their_step() {
    let sids = run_terminal_cifp_step(Step::Sids).unwrap();
    assert_eq!(sids.table_name, "tbl_sids");
    assert_eq!(sids.cifp_prefix, "SID:");
    let iaps = run_terminal_cifp_step(Step::Iaps).unwrap();
    assert!(iaps.use_iaps_logic);
    assert_eq!(iaps.min_fields, 18);
    assert!(run_terminal_cifp_step(Step::Airways).is_none());
}

#[test]
fn locked_databases_are_tried_again() {
    let locked = AttemptOutcome::Failed("Error: DATABASE is Locked".to_string());
    assert!(is_locked_error_message("database is locked"));
    assert_eq!(after_attempt(0, 3, &locked), RetryAction::WaitAndRetry);
    assert_eq!(after_attempt(2, 3, &locked), RetryAction::WaitAndGiveUp);
    assert_eq!(after_attempt(0, 3, &AttemptOutcome::Failed("other".to_string())), RetryAction::Fail);
    assert_eq!(after_attempt(2, 3, &AttemptOutcome::Succeeded), RetryAction::Finish);
    assert_eq!(drop_index_statement("i\"x"), "DROP INDEX IF EXISTS \"i\"\"x\"");
}

#[test]
fn coefficients_end_at_their_mark() {
    let content = "    2025.0  WMM-2025  11/13/2024\n  1  0  -29351.8  0.0  12.0  0.0\n  1  1  -1410.8  4545.4  9.7  -21.5\nshort line\n9999 9 9 9 9 9\n  1  x  0 0 0 0\n";
    let model = parse_coefficients_buffer(content, 12).unwrap();
    assert_eq!(model.epoch, "2025.0");
    assert_eq!(model.records.len(), 2);
    assert_eq!(model.records[1].hnm, "4545.4");
    for record in &model.records {
        assert!(record.m <= record.n && record.n <= 12);
    }
}

#[test]
fn unreadable_coefficients_are_explained() {
    let error = |content: &str| parse_coefficients_buffer(content, 12).err().unwrap();
    assert!(matches!(error(""), CoefficientError::Empty));
    assert!(matches!(error("2025.0 WMM\n"), CoefficientError::Header));
    assert!(matches!(error("x WMM d\n"), CoefficientError::Epoch(found) if found == "x"));
    assert!(matches!(
        error("1 a b\nx 0 0 0 0 0\n"),
        CoefficientError::Field(CoefficientField::Degree, found) if found == "x"
    ));
    assert!(matches!(
        error("1 a b\n1 x 0 0 0 0\n"),
        CoefficientError::Field(CoefficientField::Order, _)
    ));
    assert!(matches!(error("1 a b\n1 0 x 0 0 0\n"), CoefficientError::Field(CoefficientField::Gnm, _)));
    assert!(matches!(error("1 a b\n1 0 0 x 0 0\n"), CoefficientError::Field(CoefficientField::Hnm, _)));
    assert!(matches!(error("1 a b\n1 0 0 0 x 0\n"), CoefficientError::Field(CoefficientField::Dgnm, _)));
    assert!(matches!(error("1 a b\n1 0 0 0 0 x\n"), CoefficientError::Field(CoefficientField::Dhnm, _)));
    assert!(matches!(error("1 a b\n1 2 0 0 0 0\n"), CoefficientError::Corrupt(1, 2)));
    assert!(matches!(read_coefficient_line("1 13 0 0 0 0", 12), LineMeaning::Stop));
    assert!(matches!(read_coefficient_line("1 13", 12), LineMeaning::Skip));
}

#[test]
fn coefficients_have_places_of_their_own() {
    assert_eq!(coeff_idx(0, 0), 0);
    let mut seen = vec![false; MAX_SIZE * MAX_SIZE];
    for m in 0..MAX_SIZE {
        for n in 0..MAX_SIZE {
            let at = coeff_idx(m, n);
            assert!(!seen[at]);
            seen[at] = true;
        }
    }
}

#[test]
fn positions_are_measured_once() {
    let point = |latitude: u64, longitude: u64| Point { latitude, longitude };
    let unique = list_unique_points(&vec![point(1, 2), point(3, 4), point(1, 2), point(2, 1)]);
    assert_eq!(unique.points, vec![point(1, 2), point(3, 4), point(2, 1)]);
    assert_eq!(unique.indices, vec![0, 1, 0, 2]);
    assert_eq!(spread_values(&vec![10, 20, 30], &unique.indices), vec![10, 20, 10, 30]);
    assert_eq!(
        batch_get_magnetic_variations_internal(&vec![Some(10), Some(20), Some(30)], &unique.indices),
        Ok(vec![10, 20, 10, 30])
    );
    assert_eq!(
        batch_get_magnetic_variations_internal(&vec![Some(10), None, None], &unique.indices),
        Err(1)
    );
}

#[test]
fn fixes_are_found_by_region_then_by_code_then_alone() {
    let fixes = read_fix_lines(
        &texts(&["31.0 121.0 FIX01 ZSPD ZS", "32.0 122.0 FIX01 ENRT ZS", "x y z", "30 120 OTHER ENRT ZB"]),
        None,
    );
    assert_eq!(fixes.len(), 3);
    let navs = read_nav_lines(&texts(&["3 33.0 123.0 1 2 3 4 VOR ENRT ZS NAME VOR/DME"]), None);
    let at = |latitude: f64, longitude: f64| Point {
        latitude: latitude.to_bits(),
        longitude: longitude.to_bits(),
    };
    let read = |text: &String| text.parse::<f64>().unwrap();
    let fix_points = fixes.iter().map(|f| at(read(&f.latitude), read(&f.longitude))).collect();
    let nav_points = navs.iter().map(|n| at(read(&n.latitude), read(&n.longitude))).collect();
    let matcher = create_coordinate_matcher_from_files(&fixes, &fix_points, &navs, &nav_points);
    let find = |search_type, identifier, icao_code, region_code| {
        matcher.find_coordinates_native(&CoordinateLookupRequest {
            search_type,
            identifier: Some(identifier),
            icao_code: Some(icao_code),
            region_code,
        })
    };
    let waypoint = CoordinateSearchType::Waypoint;
    assert_eq!(find(waypoint, "FIX01", "ZS", Some("ZSPD")), Some(at(31.0, 121.0)));
    assert_eq!(find(waypoint, "FIX01", "ZS", None), Some(at(32.0, 122.0)));
    assert_eq!(find(waypoint, "OTHER", "ZS", None), Some(at(30.0, 120.0)));
    assert_eq!(find(waypoint, "VOR", "ZS", None), Some(at(33.0, 123.0)));
    assert_eq!(find(CoordinateSearchType::RecommendedNavaid, "VOR", "ZB", None), None);
}

#[test]
fn codes_are_resolved_by_kind() {
    let item = |a: &str, b: &str| (a.to_string(), b.to_string());
    let nav = |a: &str, b: &str, c: &str| (a.to_string(), b.to_string(), c.to_string());
    let resolver = IcaoCodeResolver::from_items(
        vec![item("FIX", "ZB"), item("FIX", "ZS"), item("FIX", "")],
        vec![nav("V", "VOR/DME", "ZG"), nav("N", "NDB", "ZL")],
    );
    assert_eq!(resolver.resolve_ref(Some("FIX"), Some("DESIGNATED_POINT")).as_deref(), Some("ZS"));
    assert_eq!(resolver.resolve_ref(Some("V"), Some("VORDME")).as_deref(), Some("ZG"));
    assert_eq!(resolver.resolve_ref(Some("N"), Some("NDB")).as_deref(), Some("ZL"));
    assert_eq!(resolver.resolve_ref(Some("N"), Some("VORDME")), None);
    assert_eq!(resolver.resolve_ref(Some("N"), None), None);
}

#[test]
fn reference_tables_are_searched_in_order() {
    let row = |extra: Option<&str>| RefRow {
        identifier: "FIX01".to_string(),
        latitude: Some(1),
        longitude: Some(2),
        extra: extra.map(str::to_string),
    };
    let matcher = RefTableMatcher::create_ref_table_matcher_from_db(
        RefLoad::Scoped,
        &vec![
            RefBatch { table: RefTable::Airports, extra: ExtraColumn::Nothing, rows: vec![row(None)] },
            RefBatch {
                table: RefTable::TerminalWaypoints,
                extra: ExtraColumn::Region,
                rows: vec![row(Some("ZSPD"))],
            },
            RefBatch { table: RefTable::VhfNavaids, extra: ExtraColumn::Nothing, rows: vec![row(None)] },
        ],
    );
    let request = |is_airport, airport_id| RefMatchRequest {
        identifier: Some("FIX01"),
        latitude: Some(1),
        longitude: Some(2),
        is_airport,
        airport_id,
    };
    assert_eq!(matcher.candidate_points(&request(false, None)).len(), 2);
    assert!(matcher.candidate_points(&request(true, None)).is_empty());
    let found = |r: &RefMatchRequest<'_>, near: Vec<bool>| matcher.match_request(r, &near).ref_table;
    assert_eq!(found(&request(true, None), vec![]), Some(RefTable::Airports));
    assert_eq!(found(&request(false, Some("ZSPD")), vec![true, true]), Some(RefTable::TerminalWaypoints));
    assert_eq!(found(&request(false, Some("ZBAA")), vec![true, true]), Some(RefTable::VhfNavaids));
    assert_eq!(found(&request(false, Some("ZSPD")), vec![false, false]), None);
    let batch = matcher.match_batch_native(&vec![request(true, None)], &vec![vec![]]);
    assert_eq!(batch[0].latitude, Some(1));
}

#[test]
fn parallel_and_scoped_loads_answer_alike() {
    let row = |identifier: &str, latitude: u64| RefRow {
        identifier: identifier.to_string(),
        latitude: Some(latitude),
        longitude: Some(2),
        extra: None,
    };
    let batches = || {
        vec![
            RefBatch { table: RefTable::Airports, extra: ExtraColumn::Nothing, rows: vec![row("ZBAA", 1)] },
            RefBatch {
                table: RefTable::EnrouteNdbs,
                extra: ExtraColumn::Nothing,
                rows: vec![row("A", 3), row("", 4), row("A", 5)],
            },
            RefBatch { table: RefTable::VhfNavaids, extra: ExtraColumn::Nothing, rows: vec![row("A", 6)] },
        ]
    };
    let scoped = RefTableMatcher::create_ref_table_matcher_from_db(RefLoad::Scoped, &batches());
    let parallel = RefTableMatcher::create_ref_table_matcher_from_db(RefLoad::Parallel, &batches());
    let request = |identifier, is_airport| RefMatchRequest {
        identifier: Some(identifier),
        latitude: Some(1),
        longitude: Some(2),
        is_airport,
        airport_id: None,
    };
    assert_eq!(scoped.candidate_points(&request("A", false)).len(), 3);
    for (identifier, is_airport) in [("A", false), ("ZBAA", true), ("B", false)] {
        let asked = request(identifier, is_airport);
        let near = vec![false, true, true];
        assert_eq!(scoped.candidate_points(&asked), parallel.candidate_points(&asked));
        assert_eq!(scoped.match_request(&asked, &near), parallel.match_request(&asked, &near));
    }
    assert_eq!(scoped.candidate_points(&request("", false)).len(), 0);
    assert_eq!(parallel.candidate_points(&request("", false)).len(), 1);
}

#[test]
fn reference_queries_bind_what_is_required() {
    assert_eq!(ref_table_queries(None).len(), 10);
    let identifiers: Vec<String> = (0..1000).map(|i| format!("F{i}")).collect();
    let queries = ref_table_queries(Some(&identifiers));
    assert_eq!(queries.len(), 18);
    assert_eq!(queries[0].parameters.len(), 999);
    assert!(ref_table_queries(Some(&Vec::new())).is_empty());
}
