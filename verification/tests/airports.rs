use navdata::airports::airports::{
    build_airport_insert_rows, choose_names, insert_zlyx, needs_zlyx, parse_airport_csv, parse_dms,
    parse_dms_list, parse_names, process_airports_to_db, special_phrase_pinyin, split_name,
    to_upper_pinyin, AirportMeasure,
};
use navdata::airports::runways::{
    get_llz_info, make_runway_insert, missing_samples, parse_first_csv, parse_magvar_csv,
    parse_second_csv, process_runways_to_db, supplementary_query, surface_code_from_num_surface,
    NoAirportData, RunwayMeasure, RunwaySources, StoredIls, StoredPoint, StoredRunway,
};
use navdata::keyed::RowSet;
use navdata::records::list_keys;
use navdata::tables::TableError;

fn texts(items: &[&str]) -> Vec<String> {
    items.iter().map(|item| item.to_string()).collect()
}

#[test]
fn converts_chinese_ascii_and_mixed_names_to_upper_pinyin() {
    assert_eq!(to_upper_pinyin("北京"), "BEIJING");
    assert_eq!(to_upper_pinyin("abc-123"), "ABC-123");
    assert_eq!(to_upper_pinyin("北京 T3"), "BEIJINGT3");
    assert_eq!(to_upper_pinyin("吕梁"), "LÜLIANG");
    assert_eq!(to_upper_pinyin("女"), "NÜ");
}

#[test]
fn parses_airport_names_like_legacy_python_logic() {
    assert_eq!(
        parse_names(Some("北京/机场")),
        ("BEIJING".to_string(), "JICHANG".to_string())
    );
    assert_eq!(
        parse_names(Some("上海虹桥")),
        (
            "SHANGHAIHONGQIAO".to_string(),
            "SHANGHAIHONGQIAO".to_string()
        )
    );
    assert_eq!(
        parse_names(Some("重庆/仙女山")),
        ("CHONGQING".to_string(), "XIANNÜSHAN".to_string())
    );
    assert_eq!(
        parse_names(Some(" ")),
        ("UNKNOWN".to_string(), "UNKNOWN".to_string())
    );
}

#[test]
fn matches_phrase_level_overrides_for_airport_dataset() {
    assert_eq!(to_upper_pinyin("三女河"), "SANNÜHE");
    assert_eq!(to_upper_pinyin("重庆"), "CHONGQING");
    assert_eq!(to_upper_pinyin("龟兹"), "QIUCI");
    assert_eq!(to_upper_pinyin("长安"), "CHANGAN");
    assert_eq!(to_upper_pinyin("长白山"), "CHANGBAISHAN");
    assert_eq!(to_upper_pinyin("朝阳"), "CHAOYANG");
}

#[test]
fn names_without_parts_are_unknown() {
    assert_eq!(parse_names(None), ("UNKNOWN".to_string(), "UNKNOWN".to_string()));
    assert_eq!(split_name("a/ b "), texts(&["a", "b"]));
    assert_eq!(choose_names(&texts(&["A"])), ("A".to_string(), "A".to_string()));
    assert_eq!(special_phrase_pinyin(" 吕梁 "), Some("LÜLIANG"));
    assert_eq!(special_phrase_pinyin("北京"), None);
}

#[test]
fn angles_have_a_direction_degrees_minutes_and_seconds() {
    let angle = parse_dms("N400430.5").unwrap();
    assert!(!angle.negative);
    assert_eq!((angle.degrees.as_str(), angle.minutes.as_str(), angle.seconds.as_str()), ("40", "04", "30.5"));
    let angle = parse_dms("W1163512").unwrap();
    assert!(angle.negative);
    assert_eq!((angle.degrees.as_str(), angle.minutes.as_str(), angle.seconds.as_str()), ("116", "35", "12"));
    assert!(parse_dms("N4004").is_none());
    assert!(parse_dms("X400430").is_none());
    assert!(parse_dms("N4x0430").is_none());
    let list = parse_dms_list(&vec![None, Some("S100000".to_string())]);
    assert!(list[0].is_none());
    assert!(list[1].is_some());
}

fn measure() -> AirportMeasure {
    AirportMeasure {
        latitude: 1,
        longitude: 2,
        variation: 3,
        elevation: Some(116),
        transition_altitude: None,
        transition_level: Some(11800),
    }
}

#[test]
fn airports_are_read_and_laid_out() {
    let mut bytes = b"CODE_ID,TXT_NAME,CODE_IATA,GEO_LAT_ACCURACY,GEO_LONG_ACCURACY,VAL_ELEV\nZBAA,".to_vec();
    bytes.extend_from_slice(&[0xB1, 0xB1, 0xBE, 0xA9]);
    bytes.extend_from_slice(b",PEK,N400430,E1163512,35.3\nZBAB,,,bad,E1163512,\n");
    let rows = parse_airport_csv(&bytes).ok().unwrap();
    assert_eq!(rows.len(), 1);
    assert_eq!(rows[0].txt_name.as_deref(), Some("北京"));
    assert_eq!(rows[0].val_elev.as_deref(), Some("35.3"));
    assert_eq!(rows[0].val_transition_alt, None);
    let written = build_airport_insert_rows(&rows, &vec![measure()]);
    assert_eq!(written[0].airport_name, "BEIJING");
    assert_eq!(written[0].city, "BEIJING");
    assert_eq!(written[0].icao_code, "ZB");
    assert_eq!(written[0].ata_iata_code.as_deref(), Some("PEK"));
    assert_eq!(written[0].magnetic_variation, 3);
    assert_eq!(written[0].speed_limit_altitude, 10000);
    let keys = list_keys(&written);
    let fresh = process_airports_to_db(written, &RowSet::new());
    assert_eq!(fresh.len(), 1);
    assert!(process_airports_to_db(fresh, &keys).is_empty());
}

#[test]
fn airport_tables_name_the_column_that_they_lack() {
    let missing = |header: &[u8]| match parse_airport_csv(header) {
        Err(TableError::MissingColumn(name)) => name,
        _ => panic!("a column is missing"),
    };
    assert_eq!(missing(b"A\n"), "CODE_ID");
    assert_eq!(missing(b"CODE_ID\n"), "GEO_LAT_ACCURACY");
    assert_eq!(missing(b"CODE_ID,GEO_LAT_ACCURACY\n"), "GEO_LONG_ACCURACY");
}

#[test]
fn one_airport_is_taken_from_the_master_data() {
    let mut existing = RowSet::new();
    assert!(needs_zlyx(&existing));
    existing.insert(texts(&["ZLYX"]));
    assert!(!needs_zlyx(&existing));
    let row = insert_zlyx("ZLYX", None, "NAME", measure());
    assert_eq!(row.ata_iata_code.as_deref(), Some(""));
    assert_eq!(row.city, "NAME");
    assert_eq!(row.transition_altitude, Some(0));
    assert_eq!(row.transition_level, Some(11800));
}

fn sources() -> RunwaySources {
    RunwaySources {
        second: parse_second_csv(
            b"RWY_ID,CODE_AIRPORT,VAL_LEN,VAL_WID,NUM_SURFACE\n1,ZZZZ,3000,45,100\n2,ZBAA,3000,45,\n3,ZZZZ,,45,\n",
        )
        .ok()
        .unwrap(),
        magvars: parse_magvar_csv(b"CODE_ID,VAL_MAG_VAR\nZZZZ,5.5\n").ok().unwrap(),
        points: vec![StoredPoint {
            icao: "ZZZZ".to_string(),
            ident: "01".to_string(),
            latitude: Some(10),
            longitude: Some(20),
        }],
        ils: vec![StoredIls {
            icao: "ZZZZ".to_string(),
            runway: "01".to_string(),
            ident: Some("IZZ".to_string()),
        }],
    }
}

#[test]
fn runways_need_a_size_a_position_and_a_bearing() {
    let first = parse_first_csv(
        b"RWY_ID,TXT_DESIG,VAL_TRUE_BRG,VAL_ELEV,VAL_THR_DISPLACE\n1,01,12.5,30,\n1,19,192.5,,\n2,01,12,,\n3,01,12,,\n",
    )
    .ok()
    .unwrap();
    let stored = |icao: &str| StoredRunway {
        icao: icao.to_string(),
        ident: "01".to_string(),
        latitude: Some(1),
        longitude: Some(2),
        length: Some(3),
        width: Some(4),
        true_bearing: Some(5),
        magnetic_bearing: Some(6),
        elevation: Some(7),
    };
    let plan = process_runways_to_db(
        &first,
        &sources(),
        &vec![stored("ZZZZ"), stored("ZLYX")],
        RowSet::new(),
    )
    .unwrap();
    assert_eq!(plan.primary.len(), 1);
    let runway = &plan.primary[0];
    assert_eq!(runway.runway_identifier, "RW01");
    assert_eq!(runway.true_bearing, "12.5");
    assert_eq!(runway.mag_var.as_deref(), Some("5.5"));
    assert_eq!(runway.llz.as_deref(), Some("IZZ"));
    assert_eq!(runway.point.longitude, 20);
    assert_eq!(plan.missing, texts(&["Missing coordinates for ZZZZ RW19"]));
    assert_eq!(plan.supplementary.len(), 1);
    assert_eq!(plan.supplementary[0].airport, "ZLYX");
    let mut known = RowSet::new();
    known.insert(texts(&["ZZZZ", "RW01"]));
    known.insert(texts(&["ZLYX", "RW01"]));
    let plan =
        process_runways_to_db(&first, &sources(), &vec![stored("ZLYX")], known).unwrap();
    assert!(plan.primary.is_empty());
    assert!(plan.supplementary.is_empty());
}

#[test]
fn runways_cannot_be_placed_without_master_data() {
    let mut sources = sources();
    sources.points = Vec::new();
    let outcome = process_runways_to_db(&Vec::new(), &sources, &Vec::new(), RowSet::new());
    assert_eq!(outcome.err(), Some(NoAirportData));
    assert_eq!(get_llz_info(&sources.ils, "ZZZZ", "19"), None);
    assert_eq!(missing_samples(&texts(&["a", "b", "c", "d", "e", "f"])).len(), 5);
    assert_eq!(supplementary_query().parameters.len(), 5);
}

#[test]
fn runway_tables_name_the_column_that_they_lack() {
    assert!(matches!(parse_first_csv(b"RWY_ID\n"), Err(TableError::MissingColumn(name)) if name == "TXT_DESIG"));
    assert!(matches!(parse_second_csv(b"RWY_ID\n"), Err(TableError::MissingColumn(name)) if name == "CODE_AIRPORT"));
    assert!(matches!(parse_magvar_csv(b"X\n"), Err(TableError::MissingColumn(name)) if name == "CODE_ID"));
}

#[test]
fn runways_are_laid_out() {
    assert_eq!(surface_code_from_num_surface(Some(100)), "ASPH");
    assert_eq!(surface_code_from_num_surface(Some(19)), "UNPV");
    assert_eq!(surface_code_from_num_surface(Some(5)), "GRVL");
    assert_eq!(surface_code_from_num_surface(Some(7)), "UNKNOWN");
    assert_eq!(surface_code_from_num_surface(None), "CONC");
    let measure = RunwayMeasure {
        latitude: 1,
        longitude: 2,
        true_bearing: 3,
        magnetic_bearing: 4,
        elevation: 5,
        displaced: 6,
        length: 7,
        width: 8,
        surface: Some(103),
    };
    let row = make_runway_insert("VHHH", "RW07", &None, measure);
    assert_eq!(row.area_code, "PAC");
    assert_eq!(row.icao_code, "VH");
    assert_eq!(row.llz_mls_gls_category, None);
    assert_eq!(row.surface_code, "CONC");
    assert_eq!(row.id, "VHHHVHRW07");
    assert_eq!(row.threshold_crossing_height, 50);
    let row = make_runway_insert("Z", "RW07", &Some("I".to_string()), measure);
    assert_eq!(row.icao_code, "UN");
    assert_eq!(row.llz_mls_gls_category, Some(1));
}
