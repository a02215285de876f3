use navdata::enroute::gs::{
    build_gs_rows, classify_ils_category, parse_gs_rows, parse_localizers, process_ils_gs_to_db,
    GsMeasure,
};
use navdata::enroute::ndbs::{self, process_ndbs_to_db};
use navdata::enroute::vhfs::{build_vhf_rows, fetch_existing_queries, process_vhfs_to_db, NavaidNames};
use navdata::keyed::RowSet;
use navdata::names::{choose_spelling, spell_char, to_upper_pinyin};
use navdata::parsers::{parse_ndb_nav_lines, parse_vhf_nav_lines};
use navdata::records::list_keys;
use navdata::regions::Dataset;
use navdata::tables::TableError;

fn lines(items: &[&str]) -> Vec<String> {
    items.iter().map(|item| item.to_string()).collect()
}

#[test]
fn converts_vhf_names_to_upper_pinyin_without_python() {
    assert_eq!(to_upper_pinyin("广州"), "GUANGZHOU");
    assert_eq!(to_upper_pinyin("vor"), "VOR");
    assert_eq!(to_upper_pinyin("VOR 广州 112.3"), "VORGUANGZHOU112.3");
}

#[test]
fn characters_are_spelled_by_what_is_known_of_them() {
    assert_eq!(choose_spelling('x', Some("lu".to_string()), "X".to_string()), "lu");
    assert_eq!(choose_spelling('x', None, "X".to_string()), "X");
    assert_eq!(choose_spelling(' ', None, "X".to_string()), "");
    assert_eq!(spell_char('北'), "bei");
    assert_eq!(spell_char('a'), "A");
    assert_eq!(spell_char(' '), "");
}

#[test]
fn navaid_names_come_from_the_record_else_the_tables_else_the_identifier() {
    let mut names = NavaidNames::new();
    names
        .load_navaid_mapping_from_csv(b"CODE_ID,TXT_NAME\nAAA,abc\nAAA,xyz\nBBB,\n")
        .ok()
        .unwrap();
    assert_eq!(names.get("AAA").as_deref(), Some("XYZ"));
    assert_eq!(names.get("BBB"), None);
    match names.load_navaid_mapping_from_csv(b"OTHER\n1\n") {
        Err(TableError::MissingColumn(column)) => assert_eq!(column, "CODE_ID"),
        _ => panic!("the column is missing"),
    }
}

#[test]
fn navaid_tables_are_read_in_their_own_encoding() {
    // The name is two characters in GB18030.
    let mut names = NavaidNames::new();
    let mut bytes = b"CODE_ID,TXT_NAME\nAAA,".to_vec();
    bytes.extend_from_slice(&[0xB9, 0xE3, 0xD6, 0xDD, b'\n']);
    names.load_navaid_mapping_from_csv(&bytes).ok().unwrap();
    assert_eq!(names.get("AAA").as_deref(), Some("GUANGZHOU"));
}

#[test]
fn vhf_rows_are_laid_out_with_their_declination() {
    let rows = || {
        parse_vhf_nav_lines(&lines(&[
            "3 31.0 121.0 10 11320 50 X VOR1 ENRT ZS NAME VOR/DME",
            "12 32.0 122.0 20 11330 40 X DME1 ZSPD VH NAME2 DME-ILS",
        ]))
    };
    let fresh = process_vhfs_to_db(rows(), &RowSet::new());
    let written = build_vhf_rows(&fresh, &vec![-5, 7], &NavaidNames::new());
    assert_eq!(written[0].station_declination, Some(-5));
    assert_eq!(written[0].dme_ident, None);
    assert_eq!(written[0].area_code, "EEU");
    assert_eq!(written[0].id, "ZSVOR1");
    assert_eq!(written[0].airport_identifier, None);
    assert_eq!(written[0].navaid_name, "NAME");
    assert_eq!(written[1].station_declination, None);
    assert_eq!(written[1].dme_ident.as_deref(), Some("DME1"));
    assert_eq!(written[1].area_code, "PAC");
    assert_eq!(written[1].navaid_frequency, "113.30");
    assert!(process_vhfs_to_db(rows(), &list_keys(&rows())).is_empty());
    assert_eq!(fetch_existing_queries(&rows())[0].parameters.len(), 4);
}

#[test]
fn records_of_other_kinds_are_no_navaids() {
    assert!(parse_vhf_nav_lines(&lines(&["3 31.0 121.0 10 113 50 X V ENRT ZS N VOR/DME"])).is_empty());
    assert!(parse_vhf_nav_lines(&lines(&["3 31.0 121.0 10 11320 50 X V ENRT KJ N VOR/DME"])).is_empty());
    assert!(parse_vhf_nav_lines(&lines(&["2 31.0 121.0 10 11320 50 X V ENRT ZS N VOR/DME"])).is_empty());
    assert!(parse_ndb_nav_lines(&lines(&["2 30.0 120.0 0 375 25 X N ZSPD ZS NAME NDB"])).is_empty());
    assert!(parse_ndb_nav_lines(&lines(&["2 bad 120.0 0 375 25 X N ENRT ZS NAME NDB"])).is_empty());
    let both = lines(&["2 30.0 120.0 0 375 25 X N ENRT ZS NAME NDB"]);
    assert_eq!(parse_ndb_nav_lines(&both).len() + parse_vhf_nav_lines(&both).len(), 1);
}

#[test]
fn beacons_are_written_once() {
    let rows = || parse_ndb_nav_lines(&lines(&["2 30.0 120.0 0 375 25 X NDB1 ENRT VH NAME NDB"]));
    let fresh = process_ndbs_to_db(Dataset::Pmdg, rows(), &RowSet::new());
    assert_eq!(fresh[0].area_code, "PAC");
    assert_eq!(fresh[0].navaid_class, "H W");
    assert_eq!(fresh[0].id, "VHNDB1");
    assert_eq!(
        process_ndbs_to_db(Dataset::IniBuilds, rows(), &RowSet::new())[0].area_code,
        "EEU"
    );
    assert!(process_ndbs_to_db(Dataset::Pmdg, rows(), &list_keys(&rows())).is_empty());
    assert_eq!(
        ndbs::build_insert_sql(Dataset::IniBuilds, &lines(&["a"])),
        "INSERT INTO tbl_db_enroute_ndbnavaids (a) VALUES (?)"
    );
}

#[test]
fn categories_are_read_whatever_the_case() {
    assert_eq!(classify_ils_category("ILS-cat-i"), 1);
    assert_eq!(classify_ils_category("ILS-CAT-II"), 2);
    assert_eq!(classify_ils_category("ILS-Cat-III"), 3);
    assert_eq!(classify_ils_category("LOC III"), 1);
}

#[test]
fn glide_slopes_are_joined_with_their_localizers() {
    let content = || {
        lines(&[
            "4 31.0 121.0 10 11030 18 69.000 ILS1 ZSPD ZS 17L ILS-cat-II",
            "4 31.5 121.5 10 11030 18 69.000 ILS1 ZSPD ZS 17L ILS-cat-III",
            "6 32.0 122.0 15 11030 10 300168.5 ILS1 ZSPD ZS 17L GS",
            "6 32.0 122.0 15 11030 10 300168.5 ILS2 ZSPD ZS 17R GS",
            "6 32.0 122.0 bad 11030 10 300168.5 ILS1 ZSPD ZS 17L GS",
            "6 32.0 122.0 15 11030 10 300 ILS1 ZSPD ZS 17L GS",
        ])
    };
    assert_eq!(parse_localizers(&content()).len(), 2);
    let rows = parse_gs_rows(&content());
    assert_eq!(rows.len(), 1);
    assert_eq!(rows[0].angle, "300");
    assert_eq!(rows[0].true_bearing, "168.5");
    assert_eq!(rows[0].llz_latitude, "31.5");
    assert_eq!(rows[0].category, 3);
    assert_eq!(rows[0].llz_frequency, "110.30");
    assert_eq!(rows[0].runway_identifier, "RW17L");
    let measure = GsMeasure { angle: 1, bearing: 2, declination: 3 };
    let written = build_gs_rows(&rows, &vec![measure]);
    assert_eq!(written[0].ils_mls_gls_category, "3");
    assert_eq!(written[0].llz_width, 3.0_f64.to_bits());
    assert_eq!(written[0].id, "ZSPDZSILS1");
    assert_eq!(written[0].station_declination, 3);
    let keys = list_keys(&rows);
    assert!(process_ils_gs_to_db(rows, &keys).is_empty());
}
