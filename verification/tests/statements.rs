use navdata::db::{
    build_insert_sql, chunk_texts, cut_runs, ensure_nav_id_indexes, join_quoted_sqlite_identifiers,
    list_row_queries, list_text_queries, optimize_native, quote_sqlite_identifier, repeat_text,
    restore_database_pragmas_sqlite, restore_defaults_native, triple_query_batch_size, IndexGroups,
};
use navdata::decode::decode_latin1;
use navdata::double::{is_equal, is_less, is_nan, is_zero};
use navdata::keyed::{KeyedLists, RowSet, TextSet};
use navdata::numeric::{
    is_float_literal, parse_signed, parse_unsigned, write_decimal, write_signed_decimal,
};
use navdata::sorting::{is_text_less, sort_texts, stable_order, SortKey};
use navdata::text::{
    contains_text, ends_with, fits_in_bytes, slice_bytes, split_lines, split_text_lines,
    starts_with, trimmed, Blank,
};
use rusqlite::Connection;

fn texts(items: &[&str]) -> Vec<String> {
    items.iter().map(|item| item.to_string()).collect()
}

#[test]
fn quotes_sqlite_identifier_and_escapes_inner_quotes() {
    assert_eq!(quote_sqlite_identifier("simple_name"), "\"simple_name\"");
    assert_eq!(quote_sqlite_identifier("bad\"name"), "\"bad\"\"name\"");
}

#[test]
fn quoted_identifiers_are_read_back_by_the_database() {
    let conn = Connection::open_in_memory().unwrap();
    for name in ["plain", "a\"b", "\"", "a\"\"b", "ü"] {
        let sql = format!("SELECT 1 AS {}", quote_sqlite_identifier(name));
        let stmt = conn.prepare(&sql).unwrap();
        assert_eq!(stmt.column_name(0).unwrap(), name);
    }
}

#[test]
fn statements_name_columns_and_variables() {
    assert_eq!(
        build_insert_sql("t", &texts(&["a", "b\"c"])),
        "INSERT OR IGNORE INTO \"t\" (\"a\", \"b\"\"c\") VALUES (?, ?)"
    );
    assert_eq!(join_quoted_sqlite_identifiers(&texts(&["a", "b"])), "\"a\", \"b\"");
    assert_eq!(repeat_text("?", ",", 3), "?,?,?");
    assert_eq!(repeat_text("?", ",", 0), "");
    assert_eq!(triple_query_batch_size(500), 333);
    assert_eq!(triple_query_batch_size(0), 1);
}

#[test]
fn runs_hold_every_item_in_order() {
    let items = texts(&["a", "b", "c", "d", "e"]);
    let runs = chunk_texts(&items, 2);
    assert_eq!(runs.len(), 3);
    assert_eq!(runs.concat(), items);
    assert_eq!(cut_runs(vec![1, 2, 3], 3), vec![vec![1, 2, 3]]);
    let queries = list_text_queries("IN (", ")", &items, 4);
    assert_eq!(queries[0].sql, "IN (?,?,?,?)");
    assert_eq!(queries[1].sql, "IN (?)");
    assert_eq!(queries[1].parameters, texts(&["e"]));
    let rows = vec![texts(&["a", "b"]), texts(&["c", "d"])];
    let queries = list_row_queries("IN (", "(?,?)", &rows, 9);
    assert_eq!(queries[0].sql, "IN ((?,?),(?,?))");
    assert_eq!(queries[0].parameters, texts(&["a", "b", "c", "d"]));
}

#[test]
fn settings_of_the_database_are_made_and_undone() {
    let conn = Connection::open_in_memory().unwrap();
    for sql in optimize_native().iter().chain(&restore_defaults_native()).chain(&restore_database_pragmas_sqlite()) {
        conn.execute_batch(sql).unwrap();
    }
    assert_eq!(ensure_nav_id_indexes().len(), 6);
}

#[test]
fn index_groups_are_recorded_by_database() {
    let mut groups = IndexGroups::new();
    assert!(!groups.is_created("a.db", "nav"));
    groups.record("a.db", "nav");
    assert!(groups.is_created("a.db", "nav"));
    assert!(!groups.is_created("b.db", "nav"));
    assert!(!groups.is_created("a.db", "other"));
}

#[test]
fn sets_keep_the_first_of_equal_items() {
    let mut set = TextSet::from_texts(&texts(&["b", "a", "b"]));
    assert_eq!(set.items(), &texts(&["b", "a"]));
    assert!(!set.insert("a"));
    assert!(set.insert("c"));
    assert_eq!(set.len(), 3);
    let mut rows = RowSet::new();
    assert!(rows.insert(texts(&["a", "bc"])));
    assert!(rows.insert(texts(&["ab", "c"])));
    assert!(!rows.insert(texts(&["ab", "c"])));
    assert_eq!(rows.find(&texts(&["ab", "c"])), Some(1));
    assert!(!rows.contains(&texts(&["abc"])));
    let mut lists: KeyedLists<u8> = KeyedLists::new();
    lists.push("k", 1);
    lists.push("k", 2);
    assert_eq!(lists.get("k"), Some(&vec![1, 2]));
    assert_eq!(lists.get("l"), None);
}

#[test]
fn numbers_are_read_back_from_their_digits() {
    for n in [0, 7, 10, 999, u64::MAX] {
        assert_eq!(write_decimal(n), n.to_string());
        assert_eq!(parse_unsigned(&write_decimal(n)), Some(n));
    }
    assert_eq!(write_signed_decimal(i64::MIN), i64::MIN.to_string());
    assert_eq!(parse_signed("-9223372036854775808"), Some(i64::MIN));
    assert_eq!(parse_signed("9223372036854775808"), None);
    assert_eq!(parse_unsigned("+5"), Some(5));
    assert_eq!(parse_unsigned("18446744073709551616"), None);
    assert_eq!(parse_unsigned(""), None);
}

#[test]
fn float_literals_are_those_that_parse() {
    for literal in [
        "1", "1.", ".5", "-1.5e3", "+0", "1E-7", "inf", "-Infinity", "NaN", "1e400", "", ".", "-",
        "1e", "e5", "0x1", " 1", "1 ", "1_0", "infin", "1.2.3", "１", "--1", "1e+5", "1e+",
    ] {
        assert_eq!(is_float_literal(literal), literal.parse::<f64>().is_ok(), "{literal}");
    }
}

#[test]
fn doubles_are_compared_by_their_bits() {
    let values = [0.0, -0.0, 1.0, -1.0, f64::INFINITY, f64::NEG_INFINITY, f64::NAN, 1e-310, 2.5];
    for a in values {
        assert_eq!(is_nan(a.to_bits()), a.is_nan());
        assert_eq!(is_zero(a.to_bits()), a == 0.0);
        for b in values {
            assert_eq!(is_equal(a.to_bits(), b.to_bits()), a == b);
            assert_eq!(is_less(a.to_bits(), b.to_bits()), a < b);
        }
    }
}

#[test]
fn texts_are_sorted_like_strings() {
    let mut items = texts(&["b", "", "ab", "a", "ü", "b", "B"]);
    let sorted = sort_texts(&items);
    for a in &items {
        for b in &items {
            assert_eq!(is_text_less(a, b), a < b);
        }
    }
    items.sort();
    assert_eq!(sorted, items);
    let key = |name: &str, number: i64| SortKey { name: name.to_string(), number };
    assert_eq!(
        stable_order(&vec![key("b", 1), key("a", 2), key("a", 1), key("b", 1)]),
        vec![2, 1, 0, 3]
    );
}

#[test]
fn texts_are_cut_like_strings() {
    let s = "aü北b";
    assert_eq!(slice_bytes(s, 1, 3).as_deref(), s.get(1..3));
    assert_eq!(slice_bytes(s, 2, 3).as_deref(), s.get(2..3));
    assert_eq!(slice_bytes(s, 3, 7).as_deref(), s.get(3..7));
    assert_eq!(slice_bytes(s, 3, 9).as_deref(), s.get(3..9));
    assert!(starts_with(s, "aü") && !starts_with(s, "ü"));
    assert!(ends_with(s, "北b") && !ends_with(s, "北"));
    assert!(contains_text(s, "ü北") && !contains_text(s, "ab"));
    assert!(fits_in_bytes(s, 7) && !fits_in_bytes(s, 6));
    for text in ["", "a", "a\n", "a\r\nb", "a\n\nb\r\n", "\r", "a\rb"] {
        let expected: Vec<String> = text.lines().map(str::to_string).collect();
        assert_eq!(split_text_lines(text), expected);
    }
    assert_eq!(split_lines("a\nb").len(), 2);
    assert_eq!(trimmed(Blank::Unicode, "\u{3000} a \t"), "a");
}

#[test]
fn latin1_bytes_are_code_points() {
    assert_eq!(decode_latin1(&[0x41, 0xe9, 0x80]), "A\u{e9}\u{80}");
}
