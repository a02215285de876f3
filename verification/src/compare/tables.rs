//! Which tables and columns are compared how, and the queries for it.

use crate::db;
use crate::keyed;
use crate::keyed::TextSet;
use crate::numeric;
use crate::sorting;
use crate::text;
use crate::text::Blank;
use vstd::prelude::*;

verus! {

/// An identifier in quotation marks.
pub fn quote_ident(name: &str) -> (r: String)
    ensures
        r@ == db::quoted_identifier(name@),
{
    db::quote_sqlite_identifier(name)
}

/// A table with its schema before it.
pub open spec fn qualified_table(schema: Seq<char>, table: Seq<char>) -> Seq<char> {
    schema + "."@ + db::quoted_identifier(table)
}

/// A table with its schema before it.
pub fn fq_table(schema: &str, table: &str) -> (r: String)
    ensures
        r@ == qualified_table(schema@, table@),
{
    let mut r: String = text::copy(schema);
    r.append(".");
    let name: String = quote_ident(table);
    r.append(name.as_str());
    r
}

/// The part of a table's name behind the common start.
pub open spec fn table_body(name: Seq<char>) -> Option<Seq<char>> {
    if "tbl_"@.is_prefix_of(name) {
        Some(name.skip("tbl_"@.len() as int))
    } else {
        None
    }
}

fn find_table_body(name: &str) -> (r: Option<String>)
    ensures
        text::opt(r) == table_body(name@),
{
    let cs: Vec<char> = text::chars_of(name);
    if !text::has_prefix(&cs, "tbl_") {
        return None;
    }
    proof {
        reveal_strlit("tbl_");
    }
    assert(cs@.subrange(4, cs@.len() as int) =~= cs@.skip(4));
    Some(text::text_of(&cs, 4, cs.len()))
}

/// Whether a table goes by a canonical name: it is that name, or has up to two bytes and an
/// underscore more behind the common start.
pub open spec fn names_table(table: Seq<char>, canonical: Seq<char>) -> bool {
    ||| table == canonical
    ||| match (table_body(table), table_body(canonical)) {
        (Some(name), Some(body)) => {
            let at = text::index_of(name, '_');
            at < name.len() && text::byte_len(name.take(at)) <= 2 && name.skip(at + 1) == body
        },
        _ => false,
    }
}

/// Tests whether a table goes by a canonical name.
pub fn table_name_matches(table_name: &str, canonical_name: &str) -> (r: bool)
    ensures
        r == names_table(table_name@, canonical_name@),
{
    if text::same(table_name, canonical_name) {
        return true;
    }
    match (find_table_body(table_name), find_table_body(canonical_name)) {
        (Some(name), Some(body)) => {
            let cs: Vec<char> = text::chars_of(name.as_str());
            let at: usize = text::find_char(&cs, 0, '_');
            assert(cs@.skip(0) == cs@);
            if at >= cs.len() {
                return false;
            }
            let prefix: String = text::text_of(&cs, 0, at);
            let rest: String = text::text_of(&cs, at + 1, cs.len());
            assert(prefix@ =~= name@.take(at as int));
            assert(rest@ =~= name@.skip(at + 1));
            text::fits_in_bytes(prefix.as_str(), 2) && text::same(rest.as_str(), body.as_str())
        },
        _ => false,
    }
}

/// The number of decimal places that a column is rounded to before it is compared.
pub open spec fn rounding_digits(table: Seq<char>, column: Seq<char>) -> Option<u32> {
    if names_table(table, "tbl_airports"@) {
        if column == "airport_ref_latitude"@ || column == "airport_ref_longitude"@ {
            Some(8)
        } else {
            None
        }
    } else if names_table(table, "tbl_enroute_ndbnavaids"@) {
        if column == "ndb_latitude"@ || column == "ndb_longitude"@ || column == "navaid_latitude"@ || column == "navaid_longitude"@ {
            Some(8)
        } else {
            None
        }
    } else if names_table(table, "tbl_vhfnavaids"@) {
        if column == "dme_latitude"@ || column == "dme_longitude"@ || column == "vor_latitude"@ || column == "vor_longitude"@ || column == "navaid_latitude"@ || column == "navaid_longitude"@ {
            Some(8)
        } else {
            None
        }
    } else if names_table(table, "tbl_enroute_waypoints"@) || names_table(table, "tbl_enroute_airways"@) || names_table(table, "tbl_terminal_waypoints"@) {
        if column == "waypoint_latitude"@ || column == "waypoint_longitude"@ {
            Some(8)
        } else {
            None
        }
    } else if names_table(table, "tbl_sids"@) || names_table(table, "tbl_stars"@) || names_table(table, "tbl_iaps"@) {
        if column == "center_waypoint_latitude"@ || column == "center_waypoint_longitude"@ || column == "recommended_navaid_latitude"@ || column == "recommended_navaid_longitude"@ || column == "recommanded_navaid_latitude"@ || column == "recommanded_navaid_longitude"@ || column == "waypoint_latitude"@ || column == "waypoint_longitude"@ {
            Some(8)
        } else {
            None
        }
    } else if names_table(table, "tbl_localizers_glideslopes"@) {
        if column == "gs_latitude"@ || column == "gs_longitude"@ || column == "llz_latitude"@ || column == "llz_longitude"@ {
            Some(8)
        } else {
            None
        }
    } else {
        None
    }
}

/// The number of decimal places that a column is rounded to before it is compared.
pub fn configured_normalization_digits(table: &str, column: &str) -> (r: Option<u32>)
    ensures
        r == rounding_digits(table@, column@),
{
    if table_name_matches(table, "tbl_airports") {
        if text::same(column, "airport_ref_latitude") || text::same(column, "airport_ref_longitude") {
            Some(8)
        } else {
            None
        }
    } else if table_name_matches(table, "tbl_enroute_ndbnavaids") {
        if text::same(column, "ndb_latitude") || text::same(column, "ndb_longitude") || text::same(column, "navaid_latitude") || text::same(column, "navaid_longitude") {
            Some(8)
        } else {
            None
        }
    } else if table_name_matches(table, "tbl_vhfnavaids") {
        if text::same(column, "dme_latitude") || text::same(column, "dme_longitude") || text::same(column, "vor_latitude") || text::same(column, "vor_longitude") || text::same(column, "navaid_latitude") || text::same(column, "navaid_longitude") {
            Some(8)
        } else {
            None
        }
    } else if table_name_matches(table, "tbl_enroute_waypoints") || table_name_matches(table, "tbl_enroute_airways") || table_name_matches(table, "tbl_terminal_waypoints") {
        if text::same(column, "waypoint_latitude") || text::same(column, "waypoint_longitude") {
            Some(8)
        } else {
            None
        }
    } else if table_name_matches(table, "tbl_sids") || table_name_matches(table, "tbl_stars") || table_name_matches(table, "tbl_iaps") {
        if text::same(column, "center_waypoint_latitude") || text::same(column, "center_waypoint_longitude") || text::same(column, "recommended_navaid_latitude") || text::same(column, "recommended_navaid_longitude") || text::same(column, "recommanded_navaid_latitude") || text::same(column, "recommanded_navaid_longitude") || text::same(column, "waypoint_latitude") || text::same(column, "waypoint_longitude") {
            Some(8)
        } else {
            None
        }
    } else if table_name_matches(table, "tbl_localizers_glideslopes") {
        if text::same(column, "gs_latitude") || text::same(column, "gs_longitude") || text::same(column, "llz_latitude") || text::same(column, "llz_longitude") {
            Some(8)
        } else {
            None
        }
    } else {
        None
    }
}

/// How far the values of a column may lie apart, in tenths.
pub open spec fn tolerance_tenths(table: Seq<char>, column: Seq<char>) -> Option<u32> {
    if names_table(table, "tbl_enroute_ndbnavaids"@) {
        if column == "magnetic_variation"@ {
            Some(5)
        } else {
            None
        }
    } else if names_table(table, "tbl_vhfnavaids"@) {
        if column == "magnetic_variation"@ || column == "station_declination"@ {
            Some(5)
        } else {
            None
        }
    } else if names_table(table, "tbl_enroute_waypoints"@) || names_table(table, "tbl_terminal_waypoints"@) {
        if column == "magnetic_variation"@ {
            Some(5)
        } else {
            None
        }
    } else if names_table(table, "tbl_enroute_airways"@) {
        if column == "inbound_course"@ || column == "outbound_course"@ {
            Some(10)
        } else {
            None
        }
    } else if names_table(table, "tbl_localizers_glideslopes"@) {
        if column == "llz_bearing"@ {
            Some(10)
        } else if column == "station_declination"@ {
            Some(5)
        } else {
            None
        }
    } else {
        None
    }
}

/// How far the values of a column may lie apart, in tenths.
pub fn configured_tolerance(table: &str, column: &str) -> (r: Option<u32>)
    ensures
        r == tolerance_tenths(table@, column@),
{
    if table_name_matches(table, "tbl_enroute_ndbnavaids") {
        if text::same(column, "magnetic_variation") {
            Some(5)
        } else {
            None
        }
    } else if table_name_matches(table, "tbl_vhfnavaids") {
        if text::same(column, "magnetic_variation") || text::same(column, "station_declination") {
            Some(5)
        } else {
            None
        }
    } else if table_name_matches(table, "tbl_enroute_waypoints") || table_name_matches(table, "tbl_terminal_waypoints") {
        if text::same(column, "magnetic_variation") {
            Some(5)
        } else {
            None
        }
    } else if table_name_matches(table, "tbl_enroute_airways") {
        if text::same(column, "inbound_course") || text::same(column, "outbound_course") {
            Some(10)
        } else {
            None
        }
    } else if table_name_matches(table, "tbl_localizers_glideslopes") {
        if text::same(column, "llz_bearing") {
            Some(10)
        } else if text::same(column, "station_declination") {
            Some(5)
        } else {
            None
        }
    } else {
        None
    }
}

/// A column of a table.
#[derive(Debug)]
#[verifier::ext_equal]
pub struct ColumnInfo<T = String> {
    pub name: T,
    pub data_type: T,
    pub not_null: bool,
    pub default_value: Option<T>,
    pub primary_key_index: i64,
}

impl View for ColumnInfo {
    type V = ColumnInfo<Seq<char>>;

    open spec fn view(&self) -> Self::V {
        ColumnInfo {
            name: self.name@,
            data_type: self.data_type@,
            not_null: self.not_null,
            default_value: text::opt(self.default_value),
            primary_key_index: self.primary_key_index,
        }
    }
}

fn is_same_column(a: &ColumnInfo, b: &ColumnInfo) -> (r: bool)
    ensures
        r == (a@ == b@),
{
    let same_default: bool = match (&a.default_value, &b.default_value) {
        (Some(x), Some(y)) => text::same(x.as_str(), y.as_str()),
        (None, None) => true,
        _ => false,
    };
    text::same(a.name.as_str(), b.name.as_str()) && text::same(
        a.data_type.as_str(),
        b.data_type.as_str(),
    ) && a.not_null == b.not_null && same_default && a.primary_key_index == b.primary_key_index
}

/// Tests whether two tables have the same columns.
pub fn has_same_columns(a: &Vec<ColumnInfo>, b: &Vec<ColumnInfo>) -> (r: bool)
    ensures
        r == (text::views(a@) == text::views(b@)),
{
    if a.len() != b.len() {
        assert(text::views(a@).len() != text::views(b@).len());
        return false;
    }
    for i in 0..a.len()
        invariant
            a@.len() == b@.len(),
            forall|k: int| 0 <= k < i ==> (#[trigger] a@[k])@ == b@[k]@,
    {
        if !is_same_column(&a[i], &b[i]) {
            assert(text::views(a@)[i as int] != text::views(b@)[i as int]);
            return false;
        }
    }
    assert(text::views(a@) =~= text::views(b@));
    true
}

/// A column that may differ, with its tolerance in tenths.
#[derive(Clone, Copy, PartialEq, Eq, Debug, Structural)]
pub struct TolerantColumn {
    pub index: usize,
    pub tenths: u32,
}

/// The choice of the columns that may differ.
pub open spec fn tolerance_chooser(table: Seq<char>) -> spec_fn(
    int,
    ColumnInfo<Seq<char>>,
) -> Option<TolerantColumn> {
    |i: int, column: ColumnInfo<Seq<char>>|
        match tolerance_tenths(table, column.name) {
            Some(tenths) => Some(TolerantColumn { index: i as usize, tenths }),
            None => None,
        }
}

/// The columns of a table that may differ.
pub fn comparison_tolerances(table: &str, columns: &Vec<ColumnInfo>) -> (out: Vec<TolerantColumn>)
    ensures
        out@ == text::collect(text::views(columns@), tolerance_chooser(table@)),
{
    let ghost all = text::views(columns@);
    let ghost f = tolerance_chooser(table@);
    let mut out: Vec<TolerantColumn> = Vec::new();
    assert(all.take(0).len() == 0);
    for i in 0..columns.len()
        invariant
            all == text::views(columns@),
            f == tolerance_chooser(table@),
            out@ == text::collect(all.take(i as int), f),
    {
        proof {
            text::lemma_collect_step(all, f, i as int);
            assert(all[i as int] == columns@[i as int]@);
        }
        match configured_tolerance(table, columns[i].name.as_str()) {
            Some(tenths) => {
                out.push(TolerantColumn { index: i, tenths });
            },
            None => {},
        }
    }
    assert(all.take(columns@.len() as int) == all);
    out
}

/// What rows are grouped by for a column: its value, rounded where that is asked for.
pub open spec fn group_expr(column: Seq<char>, digits: Option<u32>) -> Seq<char> {
    match digits {
        Some(places) => "ROUND(CAST("@ + db::quoted_identifier(column) + " AS REAL), "@
            + numeric::decimal(places as nat) + ")"@,
        None => db::quoted_identifier(column),
    }
}

/// Builds what rows are grouped by for a column.
pub fn normalized_group_expr(column_name: &str, digits: Option<u32>) -> (r: String)
    ensures
        r@ == group_expr(column_name@, digits),
{
    let quoted: String = quote_ident(column_name);
    match digits {
        Some(places) => {
            let mut r: String = text::copy("ROUND(CAST(");
            r.append(quoted.as_str());
            r.append(" AS REAL), ");
            let number: String = numeric::write_decimal(places as u64);
            r.append(number.as_str());
            r.append(")");
            r
        },
        None => quoted,
    }
}

/// What is selected for a column: its value, rounded where that is asked for, under its name.
pub open spec fn select_expr(column: Seq<char>, digits: Option<u32>) -> Seq<char> {
    match digits {
        Some(_) => group_expr(column, digits) + " AS "@ + db::quoted_identifier(column),
        None => db::quoted_identifier(column),
    }
}

/// Builds what is selected for a column.
pub fn normalized_select_expr(column_name: &str, digits: Option<u32>) -> (r: String)
    ensures
        r@ == select_expr(column_name@, digits),
{
    let quoted: String = quote_ident(column_name);
    match digits {
        Some(_) => {
            let mut r: String = normalized_group_expr(column_name, digits);
            r.append(" AS ");
            r.append(quoted.as_str());
            r
        },
        None => quoted,
    }
}

/// What is selected for the columns of a table.
pub open spec fn select_list(table: Seq<char>, columns: Seq<ColumnInfo<Seq<char>>>) -> Seq<char> {
    db::joined(
        columns.map_values(
            |column: ColumnInfo<Seq<char>>|
                select_expr(column.name, rounding_digits(table, column.name)),
        ),
        ", "@,
    )
}

/// What the rows of a table are grouped by.
pub open spec fn group_list(table: Seq<char>, columns: Seq<ColumnInfo<Seq<char>>>) -> Seq<char> {
    db::joined(
        columns.map_values(
            |column: ColumnInfo<Seq<char>>|
                group_expr(column.name, rounding_digits(table, column.name)),
        ),
        ", "@,
    )
}

/// Builds what is selected for the columns of a table, and what its rows are grouped by.
pub fn column_exprs(table: &str, columns: &Vec<ColumnInfo>) -> (r: (String, String))
    ensures
        r.0@ == select_list(table@, text::views(columns@)),
        r.1@ == group_list(table@, text::views(columns@)),
{
    let ghost all = text::views(columns@);
    let ghost selected = all.map_values(
        |column: ColumnInfo<Seq<char>>|
            select_expr(column.name, rounding_digits(table@, column.name)),
    );
    let ghost grouped = all.map_values(
        |column: ColumnInfo<Seq<char>>|
            group_expr(column.name, rounding_digits(table@, column.name)),
    );
    let mut select_exprs: Vec<String> = Vec::new();
    let mut group_exprs: Vec<String> = Vec::new();
    assert(text::views(select_exprs@) =~= selected.take(0));
    assert(text::views(group_exprs@) =~= grouped.take(0));
    for i in 0..columns.len()
        invariant
            all == text::views(columns@),
            selected == all.map_values(
                |column: ColumnInfo<Seq<char>>|
                    select_expr(column.name, rounding_digits(table@, column.name)),
            ),
            grouped == all.map_values(
                |column: ColumnInfo<Seq<char>>|
                    group_expr(column.name, rounding_digits(table@, column.name)),
            ),
            text::views(select_exprs@) == selected.take(i as int),
            text::views(group_exprs@) == grouped.take(i as int),
    {
        let name: &str = columns[i].name.as_str();
        let digits: Option<u32> = configured_normalization_digits(table, name);
        let select: String = normalized_select_expr(name, digits);
        let group: String = normalized_group_expr(name, digits);
        proof {
            assert(all[i as int] == columns@[i as int]@);
            text::lemma_views_push(select_exprs@, select);
            text::lemma_views_push(group_exprs@, group);
            assert(selected.take(i + 1) =~= selected.take(i as int).push(select@));
            assert(grouped.take(i + 1) =~= grouped.take(i as int).push(group@));
        }
        select_exprs.push(select);
        group_exprs.push(group);
    }
    assert(selected.take(columns@.len() as int) == selected);
    assert(grouped.take(columns@.len() as int) == grouped);
    (db::join_texts(&select_exprs, ", "), db::join_texts(&group_exprs, ", "))
}

/// The query for the names of the tables of a schema.
pub open spec fn names_query(schema: Seq<char>) -> Seq<char> {
    "SELECT name FROM "@ + schema
        + ".sqlite_master WHERE type='table' AND name NOT LIKE 'sqlite_%' ORDER BY name"@
}

/// Builds the query for the names of the tables of a schema.
pub fn fetch_table_names(schema: &str) -> (sql: String)
    ensures
        sql@ == names_query(schema@),
{
    let mut sql: String = text::copy("SELECT name FROM ");
    sql.append(schema);
    sql.append(".sqlite_master WHERE type='table' AND name NOT LIKE 'sqlite_%' ORDER BY name");
    sql
}

/// The query for the definition of a table, whose name is bound.
pub open spec fn definition_query(schema: Seq<char>) -> Seq<char> {
    "SELECT sql FROM "@ + schema + ".sqlite_master WHERE type='table' AND name=?1"@
}

/// Builds the query for the definition of a table.
pub fn fetch_create_sql(schema: &str) -> (sql: String)
    ensures
        sql@ == definition_query(schema@),
{
    let mut sql: String = text::copy("SELECT sql FROM ");
    sql.append(schema);
    sql.append(".sqlite_master WHERE type='table' AND name=?1");
    sql
}

/// The query for the columns of a table.
pub open spec fn columns_query(schema: Seq<char>, table: Seq<char>) -> Seq<char> {
    "PRAGMA "@ + schema + ".table_info("@ + db::quoted_identifier(table) + ")"@
}

/// Builds the query for the columns of a table.
pub fn fetch_columns(schema: &str, table: &str) -> (sql: String)
    ensures
        sql@ == columns_query(schema@, table@),
{
    let mut sql: String = text::copy("PRAGMA ");
    sql.append(schema);
    sql.append(".table_info(");
    let name: String = quote_ident(table);
    sql.append(name.as_str());
    sql.append(")");
    sql
}

/// The query for the number of rows of a table.
pub open spec fn count_query(schema: Seq<char>, table: Seq<char>) -> Seq<char> {
    "SELECT COUNT(*) FROM "@ + qualified_table(schema, table)
}

/// Builds the query for the number of rows of a table.
pub fn count_rows(schema: &str, table: &str) -> (sql: String)
    ensures
        sql@ == count_query(schema@, table@),
{
    let mut sql: String = text::copy("SELECT COUNT(*) FROM ");
    let name: String = fq_table(schema, table);
    sql.append(name.as_str());
    sql
}

/// The query for the rows of a table.
pub open spec fn rows_query(
    schema: Seq<char>,
    table: Seq<char>,
    columns: Seq<ColumnInfo<Seq<char>>>,
) -> Seq<char> {
    "SELECT "@ + select_list(table, columns) + " FROM "@ + qualified_table(schema, table)
}

/// Builds the query for the rows of a table.
pub fn fetch_rows_as_records(schema: &str, table: &str, columns: &Vec<ColumnInfo>) -> (sql: String)
    ensures
        sql@ == rows_query(schema@, table@, text::views(columns@)),
{
    let (select_exprs, _) = column_exprs(table, columns);
    let mut sql: String = text::copy("SELECT ");
    sql.append(select_exprs.as_str());
    sql.append(" FROM ");
    let name: String = fq_table(schema, table);
    sql.append(name.as_str());
    sql
}

/// One side of a grouped comparison: the distinct rows of a table with their numbers.
pub open spec fn grouped_side(
    schema: Seq<char>,
    table: Seq<char>,
    columns: Seq<ColumnInfo<Seq<char>>>,
) -> Seq<char> {
    "SELECT "@ + select_list(table, columns) + ", COUNT(*) AS \"__row_count__\" FROM "@
        + qualified_table(schema, table) + " GROUP BY "@ + group_list(table, columns)
}

fn make_grouped_side(schema: &str, table: &str, columns: &Vec<ColumnInfo>) -> (sql: String)
    ensures
        sql@ == grouped_side(schema@, table@, text::views(columns@)),
{
    let (select_exprs, group_exprs) = column_exprs(table, columns);
    let mut sql: String = text::copy("SELECT ");
    sql.append(select_exprs.as_str());
    sql.append(", COUNT(*) AS \"__row_count__\" FROM ");
    let name: String = fq_table(schema, table);
    sql.append(name.as_str());
    sql.append(" GROUP BY ");
    sql.append(group_exprs.as_str());
    sql
}

/// The distinct rows with their numbers that one schema has and the other has not.
pub open spec fn grouped_except(
    left: Seq<char>,
    right: Seq<char>,
    table: Seq<char>,
    columns: Seq<ColumnInfo<Seq<char>>>,
) -> Seq<char> {
    grouped_side(left, table, columns) + " EXCEPT "@ + grouped_side(right, table, columns)
}

fn make_grouped_except(left: &str, right: &str, table: &str, columns: &Vec<ColumnInfo>) -> (sql:
    String)
    ensures
        sql@ == grouped_except(left@, right@, table@, text::views(columns@)),
{
    let mut sql: String = make_grouped_side(left, table, columns);
    sql.append(" EXCEPT ");
    let other: String = make_grouped_side(right, table, columns);
    sql.append(other.as_str());
    sql
}

/// Builds the query for how many distinct rows one schema has and the other has not.
pub fn count_grouped_diff(
    left_schema: &str,
    right_schema: &str,
    table: &str,
    columns: &Vec<ColumnInfo>,
) -> (sql: String)
    ensures
        sql@ == "SELECT COUNT(*) FROM ("@ + grouped_except(
            left_schema@,
            right_schema@,
            table@,
            text::views(columns@),
        ) + ")"@,
{
    let mut sql: String = text::copy("SELECT COUNT(*) FROM (");
    let except: String = make_grouped_except(left_schema, right_schema, table, columns);
    sql.append(except.as_str());
    sql.append(")");
    sql
}

/// Builds the query for some of the distinct rows that one schema has and the other has not; how
/// many is bound.
pub fn sample_grouped_diff(
    left_schema: &str,
    right_schema: &str,
    table: &str,
    columns: &Vec<ColumnInfo>,
) -> (sql: String)
    ensures
        sql@ == "SELECT * FROM ("@ + grouped_except(
            left_schema@,
            right_schema@,
            table@,
            text::views(columns@),
        ) + ") LIMIT ?1"@,
{
    let mut sql: String = text::copy("SELECT * FROM (");
    let except: String = make_grouped_except(left_schema, right_schema, table, columns);
    sql.append(except.as_str());
    sql.append(") LIMIT ?1");
    sql
}

/// The names of the columns of a sample of grouped rows: those of the table and the number.
pub fn list_sample_columns(columns: &Vec<ColumnInfo>, grouped: bool) -> (out: Vec<String>)
    ensures
        text::views(out@) == sample_columns(text::views(columns@), grouped),
{
    let ghost names = text::views(columns@).map_values(
        |column: ColumnInfo<Seq<char>>| column.name,
    );
    let mut out: Vec<String> = Vec::new();
    assert(text::views(out@) =~= names.take(0));
    for i in 0..columns.len()
        invariant
            names == text::views(columns@).map_values(
                |column: ColumnInfo<Seq<char>>| column.name,
            ),
            text::views(out@) == names.take(i as int),
    {
        let name: String = columns[i].name.clone();
        proof {
            text::lemma_views_push(out@, name);
            assert(names.take(i + 1) =~= names.take(i as int).push(name@));
        }
        out.push(name);
    }
    assert(names.take(columns@.len() as int) == names);
    if grouped {
        let name: String = text::copy("__row_count__");
        proof {
            text::lemma_views_push(out@, name);
        }
        out.push(name);
    }
    out
}

/// The names of the columns of a sample: those of the table, and that of the number where rows are
/// grouped.
pub open spec fn sample_columns(columns: Seq<ColumnInfo<Seq<char>>>, grouped: bool) -> Seq<
    Seq<char>,
> {
    let names = columns.map_values(|column: ColumnInfo<Seq<char>>| column.name);
    if grouped {
        names.push("__row_count__"@)
    } else {
        names
    }
}

/// Of which kind the tables of two databases are.
pub struct TableSets {
    pub only_in_a: Vec<String>,
    pub only_in_b: Vec<String>,
    pub common: Vec<String>,
}

/// The choice of the names that another list has or has not.
pub open spec fn membership_chooser(other: Seq<Seq<char>>, inside: bool) -> spec_fn(
    int,
    Seq<char>,
) -> Option<Seq<char>> {
    |i: int, name: Seq<char>|
        if other.contains(name) == inside {
            Some(name)
        } else {
            None
        }
}

/// The names that another list has or has not, in ascending order.
pub open spec fn names_by_membership(
    names: Seq<Seq<char>>,
    other: Seq<Seq<char>>,
    inside: bool,
) -> Seq<Seq<char>> {
    sorting::sorted_texts(text::collect(names, membership_chooser(other, inside)))
}

fn choose_names(names: &TextSet, other: &TextSet, inside: bool) -> (out: Vec<String>)
    requires
        names.wf(),
        other.wf(),
    ensures
        text::views(out@) == names_by_membership(names@, other@, inside),
{
    let items: &Vec<String> = names.items();
    let ghost all = names@;
    let ghost f = membership_chooser(other@, inside);
    let mut kept: Vec<String> = Vec::new();
    assert(all.take(0).len() == 0);
    assert(text::views(kept@) =~= text::collect(all.take(0), f));
    for i in 0..items.len()
        invariant
            other.wf(),
            all == text::views(items@),
            f == membership_chooser(other@, inside),
            text::views(kept@) == text::collect(all.take(i as int), f),
    {
        proof {
            text::lemma_collect_step(all, f, i as int);
            assert(all[i as int] == items@[i as int]@);
        }
        if other.contains(items[i].as_str()) == inside {
            let name: String = items[i].clone();
            proof {
                text::lemma_views_push(kept@, name);
            }
            kept.push(name);
        }
    }
    assert(all.take(items@.len() as int) == all);
    sorting::sort_texts(&kept)
}

/// Parts the tables of two databases into those of one only, of the other only, and of both.
pub fn part_tables(tables_a: &Vec<String>, tables_b: &Vec<String>) -> (r: TableSets)
    ensures
        ({
            let a = keyed::distinct(text::views(tables_a@));
            let b = keyed::distinct(text::views(tables_b@));
            &&& text::views(r.only_in_a@) == names_by_membership(a, b, false)
            &&& text::views(r.only_in_b@) == names_by_membership(b, a, false)
            &&& text::views(r.common@) == names_by_membership(a, b, true)
        }),
{
    let a: TextSet = TextSet::from_texts(tables_a);
    let b: TextSet = TextSet::from_texts(tables_b);
    TableSets {
        only_in_a: choose_names(&a, &b, false),
        only_in_b: choose_names(&b, &a, false),
        common: choose_names(&a, &b, true),
    }
}

/// A definition as it is compared: without surrounding blanks, and empty where there is none.
pub open spec fn definition(create: Option<Seq<char>>) -> Seq<char> {
    match create {
        Some(sql) => text::trim(Blank::Unicode, sql),
        None => ""@,
    }
}

/// A definition as it is compared.
pub fn clean_definition(create: &Option<String>) -> (r: String)
    ensures
        r@ == definition(text::opt(*create)),
{
    match create {
        Some(sql) => text::trimmed(Blank::Unicode, sql.as_str()),
        None => text::copy(""),
    }
}

/// Every table of a database is either one of its own or one of both, never in both lists, and the
/// lists hold no other.
pub proof fn parting_loses_no_table(names: Seq<Seq<char>>, other: Seq<Seq<char>>, name: Seq<char>)
    ensures
        ({
            let own = names_by_membership(names, other, false);
            let common = names_by_membership(names, other, true);
            &&& (own.contains(name) || common.contains(name)) <==> names.contains(name)
            &&& !(own.contains(name) && common.contains(name))
        }),
{
    lemma_membership(names, other, false, name);
    lemma_membership(names, other, true, name);
    sorting::sorted_texts_are_ascending(text::collect(names, membership_chooser(other, false)));
    sorting::sorted_texts_are_ascending(text::collect(names, membership_chooser(other, true)));
}

proof fn lemma_membership(
    names: Seq<Seq<char>>,
    other: Seq<Seq<char>>,
    inside: bool,
    name: Seq<char>,
)
    ensures
        text::collect(names, membership_chooser(other, inside)).contains(name) <==> names.contains(
            name,
        ) && other.contains(name) == inside,
    decreases names.len(),
{
    if names.len() > 0 {
        let init = names.drop_last();
        let last = names.last();
        lemma_membership(init, other, inside, name);
        assert(init.push(last) =~= names);
        keyed::lemma_contains_push(init, last, name);
        keyed::lemma_contains_push(
            text::collect(init, membership_chooser(other, inside)),
            last,
            name,
        );
    }
}

/// A table goes by its canonical name, and by that name with a mark of at most two letters and an
/// underscore behind the prefix.
pub proof fn tables_go_by_their_names_with_a_short_mark(mark: Seq<char>, body: Seq<char>)
    requires
        !mark.contains('_'),
        forall|i: int| 0 <= i < mark.len() ==> (#[trigger] mark[i]) <= '\u{7F}',
    ensures
        names_table("tbl_"@ + body, "tbl_"@ + body),
        mark.len() <= 2 ==> names_table("tbl_"@ + mark + seq!['_'] + body, "tbl_"@ + body),
        mark.len() > 2 && mark + seq!['_'] + body != body ==> !names_table(
            "tbl_"@ + mark + seq!['_'] + body,
            "tbl_"@ + body,
        ),
{
    let canonical = "tbl_"@ + body;
    let table = "tbl_"@ + mark + seq!['_'] + body;
    let name = mark + seq!['_'] + body;
    let n = "tbl_"@.len() as int;
    assert(canonical.skip(n) =~= body);
    assert(table.skip(n) =~= name);
    assert("tbl_"@.is_prefix_of(canonical));
    assert("tbl_"@.is_prefix_of(table));
    text::lemma_index_behind(mark, body, '_');
    assert(name.take(mark.len() as int) =~= mark);
    assert(name.skip(mark.len() as int + 1) =~= body);
    text::lemma_ascii_byte_len(mark);
}

/// A name goes for a table only where it is the table's own or agrees behind the mark.
pub proof fn other_names_go_for_no_table(table: Seq<char>, canonical: Seq<char>)
    requires
        names_table(table, canonical),
        table != canonical,
    ensures
        "tbl_"@.is_prefix_of(table),
        "tbl_"@.is_prefix_of(canonical),
        table.len() > canonical.len(),
        table.skip(table.len() - canonical.len() + "tbl_"@.len()) == canonical.skip(
            "tbl_"@.len() as int,
        ),
{
    let n = "tbl_"@.len() as int;
    let name = table.skip(n);
    let at = text::index_of(name, '_');
    lemma_not_negative(name, '_');
    assert(name.skip(at + 1) == canonical.skip(n));
    assert(table.skip(table.len() - canonical.len() + n) =~= name.skip(at + 1));
}

proof fn lemma_not_negative(s: Seq<char>, sep: char)
    ensures
        0 <= text::index_of(s, sep) <= s.len(),
    decreases s.len(),
{
    if s.len() > 0 && s[0] != sep {
        lemma_not_negative(s.skip(1), sep);
    }
}

/// Positions, and nothing else, are rounded to eight places before they are compared.
pub proof fn positions_are_rounded_to_eight_places(table: Seq<char>, column: Seq<char>)
    ensures
        (names_table(table, "tbl_airports"@)) ==> (rounding_digits(table, column) == Some(8u32) <==> column == "airport_ref_latitude"@ || column == "airport_ref_longitude"@),
        (names_table(table, "tbl_airports"@)) && column != "airport_ref_latitude"@ && column != "airport_ref_longitude"@ ==> rounding_digits(table, column) is None,
        (names_table(table, "tbl_enroute_ndbnavaids"@)) && !names_table(table, "tbl_airports"@) ==> (rounding_digits(table, column) == Some(8u32) <==> column == "ndb_latitude"@ || column == "ndb_longitude"@ || column == "navaid_latitude"@ || column == "navaid_longitude"@),
        (names_table(table, "tbl_enroute_ndbnavaids"@)) && !names_table(table, "tbl_airports"@) && column != "ndb_latitude"@ && column != "ndb_longitude"@ && column != "navaid_latitude"@ && column != "navaid_longitude"@ ==> rounding_digits(table, column) is None,
        (names_table(table, "tbl_vhfnavaids"@)) && !names_table(table, "tbl_airports"@) && !names_table(table, "tbl_enroute_ndbnavaids"@) ==> (rounding_digits(table, column) == Some(8u32) <==> column == "dme_latitude"@ || column == "dme_longitude"@ || column == "vor_latitude"@ || column == "vor_longitude"@ || column == "navaid_latitude"@ || column == "navaid_longitude"@),
        (names_table(table, "tbl_vhfnavaids"@)) && !names_table(table, "tbl_airports"@) && !names_table(table, "tbl_enroute_ndbnavaids"@) && column != "dme_latitude"@ && column != "dme_longitude"@ && column != "vor_latitude"@ && column != "vor_longitude"@ && column != "navaid_latitude"@ && column != "navaid_longitude"@ ==> rounding_digits(table, column) is None,
        (names_table(table, "tbl_enroute_waypoints"@) || names_table(table, "tbl_enroute_airways"@) || names_table(table, "tbl_terminal_waypoints"@)) && !names_table(table, "tbl_airports"@) && !names_table(table, "tbl_enroute_ndbnavaids"@) && !names_table(table, "tbl_vhfnavaids"@) ==> (rounding_digits(table, column) == Some(8u32) <==> column == "waypoint_latitude"@ || column == "waypoint_longitude"@),
        (names_table(table, "tbl_enroute_waypoints"@) || names_table(table, "tbl_enroute_airways"@) || names_table(table, "tbl_terminal_waypoints"@)) && !names_table(table, "tbl_airports"@) && !names_table(table, "tbl_enroute_ndbnavaids"@) && !names_table(table, "tbl_vhfnavaids"@) && column != "waypoint_latitude"@ && column != "waypoint_longitude"@ ==> rounding_digits(table, column) is None,
        (names_table(table, "tbl_sids"@) || names_table(table, "tbl_stars"@) || names_table(table, "tbl_iaps"@)) && !names_table(table, "tbl_airports"@) && !names_table(table, "tbl_enroute_ndbnavaids"@) && !names_table(table, "tbl_vhfnavaids"@) && !names_table(table, "tbl_enroute_waypoints"@) && !names_table(table, "tbl_enroute_airways"@) && !names_table(table, "tbl_terminal_waypoints"@) ==> (rounding_digits(table, column) == Some(8u32) <==> column == "center_waypoint_latitude"@ || column == "center_waypoint_longitude"@ || column == "recommended_navaid_latitude"@ || column == "recommended_navaid_longitude"@ || column == "recommanded_navaid_latitude"@ || column == "recommanded_navaid_longitude"@ || column == "waypoint_latitude"@ || column == "waypoint_longitude"@),
        (names_table(table, "tbl_sids"@) || names_table(table, "tbl_stars"@) || names_table(table, "tbl_iaps"@)) && !names_table(table, "tbl_airports"@) && !names_table(table, "tbl_enroute_ndbnavaids"@) && !names_table(table, "tbl_vhfnavaids"@) && !names_table(table, "tbl_enroute_waypoints"@) && !names_table(table, "tbl_enroute_airways"@) && !names_table(table, "tbl_terminal_waypoints"@) && column != "center_waypoint_latitude"@ && column != "center_waypoint_longitude"@ && column != "recommended_navaid_latitude"@ && column != "recommended_navaid_longitude"@ && column != "recommanded_navaid_latitude"@ && column != "recommanded_navaid_longitude"@ && column != "waypoint_latitude"@ && column != "waypoint_longitude"@ ==> rounding_digits(table, column) is None,
        (names_table(table, "tbl_localizers_glideslopes"@)) && !names_table(table, "tbl_airports"@) && !names_table(table, "tbl_enroute_ndbnavaids"@) && !names_table(table, "tbl_vhfnavaids"@) && !names_table(table, "tbl_enroute_waypoints"@) && !names_table(table, "tbl_enroute_airways"@) && !names_table(table, "tbl_terminal_waypoints"@) && !names_table(table, "tbl_sids"@) && !names_table(table, "tbl_stars"@) && !names_table(table, "tbl_iaps"@) ==> (rounding_digits(table, column) == Some(8u32) <==> column == "gs_latitude"@ || column == "gs_longitude"@ || column == "llz_latitude"@ || column == "llz_longitude"@),
        (names_table(table, "tbl_localizers_glideslopes"@)) && !names_table(table, "tbl_airports"@) && !names_table(table, "tbl_enroute_ndbnavaids"@) && !names_table(table, "tbl_vhfnavaids"@) && !names_table(table, "tbl_enroute_waypoints"@) && !names_table(table, "tbl_enroute_airways"@) && !names_table(table, "tbl_terminal_waypoints"@) && !names_table(table, "tbl_sids"@) && !names_table(table, "tbl_stars"@) && !names_table(table, "tbl_iaps"@) && column != "gs_latitude"@ && column != "gs_longitude"@ && column != "llz_latitude"@ && column != "llz_longitude"@ ==> rounding_digits(table, column) is None,
        !names_table(table, "tbl_airports"@) && !names_table(table, "tbl_enroute_ndbnavaids"@) && !names_table(table, "tbl_vhfnavaids"@) && !names_table(table, "tbl_enroute_waypoints"@) && !names_table(table, "tbl_enroute_airways"@) && !names_table(table, "tbl_terminal_waypoints"@) && !names_table(table, "tbl_sids"@) && !names_table(table, "tbl_stars"@) && !names_table(table, "tbl_iaps"@) && !names_table(table, "tbl_localizers_glideslopes"@) ==> rounding_digits(table, column) is None,
{
}

/// Variations are tolerated within half a degree and courses within one degree; nothing else is.
pub proof fn variations_and_courses_are_tolerated(table: Seq<char>, column: Seq<char>)
    ensures
        (names_table(table, "tbl_enroute_ndbnavaids"@)) ==> (tolerance_tenths(table, column) == Some(5u32) <==> column == "magnetic_variation"@),
        (names_table(table, "tbl_enroute_ndbnavaids"@)) && column != "magnetic_variation"@ ==> tolerance_tenths(table, column) is None,
        (names_table(table, "tbl_vhfnavaids"@)) && !names_table(table, "tbl_enroute_ndbnavaids"@) ==> (tolerance_tenths(table, column) == Some(5u32) <==> column == "magnetic_variation"@ || column == "station_declination"@),
        (names_table(table, "tbl_vhfnavaids"@)) && !names_table(table, "tbl_enroute_ndbnavaids"@) && column != "magnetic_variation"@ && column != "station_declination"@ ==> tolerance_tenths(table, column) is None,
        (names_table(table, "tbl_enroute_waypoints"@) || names_table(table, "tbl_terminal_waypoints"@)) && !names_table(table, "tbl_enroute_ndbnavaids"@) && !names_table(table, "tbl_vhfnavaids"@) ==> (tolerance_tenths(table, column) == Some(5u32) <==> column == "magnetic_variation"@),
        (names_table(table, "tbl_enroute_waypoints"@) || names_table(table, "tbl_terminal_waypoints"@)) && !names_table(table, "tbl_enroute_ndbnavaids"@) && !names_table(table, "tbl_vhfnavaids"@) && column != "magnetic_variation"@ ==> tolerance_tenths(table, column) is None,
        (names_table(table, "tbl_enroute_airways"@)) && !names_table(table, "tbl_enroute_ndbnavaids"@) && !names_table(table, "tbl_vhfnavaids"@) && !names_table(table, "tbl_enroute_waypoints"@) && !names_table(table, "tbl_terminal_waypoints"@) ==> (tolerance_tenths(table, column) == Some(10u32) <==> column == "inbound_course"@ || column == "outbound_course"@),
        (names_table(table, "tbl_enroute_airways"@)) && !names_table(table, "tbl_enroute_ndbnavaids"@) && !names_table(table, "tbl_vhfnavaids"@) && !names_table(table, "tbl_enroute_waypoints"@) && !names_table(table, "tbl_terminal_waypoints"@) && column != "inbound_course"@ && column != "outbound_course"@ ==> tolerance_tenths(table, column) is None,
        (names_table(table, "tbl_localizers_glideslopes"@)) && !names_table(table, "tbl_enroute_ndbnavaids"@) && !names_table(table, "tbl_vhfnavaids"@) && !names_table(table, "tbl_enroute_waypoints"@) && !names_table(table, "tbl_terminal_waypoints"@) && !names_table(table, "tbl_enroute_airways"@) ==> (tolerance_tenths(table, column) == Some(10u32) <==> column == "llz_bearing"@),
        (names_table(table, "tbl_localizers_glideslopes"@)) && !names_table(table, "tbl_enroute_ndbnavaids"@) && !names_table(table, "tbl_vhfnavaids"@) && !names_table(table, "tbl_enroute_waypoints"@) && !names_table(table, "tbl_terminal_waypoints"@) && !names_table(table, "tbl_enroute_airways"@) ==> (tolerance_tenths(table, column) == Some(5u32) <==> column == "station_declination"@),
        (names_table(table, "tbl_localizers_glideslopes"@)) && !names_table(table, "tbl_enroute_ndbnavaids"@) && !names_table(table, "tbl_vhfnavaids"@) && !names_table(table, "tbl_enroute_waypoints"@) && !names_table(table, "tbl_terminal_waypoints"@) && !names_table(table, "tbl_enroute_airways"@) && column != "llz_bearing"@ && column != "station_declination"@ ==> tolerance_tenths(table, column) is None,
        !names_table(table, "tbl_enroute_ndbnavaids"@) && !names_table(table, "tbl_vhfnavaids"@) && !names_table(table, "tbl_enroute_waypoints"@) && !names_table(table, "tbl_terminal_waypoints"@) && !names_table(table, "tbl_enroute_airways"@) && !names_table(table, "tbl_localizers_glideslopes"@) ==> tolerance_tenths(table, column) is None,
{
    reveal_strlit("llz_bearing");
    assert("llz_bearing"@.len() == 11);
    reveal_strlit("station_declination");
    assert("station_declination"@.len() == 19);
}

/// The tolerant columns of a table are those with a tolerance, each at its own position.
pub proof fn tolerant_columns_stand_at_their_positions(
    table: Seq<char>,
    columns: Seq<ColumnInfo<Seq<char>>>,
    found: TolerantColumn,
)
    requires
        columns.len() <= usize::MAX,
    ensures
        text::collect(columns, tolerance_chooser(table)).contains(found) <==> found.index
            < columns.len() && tolerance_tenths(table, columns[found.index as int].name) == Some(
            found.tenths,
        ),
{
    let f = tolerance_chooser(table);
    text::lemma_collect_contains(columns, f, found);
    if found.index < columns.len() {
        let i = found.index as int;
        assert(f(i, columns[i]) == Some(found) <==> tolerance_tenths(table, columns[i].name) == Some(
            found.tenths,
        ));
    }
    assert forall|i: int| 0 <= i < columns.len() && f(i, #[trigger] columns[i]) == Some(
        found,
    ) implies i == found.index by {}
}

/// A column that is rounded is asked for as a rounded number under its own name; any other is asked
/// for as it is.
pub proof fn rounded_columns_keep_their_names(column: Seq<char>, places: u32)
    ensures
        group_expr(column, None) == db::quoted_identifier(column),
        select_expr(column, None) == db::quoted_identifier(column),
        group_expr(column, Some(places)) == "ROUND(CAST("@ + db::quoted_identifier(column)
            + " AS REAL), "@ + numeric::decimal(places as nat) + ")"@,
        select_expr(column, Some(places)) == group_expr(column, Some(places)) + " AS "@
            + db::quoted_identifier(column),
{
}

/// One column more is asked for behind the others, rounded as it is to be.
pub proof fn columns_are_asked_for_in_their_order(
    table: Seq<char>,
    columns: Seq<ColumnInfo<Seq<char>>>,
    column: ColumnInfo<Seq<char>>,
)
    requires
        columns.len() > 0,
    ensures
        select_list(table, columns.push(column)) == select_list(table, columns) + ", "@
            + select_expr(column.name, rounding_digits(table, column.name)),
        group_list(table, columns.push(column)) == group_list(table, columns) + ", "@ + group_expr(
            column.name,
            rounding_digits(table, column.name),
        ),
{
    let f = |c: ColumnInfo<Seq<char>>| select_expr(c.name, rounding_digits(table, c.name));
    let g = |c: ColumnInfo<Seq<char>>| group_expr(c.name, rounding_digits(table, c.name));
    assert(columns.push(column).map_values(f).drop_last() =~= columns.map_values(f));
    assert(columns.push(column).map_values(g).drop_last() =~= columns.map_values(g));
}

/// Every query is asked of the table in the schema that it names.
pub proof fn queries_ask_the_schema_that_they_name(
    schema: Seq<char>,
    table: Seq<char>,
    columns: Seq<ColumnInfo<Seq<char>>>,
)
    ensures
        names_query(schema) == "SELECT name FROM "@ + schema
            + ".sqlite_master WHERE type='table' AND name NOT LIKE 'sqlite_%' ORDER BY name"@,
        definition_query(schema) == "SELECT sql FROM "@ + schema
            + ".sqlite_master WHERE type='table' AND name=?1"@,
        columns_query(schema, table) == "PRAGMA "@ + schema + ".table_info("@
            + db::quoted_identifier(table) + ")"@,
        count_query(schema, table) == "SELECT COUNT(*) FROM "@ + (schema + "."@
            + db::quoted_identifier(table)),
        rows_query(schema, table, columns) == "SELECT "@ + select_list(table, columns) + " FROM "@
            + (schema + "."@ + db::quoted_identifier(table)),
        grouped_side(schema, table, columns) == "SELECT "@ + select_list(table, columns)
            + ", COUNT(*) AS \"__row_count__\" FROM "@ + (schema + "."@ + db::quoted_identifier(
            table,
        )) + " GROUP BY "@ + group_list(table, columns),
{
}

/// Groups of the left that the right does not have are asked for as the left without the right.
pub proof fn the_right_is_taken_from_the_left(
    left: Seq<char>,
    right: Seq<char>,
    table: Seq<char>,
    columns: Seq<ColumnInfo<Seq<char>>>,
)
    ensures
        grouped_side(left, table, columns).is_prefix_of(
            grouped_except(left, right, table, columns),
        ),
        grouped_except(left, right, table, columns).skip(
            (grouped_side(left, table, columns).len() + " EXCEPT "@.len()) as int,
        ) == grouped_side(right, table, columns),
{
    let a = grouped_side(left, table, columns);
    let b = grouped_side(right, table, columns);
    assert((a + " EXCEPT "@ + b).skip((a.len() + " EXCEPT "@.len()) as int) =~= b);
    assert(a.is_prefix_of(a + " EXCEPT "@ + b));
}

/// A sample has the columns of its table, and where rows are grouped their count behind them.
pub proof fn samples_have_the_columns_of_their_table(
    columns: Seq<ColumnInfo<Seq<char>>>,
    grouped: bool,
    i: int,
)
    requires
        0 <= i < columns.len(),
    ensures
        sample_columns(columns, grouped)[i] == columns[i].name,
        sample_columns(columns, false).len() == columns.len(),
        sample_columns(columns, true).len() == columns.len() + 1,
        sample_columns(columns, true).last() == "__row_count__"@,
{
}

/// A table belongs to one database only where the other does not have it, and is shared where it
/// does.
pub proof fn tables_are_parted_by_where_they_are(
    names: Seq<Seq<char>>,
    other: Seq<Seq<char>>,
    name: Seq<char>,
)
    ensures
        names_by_membership(names, other, false).contains(name) <==> names.contains(name)
            && !other.contains(name),
        names_by_membership(names, other, true).contains(name) <==> names.contains(name)
            && other.contains(name),
{
    lemma_membership(names, other, false, name);
    lemma_membership(names, other, true, name);
    sorting::sorted_texts_are_ascending(text::collect(names, membership_chooser(other, false)));
    sorting::sorted_texts_are_ascending(text::collect(names, membership_chooser(other, true)));
}

/// Definitions are compared without the blanks around them; a table without one has an empty one.
pub proof fn definitions_are_compared_trimmed(sql: Seq<char>)
    ensures
        definition(Some(sql)) == text::trim(Blank::Unicode, sql),
        definition(None) == ""@,
{
}

/// Every field of a `ColumnInfo` is seen under its own name.
pub proof fn every_field_of_column_info_is_seen(it: ColumnInfo)
    ensures
        it@.name == it.name@,
        it@.data_type == it.data_type@,
        it@.not_null == it.not_null,
        it@.default_value == text::opt(it.default_value),
        it@.primary_key_index == it.primary_key_index,
{
}

} // verus!
