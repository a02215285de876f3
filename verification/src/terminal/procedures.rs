//! Departures, arrivals and approaches: choosing the files and lines that matter, and planning
//! what is written for them.

use crate::db;
use crate::db::{BoundQuery, Cell};
use crate::keyed;
use crate::keyed::{RowSet, TextSet};
use crate::matchers::CoordinateMatcher;
use crate::parsers;
use crate::parsers::CifpFields;
use crate::records;
use crate::ref_tables::{RefMatchResult, RefTableMatcher};
use crate::sorting;
use crate::terminal::leg_fixes;
use crate::terminal::leg_fixes::{MatchCache, MatchCacheKey, RefRequest, RequestMeasure};
use crate::terminal::leg_rows;
use crate::terminal::leg_rows::LegLayout;
use crate::terminal::legs;
use crate::text;
use crate::text::Blank;
use vstd::prelude::*;

verus! {

/// How one kind of procedure is read and written.
#[derive(Clone, Debug)]
pub struct TerminalProcedureConfig {
    pub table_name: String,
    pub cifp_prefix: String,
    pub seqno_start: usize,
    pub seqno_end: usize,
    pub airport_prefixes: Vec<String>,
    pub compute_auth: bool,
    pub use_iaps_logic: bool,
    pub batch_size: usize,
    pub min_fields: usize,
}

impl TerminalProcedureConfig {
    /// How the legs are laid out.
    pub open spec fn leg_layout(self) -> LegLayout {
        LegLayout {
            seqno_start: self.seqno_start,
            seqno_end: self.seqno_end,
            grouping: self.use_iaps_logic || self.compute_auth,
            iaps: self.use_iaps_logic,
        }
    }

    /// How the legs are laid out.
    pub fn layout(&self) -> (r: LegLayout)
        ensures
            r == self.leg_layout(),
    {
        LegLayout {
            seqno_start: self.seqno_start,
            seqno_end: self.seqno_end,
            grouping: self.use_iaps_logic || self.compute_auth,
            iaps: self.use_iaps_logic,
        }
    }
}

/// The identifiers on a line that have to be found: those of the waypoint, the recommended
/// navigation aid and the center.
pub open spec fn required_on_line(line: Seq<char>, prefix: Seq<char>) -> Seq<Seq<char>> {
    let fields = text::trimmed_pieces(
        Blank::Ascii,
        text::trim_end(Blank::LineEnd, line),
        ',',
    );
    if prefix.is_prefix_of(line) {
        required_at(fields, 4) + required_at(fields, 13) + required_at(fields, 30)
    } else {
        seq![]
    }
}

/// The identifier at a position, unless it is empty.
pub open spec fn required_at(fields: Seq<Seq<char>>, idx: int) -> Seq<Seq<char>> {
    if idx < fields.len() && fields[idx].len() > 0 {
        seq![fields[idx]]
    } else {
        seq![]
    }
}

fn push_required(fields: &Vec<String>, idx: usize, out: &mut Vec<String>)
    ensures
        text::views(final(out)@) == text::views(old(out)@) + required_at(
            text::views(fields@),
            idx as int,
        ),
{
    if idx < fields.len() {
        let ghost v = text::views(fields@);
        assert(v[idx as int] == fields@[idx as int]@);
        if !text::is_empty(fields[idx].as_str()) {
            let item: String = fields[idx].clone();
            proof {
                text::lemma_views_push(out@, item);
                assert(text::views(out@).push(item@) =~= text::views(out@) + seq![item@]);
            }
            out.push(item);
            return;
        }
    }
    assert(text::views(out@) + Seq::<Seq<char>>::empty() =~= text::views(out@));
}

/// Lists the identifiers on a line that have to be found.
pub fn collect_required_identifiers_from_line(line: &str, prefix: &str) -> (out: Vec<String>)
    ensures
        text::views(out@) == required_on_line(line@, prefix@),
{
    let mut out: Vec<String> = Vec::new();
    assert(text::views(out@) =~= seq![]);
    if !text::starts_with(line, prefix) {
        return out;
    }
    let body: String = text::trimmed_end(Blank::LineEnd, line);
    let cs: Vec<char> = text::chars_of(body.as_str());
    let fields: Vec<String> = text::split_trimmed(Blank::Ascii, &cs, ',');
    push_required(&fields, 4, &mut out);
    push_required(&fields, 13, &mut out);
    push_required(&fields, 30, &mut out);
    assert(text::views(out@) =~= required_on_line(line@, prefix@));
    out
}

/// The identifiers that have to be found, line by line.
pub open spec fn required_reader(prefix: Seq<char>) -> spec_fn(int, Seq<char>) -> Seq<Seq<char>> {
    |i: int, line: Seq<char>| required_on_line(line, prefix)
}

/// The identifiers that the lines of procedures mention, each once.
pub fn collect_terminal_required_identifiers(
    lines: &Vec<String>,
    config: &TerminalProcedureConfig,
) -> (r: TextSet)
    ensures
        r.wf(),
        r@ == keyed::distinct(
            text::flat_collect(text::views(lines@), required_reader(config.cifp_prefix@)),
        ),
{
    let ghost all = text::views(lines@);
    let ghost f = required_reader(config.cifp_prefix@);
    let mut found: Vec<String> = Vec::new();
    assert(all.take(0).len() == 0);
    assert(text::views(found@) =~= text::flat_collect(all.take(0), f));
    for i in 0..lines.len()
        invariant
            all == text::views(lines@),
            f == required_reader(config.cifp_prefix@),
            text::views(found@) == text::flat_collect(all.take(i as int), f),
    {
        let mut more: Vec<String> = collect_required_identifiers_from_line(
            lines[i].as_str(),
            config.cifp_prefix.as_str(),
        );
        proof {
            text::lemma_flat_collect_step(all, f, i as int);
            assert(all[i as int] == lines@[i as int]@);
            assert(text::views(found@ + more@) =~= text::views(found@) + text::views(more@));
        }
        found.append(&mut more);
    }
    assert(all.take(lines@.len() as int) == all);
    TextSet::from_texts(&found)
}

/// Whether a file is that of an airport that is covered.
pub open spec fn covered_file(name: Seq<char>, prefixes: Seq<Seq<char>>) -> bool {
    text::ends(name, ".dat"@) && exists|i: int|
        0 <= i < prefixes.len() && (#[trigger] prefixes[i]).is_prefix_of(name)
}

/// Tests whether a file is that of an airport that is covered.
pub fn is_covered_file(name: &str, prefixes: &Vec<String>) -> (r: bool)
    ensures
        r == covered_file(name@, text::views(prefixes@)),
{
    if !text::ends_with(name, ".dat") {
        return false;
    }
    let ghost all = text::views(prefixes@);
    for i in 0..prefixes.len()
        invariant
            all == text::views(prefixes@),
            text::ends(name@, ".dat"@),
            forall|k: int| 0 <= k < i ==> !(#[trigger] all[k]).is_prefix_of(name@),
    {
        assert(all[i as int] == prefixes@[i as int]@);
        if text::starts_with(name, prefixes[i].as_str()) {
            return true;
        }
    }
    false
}

/// The choice of the files of covered airports.
pub open spec fn file_chooser(prefixes: Seq<Seq<char>>) -> spec_fn(int, Seq<char>) -> Option<
    Seq<char>,
> {
    |i: int, name: Seq<char>|
        if covered_file(name, prefixes) {
            Some(name)
        } else {
            None
        }
}

/// The files of covered airports among the names in a directory, in ascending order.
pub fn scan_airport_files(names: &Vec<String>, prefixes: &Vec<String>) -> (out: Vec<String>)
    ensures
        text::views(out@) == sorting::sorted_texts(
            text::collect(text::views(names@), file_chooser(text::views(prefixes@))),
        ),
{
    let ghost all = text::views(names@);
    let ghost f = file_chooser(text::views(prefixes@));
    let mut kept: Vec<String> = Vec::new();
    assert(all.take(0).len() == 0);
    assert(text::views(kept@) =~= text::collect(all.take(0), f));
    for i in 0..names.len()
        invariant
            all == text::views(names@),
            f == file_chooser(text::views(prefixes@)),
            text::views(kept@) == text::collect(all.take(i as int), f),
    {
        proof {
            text::lemma_collect_step(all, f, i as int);
            assert(all[i as int] == names@[i as int]@);
        }
        if is_covered_file(names[i].as_str(), prefixes) {
            let name: String = names[i].clone();
            proof {
                text::lemma_views_push(kept@, name);
            }
            kept.push(name);
        }
    }
    assert(all.take(names@.len() as int) == all);
    sorting::sort_texts(&kept)
}

/// What identifies a scan: the directory and, behind a bar, the prefixes in ascending order.
pub open spec fn scan_key(directory: Seq<char>, prefixes: Seq<Seq<char>>) -> Seq<char> {
    directory + "|"@ + db::joined(sorting::sorted_texts(prefixes), ","@)
}

/// Builds what identifies a scan.
pub fn airport_file_cache_key(directory: &str, prefixes: &Vec<String>) -> (key: String)
    ensures
        key@ == scan_key(directory@, text::views(prefixes@)),
{
    let sorted: Vec<String> = sorting::sort_texts(prefixes);
    let mut key: String = text::copy(directory);
    key.append("|");
    let list: String = db::join_texts(&sorted, ",");
    key.append(list.as_str());
    key
}

/// The airport that a file belongs to: its name up to the first dot.
pub open spec fn airport_of(name: Seq<char>) -> Seq<char> {
    name.take(text::index_of(name, '.'))
}

/// The airport that a file belongs to.
pub fn file_airport(name: &str) -> (r: String)
    ensures
        r@ == airport_of(name@),
{
    let cs: Vec<char> = text::chars_of(name);
    let end: usize = text::find_char(&cs, 0, '.');
    assert(cs@.skip(0) == cs@);
    assert(cs@.subrange(0, end as int) =~= cs@.take(end as int));
    text::text_of(&cs, 0, end)
}

/// The choice of the airports with a name.
pub open spec fn airport_chooser() -> spec_fn(int, Seq<char>) -> Option<Seq<char>> {
    |i: int, name: Seq<char>|
        if airport_of(name).len() > 0 {
            Some(airport_of(name))
        } else {
            None
        }
}

/// The airports of files, each once.
pub open spec fn file_airports(names: Seq<Seq<char>>) -> Seq<Seq<char>> {
    keyed::distinct(text::collect(names, airport_chooser()))
}

/// Lists the airports of files, each once.
pub fn list_file_airports(names: &Vec<String>) -> (r: TextSet)
    ensures
        r.wf(),
        r@ == file_airports(text::views(names@)),
{
    let ghost all = text::views(names@);
    let ghost f = airport_chooser();
    let mut found: Vec<String> = Vec::new();
    assert(all.take(0).len() == 0);
    assert(text::views(found@) =~= text::collect(all.take(0), f));
    for i in 0..names.len()
        invariant
            all == text::views(names@),
            f == airport_chooser(),
            text::views(found@) == text::collect(all.take(i as int), f),
    {
        proof {
            text::lemma_collect_step(all, f, i as int);
            assert(all[i as int] == names@[i as int]@);
        }
        let airport: String = file_airport(names[i].as_str());
        if !text::is_empty(airport.as_str()) {
            proof {
                text::lemma_views_push(found@, airport);
            }
            found.push(airport);
        }
    }
    assert(all.take(names@.len() as int) == all);
    TextSet::from_texts(&found)
}

/// Whether a table is one that procedures are written to.
pub open spec fn procedure_table(table: Seq<char>) -> bool {
    table == "tbl_sids"@ || table == "tbl_stars"@ || table == "tbl_iaps"@
}

/// Tests whether a table is one that procedures are written to.
pub fn is_procedure_table(table: &str) -> (r: bool)
    ensures
        r == procedure_table(table@),
{
    text::same(table, "tbl_sids") || text::same(table, "tbl_stars") || text::same(
        table,
        "tbl_iaps",
    )
}

/// The columns of a table of procedures, in the order in which they are written.
pub open spec fn procedure_columns() -> Seq<Seq<char>> {
    seq![
        "area_code"@,
        "airport_identifier"@,
        "procedure_identifier"@,
        "route_type"@,
        "transition_identifier"@,
        "seqno"@,
        "waypoint_icao_code"@,
        "waypoint_identifier"@,
        "waypoint_latitude"@,
        "waypoint_longitude"@,
        "waypoint_description_code"@,
        "turn_direction"@,
        "rnp"@,
        "path_termination"@,
        "recommanded_navaid"@,
        "recommanded_navaid_latitude"@,
        "recommanded_navaid_longitude"@,
        "arc_radius"@,
        "theta"@,
        "rho"@,
        "magnetic_course"@,
        "route_distance_holding_distance_time"@,
        "distance_time"@,
        "altitude_description"@,
        "altitude1"@,
        "altitude2"@,
        "transition_altitude"@,
        "speed_limit_description"@,
        "speed_limit"@,
        "vertical_angle"@,
        "center_waypoint"@,
        "center_waypoint_latitude"@,
        "center_waypoint_longitude"@,
        "aircraft_category"@,
        "id"@,
        "recommanded_id"@,
        "center_id"@,
    ]
}

/// The columns of a table of procedures, in the order in which they are written.
pub fn list_procedure_columns() -> (r: Vec<String>)
    ensures
        text::views(r@) == procedure_columns(),
{
    let r: Vec<String> = vec![
        text::copy("area_code"),
        text::copy("airport_identifier"),
        text::copy("procedure_identifier"),
        text::copy("route_type"),
        text::copy("transition_identifier"),
        text::copy("seqno"),
        text::copy("waypoint_icao_code"),
        text::copy("waypoint_identifier"),
        text::copy("waypoint_latitude"),
        text::copy("waypoint_longitude"),
        text::copy("waypoint_description_code"),
        text::copy("turn_direction"),
        text::copy("rnp"),
        text::copy("path_termination"),
        text::copy("recommanded_navaid"),
        text::copy("recommanded_navaid_latitude"),
        text::copy("recommanded_navaid_longitude"),
        text::copy("arc_radius"),
        text::copy("theta"),
        text::copy("rho"),
        text::copy("magnetic_course"),
        text::copy("route_distance_holding_distance_time"),
        text::copy("distance_time"),
        text::copy("altitude_description"),
        text::copy("altitude1"),
        text::copy("altitude2"),
        text::copy("transition_altitude"),
        text::copy("speed_limit_description"),
        text::copy("speed_limit"),
        text::copy("vertical_angle"),
        text::copy("center_waypoint"),
        text::copy("center_waypoint_latitude"),
        text::copy("center_waypoint_longitude"),
        text::copy("aircraft_category"),
        text::copy("id"),
        text::copy("recommanded_id"),
        text::copy("center_id"),
    ];
    assert(text::views(r@) =~= procedure_columns());
    r
}

/// The table is not one that procedures can be written to.
#[derive(Clone, Copy, PartialEq, Eq, Debug, Structural)]
pub struct UnsupportedProcedureTable;

/// Builds the statement that inserts a leg.
pub fn build_insert_sql(table: &str) -> (r: Result<String, UnsupportedProcedureTable>)
    ensures
        match r {
            Ok(sql) => procedure_table(table@) && sql@ == records::fixed_insert(
                "INSERT OR IGNORE"@,
                table@,
                procedure_columns(),
            ),
            Err(_) => !procedure_table(table@),
        },
{
    if !is_procedure_table(table) {
        return Err(UnsupportedProcedureTable);
    }
    Ok(records::fixed_insert_sql("INSERT OR IGNORE", table, &list_procedure_columns()))
}

/// The query for the procedures that a table has for some airports.
pub open spec fn known_query(table: Seq<char>, run: Seq<Seq<char>>) -> BoundQuery<
    Seq<char>,
    Seq<Seq<char>>,
> {
    BoundQuery {
        sql: "SELECT airport_identifier, procedure_identifier FROM "@ + db::quoted_identifier(
            table,
        ) + " WHERE airport_identifier IN ("@ + db::placeholders(run.len()) + ")"@,
        parameters: run,
    }
}

/// The queries for the procedures that a table has for airports.
pub open spec fn known_queries(table: Seq<char>, airports: Seq<Seq<char>>) -> Seq<
    BoundQuery<Seq<char>, Seq<Seq<char>>>,
> {
    db::chunks(airports, db::SQLITE_MAX_VARIABLE_NUMBER as int).map_values(
        |run: Seq<Seq<char>>| known_query(table, run),
    )
}

/// Builds the queries for the procedures that a table has for airports.
pub fn load_existing_proc_map(table: &str, airports: &Vec<String>) -> (out: Vec<BoundQuery>)
    ensures
        text::views(out@) == known_queries(table@, text::views(airports@)),
{
    let ghost goal = known_queries(table@, text::views(airports@));
    let runs: Vec<Vec<String>> = db::chunk_texts(airports, db::SQLITE_MAX_VARIABLE_NUMBER);
    let ghost cut = db::list_views(runs@);
    let mut out: Vec<BoundQuery> = Vec::new();
    assert(text::views(out@) =~= goal.take(0));
    for run in it: runs
        invariant
            cut == db::list_views(it.seq()),
            goal == cut.map_values(|run: Seq<Seq<char>>| known_query(table@, run)),
            text::views(out@) == goal.take(it.index() as int),
    {
        let ghost i = it.index() as int;
        let mut sql: String = text::copy(
            "SELECT airport_identifier, procedure_identifier FROM ",
        );
        let name: String = db::quote_sqlite_identifier(table);
        sql.append(name.as_str());
        sql.append(" WHERE airport_identifier IN (");
        let variables: String = db::repeat_text("?", ", ", run.len());
        sql.append(variables.as_str());
        sql.append(")");
        let query = BoundQuery { sql, parameters: run };
        proof {
            assert(cut[i] == text::views(query.parameters@));
            text::lemma_views_push(out@, query);
            assert(query@ == known_query(table@, cut[i]));
            assert(goal.take(i + 1) =~= goal.take(i).push(query@));
        }
        out.push(query);
    }
    assert(goal.take(cut.len() as int) == goal);
    out
}

/// The statement that removes the procedures of Lhasa that are replaced, with its values; other
/// tables have none.
pub open spec fn zuls_delete(table: Seq<char>) -> Option<BoundQuery<Seq<char>, Seq<Seq<char>>>> {
    let head = "DELETE FROM "@ + db::quoted_identifier(table) + " WHERE airport_identifier = ?1 AND "@;
    if table == "tbl_sids"@ {
        Some(
            BoundQuery {
                sql: head + "(procedure_identifier LIKE ?2 OR procedure_identifier LIKE ?3)"@,
                parameters: seq!["ZULS"@, "DEP%"@, "EO%"@],
            },
        )
    } else if table == "tbl_stars"@ {
        Some(
            BoundQuery {
                sql: head + "procedure_identifier IN ("@ + db::placeholders(8) + ")"@,
                parameters: seq![
                    "ZULS"@,
                    "DUM08A"@,
                    "DUM09A"@,
                    "DUM10A"@,
                    "DUM28A"@,
                    "IGD10A"@,
                    "IGD28A"@,
                    "IKU10A"@,
                    "IKU28A"@,
                ],
            },
        )
    } else if table == "tbl_iaps"@ {
        Some(
            BoundQuery {
                sql: head + "procedure_identifier LIKE ?2"@,
                parameters: seq!["ZULS"@, "R%"@],
            },
        )
    } else {
        None
    }
}

/// Builds the statement that removes the procedures of Lhasa that are replaced.
pub fn delete_zuls_special_procedures(table: &str) -> (r: Option<BoundQuery>)
    ensures
        text::opt(r) == zuls_delete(table@),
{
    let mut sql: String = text::copy("DELETE FROM ");
    let name: String = db::quote_sqlite_identifier(table);
    sql.append(name.as_str());
    sql.append(" WHERE airport_identifier = ?1 AND ");
    let parameters: Vec<String> = if text::same(table, "tbl_sids") {
        sql.append("(procedure_identifier LIKE ?2 OR procedure_identifier LIKE ?3)");
        vec![text::copy("ZULS"), text::copy("DEP%"), text::copy("EO%")]
    } else if text::same(table, "tbl_stars") {
        sql.append("procedure_identifier IN (");
        let variables: String = db::repeat_text("?", ", ", 8);
        sql.append(variables.as_str());
        sql.append(")");
        vec![
            text::copy("ZULS"),
            text::copy("DUM08A"),
            text::copy("DUM09A"),
            text::copy("DUM10A"),
            text::copy("DUM28A"),
            text::copy("IGD10A"),
            text::copy("IGD28A"),
            text::copy("IKU10A"),
            text::copy("IKU28A"),
        ]
    } else if text::same(table, "tbl_iaps") {
        sql.append("procedure_identifier LIKE ?2");
        vec![text::copy("ZULS"), text::copy("R%")]
    } else {
        return None;
    };
    proof {
        reveal_strlit("tbl_sids");
        reveal_strlit("tbl_stars");
        reveal_strlit("tbl_iaps");
        assert(text::views(parameters@) =~= zuls_delete(table@)->0.parameters);
    }
    Some(BoundQuery { sql, parameters })
}

/// What is asked of the database before procedures are written.
pub struct ExistingPlan {
    /// The statement to run first, if there is one.
    pub delete: Option<BoundQuery>,
    /// The queries for what is there then.
    pub queries: Vec<BoundQuery>,
}

/// Plans what is asked of the database before procedures are written: where Lhasa is among the
/// airports, its replaced procedures are removed first.
pub fn prepare_existing_proc_map(table: &str, airports: &TextSet) -> (r: ExistingPlan)
    requires
        airports.wf(),
    ensures
        text::opt(r.delete) == (if airports@.contains("ZULS"@) {
            zuls_delete(table@)
        } else {
            None
        }),
        text::views(r.queries@) == known_queries(table@, airports@),
{
    let delete: Option<BoundQuery> = if airports.contains("ZULS") {
        delete_zuls_special_procedures(table)
    } else {
        None
    };
    ExistingPlan { delete, queries: load_existing_proc_map(table, airports.items()) }
}

/// What identifies a procedure of an airport.
pub open spec fn procedure_key(airport: Seq<char>, identifier: Option<Seq<char>>) -> Seq<Seq<char>> {
    match identifier {
        Some(name) => seq![airport, name],
        None => seq![airport],
    }
}

fn make_procedure_key(airport: &str, identifier: &Option<String>) -> (r: Vec<String>)
    ensures
        text::views(r@) == procedure_key(airport@, text::opt(*identifier)),
{
    let r: Vec<String> = match identifier {
        Some(name) => vec![text::copy(airport), name.clone()],
        None => vec![text::copy(airport)],
    };
    assert(text::views(r@) =~= procedure_key(airport@, text::opt(*identifier)));
    r
}

/// The procedures that a table has.
pub struct ExistingProcedures {
    keys: RowSet,
}

impl View for ExistingProcedures {
    type V = Seq<Seq<Seq<char>>>;

    closed spec fn view(&self) -> Seq<Seq<Seq<char>>> {
        self.keys@
    }
}

impl ExistingProcedures {
    /// The collection is well formed.
    pub closed spec fn wf(self) -> bool {
        self.keys.wf()
    }

    /// No procedures.
    pub fn new() -> (r: Self)
        ensures
            r.wf(),
            r@ == Seq::<Seq<Seq<char>>>::empty(),
    {
        ExistingProcedures { keys: RowSet::new() }
    }

    /// Adds a procedure of an airport.
    pub fn insert(&mut self, airport: &str, identifier: &Option<String>)
        requires
            old(self).wf(),
        ensures
            final(self).wf(),
            final(self)@ == keyed::with_row(
                old(self)@,
                procedure_key(airport@, text::opt(*identifier)),
            ),
    {
        self.keys.insert(make_procedure_key(airport, identifier));
    }

    /// Tests for a procedure of an airport.
    pub fn contains(&self, airport: &str, identifier: &Option<String>) -> (r: bool)
        requires
            self.wf(),
        ensures
            r == self@.contains(procedure_key(airport@, text::opt(*identifier))),
    {
        self.keys.contains(&make_procedure_key(airport, identifier))
    }
}

/// The choice of the legs of procedures that the table does not have.
pub open spec fn leg_chooser(
    prefix: Seq<char>,
    min_fields: int,
    airport: Seq<char>,
    existing: Seq<Seq<Seq<char>>>,
) -> spec_fn(int, Seq<char>) -> Option<Seq<Seq<char>>> {
    |i: int, line: Seq<char>|
        match parsers::cifp_fields(line, prefix, min_fields) {
            Some(fields) => if existing.contains(
                procedure_key(airport, legs::leg_field(fields, 2)),
            ) {
                None
            } else {
                Some(fields)
            },
            None => None,
        }
}

/// The legs in a file of an airport, without those of procedures that the table has.
pub open spec fn new_legs(
    lines: Seq<Seq<char>>,
    config: TerminalProcedureConfig,
    airport: Seq<char>,
    existing: Seq<Seq<Seq<char>>>,
) -> Seq<Seq<Seq<char>>> {
    text::collect(
        lines,
        leg_chooser(config.cifp_prefix@, config.min_fields as int, airport, existing),
    )
}

/// Reads the legs in a file of an airport.
pub fn list_new_legs(
    lines: &Vec<String>,
    config: &TerminalProcedureConfig,
    airport: &str,
    existing: &ExistingProcedures,
) -> (out: Vec<CifpFields>)
    requires
        existing.wf(),
    ensures
        text::views(out@) == new_legs(text::views(lines@), *config, airport@, existing@),
{
    let ghost all = text::views(lines@);
    let ghost f = leg_chooser(
        config.cifp_prefix@,
        config.min_fields as int,
        airport@,
        existing@,
    );
    let mut out: Vec<CifpFields> = Vec::new();
    assert(all.take(0).len() == 0);
    assert(text::views(out@) =~= text::collect(all.take(0), f));
    for i in 0..lines.len()
        invariant
            existing.wf(),
            all == text::views(lines@),
            f == leg_chooser(
                config.cifp_prefix@,
                config.min_fields as int,
                airport@,
                existing@,
            ),
            text::views(out@) == text::collect(all.take(i as int), f),
    {
        proof {
            text::lemma_collect_step(all, f, i as int);
            assert(all[i as int] == lines@[i as int]@);
        }
        match parsers::split_cifp_fields(
            lines[i].as_str(),
            config.cifp_prefix.as_str(),
            config.min_fields,
        ) {
            Some(fields) => {
                let identifier: Option<String> = legs::extract_opt_field(&fields, 2);
                if !existing.contains(airport, &identifier) {
                    proof {
                        text::lemma_views_push(out@, fields);
                    }
                    out.push(fields);
                }
            },
            None => {},
        }
    }
    assert(all.take(lines@.len() as int) == all);
    out
}

/// A file of an airport: its name, its legs, and what was measured for their requests.
pub struct AirportFile {
    pub name: String,
    pub legs: Vec<CifpFields>,
    pub measures: Vec<RequestMeasure>,
}

/// The requests of the legs of a file.
pub open spec fn file_requests(coords: CoordinateMatcher, file: AirportFile) -> Seq<
    RefRequest<Seq<char>>,
> {
    text::flat_collect(
        text::views(file.legs@),
        leg_fixes::leg_requester(coords, airport_of(file.name@)),
    )
}

/// The keys of the requests of a file.
pub open spec fn file_keys(coords: CoordinateMatcher, file: AirportFile) -> Seq<
    MatchCacheKey<Seq<char>>,
> {
    leg_fixes::request_keys(file_requests(coords, file), file.measures@)
}

/// The answers that are remembered after the first `n` files.
pub open spec fn memory_after(
    coords: CoordinateMatcher,
    matcher: RefTableMatcher,
    files: Seq<AirportFile>,
    n: int,
) -> Map<MatchCacheKey<Seq<char>>, RefMatchResult>
    decreases n,
{
    if n <= 0 {
        Map::empty()
    } else {
        leg_fixes::remembered(
            memory_after(coords, matcher, files, n - 1),
            file_keys(coords, files[n - 1]),
            leg_fixes::fresh_results(
                matcher,
                file_requests(coords, files[n - 1]),
                files[n - 1].measures@,
            ),
        )
    }
}

/// The rows of the file at a position.
pub open spec fn planned_rows(
    coords: CoordinateMatcher,
    matcher: RefTableMatcher,
    config: TerminalProcedureConfig,
    files: Seq<AirportFile>,
    n: int,
) -> Seq<Seq<Cell<Seq<char>>>> {
    leg_rows::file_rows(
        text::views(files[n].legs@),
        airport_of(files[n].name@),
        leg_fixes::answers(
            memory_after(coords, matcher, files, n + 1),
            file_keys(coords, files[n]),
        ),
        config.leg_layout(),
        procedure_columns(),
    )
}

/// The rows of all files, file by file.
pub open spec fn all_planned_rows(
    coords: CoordinateMatcher,
    matcher: RefTableMatcher,
    config: TerminalProcedureConfig,
    files: Seq<AirportFile>,
) -> Seq<Seq<Seq<Cell<Seq<char>>>>> {
    Seq::new(files.len(), |n: int| planned_rows(coords, matcher, config, files, n))
}

/// How many legs files have.
pub open spec fn leg_count(files: Seq<AirportFile>) -> int
    decreases files.len(),
{
    if files.len() == 0 {
        0
    } else {
        leg_count(files.drop_last()) + files.last().legs@.len()
    }
}

proof fn lemma_leg_count_grows(files: Seq<AirportFile>, n: int)
    requires
        0 <= n <= files.len(),
    ensures
        0 <= leg_count(files.take(n)) <= leg_count(files),
    decreases files.len(),
{
    if n < files.len() {
        lemma_leg_count_grows(files.drop_last(), n);
        assert(files.drop_last().take(n) == files.take(n));
    } else {
        assert(files.take(n) == files);
        if n > 0 {
            lemma_leg_count_grows(files.drop_last(), n - 1);
        }
    }
}

/// How many rows are written in one run.
pub open spec fn run_limit(batch_size: int) -> int {
    if batch_size < 1 {
        1
    } else {
        batch_size
    }
}

/// The views of runs of rows.
pub open spec fn run_rows(v: Seq<Vec<Vec<Cell>>>) -> Seq<Seq<Seq<Cell<Seq<char>>>>> {
    v.map_values(|run: Vec<Vec<Cell>>| records::cell_rows(run@))
}

fn cut_rows(rows: Vec<Vec<Cell>>, limit: usize) -> (out: Vec<Vec<Vec<Cell>>>)
    requires
        limit > 0,
    ensures
        run_rows(out@) == db::chunks(records::cell_rows(rows@), limit as int),
{
    let ghost items = rows@;
    let ghost f = |row: Vec<Cell>| text::views(row@);
    let out: Vec<Vec<Vec<Cell>>> = db::cut_runs(rows, limit);
    proof {
        db::lemma_chunks_map(items, f, limit as int);
        let cut = db::chunks(items, limit as int);
        assert(records::cell_rows(items) == items.map_values(f));
        assert(run_rows(out@) =~= cut.map_values(|run: Seq<Vec<Cell>>| run.map_values(f))) by {
            assert forall|i: int| 0 <= i < out@.len() implies #[trigger] run_rows(out@)[i]
                == cut[i].map_values(f) by {
                assert(db::run_views(out@)[i] == out@[i]@);
            }
            assert(db::run_views(out@).len() == out@.len());
        }
    }
    out
}

/// What is written and what is held back once another group of rows has come.
spec fn held(
    done: Seq<Seq<Seq<Cell<Seq<char>>>>>,
    pending: Seq<Seq<Cell<Seq<char>>>>,
    rows: Seq<Seq<Cell<Seq<char>>>>,
    limit: int,
) -> (Seq<Seq<Seq<Cell<Seq<char>>>>>, Seq<Seq<Cell<Seq<char>>>>) {
    if (pending + rows).len() >= limit {
        (done + db::chunks(pending + rows, limit), seq![])
    } else {
        (done, pending + rows)
    }
}

proof fn lemma_flushed_step(groups: Seq<Seq<Seq<Cell<Seq<char>>>>>, n: int, limit: int)
    requires
        0 <= n < groups.len(),
    ensures
        db::flushed(groups.take(n + 1), limit) == held(
            db::flushed(groups.take(n), limit).0,
            db::flushed(groups.take(n), limit).1,
            groups[n],
            limit,
        ),
{
    assert(groups.take(n + 1).drop_last() == groups.take(n));
}

/// Holds rows back, or adds them to what is written as soon as there are enough.
fn hold_rows(
    batches: &mut Vec<Vec<Vec<Cell>>>,
    pending: Vec<Vec<Cell>>,
    rows: Vec<Vec<Cell>>,
    limit: usize,
) -> (kept: Vec<Vec<Cell>>)
    requires
        limit > 0,
    ensures
        (run_rows(final(batches)@), records::cell_rows(kept@)) == held(
            run_rows(old(batches)@),
            records::cell_rows(pending@),
            records::cell_rows(rows@),
            limit as int,
        ),
{
    let mut all: Vec<Vec<Cell>> = pending;
    let mut more: Vec<Vec<Cell>> = rows;
    assert(records::cell_rows(pending@ + rows@) =~= records::cell_rows(pending@)
        + records::cell_rows(rows@));
    all.append(&mut more);
    if all.len() >= limit {
        let mut runs: Vec<Vec<Vec<Cell>>> = cut_rows(all, limit);
        assert(run_rows(batches@ + runs@) =~= run_rows(batches@) + run_rows(runs@));
        batches.append(&mut runs);
        let kept: Vec<Vec<Cell>> = Vec::new();
        assert(records::cell_rows(kept@) =~= seq![]);
        kept
    } else {
        all
    }
}

/// What is written for the procedures of airports.
pub struct ProcedurePlan {
    /// How many files there are.
    pub files: usize,
    /// How many legs are written.
    pub processed: usize,
    /// The statement that inserts a leg.
    pub insert: String,
    /// The rows, in runs that are written together.
    pub batches: Vec<Vec<Vec<Cell>>>,
}

/// Lays out the legs of one file, answering their requests.
pub fn build_terminal_cifp_records_with_matcher(
    file: &AirportFile,
    coords: &CoordinateMatcher,
    matcher: &RefTableMatcher,
    cache: &mut MatchCache,
    config: &TerminalProcedureConfig,
) -> (out: Vec<Vec<Cell>>)
    requires
        coords.wf(),
        matcher.wf(),
        old(cache).wf(),
        file.measures@.len() == 3 * file.legs@.len(),
    ensures
        final(cache).wf(),
        final(cache)@ == leg_fixes::remembered(
            old(cache)@,
            file_keys(*coords, *file),
            leg_fixes::fresh_results(*matcher, file_requests(*coords, *file), file.measures@),
        ),
        records::cell_rows(out@) == leg_rows::file_rows(
            text::views(file.legs@),
            airport_of(file.name@),
            leg_fixes::answers(final(cache)@, file_keys(*coords, *file)),
            config.leg_layout(),
            procedure_columns(),
        ),
{
    let airport: String = file_airport(file.name.as_str());
    let requests: Vec<RefRequest> = leg_fixes::list_requests(coords, &file.legs, airport.as_str());
    proof {
        leg_fixes::three_requests_per_leg(*coords, text::views(file.legs@), airport@);
        assert(text::views(requests@).len() == requests@.len());
    }
    let results: Vec<RefMatchResult> = leg_fixes::match_ref_requests(
        matcher,
        cache,
        &requests,
        &file.measures,
    );
    leg_rows::build_file_rows(
        &file.legs,
        airport.as_str(),
        &results,
        &config.layout(),
        &list_procedure_columns(),
    )
}

/// Plans what is written for the procedures in the files of airports.
pub fn process_terminal_cifp_to_db(
    files: &Vec<AirportFile>,
    coords: &CoordinateMatcher,
    matcher: &RefTableMatcher,
    config: &TerminalProcedureConfig,
) -> (r: Result<ProcedurePlan, UnsupportedProcedureTable>)
    requires
        coords.wf(),
        matcher.wf(),
        forall|i: int|
            0 <= i < files@.len() ==> (#[trigger] files@[i]).measures@.len() == 3
                * files@[i].legs@.len(),
        leg_count(files@) <= usize::MAX,
    ensures
        match r {
            Ok(plan) => {
                &&& procedure_table(config.table_name@)
                &&& plan.files == files@.len()
                &&& plan.processed == leg_count(files@)
                &&& plan.insert@ == records::fixed_insert(
                    "INSERT OR IGNORE"@,
                    config.table_name@,
                    procedure_columns(),
                )
                &&& run_rows(plan.batches@) == db::batches(
                    all_planned_rows(*coords, *matcher, *config, files@),
                    run_limit(config.batch_size as int),
                )
            },
            Err(_) => !procedure_table(config.table_name@),
        },
{
    let insert: String = match build_insert_sql(config.table_name.as_str()) {
        Ok(sql) => sql,
        Err(error) => return Err(error),
    };
    let limit: usize = if config.batch_size < 1 {
        1
    } else {
        config.batch_size
    };
    let ghost groups = all_planned_rows(*coords, *matcher, *config, files@);
    let mut cache: MatchCache = MatchCache::new();
    let mut processed: usize = 0;
    let mut pending: Vec<Vec<Cell>> = Vec::new();
    let mut batches: Vec<Vec<Vec<Cell>>> = Vec::new();
    assert(groups.take(0).len() == 0);
    assert(files@.take(0).len() == 0);
    assert(run_rows(batches@) =~= seq![]);
    assert(records::cell_rows(pending@) =~= seq![]);
    for n in 0..files.len()
        invariant
            coords.wf(),
            matcher.wf(),
            cache.wf(),
            forall|i: int|
                0 <= i < files@.len() ==> (#[trigger] files@[i]).measures@.len() == 3
                    * files@[i].legs@.len(),
            leg_count(files@) <= usize::MAX,
            limit > 0,
            groups == all_planned_rows(*coords, *matcher, *config, files@),
            cache@ == memory_after(*coords, *matcher, files@, n as int),
            processed == leg_count(files@.take(n as int)),
            run_rows(batches@) == db::flushed(groups.take(n as int), limit as int).0,
            records::cell_rows(pending@) == db::flushed(groups.take(n as int), limit as int).1,
    {
        proof {
            assert(files@.take(n + 1).drop_last() == files@.take(n as int));
            lemma_leg_count_grows(files@, n + 1);
        }
        let rows: Vec<Vec<Cell>> = build_terminal_cifp_records_with_matcher(
            &files[n],
            coords,
            matcher,
            &mut cache,
            config,
        );
        assert(records::cell_rows(rows@) == groups[n as int]);
        processed = processed + files[n].legs.len();
        proof {
            lemma_flushed_step(groups, n as int, limit as int);
        }
        pending = hold_rows(&mut batches, pending, rows, limit);
    }
    assert(groups.take(files@.len() as int) == groups);
    assert(files@.take(files@.len() as int) == files@);
    let mut runs: Vec<Vec<Vec<Cell>>> = cut_rows(pending, limit);
    assert(run_rows(batches@ + runs@) =~= run_rows(batches@) + run_rows(runs@));
    batches.append(&mut runs);
    Ok(ProcedurePlan { files: files.len(), processed, insert, batches })
}

/// Once the procedures of a file have been written, none of its legs is new any more.
pub proof fn written_procedures_are_skipped(
    lines: Seq<Seq<char>>,
    config: TerminalProcedureConfig,
    airport: Seq<char>,
    existing: Seq<Seq<Seq<char>>>,
    after: Seq<Seq<Seq<char>>>,
)
    requires
        forall|key: Seq<Seq<char>>| #[trigger] existing.contains(key) ==> after.contains(key),
        forall|i: int|
            0 <= i < new_legs(lines, config, airport, existing).len() ==> after.contains(
                procedure_key(
                    airport,
                    legs::leg_field(#[trigger] new_legs(lines, config, airport, existing)[i], 2),
                ),
            ),
    ensures
        new_legs(lines, config, airport, after).len() == 0,
    decreases lines.len(),
{
    if lines.len() > 0 {
        let init = lines.drop_last();
        let all = new_legs(lines, config, airport, existing);
        let part = new_legs(init, config, airport, existing);
        assert forall|i: int| 0 <= i < part.len() implies after.contains(
            procedure_key(airport, legs::leg_field(#[trigger] part[i], 2)),
        ) by {
            assert(all[i] == part[i]);
        }
        written_procedures_are_skipped(init, config, airport, existing, after);
        let f = leg_chooser(config.cifp_prefix@, config.min_fields as int, airport, existing);
        match f(lines.len() - 1, lines.last()) {
            Some(fields) => {
                assert(all[part.len() as int] == fields);
            },
            None => {},
        }
    }
}

/// A file belongs to an airport that is covered where its name ends in `.dat` and begins with a
/// covered prefix; its airport is what stands before the first dot.
pub proof fn files_belong_to_the_airport_before_the_dot(
    name: Seq<char>,
    prefixes: Seq<Seq<char>>,
    airport: Seq<char>,
    i: int,
)
    requires
        name == airport + seq!['.', 'd', 'a', 't'],
        !airport.contains('.'),
    ensures
        airport_of(name) == airport,
        0 <= i < prefixes.len() && prefixes[i].is_prefix_of(name) ==> covered_file(name, prefixes),
        (forall|k: int| 0 <= k < prefixes.len() ==> !(#[trigger] prefixes[k]).is_prefix_of(name))
            ==> !covered_file(name, prefixes),
{
    reveal_strlit(".dat");
    assert(".dat"@ =~= seq!['.', 'd', 'a', 't']);
    assert(name.skip(airport.len() as int) =~= ".dat"@);
    assert(text::ends(name, ".dat"@));
    assert(name =~= airport + seq!['.'] + seq!['d', 'a', 't']);
    text::lemma_index_behind(airport, seq!['d', 'a', 't'], '.');
    assert(name.take(airport.len() as int) =~= airport);
}

/// A name without the ending is not covered.
pub proof fn only_data_files_are_covered(name: Seq<char>, prefixes: Seq<Seq<char>>)
    requires
        name.len() < 4 || name[name.len() - 4] != '.' || name[name.len() - 3] != 'd'
            || name[name.len() - 2] != 'a' || name[name.len() - 1] != 't',
    ensures
        !covered_file(name, prefixes),
{
    reveal_strlit(".dat");
    assert(".dat"@ =~= seq!['.', 'd', 'a', 't']);
    if text::ends(name, ".dat"@) {
        let end = name.skip(name.len() - 4);
        assert(end[0] == ".dat"@[0] && end[1] == ".dat"@[1] && end[2] == ".dat"@[2] && end[3]
            == ".dat"@[3]);
    }
}

/// The legs that are written are the lines of the procedure's kind whose procedure the table does
/// not have.
pub proof fn legs_of_unknown_procedures_are_written(
    lines: Seq<Seq<char>>,
    config: TerminalProcedureConfig,
    airport: Seq<char>,
    existing: Seq<Seq<Seq<char>>>,
    fields: Seq<Seq<char>>,
)
    ensures
        new_legs(lines, config, airport, existing).contains(fields) <==> exists|i: int|
            0 <= i < lines.len() && parsers::cifp_fields(
                #[trigger] lines[i],
                config.cifp_prefix@,
                config.min_fields as int,
            ) == Some(fields) && !existing.contains(
                match legs::leg_field(fields, 2) {
                    Some(name) => seq![airport, name],
                    None => seq![airport],
                },
            ),
{
    let f = leg_chooser(config.cifp_prefix@, config.min_fields as int, airport, existing);
    text::lemma_collect_contains(lines, f, fields);
    assert forall|i: int| 0 <= i < lines.len() implies (f(i, #[trigger] lines[i]) == Some(fields)
        <==> parsers::cifp_fields(lines[i], config.cifp_prefix@, config.min_fields as int) == Some(
        fields,
    ) && !existing.contains(
        match legs::leg_field(fields, 2) {
            Some(name) => seq![airport, name],
            None => seq![airport],
        },
    )) by {}
}

/// The identifiers that a line needs are its waypoint, its recommended navigation aid and its
/// center, where the line is of the procedure's kind.
pub proof fn a_line_needs_its_three_fixes(
    line: Seq<char>,
    prefix: Seq<char>,
    identifier: Seq<char>,
)
    ensures
        required_on_line(line, prefix).contains(identifier) <==> {
            let fields = text::trimmed_pieces(
                Blank::Ascii,
                text::trim_end(Blank::LineEnd, line),
                ',',
            );
            &&& prefix.is_prefix_of(line)
            &&& identifier.len() > 0
            &&& (4 < fields.len() && fields[4] == identifier || 13 < fields.len() && fields[13]
                == identifier || 30 < fields.len() && fields[30] == identifier)
        },
{
    let fields = text::trimmed_pieces(Blank::Ascii, text::trim_end(Blank::LineEnd, line), ',');
    let a = required_at(fields, 4);
    let b = required_at(fields, 13);
    let c = required_at(fields, 30);
    let all = a + b + c;
    if prefix.is_prefix_of(line) {
        assert(required_on_line(line, prefix) == all);
        if all.contains(identifier) {
            let k = choose|k: int| 0 <= k < all.len() && all[k] == identifier;
            if k < a.len() {
                assert(a[k] == identifier);
            } else if k < a.len() + b.len() {
                assert(b[k - a.len()] == identifier);
            } else {
                assert(c[k - a.len() - b.len()] == identifier);
            }
        }
        if a.len() > 0 {
            assert(all[0] == a[0]);
        }
        if b.len() > 0 {
            assert(all[a.len() as int] == b[0]);
        }
        if c.len() > 0 {
            assert(all[(a.len() + b.len()) as int] == c[0]);
        }
    }
}

/// Procedures are written to three tables and to no other.
pub proof fn procedures_have_three_tables(table: Seq<char>)
    ensures
        procedure_table("tbl_sids"@),
        procedure_table("tbl_stars"@),
        procedure_table("tbl_iaps"@),
        procedure_table(table) ==> table == "tbl_sids"@ || table == "tbl_stars"@ || table
            == "tbl_iaps"@,
{
}

/// Legs are grouped where authorization is computed or approaches are written; only approaches are
/// laid out as such, and the sequence number is cut where the settings say.
pub proof fn the_layout_follows_the_settings(config: TerminalProcedureConfig)
    ensures
        config.leg_layout().seqno_start == config.seqno_start,
        config.leg_layout().seqno_end == config.seqno_end,
        config.leg_layout().grouping <==> config.use_iaps_logic || config.compute_auth,
        config.leg_layout().iaps == config.use_iaps_logic,
        run_limit(config.batch_size as int) >= 1,
        config.batch_size >= 1 ==> run_limit(config.batch_size as int) == config.batch_size,
{
}

/// The procedures of airports are asked for by airport, from the table that is written to.
pub proof fn known_procedures_are_asked_for_by_airport(
    table: Seq<char>,
    airports: Seq<Seq<char>>,
)
    ensures
        known_query(table, airports).parameters == airports,
        known_query(table, airports).sql
            == "SELECT airport_identifier, procedure_identifier FROM "@ + db::quoted_identifier(
            table,
        ) + " WHERE airport_identifier IN ("@ + db::placeholders(airports.len()) + ")"@,
{
}

/// The rows of a file are laid out for the airport of that file, from its own legs, with the answers
/// to its own requests.
pub proof fn the_rows_of_a_file_are_its_own(
    coords: CoordinateMatcher,
    matcher: RefTableMatcher,
    config: TerminalProcedureConfig,
    files: Seq<AirportFile>,
    n: int,
)
    requires
        0 <= n < files.len(),
    ensures
        all_planned_rows(coords, matcher, config, files).len() == files.len(),
        all_planned_rows(coords, matcher, config, files)[n] == leg_rows::file_rows(
            text::views(files[n].legs@),
            airport_of(files[n].name@),
            leg_fixes::answers(
                memory_after(coords, matcher, files, n + 1),
                leg_fixes::request_keys(
                    text::flat_collect(
                        text::views(files[n].legs@),
                        leg_fixes::leg_requester(coords, airport_of(files[n].name@)),
                    ),
                    files[n].measures@,
                ),
            ),
            config.leg_layout(),
            procedure_columns(),
        ),
{
}

/// No column of a procedure is left out.
pub proof fn every_column_is_written()
    ensures
        procedure_columns().len() == 37,
        procedure_columns().contains("area_code"@),
        procedure_columns().contains("airport_identifier"@),
        procedure_columns().contains("procedure_identifier"@),
        procedure_columns().contains("route_type"@),
        procedure_columns().contains("transition_identifier"@),
        procedure_columns().contains("seqno"@),
        procedure_columns().contains("waypoint_icao_code"@),
        procedure_columns().contains("waypoint_identifier"@),
        procedure_columns().contains("waypoint_latitude"@),
        procedure_columns().contains("waypoint_longitude"@),
        procedure_columns().contains("waypoint_description_code"@),
        procedure_columns().contains("turn_direction"@),
        procedure_columns().contains("rnp"@),
        procedure_columns().contains("path_termination"@),
        procedure_columns().contains("recommanded_navaid"@),
        procedure_columns().contains("recommanded_navaid_latitude"@),
        procedure_columns().contains("recommanded_navaid_longitude"@),
        procedure_columns().contains("arc_radius"@),
        procedure_columns().contains("theta"@),
        procedure_columns().contains("rho"@),
        procedure_columns().contains("magnetic_course"@),
        procedure_columns().contains("route_distance_holding_distance_time"@),
        procedure_columns().contains("distance_time"@),
        procedure_columns().contains("altitude_description"@),
        procedure_columns().contains("altitude1"@),
        procedure_columns().contains("altitude2"@),
        procedure_columns().contains("transition_altitude"@),
        procedure_columns().contains("speed_limit_description"@),
        procedure_columns().contains("speed_limit"@),
        procedure_columns().contains("vertical_angle"@),
        procedure_columns().contains("center_waypoint"@),
        procedure_columns().contains("center_waypoint_latitude"@),
        procedure_columns().contains("center_waypoint_longitude"@),
        procedure_columns().contains("aircraft_category"@),
        procedure_columns().contains("id"@),
        procedure_columns().contains("recommanded_id"@),
        procedure_columns().contains("center_id"@),
{
    assert(procedure_columns()[0] == "area_code"@);
    assert(procedure_columns()[1] == "airport_identifier"@);
    assert(procedure_columns()[2] == "procedure_identifier"@);
    assert(procedure_columns()[3] == "route_type"@);
    assert(procedure_columns()[4] == "transition_identifier"@);
    assert(procedure_columns()[5] == "seqno"@);
    assert(procedure_columns()[6] == "waypoint_icao_code"@);
    assert(procedure_columns()[7] == "waypoint_identifier"@);
    assert(procedure_columns()[8] == "waypoint_latitude"@);
    assert(procedure_columns()[9] == "waypoint_longitude"@);
    assert(procedure_columns()[10] == "waypoint_description_code"@);
    assert(procedure_columns()[11] == "turn_direction"@);
    assert(procedure_columns()[12] == "rnp"@);
    assert(procedure_columns()[13] == "path_termination"@);
    assert(procedure_columns()[14] == "recommanded_navaid"@);
    assert(procedure_columns()[15] == "recommanded_navaid_latitude"@);
    assert(procedure_columns()[16] == "recommanded_navaid_longitude"@);
    assert(procedure_columns()[17] == "arc_radius"@);
    assert(procedure_columns()[18] == "theta"@);
    assert(procedure_columns()[19] == "rho"@);
    assert(procedure_columns()[20] == "magnetic_course"@);
    assert(procedure_columns()[21] == "route_distance_holding_distance_time"@);
    assert(procedure_columns()[22] == "distance_time"@);
    assert(procedure_columns()[23] == "altitude_description"@);
    assert(procedure_columns()[24] == "altitude1"@);
    assert(procedure_columns()[25] == "altitude2"@);
    assert(procedure_columns()[26] == "transition_altitude"@);
    assert(procedure_columns()[27] == "speed_limit_description"@);
    assert(procedure_columns()[28] == "speed_limit"@);
    assert(procedure_columns()[29] == "vertical_angle"@);
    assert(procedure_columns()[30] == "center_waypoint"@);
    assert(procedure_columns()[31] == "center_waypoint_latitude"@);
    assert(procedure_columns()[32] == "center_waypoint_longitude"@);
    assert(procedure_columns()[33] == "aircraft_category"@);
    assert(procedure_columns()[34] == "id"@);
    assert(procedure_columns()[35] == "recommanded_id"@);
    assert(procedure_columns()[36] == "center_id"@);
}

/// The airports of files are those before their dots, each once.
pub proof fn the_airports_of_files_stand_before_their_dots(
    names: Seq<Seq<char>>,
    prefixes: Seq<Seq<char>>,
    airport: Seq<char>,
)
    ensures
        file_airports(names).no_duplicates(),
        file_airports(names).contains(airport) <==> airport.len() > 0 && exists|i: int|
            0 <= i < names.len() && airport_of(#[trigger] names[i]) == airport,
        text::collect(names, file_chooser(prefixes)).contains(airport) <==> covered_file(
            airport,
            prefixes,
        ) && names.contains(airport),
{
    let f = airport_chooser();
    let g = file_chooser(prefixes);
    let all = text::collect(names, f);
    keyed::lemma_distinct(all);
    text::lemma_collect_contains(names, f, airport);
    text::lemma_collect_contains(names, g, airport);
    assert(file_airports(names).contains(airport) <==> all.contains(airport));
    assert forall|i: int| 0 <= i < names.len() implies (f(i, #[trigger] names[i]) == Some(airport)
        <==> airport.len() > 0 && airport_of(names[i]) == airport) && (g(i, names[i]) == Some(
        airport,
    ) <==> covered_file(airport, prefixes) && names[i] == airport) by {}
}

/// The procedures of one airport that are written anew are deleted before: departures and arrivals
/// by their names, approaches by their first letter.
pub proof fn procedures_of_one_airport_are_deleted_before(table: Seq<char>)
    ensures
        zuls_delete("tbl_sids"@) matches Some(query) && query.parameters == seq![
            "ZULS"@,
            "DEP%"@,
            "EO%"@,
        ] && query.sql == "DELETE FROM "@ + db::quoted_identifier("tbl_sids"@)
            + " WHERE airport_identifier = ?1 AND "@
            + "(procedure_identifier LIKE ?2 OR procedure_identifier LIKE ?3)"@,
        zuls_delete("tbl_stars"@) matches Some(query) && query.parameters == seq![
            "ZULS"@,
            "DUM08A"@,
            "DUM09A"@,
            "DUM10A"@,
            "DUM28A"@,
            "IGD10A"@,
            "IGD28A"@,
            "IKU10A"@,
            "IKU28A"@,
        ] && query.sql == "DELETE FROM "@ + db::quoted_identifier("tbl_stars"@)
            + " WHERE airport_identifier = ?1 AND "@ + "procedure_identifier IN ("@
            + db::placeholders(8) + ")"@,
        zuls_delete("tbl_iaps"@) matches Some(query) && query.parameters == seq!["ZULS"@, "R%"@]
            && query.sql == "DELETE FROM "@ + db::quoted_identifier("tbl_iaps"@)
            + " WHERE airport_identifier = ?1 AND "@ + "procedure_identifier LIKE ?2"@,
        table != "tbl_sids"@ && table != "tbl_stars"@ && table != "tbl_iaps"@ ==> zuls_delete(table)
            is None,
{
    reveal_strlit("tbl_sids");
    reveal_strlit("tbl_stars");
    reveal_strlit("tbl_iaps");
    assert("tbl_sids"@.len() == 8);
    assert("tbl_stars"@.len() == 9);
    assert("tbl_iaps"@.len() == 8);
    assert("tbl_sids"@[4] != "tbl_iaps"@[4]);
}

/// Known procedures are asked for of every airport, in runs, and the legs of files are counted
/// together.
pub proof fn every_airport_is_asked_for(
    table: Seq<char>,
    airports: Seq<Seq<char>>,
    files: Seq<AirportFile>,
    file: AirportFile,
)
    ensures
        0 < airports.len() <= 999 ==> known_queries(table, airports) == seq![
            known_query(table, airports),
        ],
        airports.len() > 999 ==> known_queries(table, airports)[0] == known_query(
            table,
            airports.take(999),
        ),
        leg_count(files.push(file)) == leg_count(files) + file.legs@.len(),
        leg_count(Seq::empty()) == 0,
{
    assert(files.push(file).drop_last() =~= files);
}

/// What is remembered after a file are the answers to its requests, beside what was remembered
/// before it.
pub proof fn answers_are_remembered_from_file_to_file(
    coords: CoordinateMatcher,
    matcher: RefTableMatcher,
    files: Seq<AirportFile>,
    n: int,
)
    requires
        0 <= n < files.len(),
    ensures
        memory_after(coords, matcher, files, 0) == Map::<
            MatchCacheKey<Seq<char>>,
            RefMatchResult,
        >::empty(),
        ({
            let requests = text::flat_collect(
                text::views(files[n].legs@),
                leg_fixes::leg_requester(coords, airport_of(files[n].name@)),
            );
            memory_after(coords, matcher, files, n + 1) == leg_fixes::remembered(
                memory_after(coords, matcher, files, n),
                leg_fixes::request_keys(requests, files[n].measures@),
                leg_fixes::fresh_results(matcher, requests, files[n].measures@),
            )
        }),
{
}

/// The identifiers of a file are those of its lines.
pub proof fn the_identifiers_of_a_file_are_those_of_its_lines(
    lines: Seq<Seq<char>>,
    prefix: Seq<char>,
    identifier: Seq<char>,
)
    ensures
        text::flat_collect(lines, required_reader(prefix)).contains(identifier) <==> exists|i: int|
            0 <= i < lines.len() && required_on_line(#[trigger] lines[i], prefix).contains(
                identifier,
            ),
    decreases lines.len(),
{
    let f = required_reader(prefix);
    if lines.len() > 0 {
        let init = lines.drop_last();
        let last = lines.len() - 1;
        the_identifiers_of_a_file_are_those_of_its_lines(init, prefix, identifier);
        let before = text::flat_collect(init, f);
        let own = required_on_line(lines[last], prefix);
        let all = text::flat_collect(lines, f);
        assert(all == before + own);
        if all.contains(identifier) {
            let k = choose|k: int| 0 <= k < all.len() && all[k] == identifier;
            if k < before.len() {
                assert(before[k] == identifier);
                let i = choose|i: int|
                    0 <= i < init.len() && required_on_line(#[trigger] init[i], prefix).contains(
                        identifier,
                    );
                assert(lines[i] == init[i]);
            } else {
                assert(own[k - before.len()] == identifier);
            }
        }
        if exists|i: int|
            0 <= i < lines.len() && required_on_line(#[trigger] lines[i], prefix).contains(
                identifier,
            ) {
            let i = choose|i: int|
                0 <= i < lines.len() && required_on_line(#[trigger] lines[i], prefix).contains(
                    identifier,
                );
            if i < last {
                assert(init[i] == lines[i]);
                let k = choose|k: int| 0 <= k < before.len() && before[k] == identifier;
                assert(all[k] == identifier);
            } else {
                let k = choose|k: int| 0 <= k < own.len() && own[k] == identifier;
                assert(all[before.len() + k] == identifier);
            }
        }
    }
}

/// A scan is known by its directory and its prefixes, in whatever order they are given.
pub proof fn a_scan_is_known_by_directory_and_prefixes(
    directory: Seq<char>,
    prefixes: Seq<Seq<char>>,
)
    ensures
        scan_key(directory, prefixes) == directory + "|"@ + db::joined(
            sorting::sorted_texts(prefixes),
            ","@,
        ),
{
}

} // verus!
