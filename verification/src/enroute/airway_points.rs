//! Resolving route points: their ICAO codes and positions.

use crate::db;
use crate::double::Point;
use crate::enroute::airways::{AirwayCodeType, ParsedAirwayCsvRow};
use crate::keyed;
use crate::keyed::TextSet;
use crate::matchers::IcaoCodeResolver;
use crate::text;
use crate::text::Blank;
use vstd::hash_map::StringHashMap;
use vstd::prelude::*;

verus! {

/// The identifiers of one kind that a row names: its start point, then its end point.
pub open spec fn row_identifiers(
    row: ParsedAirwayCsvRow<Seq<char>, u64>,
    kind: AirwayCodeType,
) -> Seq<Seq<char>> {
    let start = if row.start_code_type == kind && row.start_waypoint.len() > 0 {
        seq![row.start_waypoint]
    } else {
        seq![]
    };
    let end = match row.end_waypoint {
        Some(end) if end.len() > 0 && row.end_code_type == Some(kind) => seq![end],
        _ => seq![],
    };
    start + end
}

/// The identifiers of one kind, row by row.
pub open spec fn identifier_reader(kind: AirwayCodeType) -> spec_fn(
    int,
    ParsedAirwayCsvRow<Seq<char>, u64>,
) -> Seq<Seq<char>> {
    |i: int, row: ParsedAirwayCsvRow<Seq<char>, u64>| row_identifiers(row, kind)
}

/// The identifiers of one kind that the rows name, each once.
pub open spec fn kind_identifiers(
    rows: Seq<ParsedAirwayCsvRow<Seq<char>, u64>>,
    kind: AirwayCodeType,
) -> Seq<Seq<char>> {
    keyed::distinct(text::flat_collect(rows, identifier_reader(kind)))
}

/// The identifiers of the points of the routes, by kind.
pub struct ResolverIdentifierSets {
    pub fix_identifiers: TextSet,
    pub vor_dme_identifiers: TextSet,
    pub ndb_identifiers: TextSet,
}

fn collect_kind(rows: &Vec<ParsedAirwayCsvRow>, kind: AirwayCodeType) -> (r: TextSet)
    ensures
        r.wf(),
        r@ == kind_identifiers(text::views(rows@), kind),
{
    let ghost all = text::views(rows@);
    let ghost f = identifier_reader(kind);
    let mut r: TextSet = TextSet::new();
    assert(all.take(0).len() == 0);
    for i in 0..rows.len()
        invariant
            r.wf(),
            all == text::views(rows@),
            f == identifier_reader(kind),
            r@ == keyed::distinct(text::flat_collect(all.take(i as int), f)),
    {
        let ghost whole = text::flat_collect(all.take(i as int), f);
        let ghost mut done = whole;
        proof {
            text::lemma_flat_collect_step(all, f, i as int);
            assert(all[i as int] == rows@[i as int]@);
        }
        if rows[i].start_code_type == kind && !text::is_empty(rows[i].start_waypoint.as_str()) {
            r.insert(rows[i].start_waypoint.as_str());
            proof {
                keyed::lemma_distinct_push(whole, rows@[i as int].start_waypoint@);
                done = whole.push(rows@[i as int].start_waypoint@);
            }
        }
        let matching: bool = match rows[i].end_code_type {
            Some(end_kind) => end_kind == kind,
            None => false,
        };
        match &rows[i].end_waypoint {
            Some(end) => {
                if matching && !text::is_empty(end.as_str()) {
                    r.insert(end.as_str());
                    proof {
                        keyed::lemma_distinct_push(done, end@);
                        done = done.push(end@);
                    }
                }
            },
            None => {},
        }
        assert(done =~= text::flat_collect(all.take(i + 1), f));
    }
    assert(all.take(rows@.len() as int) == all);
    r
}

/// Collects the identifiers of the points of the routes, by kind.
pub fn collect_airways_resolver_identifiers(rows: &Vec<ParsedAirwayCsvRow>) -> (r:
    ResolverIdentifierSets)
    ensures
        r.fix_identifiers.wf(),
        r.vor_dme_identifiers.wf(),
        r.ndb_identifiers.wf(),
        r.fix_identifiers@ == kind_identifiers(
            text::views(rows@),
            AirwayCodeType::DesignatedPoint,
        ),
        r.vor_dme_identifiers@ == kind_identifiers(text::views(rows@), AirwayCodeType::VorDme),
        r.ndb_identifiers@ == kind_identifiers(text::views(rows@), AirwayCodeType::Ndb),
{
    ResolverIdentifierSets {
        fix_identifiers: collect_kind(rows, AirwayCodeType::DesignatedPoint),
        vor_dme_identifiers: collect_kind(rows, AirwayCodeType::VorDme),
        ndb_identifiers: collect_kind(rows, AirwayCodeType::Ndb),
    }
}

/// The regions in which route points are resolved.
pub open spec fn resolved_region(icao: Seq<char>) -> bool {
    ||| icao == "ZB"@
    ||| icao == "ZS"@
    ||| icao == "ZJ"@
    ||| icao == "ZG"@
    ||| icao == "ZY"@
    ||| icao == "ZL"@
    ||| icao == "ZU"@
    ||| icao == "ZW"@
    ||| icao == "ZP"@
    ||| icao == "ZH"@
    ||| icao == "ZZ"@
    ||| icao == "VM"@
    ||| icao == "VH"@
    ||| icao == "RK"@
}

fn is_resolved_region(icao: &str) -> (r: bool)
    ensures
        r == resolved_region(icao@),
{
    text::same(icao, "ZB") || text::same(icao, "ZS") || text::same(icao, "ZJ") || text::same(
        icao,
        "ZG",
    ) || text::same(icao, "ZY") || text::same(icao, "ZL") || text::same(icao, "ZU") || text::same(
        icao,
        "ZW",
    ) || text::same(icao, "ZP") || text::same(icao, "ZH") || text::same(icao, "ZZ") || text::same(
        icao,
        "VM",
    ) || text::same(icao, "VH") || text::same(icao, "RK")
}

/// The identifier and ICAO code of the wanted enroute fix on a line.
pub open spec fn earth_fix(line: Seq<char>, required: Seq<Seq<char>>) -> Option<
    (Seq<char>, Seq<char>),
> {
    let w = text::words(Blank::Ascii, line);
    if w.len() >= 5 && required.contains(w[2]) && w[3] == "ENRT"@ && resolved_region(w[4]) {
        Some((w[2], w[4]))
    } else {
        None
    }
}

/// The identifier, type and ICAO code of the wanted enroute navigation aid on a line.
pub open spec fn earth_nav(
    line: Seq<char>,
    required_vor_dme: Seq<Seq<char>>,
    required_ndb: Seq<Seq<char>>,
) -> Option<(Seq<char>, Seq<char>, Seq<char>)> {
    let w = text::words(Blank::Ascii, line);
    if {
        &&& w.len() >= 11
        &&& w[8] == "ENRT"@
        &&& resolved_region(w[9])
        &&& (w.last() == "VOR/DME"@ && required_vor_dme.contains(w[7])) || (w.last() == "NDB"@
            && required_ndb.contains(w[7]))
    } {
        Some((w[7], w.last(), w[9]))
    } else {
        None
    }
}

/// The wanted fixes, line by line.
pub open spec fn earth_fix_reader(required: Seq<Seq<char>>) -> spec_fn(int, Seq<char>) -> Option<
    (Seq<char>, Seq<char>),
> {
    |i: int, line: Seq<char>| earth_fix(line, required)
}

/// The wanted navigation aids, line by line.
pub open spec fn earth_nav_reader(
    required_vor_dme: Seq<Seq<char>>,
    required_ndb: Seq<Seq<char>>,
) -> spec_fn(int, Seq<char>) -> Option<(Seq<char>, Seq<char>, Seq<char>)> {
    |i: int, line: Seq<char>| earth_nav(line, required_vor_dme, required_ndb)
}

fn parse_earth_fix(line: &str, required: &TextSet) -> (r: Option<(String, String)>)
    requires
        required.wf(),
    ensures
        text::opt(r) == earth_fix(line@, required@),
{
    let w: Vec<String> = text::split_words(Blank::Ascii, &text::chars_of(line));
    let ghost v = text::views(w@);
    assert(v == text::words(Blank::Ascii, line@));
    assert(forall|k: int| 0 <= k < w@.len() ==> v[k] == w@[k]@);
    if w.len() < 5 {
        return None;
    }
    if required.contains(w[2].as_str()) && text::same(w[3].as_str(), "ENRT") && is_resolved_region(
        w[4].as_str(),
    ) {
        Some((w[2].clone(), w[4].clone()))
    } else {
        None
    }
}

fn parse_earth_nav(line: &str, required_vor_dme: &TextSet, required_ndb: &TextSet) -> (r: Option<
    (String, String, String),
>)
    requires
        required_vor_dme.wf(),
        required_ndb.wf(),
    ensures
        text::opt(r) == earth_nav(line@, required_vor_dme@, required_ndb@),
{
    let w: Vec<String> = text::split_words(Blank::Ascii, &text::chars_of(line));
    let ghost v = text::views(w@);
    assert(v == text::words(Blank::Ascii, line@));
    assert(forall|k: int| 0 <= k < w@.len() ==> v[k] == w@[k]@);
    if w.len() < 11 {
        return None;
    }
    let last: usize = w.len() - 1;
    if !text::same(w[8].as_str(), "ENRT") || !is_resolved_region(w[9].as_str()) {
        return None;
    }
    if (text::same(w[last].as_str(), "VOR/DME") && required_vor_dme.contains(w[7].as_str())) || (
    text::same(w[last].as_str(), "NDB") && required_ndb.contains(w[7].as_str())) {
        Some((w[7].clone(), w[last].clone(), w[9].clone()))
    } else {
        None
    }
}

/// The wanted enroute fixes of a file, given line by line, with their ICAO codes.
pub fn load_earth_fix_items(lines: &Vec<String>, required: &TextSet) -> (out: Vec<
    (String, String),
>)
    requires
        required.wf(),
    ensures
        text::views(out@) == text::collect(text::views(lines@), earth_fix_reader(required@)),
{
    let mut out: Vec<(String, String)> = Vec::new();
    let ghost all = text::views(lines@);
    let ghost f = earth_fix_reader(required@);
    assert(all.take(0).len() == 0);
    assert(text::views(out@) =~= text::collect(all.take(0), f));
    for i in 0..lines.len()
        invariant
            required.wf(),
            all == text::views(lines@),
            f == earth_fix_reader(required@),
            text::views(out@) == text::collect(all.take(i as int), f),
    {
        proof {
            text::lemma_collect_step(all, f, i as int);
            assert(all[i as int] == lines@[i as int]@);
        }
        match parse_earth_fix(lines[i].as_str(), required) {
            Some(item) => {
                proof {
                    text::lemma_views_push(out@, item);
                }
                out.push(item);
            },
            None => {},
        }
    }
    assert(all.take(lines@.len() as int) == all);
    out
}

/// The wanted enroute navigation aids of a file, given line by line, with types and ICAO codes.
pub fn load_earth_nav_items(
    lines: &Vec<String>,
    required_vor_dme: &TextSet,
    required_ndb: &TextSet,
) -> (out: Vec<(String, String, String)>)
    requires
        required_vor_dme.wf(),
        required_ndb.wf(),
    ensures
        text::views(out@) == text::collect(
            text::views(lines@),
            earth_nav_reader(required_vor_dme@, required_ndb@),
        ),
{
    let mut out: Vec<(String, String, String)> = Vec::new();
    let ghost all = text::views(lines@);
    let ghost f = earth_nav_reader(required_vor_dme@, required_ndb@);
    assert(all.take(0).len() == 0);
    assert(text::views(out@) =~= text::collect(all.take(0), f));
    for i in 0..lines.len()
        invariant
            required_vor_dme.wf(),
            required_ndb.wf(),
            all == text::views(lines@),
            f == earth_nav_reader(required_vor_dme@, required_ndb@),
            text::views(out@) == text::collect(all.take(i as int), f),
    {
        proof {
            text::lemma_collect_step(all, f, i as int);
            assert(all[i as int] == lines@[i as int]@);
        }
        match parse_earth_nav(lines[i].as_str(), required_vor_dme, required_ndb) {
            Some(item) => {
                proof {
                    text::lemma_views_push(out@, item);
                }
                out.push(item);
            },
            None => {},
        }
    }
    assert(all.take(lines@.len() as int) == all);
    out
}

/// The resolver for the points of the routes, from the lines of the two data files.
pub fn get_scoped_airways_icao_resolver(
    fix_lines: &Vec<String>,
    nav_lines: &Vec<String>,
    identifiers: &ResolverIdentifierSets,
) -> (r: IcaoCodeResolver)
    requires
        identifiers.fix_identifiers.wf(),
        identifiers.vor_dme_identifiers.wf(),
        identifiers.ndb_identifiers.wf(),
    ensures
        forall|id: Seq<char>| #[trigger]
            r.fix_icao(id) == crate::matchers::last_icao(
                text::collect(
                    text::views(fix_lines@),
                    earth_fix_reader(identifiers.fix_identifiers@),
                ),
                id,
            ),
        forall|id: Seq<char>| #[trigger]
            r.vor_dme_icao(id) == crate::matchers::last_nav_icao(
                text::collect(
                    text::views(nav_lines@),
                    earth_nav_reader(
                        identifiers.vor_dme_identifiers@,
                        identifiers.ndb_identifiers@,
                    ),
                ),
                crate::matchers::nav_type_vor_dme(),
                id,
            ),
        forall|id: Seq<char>| #[trigger]
            r.ndb_icao(id) == crate::matchers::last_nav_icao(
                text::collect(
                    text::views(nav_lines@),
                    earth_nav_reader(
                        identifiers.vor_dme_identifiers@,
                        identifiers.ndb_identifiers@,
                    ),
                ),
                crate::matchers::code_type_ndb(),
                id,
            ),
{
    let fix_items: Vec<(String, String)> = load_earth_fix_items(
        fix_lines,
        &identifiers.fix_identifiers,
    );
    let nav_items: Vec<(String, String, String)> = load_earth_nav_items(
        nav_lines,
        &identifiers.vor_dme_identifiers,
        &identifiers.ndb_identifiers,
    );
    IcaoCodeResolver::from_items(fix_items, nav_items)
}

/// The ICAO code of a point of the given kind.
pub open spec fn point_icao(
    resolver: IcaoCodeResolver,
    waypoint: Seq<char>,
    kind: Option<AirwayCodeType>,
) -> Option<Seq<char>> {
    match kind {
        Some(AirwayCodeType::DesignatedPoint) => resolver.fix_icao(waypoint),
        Some(AirwayCodeType::VorDme) => resolver.vor_dme_icao(waypoint),
        Some(AirwayCodeType::Ndb) => resolver.ndb_icao(waypoint),
        _ => None,
    }
}

/// Resolves the ICAO code of a point of the given kind.
pub fn resolve_point_icao(
    resolver: &IcaoCodeResolver,
    waypoint: &str,
    kind: Option<AirwayCodeType>,
) -> (r: Option<String>)
    ensures
        text::opt(r) == point_icao(*resolver, waypoint@, kind),
{
    let code: Option<&str> = match kind {
        Some(known) => known.resolver_code(),
        None => None,
    };
    proof {
        reveal_strlit("DESIGNATED_POINT");
        reveal_strlit("\u{5730}\u{540d}\u{70b9}");
        reveal_strlit("VORDME");
        reveal_strlit("NDB");
        assert("DESIGNATED_POINT"@.len() == 16);
        assert("\u{5730}\u{540d}\u{70b9}"@.len() == 3);
        assert("VORDME"@.len() == 6);
        assert("NDB"@.len() == 3);
        assert("NDB"@[0] == 'N');
        assert("\u{5730}\u{540d}\u{70b9}"@[0] == '\u{5730}');
    }
    resolver.resolve_ref(Some(waypoint), code)
}

/// The kind of aid that a position is looked up among.
#[derive(Clone, Copy, PartialEq, Eq, Debug, Structural)]
pub enum AidType {
    Fix,
    Vhf,
    Ndb,
}

/// The aid type of a kind of point.
pub open spec fn aid_of(kind: AirwayCodeType) -> Option<AidType> {
    match kind {
        AirwayCodeType::DesignatedPoint => Some(AidType::Fix),
        AirwayCodeType::VorDme => Some(AidType::Vhf),
        AirwayCodeType::Ndb => Some(AidType::Ndb),
        AirwayCodeType::Other => None,
    }
}

/// The description code of a start point of a kind; empty for a kind that is not resolved.
pub open spec fn start_description(kind: AirwayCodeType) -> Seq<char> {
    match kind {
        AirwayCodeType::DesignatedPoint => "E C"@,
        AirwayCodeType::VorDme => "V C"@,
        AirwayCodeType::Ndb => "E C"@,
        AirwayCodeType::Other => ""@,
    }
}

/// The description code of an end point of a kind; empty for a kind that is not resolved.
pub open spec fn end_description(kind: Option<AirwayCodeType>) -> Seq<char> {
    match kind {
        Some(AirwayCodeType::DesignatedPoint) => "EEC"@,
        Some(AirwayCodeType::VorDme) => "VEC"@,
        Some(AirwayCodeType::Ndb) => "EEC"@,
        _ => ""@,
    }
}

/// The table of the points of a kind; empty for a kind that is not resolved.
pub open spec fn point_table(kind: Option<AirwayCodeType>) -> Seq<char> {
    match kind {
        Some(AirwayCodeType::DesignatedPoint) => "tbl_enroute_waypoints"@,
        Some(AirwayCodeType::VorDme) => "tbl_vhfnavaids"@,
        Some(AirwayCodeType::Ndb) => "tbl_enroute_ndbnavaids"@,
        _ => ""@,
    }
}

/// The aid, the description code and the table of a start point.
pub fn start_code_mapping_from_type(kind: AirwayCodeType) -> (r: Option<
    (AidType, &'static str, &'static str),
>)
    ensures
        match r {
            Some(mapping) => {
                &&& aid_of(kind) == Some(mapping.0)
                &&& mapping.1@ == start_description(kind)
                &&& mapping.2@ == point_table(Some(kind))
            },
            None => kind == AirwayCodeType::Other,
        },
{
    match kind {
        AirwayCodeType::DesignatedPoint => Some((AidType::Fix, "E C", "tbl_enroute_waypoints")),
        AirwayCodeType::VorDme => Some((AidType::Vhf, "V C", "tbl_vhfnavaids")),
        AirwayCodeType::Ndb => Some((AidType::Ndb, "E C", "tbl_enroute_ndbnavaids")),
        AirwayCodeType::Other => None,
    }
}

/// The most identifiers that one query for positions asks for.
pub const COORDINATE_BATCH: usize = 500;

/// A query for the positions of aids, with the identifiers that it binds.
#[verifier::ext_equal]
pub struct CoordinateQuery<T = String, L = Vec<String>> {
    pub aid: AidType,
    pub sql: T,
    pub parameters: L,
}

impl View for CoordinateQuery {
    type V = CoordinateQuery<Seq<char>, Seq<Seq<char>>>;

    open spec fn view(&self) -> Self::V {
        CoordinateQuery {
            aid: self.aid,
            sql: self.sql@,
            parameters: text::views(self.parameters@),
        }
    }
}

/// The start of the query for the positions of aids of a type, up to the identifiers.
pub open spec fn coordinate_select(aid: AidType) -> Seq<char> {
    match aid {
        AidType::Fix
            => "SELECT waypoint_identifier, waypoint_latitude, waypoint_longitude FROM tbl_enroute_waypoints WHERE waypoint_identifier IN ("@,
        AidType::Vhf
            => "SELECT vor_identifier, vor_latitude, vor_longitude FROM tbl_vhfnavaids WHERE vor_identifier IN ("@,
        AidType::Ndb
            => "SELECT ndb_identifier, ndb_latitude, ndb_longitude FROM tbl_enroute_ndbnavaids WHERE ndb_identifier IN ("@,
    }
}

/// The end of the query for positions: the regions and the order.
pub open spec fn coordinate_filter() -> Seq<char> {
    ") AND icao_code IN ('ZW','ZG','ZS','ZY','ZL','ZH','ZU','ZP','ZB','ZJ','ZZ','VM','VH') ORDER BY rowid"@
}

/// The query for the positions of one run of identifiers.
pub open spec fn coordinate_query(aid: AidType, identifiers: Seq<Seq<char>>) -> CoordinateQuery<
    Seq<char>,
    Seq<Seq<char>>,
> {
    CoordinateQuery {
        aid,
        sql: coordinate_select(aid) + db::repeated("?"@, ","@, identifiers.len())
            + coordinate_filter(),
        parameters: identifiers,
    }
}

/// The queries for the positions of aids of one type.
pub open spec fn coordinate_queries(aid: AidType, identifiers: Seq<Seq<char>>) -> Seq<
    CoordinateQuery<Seq<char>, Seq<Seq<char>>>,
> {
    db::chunks(identifiers, COORDINATE_BATCH as int).map_values(
        |run: Seq<Seq<char>>| coordinate_query(aid, run),
    )
}

fn coordinate_sql(aid: AidType, n: usize) -> (sql: String)
    ensures
        sql@ == coordinate_select(aid) + db::repeated("?"@, ","@, n as nat) + coordinate_filter(),
{
    let mut sql: String = match aid {
        AidType::Fix => text::copy(
            "SELECT waypoint_identifier, waypoint_latitude, waypoint_longitude FROM tbl_enroute_waypoints WHERE waypoint_identifier IN (",
        ),
        AidType::Vhf => text::copy(
            "SELECT vor_identifier, vor_latitude, vor_longitude FROM tbl_vhfnavaids WHERE vor_identifier IN (",
        ),
        AidType::Ndb => text::copy(
            "SELECT ndb_identifier, ndb_latitude, ndb_longitude FROM tbl_enroute_ndbnavaids WHERE ndb_identifier IN (",
        ),
    };
    let variables: String = db::repeat_text("?", ",", n);
    sql.append(variables.as_str());
    sql.append(
        ") AND icao_code IN ('ZW','ZG','ZS','ZY','ZL','ZH','ZU','ZP','ZB','ZJ','ZZ','VM','VH') ORDER BY rowid",
    );
    sql
}

fn push_coordinate_queries(out: &mut Vec<CoordinateQuery>, aid: AidType, identifiers: &TextSet)
    ensures
        text::views(final(out)@) == text::views(old(out)@) + coordinate_queries(aid, identifiers@),
{
    let runs: Vec<Vec<String>> = db::chunk_texts(identifiers.items(), COORDINATE_BATCH);
    let ghost f = |run: Seq<Seq<char>>| coordinate_query(aid, run);
    let ghost cut = db::list_views(runs@);
    let ghost goal = cut.map_values(f);
    let ghost before = text::views(out@);
    assert(before =~= before + goal.take(0));
    for parameters in it: runs
        invariant
            db::list_views(it.seq()) == cut,
            f == (|run: Seq<Seq<char>>| coordinate_query(aid, run)),
            goal == cut.map_values(f),
            text::views(out@) == before + goal.take(it.index() as int),
    {
        let ghost i = it.index() as int;
        assert(cut[i] == text::views(parameters@));
        let query = CoordinateQuery {
            aid,
            sql: coordinate_sql(aid, parameters.len()),
            parameters,
        };
        proof {
            text::lemma_views_push(out@, query);
            assert(query@ == goal[i]);
            assert((before + goal.take(i)).push(query@) =~= before + goal.take(i + 1));
        }
        out.push(query);
    }
    assert(goal.take(goal.len() as int) == goal);
}

/// The queries for the positions of the points of the routes: fixes, VHF aids, beacons.
pub fn prefetch_queries(rows: &Vec<ParsedAirwayCsvRow>) -> (out: Vec<CoordinateQuery>)
    ensures
        text::views(out@) == coordinate_queries(
            AidType::Fix,
            kind_identifiers(text::views(rows@), AirwayCodeType::DesignatedPoint),
        ) + coordinate_queries(
            AidType::Vhf,
            kind_identifiers(text::views(rows@), AirwayCodeType::VorDme),
        ) + coordinate_queries(
            AidType::Ndb,
            kind_identifiers(text::views(rows@), AirwayCodeType::Ndb),
        ),
{
    let identifiers: ResolverIdentifierSets = collect_airways_resolver_identifiers(rows);
    let mut out: Vec<CoordinateQuery> = Vec::new();
    assert(text::views(out@) =~= seq![]);
    push_coordinate_queries(&mut out, AidType::Fix, &identifiers.fix_identifiers);
    push_coordinate_queries(&mut out, AidType::Vhf, &identifiers.vor_dme_identifiers);
    push_coordinate_queries(&mut out, AidType::Ndb, &identifiers.ndb_identifiers);
    assert(text::views(out@) =~= coordinate_queries(
        AidType::Fix,
        kind_identifiers(text::views(rows@), AirwayCodeType::DesignatedPoint),
    ) + coordinate_queries(
        AidType::Vhf,
        kind_identifiers(text::views(rows@), AirwayCodeType::VorDme),
    ) + coordinate_queries(
        AidType::Ndb,
        kind_identifiers(text::views(rows@), AirwayCodeType::Ndb),
    ));
    out
}

/// A row that a query for positions returned.
#[verifier::ext_equal]
pub struct CoordinateRow<T = String> {
    pub aid: AidType,
    pub identifier: T,
    pub latitude: Option<u64>,
    pub longitude: Option<u64>,
}

impl View for CoordinateRow {
    type V = CoordinateRow<Seq<char>>;

    open spec fn view(&self) -> Self::V {
        CoordinateRow {
            aid: self.aid,
            identifier: self.identifier@,
            latitude: self.latitude,
            longitude: self.longitude,
        }
    }
}

/// The position in a row: it needs both coordinates.
pub open spec fn row_point(row: CoordinateRow<Seq<char>>) -> Option<Point> {
    match (row.latitude, row.longitude) {
        (Some(latitude), Some(longitude)) => Some(Point { latitude, longitude }),
        _ => None,
    }
}

/// Whether there is a row for an aid.
pub open spec fn has_row(
    rows: Seq<CoordinateRow<Seq<char>>>,
    aid: AidType,
    identifier: Seq<char>,
) -> bool {
    exists|i: int|
        0 <= i < rows.len() && (#[trigger] rows[i]).aid == aid && rows[i].identifier == identifier
}

/// The position of an aid: that in the first row for it.
pub open spec fn first_point(
    rows: Seq<CoordinateRow<Seq<char>>>,
    aid: AidType,
    identifier: Seq<char>,
) -> Option<Point>
    decreases rows.len(),
{
    if rows.len() == 0 {
        None
    } else if has_row(rows.drop_last(), aid, identifier) {
        first_point(rows.drop_last(), aid, identifier)
    } else if rows.last().aid == aid && rows.last().identifier == identifier {
        row_point(rows.last())
    } else {
        None
    }
}

/// The positions of fixes, VHF aids and beacons.
pub struct AirwayCoordCache {
    fix: StringHashMap<Option<Point>>,
    vhf: StringHashMap<Option<Point>>,
    ndb: StringHashMap<Option<Point>>,
}

/// What a map of positions holds under a key.
pub open spec fn point_at(map: Map<Seq<char>, Option<Point>>, key: Seq<char>) -> Option<Point> {
    if map.contains_key(key) {
        map[key]
    } else {
        None
    }
}

impl AirwayCoordCache {
    spec fn map(self, aid: AidType) -> Map<Seq<char>, Option<Point>> {
        match aid {
            AidType::Fix => self.fix@,
            AidType::Vhf => self.vhf@,
            AidType::Ndb => self.ndb@,
        }
    }

    /// The position of an aid.
    pub closed spec fn point(self, aid: AidType, identifier: Seq<char>) -> Option<Point> {
        point_at(self.map(aid), identifier)
    }

    spec fn holds(self, rows: Seq<CoordinateRow<Seq<char>>>) -> bool {
        forall|aid: AidType, id: Seq<char>|
            #![trigger self.map(aid).contains_key(id)]
            #![trigger point_at(self.map(aid), id)]
            (self.map(aid).contains_key(id) <==> has_row(rows, aid, id)) && point_at(
                self.map(aid),
                id,
            ) == first_point(rows, aid, id)
    }

    /// The positions in the rows; of several rows for one aid the first one counts.
    pub fn from_rows(rows: &Vec<CoordinateRow>) -> (r: Self)
        ensures
            forall|aid: AidType, id: Seq<char>| #[trigger]
                r.point(aid, id) == first_point(text::views(rows@), aid, id),
    {
        let ghost all = text::views(rows@);
        let mut r = AirwayCoordCache {
            fix: StringHashMap::new(),
            vhf: StringHashMap::new(),
            ndb: StringHashMap::new(),
        };
        assert(all.take(0).len() == 0);
        assert forall|aid: AidType, id: Seq<char>| !r.map(aid).contains_key(id) && point_at(
            r.map(aid),
            id,
        ) == first_point(all.take(0), aid, id) by {};
        assert(r.holds(all.take(0)));
        for i in 0..rows.len()
            invariant
                all == text::views(rows@),
                r.holds(all.take(i as int)),
        {
            let ghost before = r;
            let ghost row = all[i as int];
            let ghost next = all.take(i + 1);
            assert(row == rows@[i as int]@);
            assert(next.drop_last() == all.take(i as int));
            let point: Option<Point> = match (rows[i].latitude, rows[i].longitude) {
                (Some(latitude), Some(longitude)) => Some(Point { latitude, longitude }),
                _ => None,
            };
            let key: &str = rows[i].identifier.as_str();
            match rows[i].aid {
                AidType::Fix => {
                    if !r.fix.contains_key(key) {
                        r.fix.insert(rows[i].identifier.clone(), point);
                    }
                },
                AidType::Vhf => {
                    if !r.vhf.contains_key(key) {
                        r.vhf.insert(rows[i].identifier.clone(), point);
                    }
                },
                AidType::Ndb => {
                    if !r.ndb.contains_key(key) {
                        r.ndb.insert(rows[i].identifier.clone(), point);
                    }
                },
            }
            proof {
                assert forall|aid: AidType, id: Seq<char>|
                    #![trigger r.map(aid).contains_key(id)]
                    #![trigger point_at(r.map(aid), id)]
                    (r.map(aid).contains_key(id) <==> has_row(next, aid, id)) && point_at(
                        r.map(aid),
                        id,
                    ) == first_point(next, aid, id) by {
                    let part = all.take(i as int);
                    assert(before.map(aid).contains_key(id) <==> has_row(part, aid, id));
                    assert(point_at(before.map(aid), id) == first_point(part, aid, id));
                    if has_row(part, aid, id) {
                        let k = choose|k: int|
                            0 <= k < part.len() && (#[trigger] part[k]).aid == aid
                                && part[k].identifier == id;
                        assert(next[k] == part[k]);
                    }
                    if row.aid == aid && row.identifier == id {
                        assert(next[i as int] == row);
                    }
                    if has_row(next, aid, id) {
                        let k = choose|k: int|
                            0 <= k < next.len() && (#[trigger] next[k]).aid == aid
                                && next[k].identifier == id;
                        if k < i {
                            assert(part[k] == next[k]);
                        }
                    }
                    if !has_row(part, aid, id) {
                        lemma_no_row(part, aid, id);
                    }
                }
            }
        }
        assert(all.take(rows@.len() as int) == all);
        r
    }

    /// The position of an aid.
    pub fn get(&self, aid: AidType, identifier: &str) -> (r: Option<Point>)
        ensures
            r == self.point(aid, identifier@),
    {
        let found: Option<&Option<Point>> = match aid {
            AidType::Fix => self.fix.get(identifier),
            AidType::Vhf => self.vhf.get(identifier),
            AidType::Ndb => self.ndb.get(identifier),
        };
        match found {
            Some(point) => *point,
            None => None,
        }
    }
}

proof fn lemma_no_row(rows: Seq<CoordinateRow<Seq<char>>>, aid: AidType, identifier: Seq<char>)
    requires
        !has_row(rows, aid, identifier),
    ensures
        first_point(rows, aid, identifier) is None,
{
    if rows.len() > 0 {
        assert(rows[rows.len() - 1] == rows.last());
        if has_row(rows.drop_last(), aid, identifier) {
            let k = choose|k: int|
                0 <= k < rows.drop_last().len() && (#[trigger] rows.drop_last()[k]).aid == aid
                    && rows.drop_last()[k].identifier == identifier;
            assert(rows[k] == rows.drop_last()[k]);
        }
    }
}

/// The position of a point is that of the first stored row of its kind with its identifier: its
/// latitude is that row's latitude, its longitude that row's longitude. Where either is missing,
/// there is no position.
pub proof fn the_first_stored_row_gives_the_position(
    rows: Seq<CoordinateRow<Seq<char>>>,
    aid: AidType,
    identifier: Seq<char>,
    i: int,
)
    requires
        0 <= i < rows.len(),
        rows[i].aid == aid,
        rows[i].identifier == identifier,
        forall|j: int|
            0 <= j < i ==> !((#[trigger] rows[j]).aid == aid && rows[j].identifier == identifier),
    ensures
        match first_point(rows, aid, identifier) {
            Some(point) => rows[i].latitude == Some(point.latitude) && rows[i].longitude == Some(
                point.longitude,
            ),
            None => rows[i].latitude is None || rows[i].longitude is None,
        },
    decreases rows.len(),
{
    let init = rows.drop_last();
    if i < rows.len() - 1 {
        assert(init[i] == rows[i]);
        assert(has_row(init, aid, identifier));
        assert forall|j: int| 0 <= j < i implies !((#[trigger] init[j]).aid == aid
            && init[j].identifier == identifier) by {
            assert(init[j] == rows[j]);
        }
        the_first_stored_row_gives_the_position(init, aid, identifier, i);
    } else {
        assert(!has_row(init, aid, identifier)) by {
            if has_row(init, aid, identifier) {
                let j = choose|j: int|
                    0 <= j < init.len() && (#[trigger] init[j]).aid == aid && init[j].identifier
                        == identifier;
                assert(rows[j] == init[j]);
            }
        }
    }
}

/// A point that no stored row names has no position.
pub proof fn a_point_that_is_not_stored_has_no_position(
    rows: Seq<CoordinateRow<Seq<char>>>,
    aid: AidType,
    identifier: Seq<char>,
)
    requires
        forall|j: int|
            0 <= j < rows.len() ==> !((#[trigger] rows[j]).aid == aid && rows[j].identifier
                == identifier),
    ensures
        first_point(rows, aid, identifier) is None,
    decreases rows.len(),
{
    if rows.len() > 0 {
        let init = rows.drop_last();
        assert forall|j: int| 0 <= j < init.len() implies !((#[trigger] init[j]).aid == aid
            && init[j].identifier == identifier) by {
            assert(init[j] == rows[j]);
        }
        a_point_that_is_not_stored_has_no_position(init, aid, identifier);
        assert(rows[rows.len() - 1] == rows.last());
    }
}

/// A point is looked up among its own kind: designated points among the waypoints, and beacons
/// among the navigation aids of their kind, with the ICAO code, the table and the marks of that
/// kind. Any other point has none of these.
pub proof fn every_kind_of_point_has_its_own_source(
    resolver: IcaoCodeResolver,
    waypoint: Seq<char>,
    kind: AirwayCodeType,
)
    ensures
        kind == AirwayCodeType::DesignatedPoint ==> {
            &&& aid_of(kind) == Some(AidType::Fix)
            &&& point_icao(resolver, waypoint, Some(kind)) == resolver.fix_icao(waypoint)
            &&& point_table(Some(kind)) == "tbl_enroute_waypoints"@
            &&& start_description(kind) == "E C"@
            &&& end_description(Some(kind)) == "EEC"@
        },
        kind == AirwayCodeType::VorDme ==> {
            &&& aid_of(kind) == Some(AidType::Vhf)
            &&& point_icao(resolver, waypoint, Some(kind)) == resolver.vor_dme_icao(waypoint)
            &&& point_table(Some(kind)) == "tbl_vhfnavaids"@
            &&& start_description(kind) == "V C"@
            &&& end_description(Some(kind)) == "VEC"@
        },
        kind == AirwayCodeType::Ndb ==> {
            &&& aid_of(kind) == Some(AidType::Ndb)
            &&& point_icao(resolver, waypoint, Some(kind)) == resolver.ndb_icao(waypoint)
            &&& point_table(Some(kind)) == "tbl_enroute_ndbnavaids"@
            &&& start_description(kind) == "E C"@
            &&& end_description(Some(kind)) == "EEC"@
        },
        kind == AirwayCodeType::Other ==> {
            &&& aid_of(kind) is None
            &&& point_icao(resolver, waypoint, Some(kind)) is None
            &&& point_table(Some(kind)) == ""@
            &&& start_description(kind) == ""@
            &&& end_description(Some(kind)) == ""@
        },
        point_icao(resolver, waypoint, None) is None,
        end_description(None) == ""@,
{
}

/// A query for positions asks the table of its kind for identifier, latitude and longitude, in this
/// order, and keeps to the covered regions.
pub proof fn position_queries_ask_for_latitude_and_longitude(
    aid: AidType,
    identifiers: Seq<Seq<char>>,
)
    ensures
        coordinate_query(aid, identifiers).parameters == identifiers,
        coordinate_query(aid, identifiers).aid == aid,
        coordinate_query(aid, identifiers).sql == (match aid {
            AidType::Fix
                => "SELECT waypoint_identifier, waypoint_latitude, waypoint_longitude FROM tbl_enroute_waypoints WHERE waypoint_identifier IN ("@,
            AidType::Vhf
                => "SELECT vor_identifier, vor_latitude, vor_longitude FROM tbl_vhfnavaids WHERE vor_identifier IN ("@,
            AidType::Ndb
                => "SELECT ndb_identifier, ndb_latitude, ndb_longitude FROM tbl_enroute_ndbnavaids WHERE ndb_identifier IN ("@,
        }) + db::repeated("?"@, ","@, identifiers.len())
            + ") AND icao_code IN ('ZW','ZG','ZS','ZY','ZL','ZH','ZU','ZP','ZB','ZJ','ZZ','VM','VH') ORDER BY rowid"@,
{
}

/// The identifiers of a kind are just those of its points, at the start or at the end of a row.
pub proof fn identifiers_of_a_kind_are_those_of_its_points(
    rows: Seq<ParsedAirwayCsvRow<Seq<char>, u64>>,
    kind: AirwayCodeType,
    identifier: Seq<char>,
)
    ensures
        kind_identifiers(rows, kind).no_duplicates(),
        kind_identifiers(rows, kind).contains(identifier) <==> identifier.len() > 0 && exists|i: int|
            0 <= i < rows.len() && {
                ||| (#[trigger] rows[i]).start_code_type == kind && rows[i].start_waypoint
                    == identifier
                ||| rows[i].end_code_type == Some(kind) && rows[i].end_waypoint == Some(identifier)
            },
{
    let all = text::flat_collect(rows, identifier_reader(kind));
    keyed::lemma_distinct(all);
    lemma_row_identifiers(rows, kind, identifier);
}

proof fn lemma_row_identifiers(
    rows: Seq<ParsedAirwayCsvRow<Seq<char>, u64>>,
    kind: AirwayCodeType,
    identifier: Seq<char>,
)
    ensures
        text::flat_collect(rows, identifier_reader(kind)).contains(identifier) <==> identifier.len()
            > 0 && exists|i: int|
            0 <= i < rows.len() && {
                ||| (#[trigger] rows[i]).start_code_type == kind && rows[i].start_waypoint
                    == identifier
                ||| rows[i].end_code_type == Some(kind) && rows[i].end_waypoint == Some(identifier)
            },
    decreases rows.len(),
{
    if rows.len() > 0 {
        let init = rows.drop_last();
        let last = rows.len() - 1;
        lemma_row_identifiers(init, kind, identifier);
        let before = text::flat_collect(init, identifier_reader(kind));
        let more = row_identifiers(rows[last], kind);
        let all = text::flat_collect(rows, identifier_reader(kind));
        assert(all =~= before + more);
        if all.contains(identifier) {
            let k = choose|k: int| 0 <= k < all.len() && all[k] == identifier;
            if k < before.len() {
                assert(before[k] == identifier);
                let i = choose|i: int|
                    0 <= i < init.len() && {
                        ||| (#[trigger] init[i]).start_code_type == kind && init[i].start_waypoint
                            == identifier
                        ||| init[i].end_code_type == Some(kind) && init[i].end_waypoint == Some(
                            identifier,
                        )
                    };
                assert(rows[i] == init[i]);
            } else {
                assert(more[k - before.len()] == identifier);
                assert(rows[last].start_code_type == kind && rows[last].start_waypoint == identifier
                    || rows[last].end_code_type == Some(kind) && rows[last].end_waypoint == Some(
                    identifier,
                ));
            }
        }
        if identifier.len() > 0 && exists|i: int|
            0 <= i < rows.len() && {
                ||| (#[trigger] rows[i]).start_code_type == kind && rows[i].start_waypoint
                    == identifier
                ||| rows[i].end_code_type == Some(kind) && rows[i].end_waypoint == Some(identifier)
            } {
            let i = choose|i: int|
                0 <= i < rows.len() && {
                    ||| (#[trigger] rows[i]).start_code_type == kind && rows[i].start_waypoint
                        == identifier
                    ||| rows[i].end_code_type == Some(kind) && rows[i].end_waypoint == Some(
                        identifier,
                    )
                };
            if i < last {
                assert(init[i] == rows[i]);
                let k = choose|k: int| 0 <= k < before.len() && before[k] == identifier;
                assert(all[k] == identifier);
            } else if rows[i].start_code_type == kind && rows[i].start_waypoint == identifier {
                assert(more[0] == identifier);
                assert(all[before.len() as int] == identifier);
            } else {
                assert(more.last() == identifier);
                assert(all[all.len() - 1] == identifier);
            }
        }
    }
}

/// A line of the fix file gives the third word's ICAO code, the fifth word, where it is an enroute
/// fix that is asked for, in a covered region.
pub proof fn enroute_fixes_are_read_by_their_words(
    line: Seq<char>,
    required: Seq<Seq<char>>,
    identifier: Seq<char>,
    icao: Seq<char>,
)
    ensures
        earth_fix(line, required) == Some((identifier, icao)) <==> {
            let w = text::words(Blank::Ascii, line);
            &&& w.len() >= 5
            &&& w[2] == identifier
            &&& w[3] == "ENRT"@
            &&& w[4] == icao
            &&& required.contains(identifier)
            &&& covered_codes().contains(icao)
        },
{
    lemma_covered(text::words(Blank::Ascii, line)[4]);
    lemma_covered(icao);
}

/// A line of the navigation aid file gives the kind and the ICAO code of the aid in its eighth word,
/// where that is an enroute aid that is asked for under its kind, in a covered region.
pub proof fn enroute_aids_are_read_by_their_words(
    line: Seq<char>,
    vor_dme: Seq<Seq<char>>,
    ndb: Seq<Seq<char>>,
    identifier: Seq<char>,
    kind: Seq<char>,
    icao: Seq<char>,
)
    ensures
        earth_nav(line, vor_dme, ndb) == Some((identifier, kind, icao)) <==> {
            let w = text::words(Blank::Ascii, line);
            &&& w.len() >= 11
            &&& w[7] == identifier
            &&& w[8] == "ENRT"@
            &&& w[9] == icao
            &&& w[w.len() - 1] == kind
            &&& covered_codes().contains(icao)
            &&& (kind == "VOR/DME"@ && vor_dme.contains(identifier) || kind == "NDB"@
                && ndb.contains(identifier))
        },
{
    lemma_covered(text::words(Blank::Ascii, line)[9]);
    lemma_covered(icao);
}

/// The ICAO codes of the covered regions.
pub open spec fn covered_codes() -> Seq<Seq<char>> {
    seq![
        "ZB"@, "ZS"@, "ZJ"@, "ZG"@, "ZY"@, "ZL"@, "ZU"@, "ZW"@, "ZP"@, "ZH"@, "ZZ"@, "VM"@, "VH"@,
        "RK"@,
    ]
}

proof fn lemma_covered(icao: Seq<char>)
    ensures
        resolved_region(icao) <==> covered_codes().contains(icao),
{
    let codes = covered_codes();
    if resolved_region(icao) {
        assert(codes[0] == icao || codes[1] == icao || codes[2] == icao || codes[3] == icao
            || codes[4] == icao || codes[5] == icao || codes[6] == icao || codes[7] == icao
            || codes[8] == icao || codes[9] == icao || codes[10] == icao || codes[11] == icao
            || codes[12] == icao || codes[13] == icao);
    }
}

/// Every field of a `CoordinateQuery` is seen under its own name.
pub proof fn every_field_of_coordinate_query_is_seen(it: CoordinateQuery)
    ensures
        it@.aid == it.aid,
        it@.sql == it.sql@,
        it@.parameters == text::views(it.parameters@),
{
}

/// Every field of a `CoordinateRow` is seen under its own name.
pub proof fn every_field_of_coordinate_row_is_seen(it: CoordinateRow)
    ensures
        it@.aid == it.aid,
        it@.identifier == it.identifier@,
        it@.latitude == it.latitude,
        it@.longitude == it.longitude,
{
}

} // verus!
