//! Laying out the legs of procedures as rows of a table.

use crate::db::Cell;
use crate::keyed;
use crate::keyed::RowSet;
use crate::parsers::CifpFields;
use crate::records;
use crate::ref_tables;
use crate::ref_tables::{RefMatchResult, RefTable};
use crate::terminal::leg_fixes;
use crate::terminal::leg_fixes::MatchedProcedureCells;
use crate::terminal::legs;
use crate::terminal::legs::{Rnp, TerminalRowFields};
use crate::text;
use vstd::prelude::*;

verus! {

/// The area of an airport's procedures.
pub open spec fn area_code(airport: Seq<char>) -> Seq<char> {
    if "OP"@.is_prefix_of(airport) {
        "MES"@
    } else if "VH"@.is_prefix_of(airport) {
        "PAC"@
    } else {
        "EEU"@
    }
}

/// The area of an airport's procedures.
pub fn get_area_code(airport: &str) -> (r: &'static str)
    ensures
        r@ == area_code(airport@),
{
    if text::starts_with(airport, "OP") {
        "MES"
    } else if text::starts_with(airport, "VH") {
        "PAC"
    } else {
        "EEU"
    }
}

/// An optional number, divided, as a value.
pub open spec fn quotient_cell(value: Option<Seq<char>>, divisor: u32) -> Cell<Seq<char>> {
    match value {
        Some(number) => Cell::Quotient(number, divisor),
        None => Cell::Null,
    }
}

fn make_quotient_cell(value: &Option<String>, divisor: u32) -> (r: Cell)
    ensures
        r@ == quotient_cell(text::opt(*value), divisor),
{
    match value {
        Some(number) => Cell::Quotient(number.clone(), divisor),
        None => Cell::Null,
    }
}

/// An optional number of hundredths as a value in tenths.
pub open spec fn tenths_cell(value: Option<Seq<char>>) -> Cell<Seq<char>> {
    match value {
        Some(number) => Cell::Tenths(number),
        None => Cell::Null,
    }
}

fn make_tenths_cell(value: &Option<String>) -> (r: Cell)
    ensures
        r@ == tenths_cell(text::opt(*value)),
{
    match value {
        Some(number) => Cell::Tenths(number.clone()),
        None => Cell::Null,
    }
}

/// A required navigation performance as a value.
pub open spec fn rnp_cell(value: Option<Rnp>) -> Cell<Seq<char>> {
    match value {
        Some(rnp) => Cell::Scaled(rnp.numerator, rnp.exponent),
        None => Cell::Null,
    }
}

fn make_rnp_cell(value: Option<Rnp>) -> (r: Cell)
    ensures
        r@ == rnp_cell(value),
{
    match value {
        Some(rnp) => Cell::Scaled(rnp.numerator, rnp.exponent),
        None => Cell::Null,
    }
}

/// The name of the table that a fix was found in, as a value.
pub open spec fn table_cell(table: Option<RefTable>) -> Cell<Seq<char>> {
    match table {
        Some(found) => Cell::Text(ref_tables::name_of(found)),
        None => Cell::Null,
    }
}

fn make_table_cell(table: Option<RefTable>) -> (r: Cell)
    ensures
        r@ == table_cell(table),
{
    match table {
        Some(found) => Cell::Text(text::copy(ref_tables::table_name(found))),
        None => Cell::Null,
    }
}

/// A mark that is there or not, as a value.
pub open spec fn flag_cell(set: bool, mark: Seq<char>) -> Cell<Seq<char>> {
    if set {
        Cell::Text(mark)
    } else {
        Cell::Null
    }
}

fn make_flag_cell(set: bool, mark: &str) -> (r: Cell)
    ensures
        r@ == flag_cell(set, mark@),
{
    if set {
        Cell::Text(text::copy(mark))
    } else {
        Cell::Null
    }
}

/// The value of a leg for a column; a column that is not known gets none. `marked` tells whether
/// the procedure needs an authorization.
pub open spec fn procedure_cell(
    column: Seq<char>,
    airport: Seq<char>,
    fields: TerminalRowFields<Seq<char>>,
    cells: MatchedProcedureCells<Seq<char>>,
    iaps: bool,
    marked: bool,
) -> Cell<Seq<char>> {
    if column == "airport_identifier"@ {
        Cell::Text(airport)
    } else if column == "altitude_description"@ {
        records::text_cell(fields.altitude_description)
    } else if column == "altitude1"@ {
        records::text_cell(fields.altitude1)
    } else if column == "altitude2"@ {
        records::text_cell(fields.altitude2)
    } else if column == "arc_radius"@ {
        quotient_cell(fields.arc_radius, 1000)
    } else if column == "area_code"@ {
        Cell::Text(area_code(airport))
    } else if column == "center_waypoint_icao_code"@ {
        records::text_cell(cells.center_waypoint_icao_code)
    } else if column == "center_waypoint_latitude"@ {
        records::bits_cell(cells.center.latitude)
    } else if column == "center_waypoint_longitude"@ {
        records::bits_cell(cells.center.longitude)
    } else if column == "center_waypoint_ref_table"@ {
        table_cell(cells.center.ref_table)
    } else if column == "center_waypoint"@ {
        records::text_cell(cells.center_waypoint)
    } else if column == "course_flag"@ {
        flag_cell(fields.course is Some, "M"@)
    } else if column == "course"@ || column == "magnetic_course"@ {
        quotient_cell(fields.course, 10)
    } else if column == "ctl"@ {
        flag_cell(iaps, "N"@)
    } else if column == "distance_time"@ {
        flag_cell(fields.route_distance is Some, "D"@)
    } else if column == "path_termination"@ {
        records::text_cell(fields.path_termination)
    } else if column == "procedure_identifier"@ {
        records::text_cell(fields.procedure_identifier)
    } else if column == "recommended_navaid_icao_code"@ {
        records::text_cell(cells.recommended_navaid_icao_code)
    } else if column == "recommended_navaid_latitude"@ || column == "recommanded_navaid_latitude"@ {
        records::bits_cell(cells.recommended.latitude)
    } else if column == "recommended_navaid_longitude"@ || column == "recommanded_navaid_longitude"@ {
        records::bits_cell(cells.recommended.longitude)
    } else if column == "recommended_navaid_ref_table"@ {
        table_cell(cells.recommended.ref_table)
    } else if column == "recommended_navaid"@ || column == "recommanded_navaid"@ {
        records::text_cell(cells.recommended_navaid)
    } else if column == "recommended_navaid_id"@ || column == "recommanded_id"@ {
        records::text_cell(cells.recommended_id)
    } else if column == "rho"@ {
        quotient_cell(fields.rho, 10)
    } else if column == "rnp"@ {
        rnp_cell(fields.rnp)
    } else if column == "route_distance_holding_distance_time"@ {
        quotient_cell(fields.route_distance, 10)
    } else if column == "route_type"@ {
        records::text_cell(fields.route_type)
    } else if column == "seqno"@ {
        records::text_cell(fields.seqno)
    } else if column == "speed_limit_description"@ {
        records::text_cell(fields.speed_limit_description)
    } else if column == "speed_limit"@ {
        records::text_cell(fields.speed_limit)
    } else if column == "theta"@ {
        quotient_cell(fields.theta, 10)
    } else if column == "transition_altitude"@ {
        records::text_cell(fields.transition_altitude)
    } else if column == "transition_identifier"@ {
        records::text_cell(fields.transition_identifier)
    } else if column == "turn_direction"@ {
        records::text_cell(fields.turn_direction)
    } else if column == "vertical_angle"@ {
        tenths_cell(fields.vertical_angle)
    } else if column == "waypoint_description_code"@ {
        records::text_cell(fields.waypoint_description_code)
    } else if column == "waypoint_icao_code"@ {
        records::text_cell(cells.waypoint_icao_code)
    } else if column == "waypoint_identifier"@ {
        records::text_cell(cells.waypoint_identifier)
    } else if column == "waypoint_latitude"@ {
        records::bits_cell(cells.waypoint.latitude)
    } else if column == "waypoint_longitude"@ {
        records::bits_cell(cells.waypoint.longitude)
    } else if column == "waypoint_ref_table"@ {
        table_cell(cells.waypoint.ref_table)
    } else if column == "center_id"@ {
        records::text_cell(cells.center_id)
    } else if column == "id"@ {
        records::text_cell(cells.waypoint_id)
    } else if column == "aircraft_category"@ {
        Cell::Text("J"@)
    } else if column == "authorization_required"@ {
        flag_cell(marked, "Y"@)
    } else {
        Cell::Null
    }
}

/// Makes the value of a leg for a column.
pub fn make_procedure_cell(
    column: &str,
    airport: &str,
    fields: &TerminalRowFields,
    cells: &MatchedProcedureCells,
    iaps: bool,
    marked: bool,
) -> (r: Cell)
    ensures
        r@ == procedure_cell(column@, airport@, fields@, cells@, iaps, marked),
{
    if text::same(column, "airport_identifier") {
        Cell::Text(text::copy(airport))
    } else if text::same(column, "altitude_description") {
        records::make_text_cell(&fields.altitude_description)
    } else if text::same(column, "altitude1") {
        records::make_text_cell(&fields.altitude1)
    } else if text::same(column, "altitude2") {
        records::make_text_cell(&fields.altitude2)
    } else if text::same(column, "arc_radius") {
        make_quotient_cell(&fields.arc_radius, 1000)
    } else if text::same(column, "area_code") {
        Cell::Text(text::copy(get_area_code(airport)))
    } else if text::same(column, "center_waypoint_icao_code") {
        records::make_text_cell(&cells.center_waypoint_icao_code)
    } else if text::same(column, "center_waypoint_latitude") {
        records::make_bits_cell(cells.center.latitude)
    } else if text::same(column, "center_waypoint_longitude") {
        records::make_bits_cell(cells.center.longitude)
    } else if text::same(column, "center_waypoint_ref_table") {
        make_table_cell(cells.center.ref_table)
    } else if text::same(column, "center_waypoint") {
        records::make_text_cell(&cells.center_waypoint)
    } else if text::same(column, "course_flag") {
        make_flag_cell(fields.course.is_some(), "M")
    } else if text::same(column, "course") || text::same(column, "magnetic_course") {
        make_quotient_cell(&fields.course, 10)
    } else if text::same(column, "ctl") {
        make_flag_cell(iaps, "N")
    } else if text::same(column, "distance_time") {
        make_flag_cell(fields.route_distance.is_some(), "D")
    } else if text::same(column, "path_termination") {
        records::make_text_cell(&fields.path_termination)
    } else if text::same(column, "procedure_identifier") {
        records::make_text_cell(&fields.procedure_identifier)
    } else if text::same(column, "recommended_navaid_icao_code") {
        records::make_text_cell(&cells.recommended_navaid_icao_code)
    } else if text::same(column, "recommended_navaid_latitude") || text::same(column, "recommanded_navaid_latitude") {
        records::make_bits_cell(cells.recommended.latitude)
    } else if text::same(column, "recommended_navaid_longitude") || text::same(column, "recommanded_navaid_longitude") {
        records::make_bits_cell(cells.recommended.longitude)
    } else if text::same(column, "recommended_navaid_ref_table") {
        make_table_cell(cells.recommended.ref_table)
    } else if text::same(column, "recommended_navaid") || text::same(column, "recommanded_navaid") {
        records::make_text_cell(&cells.recommended_navaid)
    } else if text::same(column, "recommended_navaid_id") || text::same(column, "recommanded_id") {
        records::make_text_cell(&cells.recommended_id)
    } else if text::same(column, "rho") {
        make_quotient_cell(&fields.rho, 10)
    } else if text::same(column, "rnp") {
        make_rnp_cell(fields.rnp)
    } else if text::same(column, "route_distance_holding_distance_time") {
        make_quotient_cell(&fields.route_distance, 10)
    } else if text::same(column, "route_type") {
        records::make_text_cell(&fields.route_type)
    } else if text::same(column, "seqno") {
        records::make_text_cell(&fields.seqno)
    } else if text::same(column, "speed_limit_description") {
        records::make_text_cell(&fields.speed_limit_description)
    } else if text::same(column, "speed_limit") {
        records::make_text_cell(&fields.speed_limit)
    } else if text::same(column, "theta") {
        make_quotient_cell(&fields.theta, 10)
    } else if text::same(column, "transition_altitude") {
        records::make_text_cell(&fields.transition_altitude)
    } else if text::same(column, "transition_identifier") {
        records::make_text_cell(&fields.transition_identifier)
    } else if text::same(column, "turn_direction") {
        records::make_text_cell(&fields.turn_direction)
    } else if text::same(column, "vertical_angle") {
        make_tenths_cell(&fields.vertical_angle)
    } else if text::same(column, "waypoint_description_code") {
        records::make_text_cell(&fields.waypoint_description_code)
    } else if text::same(column, "waypoint_icao_code") {
        records::make_text_cell(&cells.waypoint_icao_code)
    } else if text::same(column, "waypoint_identifier") {
        records::make_text_cell(&cells.waypoint_identifier)
    } else if text::same(column, "waypoint_latitude") {
        records::make_bits_cell(cells.waypoint.latitude)
    } else if text::same(column, "waypoint_longitude") {
        records::make_bits_cell(cells.waypoint.longitude)
    } else if text::same(column, "waypoint_ref_table") {
        make_table_cell(cells.waypoint.ref_table)
    } else if text::same(column, "center_id") {
        records::make_text_cell(&cells.center_id)
    } else if text::same(column, "id") {
        records::make_text_cell(&cells.waypoint_id)
    } else if text::same(column, "aircraft_category") {
        Cell::Text(text::copy("J"))
    } else if text::same(column, "authorization_required") {
        make_flag_cell(marked, "Y")
    } else {
        Cell::Null
    }
}

/// The values of a leg for the columns of a table.
pub open spec fn procedure_row(
    columns: Seq<Seq<char>>,
    airport: Seq<char>,
    fields: TerminalRowFields<Seq<char>>,
    cells: MatchedProcedureCells<Seq<char>>,
    iaps: bool,
    marked: bool,
) -> Seq<Cell<Seq<char>>> {
    columns.map_values(
        |column: Seq<char>| procedure_cell(column, airport, fields, cells, iaps, marked),
    )
}

/// Lays out the values of a leg for the columns of a table.
pub fn build_terminal_record_row(
    columns: &Vec<String>,
    airport: &str,
    fields: &TerminalRowFields,
    cells: &MatchedProcedureCells,
    iaps: bool,
    marked: bool,
) -> (out: Vec<Cell>)
    ensures
        text::views(out@) == procedure_row(
            text::views(columns@),
            airport@,
            fields@,
            cells@,
            iaps,
            marked,
        ),
{
    let ghost goal = procedure_row(
        text::views(columns@),
        airport@,
        fields@,
        cells@,
        iaps,
        marked,
    );
    let mut out: Vec<Cell> = Vec::new();
    assert(text::views(out@) =~= goal.take(0));
    for i in 0..columns.len()
        invariant
            goal == procedure_row(
                text::views(columns@),
                airport@,
                fields@,
                cells@,
                iaps,
                marked,
            ),
            text::views(out@) == goal.take(i as int),
    {
        let value: Cell = make_procedure_cell(
            columns[i].as_str(),
            airport,
            fields,
            cells,
            iaps,
            marked,
        );
        proof {
            text::lemma_views_push(out@, value);
            assert(goal.take(i + 1) =~= goal.take(i as int).push(value@));
        }
        out.push(value);
    }
    assert(goal.take(columns@.len() as int) == goal);
    out
}

/// What the legs of a procedure share: its identifier, if it has one.
pub open spec fn group_key(identifier: Option<Seq<char>>) -> Seq<Seq<char>> {
    match identifier {
        Some(name) => seq![name],
        None => seq![],
    }
}

fn make_group_key(identifier: &Option<String>) -> (r: Vec<String>)
    ensures
        text::views(r@) == group_key(text::opt(*identifier)),
{
    let r: Vec<String> = match identifier {
        Some(name) => vec![name.clone()],
        None => Vec::new(),
    };
    assert(text::views(r@) =~= group_key(text::opt(*identifier)));
    r
}

/// The keys of the procedures that legs belong to.
pub open spec fn group_keys(all: Seq<TerminalRowFields<Seq<char>>>) -> Seq<Seq<Seq<char>>> {
    all.map_values(|leg: TerminalRowFields<Seq<char>>| group_key(leg.procedure_identifier))
}

/// The positions of the legs of each procedure.
pub open spec fn group_positions(keys: Seq<Seq<Seq<char>>>) -> spec_fn(int, Seq<Seq<char>>) -> Seq<
    int,
> {
    |j: int, key: Seq<Seq<char>>| text::collect(keys, keyed::position_chooser(key))
}

/// The positions of legs, procedure by procedure in the order in which the procedures appear.
pub open spec fn grouped_order(keys: Seq<Seq<Seq<char>>>) -> Seq<int> {
    text::flat_collect(keyed::distinct_rows(keys), group_positions(keys))
}

/// The order in which legs are written: as they come, or procedure by procedure.
pub open spec fn leg_order(all: Seq<TerminalRowFields<Seq<char>>>, grouping: bool) -> Seq<int> {
    if grouping {
        grouped_order(group_keys(all))
    } else {
        Seq::new(all.len(), |i: int| i)
    }
}

/// Whether the procedure of a leg needs an authorization.
pub open spec fn leg_marked(all: Seq<TerminalRowFields<Seq<char>>>, grouping: bool, i: int) -> bool {
    grouping && exists|j: int|
        0 <= j < all.len() && group_key((#[trigger] all[j]).procedure_identifier) == group_key(
            all[i].procedure_identifier,
        ) && legs::authorized(all[j].rnp, all[j].path_termination)
}

proof fn lemma_positions(keys: Seq<Seq<Seq<char>>>, key: Seq<Seq<char>>)
    ensures
        ({
            let found = text::collect(keys, keyed::position_chooser(key));
            &&& found.no_duplicates()
            &&& forall|i: int| #[trigger]
                found.contains(i) <==> 0 <= i < keys.len() && keys[i] == key
        }),
    decreases keys.len(),
{
    let f = keyed::position_chooser(key);
    let found = text::collect(keys, f);
    if keys.len() > 0 {
        let init = keys.drop_last();
        let last = keys.len() - 1;
        lemma_positions(init, key);
        let before = text::collect(init, f);
        assert forall|i: int| #[trigger] found.contains(i) <==> 0 <= i < keys.len() && keys[i]
            == key by {
            assert(before.contains(i) <==> 0 <= i < last && init[i] == key);
            keyed::lemma_contains_push(before, last, i);
        }
        assert(!before.contains(last));
    }
}

proof fn lemma_grouped(keys: Seq<Seq<Seq<char>>>, groups: Seq<Seq<Seq<char>>>)
    requires
        groups.no_duplicates(),
    ensures
        ({
            let order = text::flat_collect(groups, group_positions(keys));
            &&& order.no_duplicates()
            &&& forall|i: int| #[trigger]
                order.contains(i) <==> 0 <= i < keys.len() && groups.contains(keys[i])
        }),
    decreases groups.len(),
{
    let f = group_positions(keys);
    let order = text::flat_collect(groups, f);
    if groups.len() > 0 {
        let init = groups.drop_last();
        let key = groups.last();
        assert(init.no_duplicates());
        assert(init.push(key) =~= groups);
        lemma_grouped(keys, init);
        lemma_positions(keys, key);
        let before = text::flat_collect(init, f);
        let more = text::collect(keys, keyed::position_chooser(key));
        assert(order == before + more);
        assert(!init.contains(key));
        assert forall|i: int| #[trigger] order.contains(i) <==> 0 <= i < keys.len()
            && groups.contains(keys[i]) by {
            assert(before.contains(i) <==> 0 <= i < keys.len() && init.contains(keys[i]));
            assert(more.contains(i) <==> 0 <= i < keys.len() && keys[i] == key);
            if 0 <= i < keys.len() {
                keyed::lemma_contains_push(init, key, keys[i]);
            }
            if order.contains(i) {
                let k = choose|k: int| 0 <= k < order.len() && order[k] == i;
                if k < before.len() {
                    assert(before[k] == i);
                } else {
                    assert(more[k - before.len()] == i);
                }
            }
            if before.contains(i) {
                let k = choose|k: int| 0 <= k < before.len() && before[k] == i;
                assert(order[k] == i);
            }
            if more.contains(i) {
                let k = choose|k: int| 0 <= k < more.len() && more[k] == i;
                assert(order[before.len() + k] == i);
            }
        }
        assert forall|a: int, b: int|
            0 <= a < order.len() && 0 <= b < order.len() && a != b implies order[a]
            != order[b] by {
            if order[a] == order[b] {
                let i = order[a];
                if a < before.len() && b < before.len() {
                    assert(before[a] != before[b]);
                } else if a >= before.len() && b >= before.len() {
                    assert(more[a - before.len()] != more[b - before.len()]);
                } else {
                    let (x, y) = if a < before.len() {
                        (a, b - before.len())
                    } else {
                        (b, a - before.len())
                    };
                    assert(before[x] == i && more[y] == i);
                    assert(before.contains(i) && more.contains(i));
                }
            }
        }
    }
}

/// Writing legs procedure by procedure loses none and repeats none.
pub proof fn grouping_rearranges_the_legs(keys: Seq<Seq<Seq<char>>>)
    ensures
        grouped_order(keys).no_duplicates(),
        forall|i: int| #[trigger] grouped_order(keys).contains(i) <==> 0 <= i < keys.len(),
{
    keyed::lemma_distinct_rows(keys);
    lemma_grouped(keys, keyed::distinct_rows(keys));
    assert forall|i: int| #[trigger] grouped_order(keys).contains(i) <==> 0 <= i < keys.len() by {
        if 0 <= i < keys.len() {
            assert(keys.contains(keys[i]));
        }
    }
}

fn list_group_keys(all: &Vec<TerminalRowFields>) -> (r: Vec<Vec<String>>)
    ensures
        keyed::row_views(r@) == group_keys(text::views(all@)),
{
    let ghost goal = group_keys(text::views(all@));
    let mut r: Vec<Vec<String>> = Vec::new();
    assert(keyed::row_views(r@) =~= goal.take(0));
    for i in 0..all.len()
        invariant
            goal == group_keys(text::views(all@)),
            keyed::row_views(r@) == goal.take(i as int),
    {
        let key: Vec<String> = make_group_key(&all[i].procedure_identifier);
        proof {
            keyed::lemma_row_views_push(r@, key);
            assert(goal.take(i + 1) =~= goal.take(i as int).push(text::views(key@)));
        }
        r.push(key);
    }
    assert(goal.take(all@.len() as int) == goal);
    r
}

fn list_grouped_order(keys: &Vec<Vec<String>>) -> (out: Vec<usize>)
    ensures
        keyed::positions(out@) == grouped_order(keyed::row_views(keys@)),
{
    let ghost all = keyed::row_views(keys@);
    let mut groups: RowSet = RowSet::new();
    assert(all.take(0).len() == 0);
    for i in 0..keys.len()
        invariant
            groups.wf(),
            all == keyed::row_views(keys@),
            groups@ == keyed::distinct_rows(all.take(i as int)),
    {
        let width: usize = keys[i].len();
        let mut key: Vec<String> = Vec::new();
        let ghost texts = text::views(keys@[i as int]@);
        assert(text::views(key@) =~= texts.take(0));
        for j in 0..width
            invariant
                i < keys@.len(),
                width == keys@[i as int]@.len(),
                texts == text::views(keys@[i as int]@),
                text::views(key@) == texts.take(j as int),
        {
            let part: String = keys[i][j].clone();
            proof {
                text::lemma_views_push(key@, part);
                assert(texts.take(j + 1) =~= texts.take(j as int).push(part@));
            }
            key.push(part);
        }
        assert(texts.take(width as int) == texts);
        groups.insert(key);
        assert(all.take(i + 1).drop_last() == all.take(i as int));
        assert(all.take(i + 1).last() == texts);
    }
    assert(all.take(keys@.len() as int) == all);
    let rows: &Vec<Vec<String>> = groups.rows();
    let ghost distinct = keyed::distinct_rows(all);
    let ghost f = group_positions(all);
    let mut out: Vec<usize> = Vec::new();
    assert(distinct.take(0).len() == 0);
    assert(keyed::positions(out@) =~= text::flat_collect(distinct.take(0), f));
    for j in 0..rows.len()
        invariant
            all == keyed::row_views(keys@),
            keyed::row_views(rows@) == distinct,
            f == group_positions(all),
            keyed::positions(out@) == text::flat_collect(distinct.take(j as int), f),
    {
        let ghost key = distinct[j as int];
        let ghost before = keyed::positions(out@);
        let ghost g = keyed::position_chooser(key);
        assert(key == text::views(rows@[j as int]@));
        assert(all.take(0).len() == 0);
        assert(before =~= before + text::collect(all.take(0), g));
        for i in 0..keys.len()
            invariant
                j < rows@.len(),
                all == keyed::row_views(keys@),
                key == text::views(rows@[j as int]@),
                g == keyed::position_chooser(key),
                keyed::positions(out@) == before + text::collect(all.take(i as int), g),
        {
            proof {
                text::lemma_collect_step(all, g, i as int);
                assert(all[i as int] == text::views(keys@[i as int]@));
            }
            if keyed::same_row(&keys[i], &rows[j]) {
                proof {
                    let part = text::collect(all.take(i as int), g);
                    assert(keyed::positions(out@.push(i)) =~= keyed::positions(out@).push(i as int));
                    assert((before + part).push(i as int) =~= before + part.push(i as int));
                }
                out.push(i);
            }
        }
        assert(all.take(keys@.len() as int) == all);
        proof {
            text::lemma_flat_collect_step(distinct, f, j as int);
        }
    }
    assert(distinct.take(rows@.len() as int) == distinct);
    out
}

/// The order in which legs are written.
pub fn list_leg_order(all: &Vec<TerminalRowFields>, grouping: bool) -> (out: Vec<usize>)
    ensures
        keyed::positions(out@) == leg_order(text::views(all@), grouping),
{
    if grouping {
        let keys: Vec<Vec<String>> = list_group_keys(all);
        return list_grouped_order(&keys);
    }
    let mut out: Vec<usize> = Vec::new();
    for i in 0..all.len()
        invariant
            out@.len() == i,
            forall|k: int| 0 <= k < i ==> #[trigger] out@[k] == k,
    {
        out.push(i);
    }
    assert(keyed::positions(out@) =~= leg_order(text::views(all@), grouping));
    out
}

fn is_leg_marked(all: &Vec<TerminalRowFields>, grouping: bool, i: usize) -> (r: bool)
    requires
        i < all@.len(),
    ensures
        r == leg_marked(text::views(all@), grouping, i as int),
{
    if !grouping {
        return false;
    }
    let ghost v = text::views(all@);
    let key: Vec<String> = make_group_key(&all[i].procedure_identifier);
    for j in 0..all.len()
        invariant
            grouping,
            i < all@.len(),
            v == text::views(all@),
            text::views(key@) == group_key(v[i as int].procedure_identifier),
            forall|k: int|
                0 <= k < j ==> !(group_key((#[trigger] v[k]).procedure_identifier) == group_key(
                    v[i as int].procedure_identifier,
                ) && legs::authorized(v[k].rnp, v[k].path_termination)),
    {
        let other: Vec<String> = make_group_key(&all[j].procedure_identifier);
        assert(v[j as int] == all@[j as int]@);
        assert(v[i as int] == all@[i as int]@);
        if keyed::same_row(&other, &key) && legs::row_requires_authorization(
            all[j].rnp,
            &all[j].path_termination,
        ) {
            return true;
        }
    }
    false
}

/// How the legs of a file are laid out.
pub struct LegLayout {
    /// The byte positions of the sequence number in the first field.
    pub seqno_start: usize,
    pub seqno_end: usize,
    /// Whether legs are written procedure by procedure.
    pub grouping: bool,
    /// Whether the procedures are approaches.
    pub iaps: bool,
}

/// What the legs of a file say.
pub open spec fn file_fields(lines: Seq<Seq<Seq<char>>>, layout: LegLayout) -> Seq<
    TerminalRowFields<Seq<char>>,
> {
    lines.map_values(
        |fields: Seq<Seq<char>>|
            legs::row_fields(fields, layout.seqno_start as int, layout.seqno_end as int),
    )
}

/// The row of the leg at a position; the answers come three for each leg.
pub open spec fn file_row(
    lines: Seq<Seq<Seq<char>>>,
    airport: Seq<char>,
    results: Seq<RefMatchResult>,
    layout: LegLayout,
    columns: Seq<Seq<char>>,
    i: int,
) -> Seq<Cell<Seq<char>>> {
    let all = file_fields(lines, layout);
    procedure_row(
        columns,
        airport,
        all[i],
        leg_fixes::matched_cells(
            lines[i],
            airport,
            results[3 * i],
            results[3 * i + 1],
            results[3 * i + 2],
        ),
        layout.iaps,
        leg_marked(all, layout.grouping, i),
    )
}

/// The rows of the legs of a file, in the order in which they are written.
pub open spec fn file_rows(
    lines: Seq<Seq<Seq<char>>>,
    airport: Seq<char>,
    results: Seq<RefMatchResult>,
    layout: LegLayout,
    columns: Seq<Seq<char>>,
) -> Seq<Seq<Cell<Seq<char>>>> {
    leg_order(file_fields(lines, layout), layout.grouping).map_values(
        |i: int| file_row(lines, airport, results, layout, columns, i),
    )
}

/// A file has as many rows as it has legs.
pub proof fn every_leg_has_a_row(
    lines: Seq<Seq<Seq<char>>>,
    airport: Seq<char>,
    results: Seq<RefMatchResult>,
    layout: LegLayout,
    columns: Seq<Seq<char>>,
)
    ensures
        file_rows(lines, airport, results, layout, columns).len() == lines.len(),
{
    let all = file_fields(lines, layout);
    let order = leg_order(all, layout.grouping);
    if layout.grouping {
        grouping_rearranges_the_legs(group_keys(all));
        let n = lines.len() as int;
        let range = vstd::set_lib::set_int_range(0, n);
        order.unique_seq_to_set();
        assert(order.to_set() =~= range);
        vstd::set_lib::lemma_int_range(0, n);
    }
}

/// Lays out the legs of a file, given the answers to their requests.
pub fn build_file_rows(
    lines: &Vec<CifpFields>,
    airport: &str,
    results: &Vec<RefMatchResult>,
    layout: &LegLayout,
    columns: &Vec<String>,
) -> (out: Vec<Vec<Cell>>)
    requires
        results@.len() == 3 * lines@.len(),
    ensures
        records::cell_rows(out@) == file_rows(
            text::views(lines@),
            airport@,
            results@,
            *layout,
            text::views(columns@),
        ),
{
    let ghost v = text::views(lines@);
    let ghost fields = file_fields(v, *layout);
    let count: usize = lines.len();
    let total: usize = results.len();
    let mut all: Vec<TerminalRowFields> = Vec::new();
    assert(text::views(all@) =~= fields.take(0));
    for i in 0..count
        invariant
            count == lines@.len(),
            v == text::views(lines@),
            fields == file_fields(v, *layout),
            text::views(all@) == fields.take(i as int),
    {
        let leg: TerminalRowFields = legs::collect_terminal_row_fields(
            &lines[i],
            layout.seqno_start,
            layout.seqno_end,
        );
        proof {
            text::lemma_views_push(all@, leg);
            assert(fields.take(i + 1) =~= fields.take(i as int).push(leg@));
        }
        all.push(leg);
    }
    assert(fields.take(count as int) == fields);
    let order: Vec<usize> = list_leg_order(&all, layout.grouping);
    let ghost goal = file_rows(v, airport@, results@, *layout, text::views(columns@));
    proof {
        if layout.grouping {
            grouping_rearranges_the_legs(group_keys(fields));
        }
    }
    let mut out: Vec<Vec<Cell>> = Vec::new();
    assert(records::cell_rows(out@) =~= goal.take(0));
    for k in 0..order.len()
        invariant
            count == lines@.len(),
            total == 3 * count,
            total == results@.len(),
            all@.len() == count,
            v == text::views(lines@),
            fields == file_fields(v, *layout),
            text::views(all@) == fields,
            keyed::positions(order@) == leg_order(fields, layout.grouping),
            layout.grouping ==> forall|i: int| #[trigger]
                grouped_order(group_keys(fields)).contains(i) <==> 0 <= i < fields.len(),
            goal == file_rows(v, airport@, results@, *layout, text::views(columns@)),
            records::cell_rows(out@) == goal.take(k as int),
    {
        let i: usize = order[k];
        assert(keyed::positions(order@)[k as int] == i);
        assert(i < count) by {
            if layout.grouping {
                assert(grouped_order(group_keys(fields)).contains(i as int));
            }
        }
        let cells: MatchedProcedureCells = leg_fixes::resolve_matched_procedure_cells(
            &lines[i],
            airport,
            results[3 * i],
            results[3 * i + 1],
            results[3 * i + 2],
        );
        let marked: bool = is_leg_marked(&all, layout.grouping, i);
        assert(all@[i as int]@ == fields[i as int]);
        let row: Vec<Cell> = build_terminal_record_row(
            columns,
            airport,
            &all[i],
            &cells,
            layout.iaps,
            marked,
        );
        proof {
            assert(records::cell_rows(out@.push(row)) =~= records::cell_rows(out@).push(
                text::views(row@),
            ));
            assert(goal.take(k + 1) =~= goal.take(k as int).push(text::views(row@)));
        }
        out.push(row);
    }
    assert(goal.take(order@.len() as int) == goal) by {
        assert(goal.len() == keyed::positions(order@).len());
    }
    out
}

/// Every column of a procedure holds what it is named for.
#[verifier::spinoff_prover]
#[verifier::rlimit(60)]
pub proof fn every_column_holds_what_it_is_named_for(
    airport: Seq<char>,
    fields: TerminalRowFields<Seq<char>>,
    cells: MatchedProcedureCells<Seq<char>>,
    iaps: bool,
    marked: bool,
)
    ensures
        procedure_cell("airport_identifier"@, airport, fields, cells, iaps, marked) == Cell::Text(airport),
        procedure_cell("altitude_description"@, airport, fields, cells, iaps, marked) == records::text_cell(fields.altitude_description),
        procedure_cell("altitude1"@, airport, fields, cells, iaps, marked) == records::text_cell(fields.altitude1),
        procedure_cell("altitude2"@, airport, fields, cells, iaps, marked) == records::text_cell(fields.altitude2),
        procedure_cell("arc_radius"@, airport, fields, cells, iaps, marked) == quotient_cell(fields.arc_radius, 1000),
        procedure_cell("area_code"@, airport, fields, cells, iaps, marked) == Cell::Text(area_code(airport)),
        procedure_cell("center_waypoint_icao_code"@, airport, fields, cells, iaps, marked) == records::text_cell(cells.center_waypoint_icao_code),
        procedure_cell("center_waypoint_latitude"@, airport, fields, cells, iaps, marked) == records::bits_cell(cells.center.latitude),
        procedure_cell("center_waypoint_longitude"@, airport, fields, cells, iaps, marked) == records::bits_cell(cells.center.longitude),
        procedure_cell("center_waypoint_ref_table"@, airport, fields, cells, iaps, marked) == table_cell(cells.center.ref_table),
        procedure_cell("center_waypoint"@, airport, fields, cells, iaps, marked) == records::text_cell(cells.center_waypoint),
        procedure_cell("course_flag"@, airport, fields, cells, iaps, marked) == flag_cell(fields.course is Some, "M"@),
        procedure_cell("course"@, airport, fields, cells, iaps, marked) == quotient_cell(fields.course, 10),
        procedure_cell("magnetic_course"@, airport, fields, cells, iaps, marked) == quotient_cell(fields.course, 10),
        procedure_cell("ctl"@, airport, fields, cells, iaps, marked) == flag_cell(iaps, "N"@),
        procedure_cell("distance_time"@, airport, fields, cells, iaps, marked) == flag_cell(fields.route_distance is Some, "D"@),
        procedure_cell("path_termination"@, airport, fields, cells, iaps, marked) == records::text_cell(fields.path_termination),
        procedure_cell("procedure_identifier"@, airport, fields, cells, iaps, marked) == records::text_cell(fields.procedure_identifier),
        procedure_cell("recommended_navaid_icao_code"@, airport, fields, cells, iaps, marked) == records::text_cell(cells.recommended_navaid_icao_code),
        procedure_cell("recommended_navaid_latitude"@, airport, fields, cells, iaps, marked) == records::bits_cell(cells.recommended.latitude),
        procedure_cell("recommanded_navaid_latitude"@, airport, fields, cells, iaps, marked) == records::bits_cell(cells.recommended.latitude),
        procedure_cell("recommended_navaid_longitude"@, airport, fields, cells, iaps, marked) == records::bits_cell(cells.recommended.longitude),
        procedure_cell("recommanded_navaid_longitude"@, airport, fields, cells, iaps, marked) == records::bits_cell(cells.recommended.longitude),
        procedure_cell("recommended_navaid_ref_table"@, airport, fields, cells, iaps, marked) == table_cell(cells.recommended.ref_table),
        procedure_cell("recommended_navaid"@, airport, fields, cells, iaps, marked) == records::text_cell(cells.recommended_navaid),
        procedure_cell("recommanded_navaid"@, airport, fields, cells, iaps, marked) == records::text_cell(cells.recommended_navaid),
        procedure_cell("recommended_navaid_id"@, airport, fields, cells, iaps, marked) == records::text_cell(cells.recommended_id),
        procedure_cell("recommanded_id"@, airport, fields, cells, iaps, marked) == records::text_cell(cells.recommended_id),
        procedure_cell("rho"@, airport, fields, cells, iaps, marked) == quotient_cell(fields.rho, 10),
        procedure_cell("rnp"@, airport, fields, cells, iaps, marked) == rnp_cell(fields.rnp),
        procedure_cell("route_distance_holding_distance_time"@, airport, fields, cells, iaps, marked) == quotient_cell(fields.route_distance, 10),
        procedure_cell("route_type"@, airport, fields, cells, iaps, marked) == records::text_cell(fields.route_type),
        procedure_cell("seqno"@, airport, fields, cells, iaps, marked) == records::text_cell(fields.seqno),
        procedure_cell("speed_limit_description"@, airport, fields, cells, iaps, marked) == records::text_cell(fields.speed_limit_description),
        procedure_cell("speed_limit"@, airport, fields, cells, iaps, marked) == records::text_cell(fields.speed_limit),
        procedure_cell("theta"@, airport, fields, cells, iaps, marked) == quotient_cell(fields.theta, 10),
        procedure_cell("transition_altitude"@, airport, fields, cells, iaps, marked) == records::text_cell(fields.transition_altitude),
        procedure_cell("transition_identifier"@, airport, fields, cells, iaps, marked) == records::text_cell(fields.transition_identifier),
        procedure_cell("turn_direction"@, airport, fields, cells, iaps, marked) == records::text_cell(fields.turn_direction),
        procedure_cell("vertical_angle"@, airport, fields, cells, iaps, marked) == tenths_cell(fields.vertical_angle),
        procedure_cell("waypoint_description_code"@, airport, fields, cells, iaps, marked) == records::text_cell(fields.waypoint_description_code),
        procedure_cell("waypoint_icao_code"@, airport, fields, cells, iaps, marked) == records::text_cell(cells.waypoint_icao_code),
        procedure_cell("waypoint_identifier"@, airport, fields, cells, iaps, marked) == records::text_cell(cells.waypoint_identifier),
        procedure_cell("waypoint_latitude"@, airport, fields, cells, iaps, marked) == records::bits_cell(cells.waypoint.latitude),
        procedure_cell("waypoint_longitude"@, airport, fields, cells, iaps, marked) == records::bits_cell(cells.waypoint.longitude),
        procedure_cell("waypoint_ref_table"@, airport, fields, cells, iaps, marked) == table_cell(cells.waypoint.ref_table),
        procedure_cell("center_id"@, airport, fields, cells, iaps, marked) == records::text_cell(cells.center_id),
        procedure_cell("id"@, airport, fields, cells, iaps, marked) == records::text_cell(cells.waypoint_id),
        procedure_cell("aircraft_category"@, airport, fields, cells, iaps, marked) == Cell::Text("J"@),
        procedure_cell("authorization_required"@, airport, fields, cells, iaps, marked) == flag_cell(marked, "Y"@),
{
    reveal_strlit("airport_identifier");
    assert("airport_identifier"@.len() == 18);
    reveal_strlit("altitude_description");
    assert("altitude_description"@.len() == 20);
    reveal_strlit("altitude1");
    assert("altitude1"@.len() == 9);
    reveal_strlit("altitude2");
    assert("altitude2"@.len() == 9);
    reveal_strlit("arc_radius");
    assert("arc_radius"@.len() == 10);
    reveal_strlit("area_code");
    assert("area_code"@.len() == 9);
    reveal_strlit("center_waypoint_icao_code");
    assert("center_waypoint_icao_code"@.len() == 25);
    reveal_strlit("center_waypoint_latitude");
    assert("center_waypoint_latitude"@.len() == 24);
    reveal_strlit("center_waypoint_longitude");
    assert("center_waypoint_longitude"@.len() == 25);
    reveal_strlit("center_waypoint_ref_table");
    assert("center_waypoint_ref_table"@.len() == 25);
    reveal_strlit("center_waypoint");
    assert("center_waypoint"@.len() == 15);
    reveal_strlit("course_flag");
    assert("course_flag"@.len() == 11);
    reveal_strlit("course");
    assert("course"@.len() == 6);
    reveal_strlit("magnetic_course");
    assert("magnetic_course"@.len() == 15);
    reveal_strlit("ctl");
    assert("ctl"@.len() == 3);
    reveal_strlit("distance_time");
    assert("distance_time"@.len() == 13);
    reveal_strlit("path_termination");
    assert("path_termination"@.len() == 16);
    reveal_strlit("procedure_identifier");
    assert("procedure_identifier"@.len() == 20);
    reveal_strlit("recommended_navaid_icao_code");
    assert("recommended_navaid_icao_code"@.len() == 28);
    reveal_strlit("recommended_navaid_latitude");
    assert("recommended_navaid_latitude"@.len() == 27);
    reveal_strlit("recommanded_navaid_latitude");
    assert("recommanded_navaid_latitude"@.len() == 27);
    reveal_strlit("recommended_navaid_longitude");
    assert("recommended_navaid_longitude"@.len() == 28);
    reveal_strlit("recommanded_navaid_longitude");
    assert("recommanded_navaid_longitude"@.len() == 28);
    reveal_strlit("recommended_navaid_ref_table");
    assert("recommended_navaid_ref_table"@.len() == 28);
    reveal_strlit("recommended_navaid");
    assert("recommended_navaid"@.len() == 18);
    reveal_strlit("recommanded_navaid");
    assert("recommanded_navaid"@.len() == 18);
    reveal_strlit("recommended_navaid_id");
    assert("recommended_navaid_id"@.len() == 21);
    reveal_strlit("recommanded_id");
    assert("recommanded_id"@.len() == 14);
    reveal_strlit("rho");
    assert("rho"@.len() == 3);
    reveal_strlit("rnp");
    assert("rnp"@.len() == 3);
    reveal_strlit("route_distance_holding_distance_time");
    assert("route_distance_holding_distance_time"@.len() == 36);
    reveal_strlit("route_type");
    assert("route_type"@.len() == 10);
    reveal_strlit("seqno");
    assert("seqno"@.len() == 5);
    reveal_strlit("speed_limit_description");
    assert("speed_limit_description"@.len() == 23);
    reveal_strlit("speed_limit");
    assert("speed_limit"@.len() == 11);
    reveal_strlit("theta");
    assert("theta"@.len() == 5);
    reveal_strlit("transition_altitude");
    assert("transition_altitude"@.len() == 19);
    reveal_strlit("transition_identifier");
    assert("transition_identifier"@.len() == 21);
    reveal_strlit("turn_direction");
    assert("turn_direction"@.len() == 14);
    reveal_strlit("vertical_angle");
    assert("vertical_angle"@.len() == 14);
    reveal_strlit("waypoint_description_code");
    assert("waypoint_description_code"@.len() == 25);
    reveal_strlit("waypoint_icao_code");
    assert("waypoint_icao_code"@.len() == 18);
    reveal_strlit("waypoint_identifier");
    assert("waypoint_identifier"@.len() == 19);
    reveal_strlit("waypoint_latitude");
    assert("waypoint_latitude"@.len() == 17);
    reveal_strlit("waypoint_longitude");
    assert("waypoint_longitude"@.len() == 18);
    reveal_strlit("waypoint_ref_table");
    assert("waypoint_ref_table"@.len() == 18);
    reveal_strlit("center_id");
    assert("center_id"@.len() == 9);
    reveal_strlit("id");
    assert("id"@.len() == 2);
    reveal_strlit("aircraft_category");
    assert("aircraft_category"@.len() == 17);
    reveal_strlit("authorization_required");
    assert("authorization_required"@.len() == 22);
    assert("altitude1"@[8] != "altitude2"@[8]);
    assert("altitude1"@[1] != "area_code"@[1]);
    assert("altitude2"@[1] != "area_code"@[1]);
    assert("center_waypoint_icao_code"@[16] != "center_waypoint_longitude"@[16]);
    assert("center_waypoint_icao_code"@[16] != "center_waypoint_ref_table"@[16]);
    assert("center_waypoint_longitude"@[16] != "center_waypoint_ref_table"@[16]);
    assert("center_waypoint"@[0] != "magnetic_course"@[0]);
    assert("altitude_description"@[0] != "procedure_identifier"@[0]);
    assert("recommended_navaid_icao_code"@[19] != "recommended_navaid_longitude"@[19]);
    assert("recommended_navaid_icao_code"@[6] != "recommanded_navaid_longitude"@[6]);
    assert("recommended_navaid_icao_code"@[19] != "recommended_navaid_ref_table"@[19]);
    assert("recommended_navaid_longitude"@[19] != "recommended_navaid_ref_table"@[19]);
    assert("recommanded_navaid_longitude"@[6] != "recommended_navaid_ref_table"@[6]);
    assert("airport_identifier"@[0] != "recommended_navaid"@[0]);
    assert("airport_identifier"@[0] != "recommanded_navaid"@[0]);
    assert("ctl"@[0] != "rho"@[0]);
    assert("ctl"@[0] != "rnp"@[0]);
    assert("rho"@[1] != "rnp"@[1]);
    assert("arc_radius"@[0] != "route_type"@[0]);
    assert("course_flag"@[0] != "speed_limit"@[0]);
    assert("seqno"@[0] != "theta"@[0]);
    assert("recommended_navaid_id"@[0] != "transition_identifier"@[0]);
    assert("recommanded_id"@[0] != "turn_direction"@[0]);
    assert("recommanded_id"@[0] != "vertical_angle"@[0]);
    assert("turn_direction"@[0] != "vertical_angle"@[0]);
    assert("center_waypoint_icao_code"@[0] != "waypoint_description_code"@[0]);
    assert("center_waypoint_longitude"@[0] != "waypoint_description_code"@[0]);
    assert("center_waypoint_ref_table"@[0] != "waypoint_description_code"@[0]);
    assert("airport_identifier"@[0] != "waypoint_icao_code"@[0]);
    assert("recommended_navaid"@[0] != "waypoint_icao_code"@[0]);
    assert("recommanded_navaid"@[0] != "waypoint_icao_code"@[0]);
    assert("transition_altitude"@[0] != "waypoint_identifier"@[0]);
    assert("airport_identifier"@[0] != "waypoint_longitude"@[0]);
    assert("recommended_navaid"@[0] != "waypoint_longitude"@[0]);
    assert("recommanded_navaid"@[0] != "waypoint_longitude"@[0]);
    assert("waypoint_icao_code"@[9] != "waypoint_longitude"@[9]);
    assert("airport_identifier"@[0] != "waypoint_ref_table"@[0]);
    assert("recommended_navaid"@[0] != "waypoint_ref_table"@[0]);
    assert("recommanded_navaid"@[0] != "waypoint_ref_table"@[0]);
    assert("waypoint_icao_code"@[9] != "waypoint_ref_table"@[9]);
    assert("waypoint_longitude"@[9] != "waypoint_ref_table"@[9]);
    assert("altitude1"@[0] != "center_id"@[0]);
    assert("altitude2"@[0] != "center_id"@[0]);
    assert("area_code"@[0] != "center_id"@[0]);
    assert("waypoint_latitude"@[0] != "aircraft_category"@[0]);
}

/// A cell shows what is there, and nothing where there is nothing.
pub proof fn cells_show_what_is_there(
    value: Seq<char>,
    divisor: u32,
    rnp: Rnp,
    table: RefTable,
    mark: Seq<char>,
)
    ensures
        quotient_cell(Some(value), divisor) == Cell::Quotient(value, divisor),
        quotient_cell(None, divisor) == Cell::<Seq<char>>::Null,
        tenths_cell(Some(value)) == Cell::Tenths(value),
        tenths_cell(None) == Cell::<Seq<char>>::Null,
        rnp_cell(Some(rnp)) == Cell::<Seq<char>>::Scaled(rnp.numerator, rnp.exponent),
        rnp_cell(None) == Cell::<Seq<char>>::Null,
        table_cell(Some(table)) == Cell::Text(ref_tables::name_of(table)),
        table_cell(None) == Cell::<Seq<char>>::Null,
        flag_cell(true, mark) == Cell::Text(mark),
        flag_cell(false, mark) == Cell::<Seq<char>>::Null,
{
}

/// Airports lie in an area by the first two letters of their code.
pub proof fn airports_lie_in_an_area_by_their_first_letters(airport: Seq<char>)
    ensures
        airport.len() >= 2 && airport[0] == 'O' && airport[1] == 'P' ==> area_code(airport)
            == "MES"@,
        airport.len() >= 2 && airport[0] == 'V' && airport[1] == 'H' ==> area_code(airport)
            == "PAC"@,
        airport.len() < 2 || !(airport[0] == 'O' && airport[1] == 'P' || airport[0] == 'V'
            && airport[1] == 'H') ==> area_code(airport) == "EEU"@,
{
    reveal_strlit("OP");
    reveal_strlit("VH");
    assert("OP"@ =~= seq!['O', 'P']);
    assert("VH"@ =~= seq!['V', 'H']);
    if airport.len() >= 2 {
        assert(airport.subrange(0, 2) =~= seq![airport[0], airport[1]]);
    }
    if "OP"@.is_prefix_of(airport) {
        assert(airport[0] == "OP"@[0] && airport[1] == "OP"@[1]);
    }
    if "VH"@.is_prefix_of(airport) {
        assert(airport[0] == "VH"@[0] && airport[1] == "VH"@[1]);
    }
}

/// A leg is marked as requiring authorization where legs are grouped and some leg of its procedure
/// requires it.
pub proof fn a_leg_is_marked_for_its_whole_procedure(
    all: Seq<TerminalRowFields<Seq<char>>>,
    i: int,
    j: int,
)
    requires
        0 <= i < all.len(),
        0 <= j < all.len(),
    ensures
        !leg_marked(all, false, i),
        legs::authorized(all[j].rnp, all[j].path_termination) && all[j].procedure_identifier
            == all[i].procedure_identifier ==> leg_marked(all, true, i),
        all[j].procedure_identifier == all[i].procedure_identifier ==> leg_marked(all, true, i)
            == leg_marked(all, true, j),
        leg_marked(all, true, i) ==> exists|k: int|
            0 <= k < all.len() && (#[trigger] all[k]).procedure_identifier
                == all[i].procedure_identifier && legs::authorized(
                all[k].rnp,
                all[k].path_termination,
            ),
{
    if leg_marked(all, true, i) {
        let k = choose|k: int|
            0 <= k < all.len() && group_key((#[trigger] all[k]).procedure_identifier) == group_key(
                all[i].procedure_identifier,
            ) && legs::authorized(all[k].rnp, all[k].path_termination);
        lemma_group_key(all[k].procedure_identifier, all[i].procedure_identifier);
    }
}

proof fn lemma_group_key(a: Option<Seq<char>>, b: Option<Seq<char>>)
    requires
        group_key(a) == group_key(b),
    ensures
        a == b,
{
    match (a, b) {
        (Some(x), Some(y)) => {
            assert(group_key(a)[0] == group_key(b)[0]);
            assert(x == y);
        },
        (None, Some(y)) => {
            assert(group_key(a).len() == 0);
            assert(group_key(b).len() == 1);
        },
        (Some(x), None) => {
            assert(group_key(a).len() == 1);
            assert(group_key(b).len() == 0);
        },
        (None, None) => {},
    }
}

/// The row of a leg is laid out from the leg's own fields and from the three answers for it: the
/// first for its waypoint, the second for its recommended navigation aid, the third for its center.
pub proof fn a_row_is_laid_out_from_its_own_leg_and_answers(
    lines: Seq<Seq<Seq<char>>>,
    airport: Seq<char>,
    results: Seq<RefMatchResult>,
    layout: LegLayout,
    columns: Seq<Seq<char>>,
    i: int,
    k: int,
)
    requires
        0 <= i < lines.len(),
        0 <= k < columns.len(),
        results.len() == 3 * lines.len(),
    ensures
        file_row(lines, airport, results, layout, columns, i).len() == columns.len(),
        file_row(lines, airport, results, layout, columns, i)[k] == procedure_cell(
            columns[k],
            airport,
            legs::row_fields(lines[i], layout.seqno_start as int, layout.seqno_end as int),
            leg_fixes::matched_cells(
                lines[i],
                airport,
                results[3 * i],
                results[3 * i + 1],
                results[3 * i + 2],
            ),
            layout.iaps,
            leg_marked(file_fields(lines, layout), layout.grouping, i),
        ),
        !layout.grouping ==> file_rows(lines, airport, results, layout, columns)[i] == file_row(
            lines,
            airport,
            results,
            layout,
            columns,
            i,
        ),
{
}

/// Turn direction and path terminator of a leg stand in the columns that are named for them, and so
/// do the positions that were found for its fixes.
pub proof fn a_leg_reaches_the_columns_that_are_named_for_it(
    lines: Seq<Seq<Seq<char>>>,
    airport: Seq<char>,
    results: Seq<RefMatchResult>,
    layout: LegLayout,
    columns: Seq<Seq<char>>,
    i: int,
    k: int,
)
    requires
        0 <= i < lines.len(),
        0 <= k < columns.len(),
        results.len() == 3 * lines.len(),
    ensures
        ({
            let cell = file_row(lines, airport, results, layout, columns, i)[k];
            let fields = lines[i];
            &&& columns[k] == "turn_direction"@ ==> cell == records::text_cell(
                legs::leg_field(fields, 9),
            )
            &&& columns[k] == "path_termination"@ ==> cell == records::text_cell(
                legs::leg_field(fields, 11),
            )
            &&& columns[k] == "procedure_identifier"@ ==> cell == records::text_cell(
                legs::leg_field(fields, 2),
            )
            &&& columns[k] == "transition_identifier"@ ==> cell == records::text_cell(
                legs::leg_field(fields, 3),
            )
            &&& columns[k] == "route_type"@ ==> cell == records::text_cell(
                legs::leg_field(fields, 1),
            )
            &&& columns[k] == "waypoint_identifier"@ ==> cell == records::text_cell(
                legs::leg_field(fields, 4),
            )
            &&& columns[k] == "waypoint_icao_code"@ ==> cell == records::text_cell(
                legs::leg_field(fields, 5),
            )
            &&& columns[k] == "waypoint_latitude"@ ==> cell == records::bits_cell(
                results[3 * i].latitude,
            )
            &&& columns[k] == "waypoint_longitude"@ ==> cell == records::bits_cell(
                results[3 * i].longitude,
            )
            &&& columns[k] == "recommanded_navaid"@ ==> cell == records::text_cell(
                legs::leg_field(fields, 13),
            )
            &&& columns[k] == "recommanded_navaid_latitude"@ ==> cell == records::bits_cell(
                results[3 * i + 1].latitude,
            )
            &&& columns[k] == "recommanded_navaid_longitude"@ ==> cell == records::bits_cell(
                results[3 * i + 1].longitude,
            )
            &&& columns[k] == "center_waypoint"@ ==> cell == records::text_cell(
                legs::leg_field(fields, 30),
            )
            &&& columns[k] == "center_waypoint_latitude"@ ==> cell == records::bits_cell(
                results[3 * i + 2].latitude,
            )
            &&& columns[k] == "center_waypoint_longitude"@ ==> cell == records::bits_cell(
                results[3 * i + 2].longitude,
            )
            &&& columns[k] == "altitude1"@ ==> cell == records::text_cell(
                legs::leg_altitude(fields, 23),
            )
            &&& columns[k] == "altitude2"@ ==> cell == records::text_cell(
                legs::leg_altitude(fields, 24),
            )
            &&& columns[k] == "speed_limit"@ ==> cell == records::text_cell(
                legs::leg_field(fields, 27),
            )
            &&& columns[k] == "theta"@ ==> cell == quotient_cell(legs::leg_number(fields, 18), 10)
            &&& columns[k] == "rho"@ ==> cell == quotient_cell(legs::leg_number(fields, 19), 10)
            &&& columns[k] == "magnetic_course"@ ==> cell == quotient_cell(
                legs::leg_number(fields, 20),
                10,
            )
            &&& columns[k] == "arc_radius"@ ==> cell == quotient_cell(
                legs::leg_number(fields, 17),
                1000,
            )
            &&& columns[k] == "route_distance_holding_distance_time"@ ==> cell == quotient_cell(
                legs::leg_number(fields, 21),
                10,
            )
            &&& columns[k] == "airport_identifier"@ ==> cell == Cell::Text(airport)
        }),
{
    a_row_is_laid_out_from_its_own_leg_and_answers(lines, airport, results, layout, columns, i, k);
    let fields = legs::row_fields(
        lines[i],
        layout.seqno_start as int,
        layout.seqno_end as int,
    );
    let cells = leg_fixes::matched_cells(
        lines[i],
        airport,
        results[3 * i],
        results[3 * i + 1],
        results[3 * i + 2],
    );
    every_column_holds_what_it_is_named_for(
        airport,
        fields,
        cells,
        layout.iaps,
        leg_marked(file_fields(lines, layout), layout.grouping, i),
    );
}

/// Where legs are grouped, those of a procedure stand together and in their own order.
pub proof fn legs_of_a_procedure_stand_together(
    all: Seq<TerminalRowFields<Seq<char>>>,
    p: int,
    q: int,
    r: int,
)
    requires
        0 <= p < q < r < leg_order(all, true).len(),
    ensures
        ({
            let order = leg_order(all, true);
            &&& 0 <= order[p] < all.len()
            &&& all[order[p]].procedure_identifier == all[order[q]].procedure_identifier
                ==> order[p] < order[q]
            &&& all[order[p]].procedure_identifier == all[order[r]].procedure_identifier
                ==> all[order[q]].procedure_identifier == all[order[p]].procedure_identifier
        }),
{
    let keys = group_keys(all);
    keyed::lemma_distinct_rows(keys);
    let kinds = keyed::distinct_rows(keys);
    lemma_groups(keys, kinds, p, q);
    lemma_groups(keys, kinds, p, r);
    lemma_groups(keys, kinds, q, r);
    lemma_between(keys, kinds, p, q, r);
    let order = leg_order(all, true);
    if all[order[p]].procedure_identifier == all[order[r]].procedure_identifier {
        lemma_group_key(
            all[order[q]].procedure_identifier,
            all[order[p]].procedure_identifier,
        );
    }
}

proof fn lemma_groups(keys: Seq<Seq<Seq<char>>>, kinds: Seq<Seq<Seq<char>>>, p: int, q: int)
    requires
        kinds.no_duplicates(),
        0 <= p < q < text::flat_collect(kinds, group_positions(keys)).len(),
    ensures
        ({
            let order = text::flat_collect(kinds, group_positions(keys));
            &&& 0 <= order[p] < keys.len()
            &&& 0 <= order[q] < keys.len()
            &&& kinds.contains(keys[order[p]])
            &&& kinds.contains(keys[order[q]])
            &&& keys[order[p]] == keys[order[q]] ==> order[p] < order[q]
        }),
    decreases kinds.len(),
{
    let f = group_positions(keys);
    let init = kinds.drop_last();
    let before = text::flat_collect(init, f);
    let own = text::collect(keys, keyed::position_chooser(kinds.last()));
    let order = text::flat_collect(kinds, f);
    assert(order == before + own);
    lemma_group_member(keys, kinds, p);
    lemma_group_member(keys, kinds, q);
    if q < before.len() {
        lemma_groups(keys, init, p, q);
    } else if p >= before.len() {
        keyed::the_positions_of_a_key_are_where_it_stands(keys, kinds.last(), 0);
        assert(own[p - before.len()] < own[q - before.len()]);
    } else {
        lemma_group_member(keys, init, p);
        assert(own.contains(own[q - before.len()]));
        keyed::the_positions_of_a_key_are_where_it_stands(
            keys,
            kinds.last(),
            own[q - before.len()],
        );
        let k = choose|k: int| 0 <= k < init.len() && init[k] == keys[before[p]];
        assert(kinds[k] != kinds[kinds.len() - 1]);
    }
}

proof fn lemma_group_member(keys: Seq<Seq<Seq<char>>>, kinds: Seq<Seq<Seq<char>>>, p: int)
    requires
        0 <= p < text::flat_collect(kinds, group_positions(keys)).len(),
    ensures
        0 <= text::flat_collect(kinds, group_positions(keys))[p] < keys.len(),
        kinds.contains(keys[text::flat_collect(kinds, group_positions(keys))[p]]),
    decreases kinds.len(),
{
    let f = group_positions(keys);
    if kinds.len() > 0 {
        let init = kinds.drop_last();
        let before = text::flat_collect(init, f);
        let own = text::collect(keys, keyed::position_chooser(kinds.last()));
        let order = text::flat_collect(kinds, f);
        assert(order == before + own);
        if p < before.len() {
            lemma_group_member(keys, init, p);
            let k = choose|k: int| 0 <= k < init.len() && init[k] == keys[before[p]];
            assert(kinds[k] == keys[order[p]]);
        } else {
            assert(own.contains(own[p - before.len()]));
            keyed::the_positions_of_a_key_are_where_it_stands(
                keys,
                kinds.last(),
                own[p - before.len()],
            );
            assert(kinds[kinds.len() - 1] == keys[order[p]]);
        }
    }
}

proof fn lemma_between(
    keys: Seq<Seq<Seq<char>>>,
    kinds: Seq<Seq<Seq<char>>>,
    p: int,
    q: int,
    r: int,
)
    requires
        kinds.no_duplicates(),
        0 <= p < q < r < text::flat_collect(kinds, group_positions(keys)).len(),
    ensures
        ({
            let order = text::flat_collect(kinds, group_positions(keys));
            keys[order[p]] == keys[order[r]] ==> keys[order[q]] == keys[order[p]]
        }),
    decreases kinds.len(),
{
    let f = group_positions(keys);
    let init = kinds.drop_last();
    let before = text::flat_collect(init, f);
    let own = text::collect(keys, keyed::position_chooser(kinds.last()));
    let order = text::flat_collect(kinds, f);
    assert(order == before + own);
    if r < before.len() {
        lemma_between(keys, init, p, q, r);
    } else {
        assert(own.contains(own[r - before.len()]));
        keyed::the_positions_of_a_key_are_where_it_stands(
            keys,
            kinds.last(),
            own[r - before.len()],
        );
        if p < before.len() {
            lemma_group_member(keys, init, p);
            let k = choose|k: int| 0 <= k < init.len() && init[k] == keys[before[p]];
            assert(kinds[k] != kinds[kinds.len() - 1]);
        } else {
            assert(own.contains(own[q - before.len()]));
            keyed::the_positions_of_a_key_are_where_it_stands(
                keys,
                kinds.last(),
                own[q - before.len()],
            );
            assert(own.contains(own[p - before.len()]));
            keyed::the_positions_of_a_key_are_where_it_stands(
                keys,
                kinds.last(),
                own[p - before.len()],
            );
        }
    }
}

} // verus!
