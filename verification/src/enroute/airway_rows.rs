//! The rows of the airway table: building, merging, ordering and completing them.

use crate::double::Point;
use crate::enroute::airway_points;
use crate::enroute::airway_points::AirwayCoordCache;
use crate::enroute::airways::{AirwayCodeType, ParsedAirwayCsvRow};
use crate::keyed::KeyedLists;
use crate::matchers::IcaoCodeResolver;
use crate::numeric;
use crate::text;
use crate::text::Blank;
use vstd::prelude::*;

verus! {

/// A row of the airway table. Courses and distances are bit patterns.
#[verifier::ext_equal]
pub struct AirwayRecord<T = String> {
    pub area_code: T,
    pub crusing_table_identifier: Option<T>,
    pub direction_restriction: Option<T>,
    pub flightlevel: T,
    pub icao_code: Option<T>,
    pub inbound_course: u64,
    pub inbound_distance: u64,
    pub maximum_altitude: Option<i64>,
    pub minimum_altitude1: Option<i64>,
    pub minimum_altitude2: Option<u64>,
    pub outbound_course: u64,
    pub route_identifier: T,
    pub route_type: T,
    pub seqno: i64,
    pub waypoint_description_code: T,
    pub waypoint_identifier: T,
    pub waypoint_latitude: Option<u64>,
    pub waypoint_longitude: Option<u64>,
    pub id: Option<T>,
}

impl View for AirwayRecord {
    type V = AirwayRecord<Seq<char>>;

    open spec fn view(&self) -> Self::V {
        AirwayRecord {
            area_code: self.area_code@,
            crusing_table_identifier: text::opt(self.crusing_table_identifier),
            direction_restriction: text::opt(self.direction_restriction),
            flightlevel: self.flightlevel@,
            icao_code: text::opt(self.icao_code),
            inbound_course: self.inbound_course,
            inbound_distance: self.inbound_distance,
            maximum_altitude: self.maximum_altitude,
            minimum_altitude1: self.minimum_altitude1,
            minimum_altitude2: self.minimum_altitude2,
            outbound_course: self.outbound_course,
            route_identifier: self.route_identifier@,
            route_type: self.route_type@,
            seqno: self.seqno,
            waypoint_description_code: self.waypoint_description_code@,
            waypoint_identifier: self.waypoint_identifier@,
            waypoint_latitude: self.waypoint_latitude,
            waypoint_longitude: self.waypoint_longitude,
            id: text::opt(self.id),
        }
    }
}

impl AirwayRecord {
    /// A copy of the row.
    pub fn copy(&self) -> (r: AirwayRecord)
        ensures
            r@ == self@,
    {
        AirwayRecord {
            area_code: self.area_code.clone(),
            crusing_table_identifier: text::copy_opt(&self.crusing_table_identifier),
            direction_restriction: text::copy_opt(&self.direction_restriction),
            flightlevel: self.flightlevel.clone(),
            icao_code: text::copy_opt(&self.icao_code),
            inbound_course: self.inbound_course,
            inbound_distance: self.inbound_distance,
            maximum_altitude: self.maximum_altitude,
            minimum_altitude1: self.minimum_altitude1,
            minimum_altitude2: self.minimum_altitude2,
            outbound_course: self.outbound_course,
            route_identifier: self.route_identifier.clone(),
            route_type: self.route_type.clone(),
            seqno: self.seqno,
            waypoint_description_code: self.waypoint_description_code.clone(),
            waypoint_identifier: self.waypoint_identifier.clone(),
            waypoint_latitude: self.waypoint_latitude,
            waypoint_longitude: self.waypoint_longitude,
            id: text::copy_opt(&self.id),
        }
    }

    /// The reference that is written to the table: one that is blank is left out.
    pub fn bound_id(&self) -> (r: Option<String>)
        ensures
            text::opt(r) == not_blank(self@.id),
    {
        keep_not_blank(&self.id)
    }
}

/// A text that is not only blanks.
pub open spec fn not_blank(value: Option<Seq<char>>) -> Option<Seq<char>> {
    match value {
        Some(found) if text::trim(Blank::Unicode, found).len() > 0 => value,
        _ => None,
    }
}

fn keep_not_blank(value: &Option<String>) -> (r: Option<String>)
    ensures
        text::opt(r) == not_blank(text::opt(*value)),
{
    match value {
        Some(found) => {
            let trimmed: String = text::trimmed(Blank::Unicode, found.as_str());
            if text::is_empty(trimmed.as_str()) {
                None
            } else {
                Some(found.clone())
            }
        },
        None => None,
    }
}

/// The columns of a row as the table stores them.
#[verifier::ext_equal]
pub struct StoredAirway<T = String> {
    pub area_code: Option<T>,
    pub route_identifier: Option<T>,
    pub seqno: Option<i64>,
    pub icao_code: Option<T>,
    pub waypoint_identifier: Option<T>,
    pub waypoint_latitude: Option<u64>,
    pub waypoint_longitude: Option<u64>,
    pub waypoint_description_code: Option<T>,
    pub route_type: Option<T>,
    pub flightlevel: Option<T>,
    pub direction_restriction: Option<T>,
    pub crusing_table_identifier: Option<T>,
    pub minimum_altitude1: Option<i64>,
    pub minimum_altitude2: Option<u64>,
    pub maximum_altitude: Option<i64>,
    pub outbound_course: Option<u64>,
    pub inbound_course: Option<u64>,
    pub inbound_distance: Option<u64>,
    pub id: Option<T>,
}

/// A stored text, or what stands in for it.
pub open spec fn text_or(value: Option<Seq<char>>, other: Seq<char>) -> Seq<char> {
    match value {
        Some(found) => found,
        None => other,
    }
}

fn take_text_or(value: Option<String>, other: &str) -> (r: String)
    ensures
        r@ == text_or(text::opt(value), other@),
{
    match value {
        Some(found) => found,
        None => text::copy(other),
    }
}

/// The row that stored columns give, with what stands in for missing ones.
pub fn airway_record_from_row(row: StoredAirway) -> (r: AirwayRecord)
    ensures
        r@ == (AirwayRecord {
            area_code: text_or(text::opt(row.area_code), "EEU"@),
            crusing_table_identifier: text::opt(row.crusing_table_identifier),
            direction_restriction: text::opt(row.direction_restriction),
            flightlevel: text_or(text::opt(row.flightlevel), "B"@),
            icao_code: text::opt(row.icao_code),
            inbound_course: row.inbound_course.unwrap_or(0),
            inbound_distance: row.inbound_distance.unwrap_or(0),
            maximum_altitude: row.maximum_altitude,
            minimum_altitude1: row.minimum_altitude1,
            minimum_altitude2: row.minimum_altitude2,
            outbound_course: row.outbound_course.unwrap_or(0),
            route_identifier: text_or(text::opt(row.route_identifier), ""@),
            route_type: text_or(text::opt(row.route_type), "O"@),
            seqno: row.seqno.unwrap_or(1000),
            waypoint_description_code: text_or(text::opt(row.waypoint_description_code), ""@),
            waypoint_identifier: text_or(text::opt(row.waypoint_identifier), ""@),
            waypoint_latitude: row.waypoint_latitude,
            waypoint_longitude: row.waypoint_longitude,
            id: not_blank(text::opt(row.id)),
        }),
{
    AirwayRecord {
        area_code: take_text_or(row.area_code, "EEU"),
        crusing_table_identifier: row.crusing_table_identifier,
        direction_restriction: row.direction_restriction,
        flightlevel: take_text_or(row.flightlevel, "B"),
        icao_code: row.icao_code,
        inbound_course: row.inbound_course.unwrap_or(0),
        inbound_distance: row.inbound_distance.unwrap_or(0),
        maximum_altitude: row.maximum_altitude,
        minimum_altitude1: row.minimum_altitude1,
        minimum_altitude2: row.minimum_altitude2,
        outbound_course: row.outbound_course.unwrap_or(0),
        route_identifier: take_text_or(row.route_identifier, ""),
        route_type: take_text_or(row.route_type, "O"),
        seqno: row.seqno.unwrap_or(1000),
        waypoint_description_code: take_text_or(row.waypoint_description_code, ""),
        waypoint_identifier: take_text_or(row.waypoint_identifier, ""),
        waypoint_latitude: row.waypoint_latitude,
        waypoint_longitude: row.waypoint_longitude,
        id: keep_not_blank(&row.id),
    }
}

/// The direction restriction that a field gives: none for a blank one or for `X`.
pub open spec fn normalized_direction(value: Seq<char>) -> Option<Seq<char>> {
    let trimmed = text::trim(Blank::Unicode, value);
    if trimmed.len() == 0 || numeric::reads(trimmed, "X"@) {
        None
    } else {
        Some(trimmed)
    }
}

/// Reads a direction restriction.
pub fn normalize_direction_restriction(value: &str) -> (r: Option<String>)
    ensures
        text::opt(r) == normalized_direction(value@),
{
    let trimmed: String = text::trimmed(Blank::Unicode, value);
    if text::is_empty(trimmed.as_str()) || numeric::reads_same(trimmed.as_str(), "X") {
        None
    } else {
        Some(trimmed)
    }
}

/// The restriction seen from the other end: forward and backward change places.
pub open spec fn reversed_direction(value: Seq<char>) -> Seq<char> {
    if numeric::reads(value, "F"@) {
        "B"@
    } else if numeric::reads(value, "B"@) {
        "F"@
    } else {
        value
    }
}

/// Turns a restriction around.
pub fn reverse_direction_restriction(value: &str) -> (r: String)
    ensures
        r@ == reversed_direction(value@),
{
    if numeric::reads_same(value, "F") {
        text::copy("B")
    } else if numeric::reads_same(value, "B") {
        text::copy("F")
    } else {
        text::copy(value)
    }
}

/// Turning a restriction around twice gives it back; a lower-case `f` or `b` comes back in upper
/// case and is left out.
pub proof fn reversing_twice_gives_the_restriction_back(value: Seq<char>)
    requires
        value != "f"@,
        value != "b"@,
    ensures
        reversed_direction(reversed_direction(value)) == value,
{
    reveal_strlit("F");
    reveal_strlit("B");
    reveal_strlit("f");
    reveal_strlit("b");
    assert("F"@ =~= seq!['F'] && "B"@ =~= seq!['B']);
    assert("f"@ =~= seq!['f'] && "b"@ =~= seq!['b']);
    assert(numeric::lower('F') == 'f' && numeric::lower('B') == 'b');
    assert(numeric::lower("F"@[0]) == 'f' && numeric::lower("B"@[0]) == 'b');
    if numeric::reads(value, "F"@) {
        assert(numeric::lower(value[0]) == numeric::lower("F"@[0]));
        assert(value =~= seq![value[0]]);
        assert(value[0] == 'F' || value[0] == 'f');
        assert(!numeric::reads("B"@, "F"@));
        assert(numeric::reads("B"@, "B"@));
    } else if numeric::reads(value, "B"@) {
        assert(numeric::lower(value[0]) == numeric::lower("B"@[0]));
        assert(value =~= seq![value[0]]);
        assert(value[0] == 'B' || value[0] == 'b');
        assert(numeric::reads("F"@, "F"@));
    }
}

/// A restricted leg of a route.
#[verifier::ext_equal]
pub struct DirectionEntry<T = String> {
    pub route: T,
    pub start: T,
    pub end: T,
    pub direction: T,
}

impl View for DirectionEntry {
    type V = DirectionEntry<Seq<char>>;

    open spec fn view(&self) -> Self::V {
        DirectionEntry {
            route: self.route@,
            start: self.start@,
            end: self.end@,
            direction: self.direction@,
        }
    }
}

/// The restricted leg that a row of the route file gives.
pub open spec fn direction_entry(row: ParsedAirwayCsvRow<Seq<char>, u64>) -> Option<
    DirectionEntry<Seq<char>>,
> {
    let start = text::trim(Blank::Unicode, row.start_waypoint);
    match (row.direction_restriction, row.end_waypoint) {
        (Some(field), Some(end_field)) => {
            let end = text::trim(Blank::Unicode, end_field);
            match normalized_direction(field) {
                Some(direction) if end.len() > 0 && start.len() > 0 => Some(
                    DirectionEntry { route: row.route_identifier, start, end, direction },
                ),
                _ => None,
            }
        },
        _ => None,
    }
}

/// The restricted legs, row by row.
pub open spec fn direction_reader() -> spec_fn(
    int,
    ParsedAirwayCsvRow<Seq<char>, u64>,
) -> Option<DirectionEntry<Seq<char>>> {
    |i: int, row: ParsedAirwayCsvRow<Seq<char>, u64>| direction_entry(row)
}

/// The restricted legs of the route file.
pub open spec fn direction_log(rows: Seq<ParsedAirwayCsvRow<Seq<char>, u64>>) -> Seq<
    DirectionEntry<Seq<char>>,
> {
    text::collect(rows, direction_reader())
}

/// The restriction of a leg as the last entry for it gives it.
pub open spec fn leg_direction(
    log: Seq<DirectionEntry<Seq<char>>>,
    route: Seq<char>,
    start: Seq<char>,
    end: Seq<char>,
) -> Option<Seq<char>>
    decreases log.len(),
{
    if log.len() == 0 {
        None
    } else if log.last().route == route && log.last().start == start && log.last().end == end {
        Some(log.last().direction)
    } else {
        leg_direction(log.drop_last(), route, start, end)
    }
}

/// The restriction between two neighbouring points: that of the leg, else that of the opposite
/// leg turned around.
pub open spec fn resolved_direction(
    log: Seq<DirectionEntry<Seq<char>>>,
    route: Seq<char>,
    current: Seq<char>,
    next: Seq<char>,
) -> Option<Seq<char>> {
    match leg_direction(log, route, current, next) {
        Some(direction) => Some(direction),
        None => match leg_direction(log, route, next, current) {
            Some(direction) => Some(reversed_direction(direction)),
            None => None,
        },
    }
}

/// A leg that is restricted in one direction of travel only is restricted the other way round
/// when it is flown from its end.
pub proof fn opposite_leg_is_turned_around(
    log: Seq<DirectionEntry<Seq<char>>>,
    route: Seq<char>,
    a: Seq<char>,
    b: Seq<char>,
)
    requires
        leg_direction(log, route, a, b) is Some,
        leg_direction(log, route, b, a) is None,
    ensures
        resolved_direction(log, route, b, a) == Some(
            reversed_direction(resolved_direction(log, route, a, b)->0),
        ),
{
}

/// Collects the restricted legs of the route file.
pub fn build_airway_direction_map(rows: &Vec<ParsedAirwayCsvRow>) -> (out: Vec<DirectionEntry>)
    ensures
        text::views(out@) == direction_log(text::views(rows@)),
{
    let ghost all = text::views(rows@);
    let ghost f = direction_reader();
    let mut out: Vec<DirectionEntry> = Vec::new();
    assert(all.take(0).len() == 0);
    assert(text::views(out@) =~= text::collect(all.take(0), f));
    for i in 0..rows.len()
        invariant
            all == text::views(rows@),
            f == direction_reader(),
            text::views(out@) == text::collect(all.take(i as int), f),
    {
        proof {
            text::lemma_collect_step(all, f, i as int);
            assert(all[i as int] == rows@[i as int]@);
        }
        match (&rows[i].direction_restriction, &rows[i].end_waypoint) {
            (Some(field), Some(end_field)) => {
                let end: String = text::trimmed(Blank::Unicode, end_field.as_str());
                let start: String = text::trimmed(
                    Blank::Unicode,
                    rows[i].start_waypoint.as_str(),
                );
                match normalize_direction_restriction(field.as_str()) {
                    Some(direction) => {
                        if !text::is_empty(end.as_str()) && !text::is_empty(start.as_str()) {
                            let entry = DirectionEntry {
                                route: rows[i].route_identifier.clone(),
                                start,
                                end,
                                direction,
                            };
                            proof {
                                text::lemma_views_push(out@, entry);
                            }
                            out.push(entry);
                        }
                    },
                    None => {},
                }
            },
            _ => {},
        }
    }
    assert(all.take(rows@.len() as int) == all);
    out
}

/// The restricted legs by route.
pub struct DirectionMap {
    legs: KeyedLists<DirectionEntry>,
    log: Ghost<Seq<DirectionEntry<Seq<char>>>>,
}

/// The choice of the legs of a route.
pub open spec fn leg_chooser(route: Seq<char>) -> spec_fn(DirectionEntry<Seq<char>>) -> bool {
    |entry: DirectionEntry<Seq<char>>| entry.route == route
}

proof fn lemma_leg_direction_filter(
    log: Seq<DirectionEntry<Seq<char>>>,
    route: Seq<char>,
    start: Seq<char>,
    end: Seq<char>,
)
    ensures
        leg_direction(log.filter(leg_chooser(route)), route, start, end) == leg_direction(
            log,
            route,
            start,
            end,
        ),
    decreases log.len(),
{
    reveal(Seq::filter);
    if log.len() > 0 {
        let init = log.drop_last();
        lemma_leg_direction_filter(init, route, start, end);
        text::lemma_filter_push(init, log.last(), leg_chooser(route));
        assert(init.push(log.last()) =~= log);
        if log.last().route == route {
            assert(init.filter(leg_chooser(route)).push(log.last()).drop_last() =~= init.filter(
                leg_chooser(route),
            ));
        }
    }
}

impl DirectionMap {
    /// The legs that the map was made of, in order.
    pub closed spec fn log(self) -> Seq<DirectionEntry<Seq<char>>> {
        self.log@
    }

    /// Every route has just its legs.
    pub closed spec fn wf(self) -> bool {
        &&& self.legs.wf()
        &&& forall|route: Seq<char>| #[trigger]
            text::views(self.legs.at(route)) == self.log().filter(leg_chooser(route))
    }

    /// The restricted legs of the route file, by route.
    pub fn from_rows(rows: &Vec<ParsedAirwayCsvRow>) -> (r: Self)
        ensures
            r.wf(),
            r.log() == direction_log(text::views(rows@)),
    {
        let entries: Vec<DirectionEntry> = build_airway_direction_map(rows);
        let ghost all = text::views(entries@);
        let ghost source = entries@;
        let mut legs: KeyedLists<DirectionEntry> = KeyedLists::new();
        proof {
            reveal(Seq::filter);
            assert(all.take(0) =~= Seq::empty());
            assert forall|route: Seq<char>| #[trigger]
                text::views(legs.at(route)) == all.take(0).filter(leg_chooser(route)) by {
                assert(legs.at(route).len() == 0);
                assert(text::views(legs.at(route)) =~= Seq::empty());
            }
        }
        for entry in it: entries
            invariant
                legs.wf(),
                it.seq() == source,
                all == text::views(source),
                forall|route: Seq<char>| #[trigger]
                    text::views(legs.at(route)) == all.take(it.index() as int).filter(
                        leg_chooser(route),
                    ),
        {
            let ghost i = it.index() as int;
            let ghost before = legs;
            let key: String = entry.route.clone();
            let ghost model = entry@;
            proof {
                text::lemma_views_push(legs.at(key@), entry);
            }
            legs.push(key.as_str(), entry);
            proof {
                assert(all.take(i + 1) =~= all.take(i).push(model));
                assert forall|route: Seq<char>| #[trigger]
                    text::views(legs.at(route)) == all.take(i + 1).filter(leg_chooser(route)) by {
                    text::lemma_filter_push(all.take(i), model, leg_chooser(route));
                    assert(text::views(before.at(route)) == all.take(i).filter(
                        leg_chooser(route),
                    ));
                    if route != key@ {
                        assert(legs.at(route) == before.at(route));
                    }
                }
            }
        }
        assert(all.take(source.len() as int) == all);
        DirectionMap { legs, log: Ghost(all) }
    }

    fn leg(&self, route: &str, start: &str, end: &str) -> (r: Option<String>)
        requires
            self.wf(),
        ensures
            text::opt(r) == leg_direction(self.log(), route@, start@, end@),
    {
        let ghost log = self.log();
        proof {
            lemma_leg_direction_filter(log, route@, start@, end@);
        }
        match self.legs.get(route) {
            Some(entries) => {
                let ghost all = text::views(entries@);
                assert(all == log.filter(leg_chooser(route@)));
                let mut n: usize = entries.len();
                assert(all.take(n as int) == all);
                assert forall|k: int| 0 <= k < all.len() implies (#[trigger] all[k]).route
                    == route@ by {
                    lemma_filtered_route(log, route@, k);
                }
                while n > 0
                    invariant
                        n <= entries@.len(),
                        all == text::views(entries@),
                        log == self.log(),
                        forall|k: int| 0 <= k < all.len() ==> (#[trigger] all[k]).route == route@,
                        leg_direction(log, route@, start@, end@) == leg_direction(
                            all.take(n as int),
                            route@,
                            start@,
                            end@,
                        ),
                    decreases n,
                {
                    assert(all.take(n as int).last() == entries@[n - 1]@);
                    assert(all.take(n as int).drop_last() == all.take(n - 1));
                    assert(all[n - 1].route == route@);
                    if text::same(entries[n - 1].start.as_str(), start) && text::same(
                        entries[n - 1].end.as_str(),
                        end,
                    ) {
                        return Some(entries[n - 1].direction.clone());
                    }
                    n = n - 1;
                }
                None
            },
            None => {
                assert(text::views(self.legs.at(route@)).len() == 0);
                None
            },
        }
    }
}

proof fn lemma_filtered_route(log: Seq<DirectionEntry<Seq<char>>>, route: Seq<char>, k: int)
    requires
        0 <= k < log.filter(leg_chooser(route)).len(),
    ensures
        log.filter(leg_chooser(route))[k].route == route,
    decreases log.len(),
{
    reveal(Seq::filter);
    if log.len() > 0 {
        let init = log.drop_last();
        text::lemma_filter_push(init, log.last(), leg_chooser(route));
        assert(init.push(log.last()) =~= log);
        if k < init.filter(leg_chooser(route)).len() {
            lemma_filtered_route(init, route, k);
        }
    }
}

/// Resolves the restriction between two neighbouring points of a route.
pub fn resolve_airway_direction_restriction(
    directions: &DirectionMap,
    route: &str,
    current: &str,
    next: &str,
) -> (r: Option<String>)
    requires
        directions.wf(),
    ensures
        text::opt(r) == resolved_direction(directions.log(), route@, current@, next@),
{
    match directions.leg(route, current, next) {
        Some(direction) => Some(direction),
        None => match directions.leg(route, next, current) {
            Some(direction) => Some(reverse_direction_restriction(direction.as_str())),
            None => None,
        },
    }
}

/// Whether the row at `i` is followed by one of the same route.
pub open spec fn followed(rows: Seq<AirwayRecord<Seq<char>>>, i: int) -> bool {
    0 <= i && i + 1 < rows.len() && rows[i + 1].route_identifier == rows[i].route_identifier
}

/// The restriction of the row at `i`: towards the next point of its route, for the last point
/// that of the leg that leads to it.
pub open spec fn row_direction(
    rows: Seq<AirwayRecord<Seq<char>>>,
    log: Seq<DirectionEntry<Seq<char>>>,
    i: int,
) -> Option<Seq<char>> {
    let route = rows[i].route_identifier;
    if followed(rows, i) {
        resolved_direction(log, route, rows[i].waypoint_identifier, rows[i + 1].waypoint_identifier)
    } else if followed(rows, i - 1) {
        resolved_direction(log, route, rows[i - 1].waypoint_identifier, rows[i].waypoint_identifier)
    } else {
        None
    }
}

/// A row with another restriction.
pub open spec fn with_direction(
    row: AirwayRecord<Seq<char>>,
    direction: Option<Seq<char>>,
) -> AirwayRecord<Seq<char>> {
    AirwayRecord { direction_restriction: direction, ..row }
}

/// Gives every row its restriction; whatever restriction it had is dropped.
pub fn apply_airway_direction_restrictions(
    rows: &mut Vec<AirwayRecord>,
    csv_rows: &Vec<ParsedAirwayCsvRow>,
)
    ensures
        final(rows)@.len() == old(rows)@.len(),
        forall|i: int|
            0 <= i < final(rows)@.len() ==> (#[trigger] final(rows)@[i])@ == with_direction(
                old(rows)@[i]@,
                row_direction(
                    text::views(old(rows)@),
                    direction_log(text::views(csv_rows@)),
                    i,
                ),
            ),
{
    let ghost before = text::views(rows@);
    let ghost log = direction_log(text::views(csv_rows@));
    let directions: DirectionMap = DirectionMap::from_rows(csv_rows);
    let count: usize = rows.len();
    for i in 0..count
        invariant
            count == before.len(),
            rows@.len() == count,
            before == text::views(old(rows)@),
            directions.wf(),
            directions.log() == log,
            forall|k: int|
                0 <= k < i ==> (#[trigger] rows@[k])@ == with_direction(
                    before[k],
                    row_direction(before, log, k),
                ),
            forall|k: int| i <= k < rows@.len() ==> (#[trigger] rows@[k])@ == before[k],
    {
        assert(rows@[i as int]@ == before[i as int]);
        let has_next: bool = if i < count - 1 {
            assert(rows@[i + 1]@ == before[i + 1]);
            text::same(
                rows[i + 1].route_identifier.as_str(),
                rows[i].route_identifier.as_str(),
            )
        } else {
            false
        };
        assert(has_next == followed(before, i as int));
        let direction: Option<String> = if has_next {
            resolve_airway_direction_restriction(
                &directions,
                rows[i].route_identifier.as_str(),
                rows[i].waypoint_identifier.as_str(),
                rows[i + 1].waypoint_identifier.as_str(),
            )
        } else if i > 0 {
            assert(rows@[i - 1]@.route_identifier == before[i - 1].route_identifier);
            assert(rows@[i - 1]@.waypoint_identifier == before[i - 1].waypoint_identifier);
            if text::same(
                rows[i - 1].route_identifier.as_str(),
                rows[i].route_identifier.as_str(),
            ) {
                resolve_airway_direction_restriction(
                    &directions,
                    rows[i].route_identifier.as_str(),
                    rows[i - 1].waypoint_identifier.as_str(),
                    rows[i].waypoint_identifier.as_str(),
                )
            } else {
                None
            }
        } else {
            None
        };
        assert(text::opt(direction) == row_direction(before, log, i as int));
        rows[i].direction_restriction = direction;
        assert(rows@[i as int]@ =~= with_direction(
            before[i as int],
            row_direction(before, log, i as int),
        ));
    }
}

/// Whether a table holds points that rows can refer to.
pub open spec fn referable(table: Seq<char>) -> bool {
    table == "tbl_enroute_waypoints"@ || table == "tbl_vhfnavaids"@ || table
        == "tbl_enroute_ndbnavaids"@
}

/// The reference to a point: its table, then its ICAO code and identifier without blanks around.
pub open spec fn reference_id(
    table: Seq<char>,
    icao: Option<Seq<char>>,
    waypoint: Seq<char>,
) -> Option<Seq<char>> {
    match icao {
        Some(code) => {
            let c = text::trim(Blank::Unicode, code);
            let w = text::trim(Blank::Unicode, waypoint);
            if c.len() > 0 && w.len() > 0 && referable(table) {
                Some(table + "|"@ + c + w)
            } else {
                None
            }
        },
        None => None,
    }
}

/// Builds the reference to a point.
pub fn build_airway_reference_id(ref_table: &str, icao: &Option<String>, waypoint: &str) -> (r:
    Option<String>)
    ensures
        text::opt(r) == reference_id(ref_table@, text::opt(*icao), waypoint@),
{
    match icao {
        Some(code) => {
            let c: String = text::trimmed(Blank::Unicode, code.as_str());
            let w: String = text::trimmed(Blank::Unicode, waypoint);
            if text::is_empty(c.as_str()) || text::is_empty(w.as_str()) {
                return None;
            }
            if !(text::same(ref_table, "tbl_enroute_waypoints") || text::same(
                ref_table,
                "tbl_vhfnavaids",
            ) || text::same(ref_table, "tbl_enroute_ndbnavaids")) {
                return None;
            }
            let mut id: String = text::copy(ref_table);
            id.append("|");
            id.append(c.as_str());
            id.append(w.as_str());
            Some(id)
        },
        None => None,
    }
}

/// The position of a point of a kind.
pub open spec fn kind_point(
    cache: AirwayCoordCache,
    waypoint: Seq<char>,
    kind: Option<AirwayCodeType>,
) -> Option<Point> {
    match kind {
        Some(known) => match airway_points::aid_of(known) {
            Some(aid) => cache.point(aid, waypoint),
            None => None,
        },
        None => None,
    }
}

/// The latitude of a position that may be unknown.
pub open spec fn latitude_of(point: Option<Point>) -> Option<u64> {
    match point {
        Some(p) => Some(p.latitude),
        None => None,
    }
}

/// The longitude of a position that may be unknown.
pub open spec fn longitude_of(point: Option<Point>) -> Option<u64> {
    match point {
        Some(p) => Some(p.longitude),
        None => None,
    }
}

/// What distinguishes a new row of the table.
pub struct NewPoint<'a> {
    pub route: &'a str,
    pub waypoint: &'a str,
    pub kind: Option<AirwayCodeType>,
    pub description: &'a str,
    pub inbound_course: u64,
    pub inbound_distance: u64,
    pub outbound_course: u64,
    pub seqno: i64,
}

/// A new row of the table.
pub open spec fn new_record(
    route: Seq<char>,
    waypoint: Seq<char>,
    kind: Option<AirwayCodeType>,
    description: Seq<char>,
    courses: (u64, u64, u64),
    seqno: i64,
    resolver: IcaoCodeResolver,
    cache: AirwayCoordCache,
) -> AirwayRecord<Seq<char>> {
    let icao = airway_points::point_icao(resolver, waypoint, kind);
    let point = kind_point(cache, waypoint, kind);
    AirwayRecord {
        area_code: "EEU"@,
        crusing_table_identifier: Some("EE"@),
        direction_restriction: None,
        flightlevel: "B"@,
        icao_code: icao,
        inbound_course: courses.0,
        inbound_distance: courses.1,
        maximum_altitude: Some(99999),
        minimum_altitude1: Some(5000),
        minimum_altitude2: None,
        outbound_course: courses.2,
        route_identifier: route,
        route_type: "O"@,
        seqno,
        waypoint_description_code: description,
        waypoint_identifier: waypoint,
        waypoint_latitude: latitude_of(point),
        waypoint_longitude: longitude_of(point),
        id: reference_id(airway_points::point_table(kind), icao, waypoint),
    }
}

/// Builds a new row of the table.
pub fn make_record(new: NewPoint<'_>, resolver: &IcaoCodeResolver, cache: &AirwayCoordCache) -> (r:
    AirwayRecord)
    ensures
        r@ == new_record(
            new.route@,
            new.waypoint@,
            new.kind,
            new.description@,
            (new.inbound_course, new.inbound_distance, new.outbound_course),
            new.seqno,
            *resolver,
            *cache,
        ),
{
    let icao: Option<String> = airway_points::resolve_point_icao(resolver, new.waypoint, new.kind);
    let mut table: &str = "";
    let mut point: Option<Point> = None;
    match new.kind {
        Some(kind) => {
            match airway_points::start_code_mapping_from_type(kind) {
                Some((aid, _, ref_table)) => {
                    table = ref_table;
                    point = cache.get(aid, new.waypoint);
                },
                None => {},
            }
        },
        None => {},
    }
    let id: Option<String> = build_airway_reference_id(table, &icao, new.waypoint);
    AirwayRecord {
        area_code: text::copy("EEU"),
        crusing_table_identifier: Some(text::copy("EE")),
        direction_restriction: None,
        flightlevel: text::copy("B"),
        icao_code: icao,
        inbound_course: new.inbound_course,
        inbound_distance: new.inbound_distance,
        maximum_altitude: Some(99999),
        minimum_altitude1: Some(5000),
        minimum_altitude2: None,
        outbound_course: new.outbound_course,
        route_identifier: text::copy(new.route),
        route_type: text::copy("O"),
        seqno: new.seqno,
        waypoint_description_code: text::copy(new.description),
        waypoint_identifier: text::copy(new.waypoint),
        waypoint_latitude: match point {
            Some(p) => Some(p.latitude),
            None => None,
        },
        waypoint_longitude: match point {
            Some(p) => Some(p.longitude),
            None => None,
        },
        id,
    }
}

/// The outbound course of the last of the first `n` rows of a route, zero where there is none.
pub open spec fn previous_outbound(
    rows: Seq<ParsedAirwayCsvRow<Seq<char>, u64>>,
    n: int,
    route: Seq<char>,
) -> u64
    decreases n,
{
    if n <= 0 {
        0
    } else if rows[n - 1].route_identifier == route {
        rows[n - 1].outbound_course
    } else {
        previous_outbound(rows, n - 1, route)
    }
}

/// The table row that the row of the route file at `i` gives.
pub open spec fn processed_row(
    rows: Seq<ParsedAirwayCsvRow<Seq<char>, u64>>,
    resolver: IcaoCodeResolver,
    cache: AirwayCoordCache,
    i: int,
) -> AirwayRecord<Seq<char>> {
    let row = rows[i];
    new_record(
        row.route_identifier,
        row.start_waypoint,
        Some(row.start_code_type),
        airway_points::start_description(row.start_code_type),
        (
            previous_outbound(rows, i, row.route_identifier),
            row.inbound_distance,
            row.outbound_course,
        ),
        0,
        resolver,
        cache,
    )
}

/// The table rows that the rows of the route file give.
pub open spec fn processed_rows(
    rows: Seq<ParsedAirwayCsvRow<Seq<char>, u64>>,
    resolver: IcaoCodeResolver,
    cache: AirwayCoordCache,
) -> Seq<AirwayRecord<Seq<char>>> {
    Seq::new(rows.len(), |i: int| processed_row(rows, resolver, cache, i))
}

fn find_previous_outbound(rows: &Vec<ParsedAirwayCsvRow>, n: usize, route: &str) -> (r: u64)
    requires
        n <= rows@.len(),
    ensures
        r == previous_outbound(text::views(rows@), n as int, route@),
{
    let ghost all = text::views(rows@);
    let mut k: usize = n;
    while k > 0
        invariant
            k <= n <= rows@.len(),
            all == text::views(rows@),
            previous_outbound(all, n as int, route@) == previous_outbound(all, k as int, route@),
        decreases k,
    {
        assert(all[k - 1] == rows@[k - 1]@);
        if text::same(rows[k - 1].route_identifier.as_str(), route) {
            return rows[k - 1].outbound_course;
        }
        k = k - 1;
    }
    0
}

/// Builds the table rows of the route file.
pub fn build_processed_airway_rows(
    rows: &Vec<ParsedAirwayCsvRow>,
    cache: &AirwayCoordCache,
    resolver: &IcaoCodeResolver,
) -> (out: Vec<AirwayRecord>)
    ensures
        text::views(out@) == processed_rows(text::views(rows@), *resolver, *cache),
{
    let ghost all = text::views(rows@);
    let ghost goal = processed_rows(all, *resolver, *cache);
    let mut out: Vec<AirwayRecord> = Vec::new();
    assert(text::views(out@) =~= goal.take(0));
    for i in 0..rows.len()
        invariant
            all == text::views(rows@),
            goal == processed_rows(all, *resolver, *cache),
            text::views(out@) == goal.take(i as int),
    {
        let row: &ParsedAirwayCsvRow = &rows[i];
        assert(all[i as int] == row@);
        let description: &str = match airway_points::start_code_mapping_from_type(
            row.start_code_type,
        ) {
            Some((_, description, _)) => description,
            None => "",
        };
        let inbound_course: u64 = find_previous_outbound(rows, i, row.route_identifier.as_str());
        let record: AirwayRecord = make_record(
            NewPoint {
                route: row.route_identifier.as_str(),
                waypoint: row.start_waypoint.as_str(),
                kind: Some(row.start_code_type),
                description,
                inbound_course,
                inbound_distance: row.inbound_distance,
                outbound_course: row.outbound_course,
                seqno: 0,
            },
            resolver,
            cache,
        );
        proof {
            text::lemma_views_push(out@, record);
            assert(record@ == goal[i as int]);
            assert(goal.take(i + 1) =~= goal.take(i as int).push(record@));
        }
        out.push(record);
    }
    assert(goal.take(rows@.len() as int) == goal);
    out
}

/// A new row stands where its point is stored: its latitude is the stored latitude, its longitude
/// the stored longitude, taken from the points of its own kind. A point that is not stored has
/// neither.
pub proof fn a_new_row_stands_where_its_point_is_stored(
    route: Seq<char>,
    waypoint: Seq<char>,
    kind: Option<AirwayCodeType>,
    description: Seq<char>,
    courses: (u64, u64, u64),
    seqno: i64,
    resolver: IcaoCodeResolver,
    cache: AirwayCoordCache,
    p: Point,
)
    ensures
        ({
            let row = new_record(
                route,
                waypoint,
                kind,
                description,
                courses,
                seqno,
                resolver,
                cache,
            );
            let stored = match kind {
                Some(AirwayCodeType::DesignatedPoint) => cache.point(
                    airway_points::AidType::Fix,
                    waypoint,
                ),
                Some(AirwayCodeType::VorDme) => cache.point(airway_points::AidType::Vhf, waypoint),
                Some(AirwayCodeType::Ndb) => cache.point(airway_points::AidType::Ndb, waypoint),
                _ => None,
            };
            &&& stored == Some(p) ==> row.waypoint_latitude == Some(p.latitude)
                && row.waypoint_longitude == Some(p.longitude)
            &&& stored is None ==> row.waypoint_latitude is None && row.waypoint_longitude is None
        }),
{
}

/// From the stored coordinates to the row: where the first stored row of a designated point has the
/// latitude `p.latitude` and the longitude `p.longitude`, so has the new row of that point.
pub proof fn stored_coordinates_reach_the_new_row(
    stored: Seq<airway_points::CoordinateRow<Seq<char>>>,
    i: int,
    rows: Seq<ParsedAirwayCsvRow<Seq<char>, u64>>,
    n: int,
    resolver: IcaoCodeResolver,
    cache: AirwayCoordCache,
    p: Point,
)
    requires
        0 <= n < rows.len(),
        0 <= i < stored.len(),
        airway_points::aid_of(rows[n].start_code_type) == Some(stored[i].aid),
        stored[i].identifier == rows[n].start_waypoint,
        stored[i].latitude == Some(p.latitude),
        stored[i].longitude == Some(p.longitude),
        forall|j: int|
            0 <= j < i ==> !((#[trigger] stored[j]).aid == stored[i].aid && stored[j].identifier
                == stored[i].identifier),
        cache.point(stored[i].aid, rows[n].start_waypoint) == airway_points::first_point(
            stored,
            stored[i].aid,
            rows[n].start_waypoint,
        ),
    ensures
        processed_row(rows, resolver, cache, n).waypoint_latitude == Some(p.latitude),
        processed_row(rows, resolver, cache, n).waypoint_longitude == Some(p.longitude),
{
    airway_points::the_first_stored_row_gives_the_position(
        stored,
        stored[i].aid,
        rows[n].start_waypoint,
        i,
    );
}

/// A new row says what is known of its point, and of the rest what all airways have in common.
pub proof fn a_new_row_says_what_is_known_of_its_point(
    route: Seq<char>,
    waypoint: Seq<char>,
    kind: Option<AirwayCodeType>,
    description: Seq<char>,
    inbound_course: u64,
    inbound_distance: u64,
    outbound_course: u64,
    seqno: i64,
    resolver: IcaoCodeResolver,
    cache: AirwayCoordCache,
)
    ensures
        ({
            let row = new_record(
                route,
                waypoint,
                kind,
                description,
                (inbound_course, inbound_distance, outbound_course),
                seqno,
                resolver,
                cache,
            );
            &&& row.route_identifier == route
            &&& row.waypoint_identifier == waypoint
            &&& row.waypoint_description_code == description
            &&& row.inbound_course == inbound_course
            &&& row.inbound_distance == inbound_distance
            &&& row.outbound_course == outbound_course
            &&& row.seqno == seqno
            &&& row.area_code == "EEU"@
            &&& row.crusing_table_identifier == Some("EE"@)
            &&& row.direction_restriction is None
            &&& row.flightlevel == "B"@
            &&& row.route_type == "O"@
            &&& row.minimum_altitude1 == Some(5000i64)
            &&& row.minimum_altitude2 is None
            &&& row.maximum_altitude == Some(99999i64)
            &&& row.icao_code == (match kind {
                Some(AirwayCodeType::DesignatedPoint) => resolver.fix_icao(waypoint),
                Some(AirwayCodeType::VorDme) => resolver.vor_dme_icao(waypoint),
                Some(AirwayCodeType::Ndb) => resolver.ndb_icao(waypoint),
                _ => None,
            })
        }),
{
}

/// A point is referred to by its table, a bar, its ICAO code and its identifier. A point without
/// ICAO code or identifier, or of no known table, is not referred to.
pub proof fn points_are_referred_to_by_table_code_and_identifier(
    kind: Option<AirwayCodeType>,
    icao: Option<Seq<char>>,
    waypoint: Seq<char>,
    id: Seq<char>,
)
    ensures
        reference_id(airway_points::point_table(kind), icao, waypoint) == Some(id) <==> {
            &&& icao is Some
            &&& text::trim(Blank::Unicode, icao->0).len() > 0
            &&& text::trim(Blank::Unicode, waypoint).len() > 0
            &&& id == (match kind {
                Some(AirwayCodeType::DesignatedPoint) => "tbl_enroute_waypoints"@,
                Some(AirwayCodeType::VorDme) => "tbl_vhfnavaids"@,
                _ => "tbl_enroute_ndbnavaids"@,
            }) + "|"@ + text::trim(Blank::Unicode, icao->0) + text::trim(Blank::Unicode, waypoint)
            &&& (kind == Some(AirwayCodeType::DesignatedPoint) || kind == Some(
                AirwayCodeType::VorDme,
            ) || kind == Some(AirwayCodeType::Ndb))
        },
{
    reveal_strlit("");
    reveal_strlit("tbl_enroute_waypoints");
    reveal_strlit("tbl_vhfnavaids");
    reveal_strlit("tbl_enroute_ndbnavaids");
    assert(""@.len() == 0);
}

/// The course into a row of the file is the course out of the row before it on the same route, and
/// zero at the start of a route. The rest of the row is its own.
pub proof fn the_course_into_a_row_is_the_course_out_of_the_one_before(
    rows: Seq<ParsedAirwayCsvRow<Seq<char>, u64>>,
    resolver: IcaoCodeResolver,
    cache: AirwayCoordCache,
    j: int,
    i: int,
)
    requires
        -1 <= j < i < rows.len(),
        j >= 0 ==> rows[j].route_identifier == rows[i].route_identifier,
        forall|k: int|
            j < k < i ==> (#[trigger] rows[k]).route_identifier != rows[i].route_identifier,
    ensures
        ({
            let row = processed_rows(rows, resolver, cache)[i];
            &&& row.inbound_course == (if j >= 0 {
                rows[j].outbound_course
            } else {
                0
            })
            &&& row.outbound_course == rows[i].outbound_course
            &&& row.inbound_distance == rows[i].inbound_distance
            &&& row.route_identifier == rows[i].route_identifier
            &&& row.waypoint_identifier == rows[i].start_waypoint
            &&& row.waypoint_description_code == (match rows[i].start_code_type {
                AirwayCodeType::VorDme => "V C"@,
                AirwayCodeType::Other => ""@,
                _ => "E C"@,
            })
            &&& row.seqno == 0
        }),
        processed_rows(rows, resolver, cache).len() == rows.len(),
{
    lemma_previous_outbound(rows, i, rows[i].route_identifier, j);
}

proof fn lemma_previous_outbound(
    rows: Seq<ParsedAirwayCsvRow<Seq<char>, u64>>,
    n: int,
    route: Seq<char>,
    j: int,
)
    requires
        -1 <= j < n <= rows.len(),
        j >= 0 ==> rows[j].route_identifier == route,
        forall|k: int| j < k < n ==> (#[trigger] rows[k]).route_identifier != route,
    ensures
        previous_outbound(rows, n, route) == (if j >= 0 {
            rows[j].outbound_course
        } else {
            0
        }),
    decreases n,
{
    if n > 0 && n - 1 > j {
        assert(rows[n - 1].route_identifier != route);
        lemma_previous_outbound(rows, n - 1, route, j);
    }
}

/// A restriction is what stands between the blanks; a field that is blank or holds only an X, large
/// or small, restricts nothing.
pub proof fn a_blank_or_an_x_restricts_nothing(value: Seq<char>)
    ensures
        ({
            let t = text::trim(Blank::Unicode, value);
            normalized_direction(value) == (if t.len() == 0 || t == seq!['X'] || t == seq!['x'] {
                None
            } else {
                Some(t)
            })
        }),
{
    let t = text::trim(Blank::Unicode, value);
    reveal_strlit("X");
    assert("X"@ =~= seq!['X']);
    assert(numeric::lower("X"@[0]) == 'x');
    if numeric::reads(t, "X"@) {
        assert(numeric::lower(t[0]) == numeric::lower("X"@[0]));
        assert(t =~= seq![t[0]]);
        assert(t[0] == 'X' || t[0] == 'x');
    } else if t == seq!['X'] || t == seq!['x'] {
        assert(numeric::lower(t[0]) == 'x');
        assert(numeric::reads(t, "X"@));
    }
}

/// Forwards turned around is backwards, and backwards forwards; no other restriction changes.
pub proof fn only_forwards_and_backwards_turn_around(value: Seq<char>)
    ensures
        reversed_direction(value) == (if value == seq!['F'] || value == seq!['f'] {
            seq!['B']
        } else if value == seq!['B'] || value == seq!['b'] {
            seq!['F']
        } else {
            value
        }),
{
    reveal_strlit("F");
    reveal_strlit("B");
    assert("F"@ =~= seq!['F'] && "B"@ =~= seq!['B']);
    assert(numeric::lower("F"@[0]) == 'f' && numeric::lower("B"@[0]) == 'b');
    if numeric::reads(value, "F"@) {
        assert(numeric::lower(value[0]) == numeric::lower("F"@[0]));
        assert(value =~= seq![value[0]]);
        assert(value[0] == 'F' || value[0] == 'f');
    } else {
        if value == seq!['F'] || value == seq!['f'] {
            assert(numeric::lower(value[0]) == 'f');
            assert(numeric::reads(value, "F"@));
        }
        if numeric::reads(value, "B"@) {
            assert(numeric::lower(value[0]) == numeric::lower("B"@[0]));
            assert(value =~= seq![value[0]]);
            assert(value[0] == 'B' || value[0] == 'b');
        } else if value == seq!['B'] || value == seq!['b'] {
            assert(numeric::lower(value[0]) == 'b');
            assert(numeric::reads(value, "B"@));
        }
    }
}

/// The last restricted leg from one point to another on a route gives its restriction.
pub proof fn the_last_restriction_of_a_leg_counts(
    log: Seq<DirectionEntry<Seq<char>>>,
    i: int,
)
    requires
        0 <= i < log.len(),
        forall|j: int|
            i < j < log.len() ==> !((#[trigger] log[j]).route == log[i].route && log[j].start
                == log[i].start && log[j].end == log[i].end),
    ensures
        leg_direction(log, log[i].route, log[i].start, log[i].end) == Some(log[i].direction),
    decreases log.len(),
{
    if i < log.len() - 1 {
        let init = log.drop_last();
        assert(init[i] == log[i]);
        assert forall|j: int| i < j < init.len() implies !((#[trigger] init[j]).route
            == init[i].route && init[j].start == init[i].start && init[j].end == init[i].end) by {
            assert(init[j] == log[j]);
        }
        assert(log[log.len() - 1] == log.last());
        the_last_restriction_of_a_leg_counts(init, i);
    }
}

/// A leg that nothing restricts, in neither direction, has no restriction.
pub proof fn a_leg_that_is_not_listed_is_not_restricted(
    log: Seq<DirectionEntry<Seq<char>>>,
    route: Seq<char>,
    start: Seq<char>,
    end: Seq<char>,
)
    requires
        forall|j: int|
            0 <= j < log.len() ==> !((#[trigger] log[j]).route == route && (log[j].start == start
                && log[j].end == end || log[j].start == end && log[j].end == start)),
    ensures
        resolved_direction(log, route, start, end) is None,
{
    lemma_not_listed(log, route, start, end);
    lemma_not_listed(log, route, end, start);
}

proof fn lemma_not_listed(
    log: Seq<DirectionEntry<Seq<char>>>,
    route: Seq<char>,
    start: Seq<char>,
    end: Seq<char>,
)
    requires
        forall|j: int|
            0 <= j < log.len() ==> !((#[trigger] log[j]).route == route && log[j].start == start
                && log[j].end == end),
    ensures
        leg_direction(log, route, start, end) is None,
    decreases log.len(),
{
    if log.len() > 0 {
        let init = log.drop_last();
        assert forall|j: int| 0 <= j < init.len() implies !((#[trigger] init[j]).route == route
            && init[j].start == start && init[j].end == end) by {
            assert(init[j] == log[j]);
        }
        assert(log[log.len() - 1] == log.last());
        lemma_not_listed(init, route, start, end);
    }
}

/// A leg that is listed keeps its restriction; one that is listed the other way round has it turned
/// around.
pub proof fn a_leg_is_restricted_as_it_is_listed(
    log: Seq<DirectionEntry<Seq<char>>>,
    route: Seq<char>,
    a: Seq<char>,
    b: Seq<char>,
)
    ensures
        leg_direction(log, route, a, b) is Some ==> resolved_direction(log, route, a, b)
            == leg_direction(log, route, a, b),
        leg_direction(log, route, a, b) is None && leg_direction(log, route, b, a) is Some
            ==> resolved_direction(log, route, a, b) == Some(
            reversed_direction(leg_direction(log, route, b, a)->0),
        ),
{
}

/// A row of the file restricts the leg from its start to its end, where it has a restriction and
/// both points.
pub proof fn a_file_row_restricts_its_own_leg(row: ParsedAirwayCsvRow<Seq<char>, u64>)
    ensures
        match direction_entry(row) {
            Some(entry) => {
                &&& entry.route == row.route_identifier
                &&& entry.start == text::trim(Blank::Unicode, row.start_waypoint)
                &&& row.end_waypoint is Some
                &&& entry.end == text::trim(Blank::Unicode, row.end_waypoint->0)
                &&& row.direction_restriction is Some
                &&& normalized_direction(row.direction_restriction->0) == Some(entry.direction)
                &&& entry.start.len() > 0
                &&& entry.end.len() > 0
            },
            None => {
                ||| row.end_waypoint is None
                ||| row.direction_restriction is None
                ||| normalized_direction(row.direction_restriction->0) is None
                ||| text::trim(Blank::Unicode, row.start_waypoint).len() == 0
                ||| text::trim(Blank::Unicode, row.end_waypoint->0).len() == 0
            },
        },
{
}

/// A row has the restriction of the leg to the next row of its route; the last row of a route has
/// that of the leg before it, and a lone row has none. Nothing else of the row changes.
pub proof fn a_row_has_the_restriction_of_the_leg_ahead(
    rows: Seq<AirwayRecord<Seq<char>>>,
    log: Seq<DirectionEntry<Seq<char>>>,
    i: int,
)
    requires
        0 <= i < rows.len(),
    ensures
        ({
            let route = rows[i].route_identifier;
            let ahead = i + 1 < rows.len() && rows[i + 1].route_identifier == route;
            let behind = i > 0 && rows[i - 1].route_identifier == route;
            let row = with_direction(rows[i], row_direction(rows, log, i));
            &&& ahead ==> row.direction_restriction == resolved_direction(
                log,
                route,
                rows[i].waypoint_identifier,
                rows[i + 1].waypoint_identifier,
            )
            &&& !ahead && behind ==> row.direction_restriction == resolved_direction(
                log,
                route,
                rows[i - 1].waypoint_identifier,
                rows[i].waypoint_identifier,
            )
            &&& !ahead && !behind ==> row.direction_restriction is None
            &&& row.waypoint_latitude == rows[i].waypoint_latitude
            &&& row.waypoint_longitude == rows[i].waypoint_longitude
            &&& row.waypoint_identifier == rows[i].waypoint_identifier
            &&& row.route_identifier == route
            &&& row.seqno == rows[i].seqno
            &&& row.inbound_course == rows[i].inbound_course
            &&& row.inbound_distance == rows[i].inbound_distance
            &&& row.outbound_course == rows[i].outbound_course
            &&& row.icao_code == rows[i].icao_code
            &&& row.id == rows[i].id
            &&& row.waypoint_description_code == rows[i].waypoint_description_code
        }),
{
}

/// Every field of an `AirwayRecord` is seen under its own name.
pub proof fn every_field_of_airway_record_is_seen(it: AirwayRecord)
    ensures
        it@.area_code == it.area_code@,
        it@.crusing_table_identifier == text::opt(it.crusing_table_identifier),
        it@.direction_restriction == text::opt(it.direction_restriction),
        it@.flightlevel == it.flightlevel@,
        it@.icao_code == text::opt(it.icao_code),
        it@.inbound_course == it.inbound_course,
        it@.inbound_distance == it.inbound_distance,
        it@.maximum_altitude == it.maximum_altitude,
        it@.minimum_altitude1 == it.minimum_altitude1,
        it@.minimum_altitude2 == it.minimum_altitude2,
        it@.outbound_course == it.outbound_course,
        it@.route_identifier == it.route_identifier@,
        it@.route_type == it.route_type@,
        it@.seqno == it.seqno,
        it@.waypoint_description_code == it.waypoint_description_code@,
        it@.waypoint_identifier == it.waypoint_identifier@,
        it@.waypoint_latitude == it.waypoint_latitude,
        it@.waypoint_longitude == it.waypoint_longitude,
        it@.id == text::opt(it.id),
{
}

/// Every field of a `DirectionEntry` is seen under its own name.
pub proof fn every_field_of_direction_entry_is_seen(it: DirectionEntry)
    ensures
        it@.route == it.route@,
        it@.start == it.start@,
        it@.end == it.end@,
        it@.direction == it.direction@,
{
}

/// An identifier that is blank is none, any other stays as it is; a text that is missing is taken to
/// be the default.
pub proof fn blank_identifiers_are_none(value: Seq<char>, other: Seq<char>)
    ensures
        text::trim(Blank::Unicode, value).len() == 0 ==> not_blank(Some(value)) is None,
        text::trim(Blank::Unicode, value).len() > 0 ==> not_blank(Some(value)) == Some(value),
        not_blank(None) is None,
        text_or(Some(value), other) == value,
        text_or(None, other) == other,
{
}

} // verus!
