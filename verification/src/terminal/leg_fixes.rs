//! Finding the fixes of a procedure's legs: their positions, and the tables they stand in.
//!
//! Positions are compared and rounded outside of this library, which takes the outcome.

use crate::double::Point;
use crate::keyed::KeyedLists;
use crate::matchers::{CoordinateLookupRequest, CoordinateMatcher, CoordinateSearchType};
use crate::parsers::CifpFields;
use crate::ref_tables;
use crate::ref_tables::{RefMatchRequest, RefMatchResult, RefTable, RefTableMatcher};
use crate::terminal::legs;
use crate::text;
use crate::text::Blank;
use vstd::prelude::*;

verus! {

/// Which of a leg's fixes is asked for.
#[derive(Clone, Copy, PartialEq, Eq, Debug, Structural)]
pub enum MatchRequestKind {
    Waypoint,
    RecommendedNavaid,
    Center,
}

/// Whether a fix names an airport of the covered region: four bytes that start with a Z, and not
/// of the ICAO code of fixes without a country.
pub open spec fn names_airport(waypoint: Option<Seq<char>>, icao_code: Option<Seq<char>>) -> bool {
    match waypoint {
        Some(value) => {
            let name = text::trim(Blank::Unicode, value);
            &&& text::chars_in(name, 4) == Some(name.len() as int)
            &&& name.len() > 0
            &&& name[0] == 'Z'
            &&& icao_code matches Some(icao) ==> text::trim(Blank::Unicode, icao) != "ZZ"@
        },
        None => false,
    }
}

/// Tests whether a fix names an airport.
pub fn type_check(waypoint: &Option<String>, icao_code: &Option<String>) -> (r: bool)
    ensures
        r == names_airport(text::opt(*waypoint), text::opt(*icao_code)),
{
    let name: String = match waypoint {
        Some(value) => text::trimmed(Blank::Unicode, value.as_str()),
        None => return false,
    };
    let cs: Vec<char> = text::chars_of(name.as_str());
    let whole: bool = match text::count_chars_in(&cs, 4) {
        Some(count) => count == cs.len(),
        None => false,
    };
    if !whole || cs.len() == 0 || cs[0] != 'Z' {
        return false;
    }
    match icao_code {
        Some(icao) => {
            let code: String = text::trimmed(Blank::Unicode, icao.as_str());
            !text::same(code.as_str(), "ZZ")
        },
        None => true,
    }
}

/// A request for the table of one of a leg's fixes.
#[verifier::ext_equal]
pub struct RefRequest<T = String> {
    pub kind: MatchRequestKind,
    pub identifier: Option<T>,
    pub point: Option<Point>,
    pub is_airport: bool,
    pub airport_id: T,
}

impl View for RefRequest {
    type V = RefRequest<Seq<char>>;

    open spec fn view(&self) -> Self::V {
        RefRequest {
            kind: self.kind,
            identifier: text::opt(self.identifier),
            point: self.point,
            is_airport: self.is_airport,
            airport_id: self.airport_id@,
        }
    }
}

/// The ICAO code of a further fix of a leg: that of the waypoint, where there is such a fix.
pub open spec fn shared_icao(fix: Option<Seq<char>>, icao_code: Option<Seq<char>>) -> Option<
    Seq<char>,
> {
    if fix is Some {
        icao_code
    } else {
        None
    }
}

fn copy_shared_icao(fix: &Option<String>, icao_code: &Option<String>) -> (r: Option<String>)
    ensures
        text::opt(r) == shared_icao(text::opt(*fix), text::opt(*icao_code)),
{
    if fix.is_some() {
        text::copy_opt(icao_code)
    } else {
        None
    }
}

/// The requests for the waypoint, the recommended navigation aid and the center of a leg.
pub open spec fn leg_requests(
    coords: CoordinateMatcher,
    fields: Seq<Seq<char>>,
    airport: Seq<char>,
) -> Seq<RefRequest<Seq<char>>> {
    let waypoint = legs::leg_field(fields, 4);
    let icao = legs::leg_field(fields, 5);
    let recommended = legs::leg_field(fields, 13);
    let center = legs::leg_field(fields, 30);
    let recommended_icao = shared_icao(recommended, icao);
    let center_icao = shared_icao(center, icao);
    seq![
        RefRequest {
            kind: MatchRequestKind::Waypoint,
            identifier: waypoint,
            point: coords.found(CoordinateSearchType::Waypoint, waypoint, icao, Some(airport)),
            is_airport: names_airport(waypoint, icao),
            airport_id: airport,
        },
        RefRequest {
            kind: MatchRequestKind::RecommendedNavaid,
            identifier: recommended,
            point: coords.found(
                CoordinateSearchType::RecommendedNavaid,
                recommended,
                recommended_icao,
                None,
            ),
            is_airport: false,
            airport_id: airport,
        },
        RefRequest {
            kind: MatchRequestKind::Center,
            identifier: center,
            point: coords.found(CoordinateSearchType::Center, center, center_icao, Some(airport)),
            is_airport: names_airport(center, center_icao),
            airport_id: airport,
        },
    ]
}

fn as_slice(value: &Option<String>) -> (r: Option<&str>)
    ensures
        text::opt(r) == text::opt(*value),
{
    match value {
        Some(found) => Some(found.as_str()),
        None => None,
    }
}

fn find_coordinates_with_cache(
    coords: &CoordinateMatcher,
    search_type: CoordinateSearchType,
    identifier: &Option<String>,
    icao_code: &Option<String>,
    region_code: Option<&str>,
) -> (r: Option<Point>)
    requires
        coords.wf(),
    ensures
        r == coords.found(
            search_type,
            text::opt(*identifier),
            text::opt(*icao_code),
            text::opt(region_code),
        ),
{
    coords.find_coordinates_native(
        &CoordinateLookupRequest {
            search_type,
            identifier: as_slice(identifier),
            icao_code: as_slice(icao_code),
            region_code,
        },
    )
}

/// Makes the requests for the fixes of a leg.
pub fn list_leg_requests(coords: &CoordinateMatcher, fields: &CifpFields, airport: &str) -> (out:
    Vec<RefRequest>)
    requires
        coords.wf(),
    ensures
        text::views(out@) == leg_requests(*coords, fields@, airport@),
{
    let waypoint: Option<String> = legs::extract_opt_field(fields, 4);
    let icao: Option<String> = legs::extract_opt_field(fields, 5);
    let recommended: Option<String> = legs::extract_opt_field(fields, 13);
    let center: Option<String> = legs::extract_opt_field(fields, 30);
    let recommended_icao: Option<String> = copy_shared_icao(&recommended, &icao);
    let center_icao: Option<String> = copy_shared_icao(&center, &icao);
    let waypoint_point: Option<Point> = find_coordinates_with_cache(
        coords,
        CoordinateSearchType::Waypoint,
        &waypoint,
        &icao,
        Some(airport),
    );
    let recommended_point: Option<Point> = find_coordinates_with_cache(
        coords,
        CoordinateSearchType::RecommendedNavaid,
        &recommended,
        &recommended_icao,
        None,
    );
    let center_point: Option<Point> = find_coordinates_with_cache(
        coords,
        CoordinateSearchType::Center,
        &center,
        &center_icao,
        Some(airport),
    );
    let waypoint_is_airport: bool = type_check(&waypoint, &icao);
    let center_is_airport: bool = type_check(&center, &center_icao);
    let out: Vec<RefRequest> = vec![
        RefRequest {
            kind: MatchRequestKind::Waypoint,
            identifier: waypoint,
            point: waypoint_point,
            is_airport: waypoint_is_airport,
            airport_id: text::copy(airport),
        },
        RefRequest {
            kind: MatchRequestKind::RecommendedNavaid,
            identifier: recommended,
            point: recommended_point,
            is_airport: false,
            airport_id: text::copy(airport),
        },
        RefRequest {
            kind: MatchRequestKind::Center,
            identifier: center,
            point: center_point,
            is_airport: center_is_airport,
            airport_id: text::copy(airport),
        },
    ];
    assert(text::views(out@) =~= leg_requests(*coords, fields@, airport@));
    out
}

/// The requests of one leg after the other.
pub open spec fn leg_requester(coords: CoordinateMatcher, airport: Seq<char>) -> spec_fn(
    int,
    Seq<Seq<char>>,
) -> Seq<RefRequest<Seq<char>>> {
    |i: int, fields: Seq<Seq<char>>| leg_requests(coords, fields, airport)
}

/// Every leg makes three requests.
pub proof fn three_requests_per_leg(
    coords: CoordinateMatcher,
    lines: Seq<Seq<Seq<char>>>,
    airport: Seq<char>,
)
    ensures
        text::flat_collect(lines, leg_requester(coords, airport)).len() == 3 * lines.len(),
    decreases lines.len(),
{
    if lines.len() > 0 {
        three_requests_per_leg(coords, lines.drop_last(), airport);
    }
}

/// Makes the requests for the fixes of all legs, three for each leg.
pub fn list_requests(coords: &CoordinateMatcher, lines: &Vec<CifpFields>, airport: &str) -> (out:
    Vec<RefRequest>)
    requires
        coords.wf(),
    ensures
        text::views(out@) == text::flat_collect(
            text::views(lines@),
            leg_requester(*coords, airport@),
        ),
{
    let ghost all = text::views(lines@);
    let ghost f = leg_requester(*coords, airport@);
    let mut out: Vec<RefRequest> = Vec::new();
    assert(all.take(0).len() == 0);
    assert(text::views(out@) =~= text::flat_collect(all.take(0), f));
    for i in 0..lines.len()
        invariant
            coords.wf(),
            all == text::views(lines@),
            f == leg_requester(*coords, airport@),
            text::views(out@) == text::flat_collect(all.take(i as int), f),
    {
        let mut more: Vec<RefRequest> = list_leg_requests(coords, &lines[i], airport);
        proof {
            text::lemma_flat_collect_step(all, f, i as int);
            assert(all[i as int] == lines@[i as int]@);
            assert(text::views(out@ + more@) =~= text::views(out@) + text::views(more@));
        }
        out.append(&mut more);
    }
    assert(all.take(lines@.len() as int) == all);
    out
}

/// What was measured for a request: its position, rounded, and for each candidate with its
/// identifier whether that lies near.
pub struct RequestMeasure {
    pub rounded: Option<Point>,
    pub near: Vec<bool>,
}

/// What requests share that get the same answer.
#[verifier::ext_equal]
pub struct MatchCacheKey<T = String> {
    pub kind: MatchRequestKind,
    pub identifier: Option<T>,
    pub rounded: Option<Point>,
    pub is_airport: bool,
    pub airport_id: T,
}

impl View for MatchCacheKey {
    type V = MatchCacheKey<Seq<char>>;

    open spec fn view(&self) -> Self::V {
        MatchCacheKey {
            kind: self.kind,
            identifier: text::opt(self.identifier),
            rounded: self.rounded,
            is_airport: self.is_airport,
            airport_id: self.airport_id@,
        }
    }
}

/// The key of a request.
pub open spec fn key_of(request: RefRequest<Seq<char>>, rounded: Option<Point>) -> MatchCacheKey<
    Seq<char>,
> {
    MatchCacheKey {
        kind: request.kind,
        identifier: request.identifier,
        rounded,
        is_airport: request.is_airport,
        airport_id: request.airport_id,
    }
}

impl MatchCacheKey {
    /// Makes the key of a request.
    pub fn new(request: &RefRequest, rounded: Option<Point>) -> (r: MatchCacheKey)
        ensures
            r@ == key_of(request@, rounded),
    {
        MatchCacheKey {
            kind: request.kind,
            identifier: text::copy_opt(&request.identifier),
            rounded,
            is_airport: request.is_airport,
            airport_id: request.airport_id.clone(),
        }
    }

    /// Tests two keys for equality.
    pub fn matches_lookup(&self, other: &MatchCacheKey) -> (r: bool)
        ensures
            r == (self@ == other@),
    {
        let same_identifier: bool = match (&self.identifier, &other.identifier) {
            (Some(a), Some(b)) => text::same(a.as_str(), b.as_str()),
            (None, None) => true,
            _ => false,
        };
        let same_position: bool = match (self.rounded, other.rounded) {
            (Some(a), Some(b)) => a == b,
            (None, None) => true,
            _ => false,
        };
        self.kind == other.kind && same_identifier && same_position && self.is_airport
            == other.is_airport && text::same(self.airport_id.as_str(), other.airport_id.as_str())
    }
}

struct CacheEntry {
    key: MatchCacheKey,
    result: RefMatchResult,
}

/// The text that a key is filed under.
spec fn file_text(key: MatchCacheKey<Seq<char>>) -> Seq<char> {
    match key.identifier {
        Some(identifier) => identifier,
        None => ""@,
    }
}

spec fn entry_result(entries: Seq<CacheEntry>, key: MatchCacheKey<Seq<char>>) -> Option<
    RefMatchResult,
>
    decreases entries.len(),
{
    if entries.len() == 0 {
        None
    } else if entries.last().key@ == key {
        Some(entries.last().result)
    } else {
        entry_result(entries.drop_last(), key)
    }
}

/// The answers to the requests so far.
pub struct MatchCache {
    entries: KeyedLists<CacheEntry>,
}

impl View for MatchCache {
    type V = Map<MatchCacheKey<Seq<char>>, RefMatchResult>;

    closed spec fn view(&self) -> Self::V {
        Map::new(
            |key: MatchCacheKey<Seq<char>>|
                entry_result(self.entries.at(file_text(key)), key) is Some,
            |key: MatchCacheKey<Seq<char>>|
                entry_result(self.entries.at(file_text(key)), key)->0,
        )
    }
}

impl MatchCache {
    /// The collection is well formed.
    pub closed spec fn wf(self) -> bool {
        self.entries.wf()
    }

    /// No answers yet.
    pub fn new() -> (r: Self)
        ensures
            r.wf(),
            r@ == Map::<MatchCacheKey<Seq<char>>, RefMatchResult>::empty(),
    {
        let r = MatchCache { entries: KeyedLists::new() };
        proof {
            assert forall|key: MatchCacheKey<Seq<char>>| !#[trigger] r@.contains_key(key) by {
                assert(r.entries.at(file_text(key)).len() == 0);
            }
            assert(r@ =~= Map::<MatchCacheKey<Seq<char>>, RefMatchResult>::empty());
        }
        r
    }

    fn file_text_of(key: &MatchCacheKey) -> (r: &str)
        ensures
            r@ == file_text(key@),
    {
        match &key.identifier {
            Some(identifier) => identifier.as_str(),
            None => "",
        }
    }

    /// The answer to a request, if there was one.
    pub fn get(&self, key: &MatchCacheKey) -> (r: Option<RefMatchResult>)
        requires
            self.wf(),
        ensures
            match r {
                Some(result) => self@.contains_key(key@) && self@[key@] == result,
                None => !self@.contains_key(key@),
            },
    {
        let entries: &Vec<CacheEntry> = match self.entries.get(Self::file_text_of(key)) {
            Some(entries) => entries,
            None => return None,
        };
        let ghost all = entries@;
        let mut n: usize = entries.len();
        assert(all.take(n as int) == all);
        while n > 0
            invariant
                n <= entries@.len(),
                all == entries@,
                all == self.entries.at(file_text(key@)),
                entry_result(all, key@) == entry_result(all.take(n as int), key@),
            decreases n,
        {
            assert(all.take(n as int).last() == all[n - 1]);
            assert(all.take(n as int).drop_last() == all.take(n - 1));
            if entries[n - 1].key.matches_lookup(key) {
                return Some(entries[n - 1].result);
            }
            n = n - 1;
        }
        None
    }

    /// Remembers the answer to a request.
    pub fn insert(&mut self, key: MatchCacheKey, result: RefMatchResult)
        requires
            old(self).wf(),
        ensures
            final(self).wf(),
            final(self)@ == old(self)@.insert(key@, result),
    {
        let file: String = text::copy(Self::file_text_of(&key));
        let ghost model = key@;
        let entry = CacheEntry { key, result };
        self.entries.push(file.as_str(), entry);
        proof {
            let before = old(self).entries;
            assert forall|k: MatchCacheKey<Seq<char>>| true implies entry_result(
                #[trigger] self.entries.at(file_text(k)),
                k,
            ) == (if k == model {
                Some(result)
            } else {
                entry_result(before.at(file_text(k)), k)
            }) by {
                if file_text(k) == file@ {
                    let list = before.at(file@);
                    assert(list.push(entry).drop_last() == list);
                    assert(list.push(entry).last() == entry);
                }
            }
            assert(self@ =~= old(self)@.insert(model, result));
        }
    }
}

/// The answer to a request that was not asked before.
pub open spec fn fresh_result(
    matcher: RefTableMatcher,
    request: RefRequest<Seq<char>>,
    near: Seq<bool>,
) -> RefMatchResult {
    matcher.matched(
        request.identifier,
        request.point is Some,
        request.is_airport,
        Some(request.airport_id),
        near,
    )
}

/// The answers that are remembered: the first one for each key.
pub open spec fn remembered(
    before: Map<MatchCacheKey<Seq<char>>, RefMatchResult>,
    keys: Seq<MatchCacheKey<Seq<char>>>,
    fresh: Seq<RefMatchResult>,
) -> Map<MatchCacheKey<Seq<char>>, RefMatchResult>
    decreases keys.len(),
{
    if keys.len() == 0 || fresh.len() != keys.len() {
        before
    } else {
        let init = remembered(before, keys.drop_last(), fresh.drop_last());
        if init.contains_key(keys.last()) {
            init
        } else {
            init.insert(keys.last(), fresh.last())
        }
    }
}

/// A remembered answer is never replaced.
pub proof fn remembered_answers_stay(
    before: Map<MatchCacheKey<Seq<char>>, RefMatchResult>,
    keys: Seq<MatchCacheKey<Seq<char>>>,
    fresh: Seq<RefMatchResult>,
    key: MatchCacheKey<Seq<char>>,
)
    requires
        before.contains_key(key),
    ensures
        remembered(before, keys, fresh).contains_key(key),
        remembered(before, keys, fresh)[key] == before[key],
    decreases keys.len(),
{
    if keys.len() > 0 && fresh.len() == keys.len() {
        remembered_answers_stay(before, keys.drop_last(), fresh.drop_last(), key);
    }
}

/// The keys of requests with their measures.
pub open spec fn request_keys(
    requests: Seq<RefRequest<Seq<char>>>,
    measures: Seq<RequestMeasure>,
) -> Seq<MatchCacheKey<Seq<char>>> {
    Seq::new(requests.len(), |i: int| key_of(requests[i], measures[i].rounded))
}

/// The answers to requests with their measures, were none remembered.
pub open spec fn fresh_results(
    matcher: RefTableMatcher,
    requests: Seq<RefRequest<Seq<char>>>,
    measures: Seq<RequestMeasure>,
) -> Seq<RefMatchResult> {
    Seq::new(requests.len(), |i: int| fresh_result(matcher, requests[i], measures[i].near@))
}

/// The answers to requests: the remembered one for each key.
pub open spec fn answers(
    memory: Map<MatchCacheKey<Seq<char>>, RefMatchResult>,
    keys: Seq<MatchCacheKey<Seq<char>>>,
) -> Seq<RefMatchResult> {
    keys.map_values(|key: MatchCacheKey<Seq<char>>| memory[key])
}

/// Answers requests. A request like one before gets the answer of that one.
pub fn match_ref_requests(
    matcher: &RefTableMatcher,
    cache: &mut MatchCache,
    requests: &Vec<RefRequest>,
    measures: &Vec<RequestMeasure>,
) -> (out: Vec<RefMatchResult>)
    requires
        matcher.wf(),
        old(cache).wf(),
        measures@.len() == requests@.len(),
    ensures
        final(cache).wf(),
        final(cache)@ == remembered(
            old(cache)@,
            request_keys(text::views(requests@), measures@),
            fresh_results(*matcher, text::views(requests@), measures@),
        ),
        out@ == answers(final(cache)@, request_keys(text::views(requests@), measures@)),
{
    let ghost before = cache@;
    let ghost keys = request_keys(text::views(requests@), measures@);
    let ghost fresh = fresh_results(*matcher, text::views(requests@), measures@);
    let mut out: Vec<RefMatchResult> = Vec::new();
    assert(keys.take(0).len() == 0);
    for i in 0..requests.len()
        invariant
            matcher.wf(),
            cache.wf(),
            measures@.len() == requests@.len(),
            keys == request_keys(text::views(requests@), measures@),
            fresh == fresh_results(*matcher, text::views(requests@), measures@),
            cache@ == remembered(before, keys.take(i as int), fresh.take(i as int)),
            out@.len() == i,
            forall|k: int|
                0 <= k < i ==> cache@.contains_key(#[trigger] keys[k]) && out@[k]
                    == cache@[keys[k]],
    {
        let ghost memory = cache@;
        let ghost earlier = out@;
        assert(keys.take(i + 1).drop_last() == keys.take(i as int));
        assert(fresh.take(i + 1).drop_last() == fresh.take(i as int));
        let request: &RefRequest = &requests[i];
        assert(text::views(requests@)[i as int] == request@);
        let key: MatchCacheKey = MatchCacheKey::new(request, measures[i].rounded);
        assert(key@ == keys[i as int]);
        match cache.get(&key) {
            Some(result) => {
                out.push(result);
            },
            None => {
                let (latitude, longitude): (Option<u64>, Option<u64>) = match request.point {
                    Some(point) => (Some(point.latitude), Some(point.longitude)),
                    None => (None, None),
                };
                let result: RefMatchResult = matcher.match_request(
                    &RefMatchRequest {
                        identifier: as_slice(&request.identifier),
                        latitude,
                        longitude,
                        is_airport: request.is_airport,
                        airport_id: Some(request.airport_id.as_str()),
                    },
                    &measures[i].near,
                );
                assert(result == fresh[i as int]);
                cache.insert(key, result);
                out.push(result);
            },
        }
        assert forall|k: int| 0 <= k < i + 1 implies cache@.contains_key(#[trigger] keys[k])
            && out@[k] == cache@[keys[k]] by {
            if k < i {
                assert(memory.contains_key(keys[k]) && earlier[k] == memory[keys[k]]);
                assert(out@[k] == earlier[k]);
            }
        }
    }
    assert(keys.take(requests@.len() as int) == keys);
    assert(fresh.take(requests@.len() as int) == fresh);
    assert(out@ =~= answers(cache@, keys));
    out
}

/// The identifier of a fix across tables: the table's name and, behind a bar, the ICAO code and
/// the identifier, with the airport before them where the table is one of terminal data.
pub open spec fn reference_id(
    table: Option<RefTable>,
    identifier: Option<Seq<char>>,
    icao_code: Option<Seq<char>>,
    airport: Seq<char>,
) -> Option<Seq<char>> {
    match (table, identifier, icao_code) {
        (Some(table), Some(identifier), Some(icao_code)) => {
            let name = text::trim(Blank::Unicode, identifier);
            let icao = text::trim(Blank::Unicode, icao_code);
            if name.len() == 0 || icao.len() == 0 {
                None
            } else {
                match table {
                    RefTable::Airports
                    | RefTable::EnrouteNdbs
                    | RefTable::EnrouteWaypoints
                    | RefTable::VhfNavaids => Some(
                        ref_tables::name_of(table) + "|"@ + icao + name,
                    ),
                    _ => Some(ref_tables::name_of(table) + "|"@ + airport + icao + name),
                }
            }
        },
        _ => None,
    }
}

/// Builds the identifier of a fix across tables.
pub fn build_reference_id_cell(
    table: Option<RefTable>,
    identifier: &Option<String>,
    icao_code: &Option<String>,
    airport: &str,
) -> (r: Option<String>)
    ensures
        text::opt(r) == reference_id(
            table,
            text::opt(*identifier),
            text::opt(*icao_code),
            airport@,
        ),
{
    match (table, identifier, icao_code) {
        (Some(table), Some(identifier), Some(icao_code)) => {
            let name: String = text::trimmed(Blank::Unicode, identifier.as_str());
            let icao: String = text::trimmed(Blank::Unicode, icao_code.as_str());
            if text::is_empty(name.as_str()) || text::is_empty(icao.as_str()) {
                return None;
            }
            let mut id: String = text::copy(ref_tables::table_name(table));
            id.append("|");
            match table {
                RefTable::Airports
                | RefTable::EnrouteNdbs
                | RefTable::EnrouteWaypoints
                | RefTable::VhfNavaids => {},
                _ => {
                    id.append(airport);
                },
            }
            id.append(icao.as_str());
            id.append(name.as_str());
            Some(id)
        },
        _ => None,
    }
}

/// The fixes of a leg and where they were found.
#[verifier::ext_equal]
pub struct MatchedProcedureCells<T = String> {
    pub waypoint_identifier: Option<T>,
    pub waypoint_icao_code: Option<T>,
    pub center_waypoint: Option<T>,
    pub center_waypoint_icao_code: Option<T>,
    pub recommended_navaid: Option<T>,
    pub recommended_navaid_icao_code: Option<T>,
    pub waypoint: RefMatchResult,
    pub recommended: RefMatchResult,
    pub center: RefMatchResult,
    pub waypoint_id: Option<T>,
    pub recommended_id: Option<T>,
    pub center_id: Option<T>,
}

impl View for MatchedProcedureCells {
    type V = MatchedProcedureCells<Seq<char>>;

    open spec fn view(&self) -> Self::V {
        MatchedProcedureCells {
            waypoint_identifier: text::opt(self.waypoint_identifier),
            waypoint_icao_code: text::opt(self.waypoint_icao_code),
            center_waypoint: text::opt(self.center_waypoint),
            center_waypoint_icao_code: text::opt(self.center_waypoint_icao_code),
            recommended_navaid: text::opt(self.recommended_navaid),
            recommended_navaid_icao_code: text::opt(self.recommended_navaid_icao_code),
            waypoint: self.waypoint,
            recommended: self.recommended,
            center: self.center,
            waypoint_id: text::opt(self.waypoint_id),
            recommended_id: text::opt(self.recommended_id),
            center_id: text::opt(self.center_id),
        }
    }
}

/// The fixes of a leg, from the answers to its requests.
pub open spec fn matched_cells(
    fields: Seq<Seq<char>>,
    airport: Seq<char>,
    waypoint: RefMatchResult,
    recommended: RefMatchResult,
    center: RefMatchResult,
) -> MatchedProcedureCells<Seq<char>> {
    let identifier = legs::leg_field(fields, 4);
    let icao = legs::leg_field(fields, 5);
    let navaid = legs::leg_field(fields, 13);
    let center_waypoint = legs::leg_field(fields, 30);
    let navaid_icao = shared_icao(navaid, icao);
    let center_icao = shared_icao(center_waypoint, icao);
    MatchedProcedureCells {
        waypoint_identifier: identifier,
        waypoint_icao_code: icao,
        center_waypoint,
        center_waypoint_icao_code: center_icao,
        recommended_navaid: navaid,
        recommended_navaid_icao_code: navaid_icao,
        waypoint,
        recommended,
        center,
        waypoint_id: reference_id(waypoint.ref_table, identifier, icao, airport),
        recommended_id: reference_id(recommended.ref_table, navaid, navaid_icao, airport),
        center_id: reference_id(center.ref_table, center_waypoint, center_icao, airport),
    }
}

/// Makes the fixes of a leg from the answers to its requests.
pub fn resolve_matched_procedure_cells(
    fields: &CifpFields,
    airport: &str,
    waypoint: RefMatchResult,
    recommended: RefMatchResult,
    center: RefMatchResult,
) -> (r: MatchedProcedureCells)
    ensures
        r@ == matched_cells(fields@, airport@, waypoint, recommended, center),
{
    let identifier: Option<String> = legs::extract_opt_field(fields, 4);
    let icao: Option<String> = legs::extract_opt_field(fields, 5);
    let navaid: Option<String> = legs::extract_opt_field(fields, 13);
    let center_waypoint: Option<String> = legs::extract_opt_field(fields, 30);
    let navaid_icao: Option<String> = copy_shared_icao(&navaid, &icao);
    let center_icao: Option<String> = copy_shared_icao(&center_waypoint, &icao);
    let waypoint_id: Option<String> = build_reference_id_cell(
        waypoint.ref_table,
        &identifier,
        &icao,
        airport,
    );
    let recommended_id: Option<String> = build_reference_id_cell(
        recommended.ref_table,
        &navaid,
        &navaid_icao,
        airport,
    );
    let center_id: Option<String> = build_reference_id_cell(
        center.ref_table,
        &center_waypoint,
        &center_icao,
        airport,
    );
    MatchedProcedureCells {
        waypoint_identifier: identifier,
        waypoint_icao_code: icao,
        center_waypoint,
        center_waypoint_icao_code: center_icao,
        recommended_navaid: navaid,
        recommended_navaid_icao_code: navaid_icao,
        waypoint,
        recommended,
        center,
        waypoint_id,
        recommended_id,
        center_id,
    }
}

/// The three fixes of a leg are asked for by their own fields: the waypoint, the recommended
/// navigation aid and the center, in this order.
pub proof fn the_fixes_of_a_leg_are_asked_for_by_their_fields(
    coords: CoordinateMatcher,
    fields: Seq<Seq<char>>,
    airport: Seq<char>,
)
    ensures
        ({
            let requests = leg_requests(coords, fields, airport);
            let waypoint = legs::leg_field(fields, 4);
            let icao = legs::leg_field(fields, 5);
            let recommended = legs::leg_field(fields, 13);
            let center = legs::leg_field(fields, 30);
            &&& requests.len() == 3
            &&& requests[0].kind == MatchRequestKind::Waypoint
            &&& requests[0].identifier == waypoint
            &&& requests[0].point == coords.found(
                CoordinateSearchType::Waypoint,
                waypoint,
                icao,
                Some(airport),
            )
            &&& requests[0].is_airport == names_airport(waypoint, icao)
            &&& requests[1].kind == MatchRequestKind::RecommendedNavaid
            &&& requests[1].identifier == recommended
            &&& recommended is Some ==> requests[1].point == coords.found(
                CoordinateSearchType::RecommendedNavaid,
                recommended,
                icao,
                None,
            )
            &&& recommended is None ==> requests[1].point is None
            &&& !requests[1].is_airport
            &&& requests[2].kind == MatchRequestKind::Center
            &&& requests[2].identifier == center
            &&& center is Some ==> requests[2].point == coords.found(
                CoordinateSearchType::Center,
                center,
                icao,
                Some(airport),
            )
            &&& center is Some ==> requests[2].is_airport == names_airport(center, icao)
            &&& center is None ==> requests[2].point is None && !requests[2].is_airport
            &&& requests[0].airport_id == airport
            &&& requests[1].airport_id == airport
            &&& requests[2].airport_id == airport
        }),
{
}

/// The requests of a leg stand together, in the order of the legs.
pub proof fn requests_stand_in_the_order_of_the_legs(
    coords: CoordinateMatcher,
    lines: Seq<Seq<Seq<char>>>,
    airport: Seq<char>,
    i: int,
    k: int,
)
    requires
        0 <= i < lines.len(),
        0 <= k < 3,
    ensures
        text::flat_collect(lines, leg_requester(coords, airport))[3 * i + k] == leg_requests(
            coords,
            lines[i],
            airport,
        )[k],
    decreases lines.len(),
{
    let init = lines.drop_last();
    three_requests_per_leg(coords, init, airport);
    three_requests_per_leg(coords, lines, airport);
    if i < lines.len() - 1 {
        requests_stand_in_the_order_of_the_legs(coords, init, airport, i, k);
        assert(init[i] == lines[i]);
    }
}

/// A name of four characters that begins with `Z` is that of an airport, unless its ICAO code is
/// that of the whole world.
pub proof fn four_characters_from_z_name_an_airport(
    waypoint: Seq<char>,
    icao: Option<Seq<char>>,
)
    requires
        forall|i: int| 0 <= i < waypoint.len() ==> (#[trigger] waypoint[i]) <= '\u{7F}',
        waypoint.len() > 0 ==> !text::blank(Blank::Unicode, waypoint[0]) && !text::blank(
            Blank::Unicode,
            waypoint.last(),
        ),
    ensures
        names_airport(Some(waypoint), icao) <==> waypoint.len() == 4 && waypoint[0] == 'Z' && (icao
            is None || text::trim(Blank::Unicode, icao->0) != "ZZ"@),
        !names_airport(None, icao),
{
    text::trimming_keeps_what_is_trimmed(Blank::Unicode, waypoint);
    text::ascii_slices_count_characters(waypoint, 0, 4);
    lemma_ascii_four(waypoint);
}

proof fn lemma_ascii_four(s: Seq<char>)
    requires
        forall|i: int| 0 <= i < s.len() ==> (#[trigger] s[i]) <= '\u{7F}',
    ensures
        text::chars_in(s, 4) == (if s.len() >= 4 {
            Some(4int)
        } else {
            None
        }),
{
    text::lemma_ascii_chars_in(s, 4);
}

/// The cells of a leg show the fixes that its fields name, each with the answer for it.
pub proof fn the_cells_of_a_leg_show_its_own_fixes(
    fields: Seq<Seq<char>>,
    airport: Seq<char>,
    waypoint: RefMatchResult,
    recommended: RefMatchResult,
    center: RefMatchResult,
)
    ensures
        ({
            let cells = matched_cells(fields, airport, waypoint, recommended, center);
            let icao = legs::leg_field(fields, 5);
            &&& cells.waypoint_identifier == legs::leg_field(fields, 4)
            &&& cells.waypoint_icao_code == icao
            &&& cells.recommended_navaid == legs::leg_field(fields, 13)
            &&& cells.recommended_navaid_icao_code == (if legs::leg_field(fields, 13) is Some {
                icao
            } else {
                None
            })
            &&& cells.center_waypoint == legs::leg_field(fields, 30)
            &&& cells.center_waypoint_icao_code == (if legs::leg_field(fields, 30) is Some {
                icao
            } else {
                None
            })
            &&& cells.waypoint == waypoint
            &&& cells.recommended == recommended
            &&& cells.center == center
            &&& cells.waypoint_id == reference_id(
                waypoint.ref_table,
                legs::leg_field(fields, 4),
                icao,
                airport,
            )
            &&& legs::leg_field(fields, 13) is Some ==> cells.recommended_id == reference_id(
                recommended.ref_table,
                legs::leg_field(fields, 13),
                icao,
                airport,
            )
            &&& legs::leg_field(fields, 30) is Some ==> cells.center_id == reference_id(
                center.ref_table,
                legs::leg_field(fields, 30),
                icao,
                airport,
            )
            &&& legs::leg_field(fields, 13) is None ==> cells.recommended_id is None
            &&& legs::leg_field(fields, 30) is None ==> cells.center_id is None
        }),
{
}

/// A fix is referred to by its table, a bar, its ICAO code and its identifier; in the tables of
/// airports' own fixes the airport comes first. What is not wholly known is not referred to.
pub proof fn fixes_are_referred_to_by_table_code_and_identifier(
    table: RefTable,
    identifier: Seq<char>,
    icao: Seq<char>,
    airport: Seq<char>,
)
    ensures
        ({
            let name = text::trim(Blank::Unicode, identifier);
            let code = text::trim(Blank::Unicode, icao);
            let whole = table == RefTable::Airports || table == RefTable::EnrouteNdbs || table
                == RefTable::EnrouteWaypoints || table == RefTable::VhfNavaids;
            let id = reference_id(Some(table), Some(identifier), Some(icao), airport);
            &&& name.len() == 0 || code.len() == 0 ==> id is None
            &&& name.len() > 0 && code.len() > 0 && whole ==> id == Some(
                ref_tables::name_of(table) + "|"@ + code + name,
            )
            &&& name.len() > 0 && code.len() > 0 && !whole ==> id == Some(
                ref_tables::name_of(table) + "|"@ + airport + code + name,
            )
        }),
        reference_id(None, Some(identifier), Some(icao), airport) is None,
        reference_id(Some(table), None, Some(icao), airport) is None,
        reference_id(Some(table), Some(identifier), None, airport) is None,
{
}

/// A request that was not answered before gets the fresh answer to the first request like it.
pub proof fn a_new_request_gets_the_first_fresh_answer(
    before: Map<MatchCacheKey<Seq<char>>, RefMatchResult>,
    keys: Seq<MatchCacheKey<Seq<char>>>,
    fresh: Seq<RefMatchResult>,
    i: int,
)
    requires
        fresh.len() == keys.len(),
        0 <= i < keys.len(),
        !before.contains_key(keys[i]),
        forall|j: int| 0 <= j < i ==> #[trigger] keys[j] != keys[i],
    ensures
        remembered(before, keys, fresh).contains_key(keys[i]),
        remembered(before, keys, fresh)[keys[i]] == fresh[i],
        answers(remembered(before, keys, fresh), keys)[i] == fresh[i],
    decreases keys.len(),
{
    let init = keys.drop_last();
    if i < keys.len() - 1 {
        assert(init[i] == keys[i]);
        assert(fresh.drop_last()[i] == fresh[i]);
        assert forall|j: int| 0 <= j < i implies #[trigger] init[j] != init[i] by {
            assert(init[j] == keys[j]);
        }
        a_new_request_gets_the_first_fresh_answer(before, init, fresh.drop_last(), i);
    } else {
        lemma_not_remembered(before, init, fresh.drop_last(), keys[i]);
    }
}

proof fn lemma_not_remembered(
    before: Map<MatchCacheKey<Seq<char>>, RefMatchResult>,
    keys: Seq<MatchCacheKey<Seq<char>>>,
    fresh: Seq<RefMatchResult>,
    key: MatchCacheKey<Seq<char>>,
)
    requires
        !before.contains_key(key),
        forall|j: int| 0 <= j < keys.len() ==> #[trigger] keys[j] != key,
    ensures
        !remembered(before, keys, fresh).contains_key(key),
    decreases keys.len(),
{
    if keys.len() > 0 && fresh.len() == keys.len() {
        let init = keys.drop_last();
        assert forall|j: int| 0 <= j < init.len() implies #[trigger] init[j] != key by {
            assert(init[j] == keys[j]);
        }
        assert(keys[keys.len() - 1] != key);
        lemma_not_remembered(before, init, fresh.drop_last(), key);
    }
}

/// A fresh answer is what the tables know of the request: of its identifier, whether it has a
/// position, whether it is an airport, and of which airport it is asked.
pub proof fn fresh_answers_are_what_the_tables_know(
    matcher: RefTableMatcher,
    requests: Seq<RefRequest<Seq<char>>>,
    measures: Seq<RequestMeasure>,
    i: int,
)
    requires
        0 <= i < requests.len(),
        measures.len() == requests.len(),
    ensures
        fresh_results(matcher, requests, measures)[i] == matcher.matched(
            requests[i].identifier,
            requests[i].point is Some,
            requests[i].is_airport,
            Some(requests[i].airport_id),
            measures[i].near@,
        ),
        request_keys(requests, measures)[i].kind == requests[i].kind,
        request_keys(requests, measures)[i].identifier == requests[i].identifier,
        request_keys(requests, measures)[i].rounded == measures[i].rounded,
        request_keys(requests, measures)[i].is_airport == requests[i].is_airport,
        request_keys(requests, measures)[i].airport_id == requests[i].airport_id,
{
}

/// Every field of a `RefRequest` is seen under its own name.
pub proof fn every_field_of_ref_request_is_seen(it: RefRequest)
    ensures
        it@.kind == it.kind,
        it@.identifier == text::opt(it.identifier),
        it@.point == it.point,
        it@.is_airport == it.is_airport,
        it@.airport_id == it.airport_id@,
{
}

/// Every field of a `MatchCacheKey` is seen under its own name.
pub proof fn every_field_of_match_cache_key_is_seen(it: MatchCacheKey)
    ensures
        it@.kind == it.kind,
        it@.identifier == text::opt(it.identifier),
        it@.rounded == it.rounded,
        it@.is_airport == it.is_airport,
        it@.airport_id == it.airport_id@,
{
}

/// Every field of a `MatchedProcedureCells` is seen under its own name.
pub proof fn every_field_of_matched_procedure_cells_is_seen(it: MatchedProcedureCells)
    ensures
        it@.waypoint_identifier == text::opt(it.waypoint_identifier),
        it@.waypoint_icao_code == text::opt(it.waypoint_icao_code),
        it@.center_waypoint == text::opt(it.center_waypoint),
        it@.center_waypoint_icao_code == text::opt(it.center_waypoint_icao_code),
        it@.recommended_navaid == text::opt(it.recommended_navaid),
        it@.recommended_navaid_icao_code == text::opt(it.recommended_navaid_icao_code),
        it@.waypoint == it.waypoint,
        it@.recommended == it.recommended,
        it@.center == it.center,
        it@.waypoint_id == text::opt(it.waypoint_id),
        it@.recommended_id == text::opt(it.recommended_id),
        it@.center_id == text::opt(it.center_id),
{
}

} // verus!
