//! Looking up positions and reference tables by identifier.

use crate::double;
use crate::double::Point;
use crate::keyed::{KeyedLists, TextSet};
use crate::numeric;
use crate::text;
use crate::text::Blank;
use vstd::hash_map::StringHashMap;
use vstd::prelude::*;

verus! {

/// The fields of one fix record; the coordinates are checked literals.
#[verifier::ext_equal]
pub struct FixText<T = String> {
    pub latitude: T,
    pub longitude: T,
    pub identifier: T,
    pub region_code: T,
    pub icao_code: T,
}

impl View for FixText {
    type V = FixText<Seq<char>>;

    open spec fn view(&self) -> Self::V {
        FixText {
            latitude: self.latitude@,
            longitude: self.longitude@,
            identifier: self.identifier@,
            region_code: self.region_code@,
            icao_code: self.icao_code@,
        }
    }
}

/// One key under which a navigation aid can be found; the coordinates are checked literals.
#[verifier::ext_equal]
pub struct NavText<T = String> {
    pub latitude: T,
    pub longitude: T,
    pub identifier: T,
    pub icao_code: T,
}

impl View for NavText {
    type V = NavText<Seq<char>>;

    open spec fn view(&self) -> Self::V {
        NavText {
            latitude: self.latitude@,
            longitude: self.longitude@,
            identifier: self.identifier@,
            icao_code: self.icao_code@,
        }
    }
}

/// The identifiers that are wanted: all of them where there is no restriction.
pub open spec fn wanted(required: Option<Seq<Seq<char>>>, identifier: Seq<char>) -> bool {
    match required {
        Some(identifiers) => identifiers.contains(identifier),
        None => true,
    }
}

/// The view of an optional restriction.
pub open spec fn restriction(required: Option<&TextSet>) -> Option<Seq<Seq<char>>> {
    match required {
        Some(identifiers) => Some(identifiers@),
        None => None,
    }
}

/// Whether the restriction, if there is one, is well formed.
pub open spec fn restriction_wf(required: Option<&TextSet>) -> bool {
    match required {
        Some(identifiers) => identifiers.wf(),
        None => true,
    }
}

fn is_wanted(required: Option<&TextSet>, identifier: &str) -> (r: bool)
    requires
        restriction_wf(required),
    ensures
        r == wanted(restriction(required), identifier@),
{
    match required {
        Some(identifiers) => identifiers.contains(identifier),
        None => true,
    }
}

/// The fix on a line: latitude, longitude, identifier, region and ICAO code.
pub open spec fn fix_text(line: Seq<char>, required: Option<Seq<Seq<char>>>) -> Option<
    FixText<Seq<char>>,
> {
    let w = text::words(Blank::Ascii, line);
    if w.len() >= 5 && wanted(required, w[2]) && numeric::float_literal(w[0])
        && numeric::float_literal(w[1]) {
        Some(
            FixText {
                latitude: w[0],
                longitude: w[1],
                identifier: w[2],
                region_code: w[3],
                icao_code: w[4],
            },
        )
    } else {
        None
    }
}

/// Reads a fix record.
pub fn parse_fix_line(line: &str, required: Option<&TextSet>) -> (r: Option<FixText>)
    requires
        restriction_wf(required),
    ensures
        text::opt(r) == fix_text(line@, restriction(required)),
{
    let w: Vec<String> = text::split_words(Blank::Ascii, &text::chars_of(line));
    let ghost v = text::views(w@);
    assert(v == text::words(Blank::Ascii, line@));
    assert(forall|k: int| 0 <= k < w@.len() ==> v[k] == w@[k]@);
    if w.len() < 5 {
        return None;
    }
    if !is_wanted(required, w[2].as_str()) {
        return None;
    }
    if !numeric::is_float_literal(w[0].as_str()) || !numeric::is_float_literal(w[1].as_str()) {
        return None;
    }
    Some(
        FixText {
            latitude: w[0].clone(),
            longitude: w[1].clone(),
            identifier: w[2].clone(),
            region_code: w[3].clone(),
            icao_code: w[4].clone(),
        },
    )
}

/// The key made of an identifier and an ICAO code, if the identifier is wanted.
pub open spec fn nav_key(
    w: Seq<Seq<char>>,
    identifier: int,
    icao: int,
    required: Option<Seq<Seq<char>>>,
) -> Seq<NavText<Seq<char>>> {
    if wanted(required, w[identifier]) {
        seq![
            NavText {
                latitude: w[1],
                longitude: w[2],
                identifier: w[identifier],
                icao_code: w[icao],
            },
        ]
    } else {
        Seq::empty()
    }
}

/// The keys of the navigation aid on a line. Record layouts differ, so three pairs of words are
/// taken for identifier and ICAO code.
pub open spec fn nav_texts(line: Seq<char>, required: Option<Seq<Seq<char>>>) -> Seq<
    NavText<Seq<char>>,
> {
    let w = text::words(Blank::Ascii, line);
    if w.len() >= 11 && numeric::float_literal(w[1]) && numeric::float_literal(w[2]) {
        nav_key(w, 8, 10, required) + nav_key(w, 7, 9, required) + nav_key(w, 6, 8, required)
    } else {
        Seq::empty()
    }
}

fn push_nav_key(
    out: &mut Vec<NavText>,
    w: &Vec<String>,
    identifier: usize,
    icao: usize,
    required: Option<&TextSet>,
)
    requires
        restriction_wf(required),
        w@.len() >= 11,
        identifier < w@.len(),
        icao < w@.len(),
    ensures
        text::views(final(out)@) == text::views(old(out)@) + nav_key(
            text::views(w@),
            identifier as int,
            icao as int,
            restriction(required),
        ),
{
    let ghost v = text::views(w@);
    assert(forall|k: int| 0 <= k < w@.len() ==> v[k] == w@[k]@);
    if is_wanted(required, w[identifier].as_str()) {
        let entry = NavText {
            latitude: w[1].clone(),
            longitude: w[2].clone(),
            identifier: w[identifier].clone(),
            icao_code: w[icao].clone(),
        };
        proof {
            text::lemma_views_push(out@, entry);
        }
        out.push(entry);
    }
    assert(text::views(out@) =~= text::views(old(out)@) + nav_key(
        v,
        identifier as int,
        icao as int,
        restriction(required),
    ));
}

/// Reads the keys of a navigation aid record and appends them.
pub fn parse_nav_line(line: &str, required: Option<&TextSet>, out: &mut Vec<NavText>)
    requires
        restriction_wf(required),
    ensures
        text::views(final(out)@) == text::views(old(out)@) + nav_texts(
            line@,
            restriction(required),
        ),
{
    let w: Vec<String> = text::split_words(Blank::Ascii, &text::chars_of(line));
    let ghost v = text::views(w@);
    assert(v == text::words(Blank::Ascii, line@));
    assert(forall|k: int| 0 <= k < w@.len() ==> v[k] == w@[k]@);
    let ghost r = restriction(required);
    assert(text::views(out@) + Seq::<NavText<Seq<char>>>::empty() =~= text::views(out@));
    if w.len() < 11 || !numeric::is_float_literal(w[1].as_str()) || !numeric::is_float_literal(
        w[2].as_str(),
    ) {
        return;
    }
    push_nav_key(out, &w, 8, 10, required);
    push_nav_key(out, &w, 7, 9, required);
    push_nav_key(out, &w, 6, 8, required);
    assert(text::views(out@) =~= text::views(old(out)@) + (nav_key(v, 8, 10, r) + nav_key(
        v,
        7,
        9,
        r,
    ) + nav_key(v, 6, 8, r)));
}

/// The reading of fixes, line by line.
pub open spec fn fix_reader(required: Option<Seq<Seq<char>>>) -> spec_fn(int, Seq<char>) -> Option<
    FixText<Seq<char>>,
> {
    |i: int, line: Seq<char>| fix_text(line, required)
}

/// The reading of navigation aids, line by line.
pub open spec fn nav_reader(required: Option<Seq<Seq<char>>>) -> spec_fn(int, Seq<char>) -> Seq<
    NavText<Seq<char>>,
> {
    |i: int, line: Seq<char>| nav_texts(line, required)
}

/// The fixes of a file, given line by line.
pub fn read_fix_lines(lines: &Vec<String>, required: Option<&TextSet>) -> (out: Vec<FixText>)
    requires
        restriction_wf(required),
    ensures
        text::views(out@) == text::collect(
            text::views(lines@),
            fix_reader(restriction(required)),
        ),
{
    let mut out: Vec<FixText> = Vec::new();
    let ghost all = text::views(lines@);
    let ghost f = fix_reader(restriction(required));
    assert(all.take(0).len() == 0);
    assert(text::views(out@) =~= text::collect(all.take(0), f));
    for i in 0..lines.len()
        invariant
            restriction_wf(required),
            all == text::views(lines@),
            f == fix_reader(restriction(required)),
            text::views(out@) == text::collect(all.take(i as int), f),
    {
        proof {
            text::lemma_collect_step(all, f, i as int);
            assert(all[i as int] == lines@[i as int]@);
        }
        match parse_fix_line(lines[i].as_str(), required) {
            Some(row) => {
                proof {
                    text::lemma_views_push(out@, row);
                }
                out.push(row);
            },
            None => {},
        }
    }
    assert(all.take(lines@.len() as int) == all);
    out
}

/// The keys of the navigation aids of a file, given line by line.
pub fn read_nav_lines(lines: &Vec<String>, required: Option<&TextSet>) -> (out: Vec<NavText>)
    requires
        restriction_wf(required),
    ensures
        text::views(out@) == text::flat_collect(
            text::views(lines@),
            nav_reader(restriction(required)),
        ),
{
    let mut out: Vec<NavText> = Vec::new();
    let ghost all = text::views(lines@);
    let ghost f = nav_reader(restriction(required));
    assert(all.take(0).len() == 0);
    assert(text::views(out@) =~= text::flat_collect(all.take(0), f));
    for i in 0..lines.len()
        invariant
            restriction_wf(required),
            all == text::views(lines@),
            f == nav_reader(restriction(required)),
            text::views(out@) == text::flat_collect(all.take(i as int), f),
    {
        proof {
            text::lemma_flat_collect_step(all, f, i as int);
            assert(all[i as int] == lines@[i as int]@);
        }
        parse_nav_line(lines[i].as_str(), required, &mut out);
    }
    assert(all.take(lines@.len() as int) == all);
    out
}

/// A fix with its position.
#[verifier::ext_equal]
pub struct FixEntry<T = String> {
    pub identifier: T,
    pub icao_code: T,
    pub region_code: T,
    pub point: Point,
}

impl View for FixEntry {
    type V = FixEntry<Seq<char>>;

    open spec fn view(&self) -> Self::V {
        FixEntry {
            identifier: self.identifier@,
            icao_code: self.icao_code@,
            region_code: self.region_code@,
            point: self.point,
        }
    }
}

/// A navigation aid with its position.
#[verifier::ext_equal]
pub struct NavEntry<T = String> {
    pub identifier: T,
    pub icao_code: T,
    pub point: Point,
}

impl View for NavEntry {
    type V = NavEntry<Seq<char>>;

    open spec fn view(&self) -> Self::V {
        NavEntry {
            identifier: self.identifier@,
            icao_code: self.icao_code@,
            point: self.point,
        }
    }
}

/// What a coordinate is looked up for.
#[derive(Clone, Copy, PartialEq, Eq, Debug, Structural)]
pub enum CoordinateSearchType {
    RecommendedNavaid,
    Waypoint,
    Center,
}

/// A request for the position of an identifier.
pub struct CoordinateLookupRequest<'a> {
    pub search_type: CoordinateSearchType,
    pub identifier: Option<&'a str>,
    pub icao_code: Option<&'a str>,
    pub region_code: Option<&'a str>,
}

/// The position of the last fix with the ICAO code.
pub open spec fn fix_point(fixes: Seq<FixEntry<Seq<char>>>, icao: Seq<char>) -> Option<Point>
    decreases fixes.len(),
{
    if fixes.len() == 0 {
        None
    } else if fixes.last().icao_code == icao {
        Some(fixes.last().point)
    } else {
        fix_point(fixes.drop_last(), icao)
    }
}

/// The position of the last fix with the ICAO code and the region.
pub open spec fn region_point(
    fixes: Seq<FixEntry<Seq<char>>>,
    icao: Seq<char>,
    region: Seq<char>,
) -> Option<Point>
    decreases fixes.len(),
{
    if fixes.len() == 0 {
        None
    } else if fixes.last().icao_code == icao && fixes.last().region_code == region {
        Some(fixes.last().point)
    } else {
        region_point(fixes.drop_last(), icao, region)
    }
}

/// The position of the first navigation aid with the ICAO code.
pub open spec fn nav_point(navs: Seq<NavEntry<Seq<char>>>, icao: Seq<char>) -> Option<Point>
    decreases navs.len(),
{
    if navs.len() == 0 {
        None
    } else if navs[0].icao_code == icao {
        Some(navs[0].point)
    } else {
        nav_point(navs.skip(1), icao)
    }
}

/// Whether a later fix has the same ICAO code as the one at `i`.
pub open spec fn superseded(fixes: Seq<FixEntry<Seq<char>>>, i: int) -> bool {
    exists|j: int| i < j < fixes.len() && #[trigger] fixes[j].icao_code == fixes[i].icao_code
}

/// The choice of the fixes that no later one supersedes.
pub open spec fn current_chooser(fixes: Seq<FixEntry<Seq<char>>>) -> spec_fn(
    int,
    FixEntry<Seq<char>>,
) -> Option<Point> {
    |i: int, fix: FixEntry<Seq<char>>|
        if superseded(fixes, i) {
            None
        } else {
            Some(fix.point)
        }
}

/// The positions of the fixes that no later one supersedes.
pub open spec fn current_points(fixes: Seq<FixEntry<Seq<char>>>) -> Seq<Point> {
    text::collect(fixes, current_chooser(fixes))
}

/// The first of the points, if all others equal it.
pub open spec fn agreed_point(points: Seq<Point>) -> Option<Point> {
    if points.len() > 0 && forall|k: int|
        0 < k < points.len() ==> double::same_point(points[0], #[trigger] points[k]) {
        Some(points[0])
    } else {
        None
    }
}

/// The position that a waypoint has whatever the ICAO code: that of code `ZZ`, else the one on
/// which the current fixes of all codes agree.
pub open spec fn fallback_point(fixes: Seq<FixEntry<Seq<char>>>) -> Option<Point> {
    match fix_point(fixes, "ZZ"@) {
        Some(point) => Some(point),
        None => agreed_point(current_points(fixes)),
    }
}

/// Whether a waypoint identifier is that of a fix: it has a digit, or four or five characters.
pub open spec fn names_fix(identifier: Seq<char>) -> bool {
    ||| exists|i: int| 0 <= i < identifier.len() && numeric::digit(#[trigger] identifier[i])
    ||| identifier.len() == 4
    ||| identifier.len() == 5
}

/// The position that a request finds among the fixes and the navigation aids with its identifier.
pub open spec fn found_point(
    search_type: CoordinateSearchType,
    identifier: Seq<char>,
    icao: Seq<char>,
    region: Option<Seq<char>>,
    fixes: Seq<FixEntry<Seq<char>>>,
    navs: Seq<NavEntry<Seq<char>>>,
) -> Option<Point> {
    if search_type == CoordinateSearchType::RecommendedNavaid {
        nav_point(navs, icao)
    } else if names_fix(identifier) {
        let in_region = match region {
            Some(code) => region_point(fixes, icao, code),
            None => None,
        };
        match (in_region, fix_point(fixes, icao)) {
            (Some(point), _) => Some(point),
            (None, Some(point)) => Some(point),
            (None, None) => fallback_point(fixes),
        }
    } else if 1 <= identifier.len() <= 3 {
        nav_point(navs, icao)
    } else {
        None
    }
}

fn find_fix_point(fixes: &Vec<FixEntry>, icao: &str) -> (r: Option<Point>)
    ensures
        r == fix_point(text::views(fixes@), icao@),
{
    let ghost v = text::views(fixes@);
    let mut n: usize = fixes.len();
    assert(v.take(n as int) == v);
    while n > 0
        invariant
            n <= fixes@.len(),
            v == text::views(fixes@),
            fix_point(v, icao@) == fix_point(v.take(n as int), icao@),
        decreases n,
    {
        assert(v.take(n as int).last() == fixes@[n - 1]@);
        assert(v.take(n as int).drop_last() == v.take(n - 1));
        if text::same(fixes[n - 1].icao_code.as_str(), icao) {
            return Some(fixes[n - 1].point);
        }
        n = n - 1;
    }
    None
}

fn find_region_point(fixes: &Vec<FixEntry>, icao: &str, region: &str) -> (r: Option<Point>)
    ensures
        r == region_point(text::views(fixes@), icao@, region@),
{
    let ghost v = text::views(fixes@);
    let mut n: usize = fixes.len();
    assert(v.take(n as int) == v);
    while n > 0
        invariant
            n <= fixes@.len(),
            v == text::views(fixes@),
            region_point(v, icao@, region@) == region_point(v.take(n as int), icao@, region@),
        decreases n,
    {
        assert(v.take(n as int).last() == fixes@[n - 1]@);
        assert(v.take(n as int).drop_last() == v.take(n - 1));
        if text::same(fixes[n - 1].icao_code.as_str(), icao) && text::same(
            fixes[n - 1].region_code.as_str(),
            region,
        ) {
            return Some(fixes[n - 1].point);
        }
        n = n - 1;
    }
    None
}

fn find_nav_point(navs: &Vec<NavEntry>, icao: &str) -> (r: Option<Point>)
    ensures
        r == nav_point(text::views(navs@), icao@),
{
    let ghost v = text::views(navs@);
    assert(v.skip(0) == v);
    for i in 0..navs.len()
        invariant
            v == text::views(navs@),
            nav_point(v, icao@) == nav_point(v.skip(i as int), icao@),
    {
        assert(v.skip(i as int)[0] == navs@[i as int]@);
        assert(v.skip(i as int).skip(1) == v.skip(i + 1));
        if text::same(navs[i].icao_code.as_str(), icao) {
            return Some(navs[i].point);
        }
    }
    None
}

fn is_superseded(fixes: &Vec<FixEntry>, i: usize) -> (r: bool)
    requires
        i < fixes@.len(),
    ensures
        r == superseded(text::views(fixes@), i as int),
{
    let ghost v = text::views(fixes@);
    let count: usize = fixes.len();
    let mut j: usize = i + 1;
    while j < count
        invariant
            i < j <= count,
            count == fixes@.len(),
            v == text::views(fixes@),
            forall|k: int| i < k < j ==> #[trigger] v[k].icao_code != v[i as int].icao_code,
        decreases count - j,
    {
        if text::same(fixes[j].icao_code.as_str(), fixes[i].icao_code.as_str()) {
            assert(v[j as int].icao_code == v[i as int].icao_code);
            return true;
        }
        j = j + 1;
    }
    false
}

/// The position on which the current fixes agree.
fn find_agreed_point(fixes: &Vec<FixEntry>) -> (r: Option<Point>)
    ensures
        r == agreed_point(current_points(text::views(fixes@))),
{
    let ghost v = text::views(fixes@);
    let ghost f = current_chooser(v);
    let mut points: Vec<Point> = Vec::new();
    assert(v.take(0).len() == 0);
    for i in 0..fixes.len()
        invariant
            v == text::views(fixes@),
            f == current_chooser(v),
            points@ == text::collect(v.take(i as int), f),
    {
        proof {
            text::lemma_collect_step(v, f, i as int);
            assert(v[i as int] == fixes@[i as int]@);
        }
        if !is_superseded(fixes, i) {
            points.push(fixes[i].point);
        }
    }
    assert(v.take(fixes@.len() as int) == v);
    if points.len() == 0 {
        return None;
    }
    for k in 1..points.len()
        invariant
            points@.len() > 0,
            v == text::views(fixes@),
            points@ == current_points(v),
            forall|m: int| 0 < m < k ==> double::same_point(points@[0], #[trigger] points@[m]),
    {
        if !double::is_same_point(points[0], points[k]) {
            assert(!double::same_point(points@[0], points@[k as int]));
            return None;
        }
    }
    Some(points[0])
}

fn has_digit(s: &Vec<char>) -> (r: bool)
    ensures
        r == exists|i: int| 0 <= i < s@.len() && numeric::digit(#[trigger] s@[i]),
{
    for i in 0..s.len()
        invariant
            forall|k: int| 0 <= k < i ==> !numeric::digit(#[trigger] s@[k]),
    {
        if numeric::is_digit(s[i]) {
            return true;
        }
    }
    false
}

/// The position of a waypoint whatever the ICAO code.
fn find_waypoint_fallback(fixes: &Vec<FixEntry>) -> (r: Option<Point>)
    ensures
        r == fallback_point(text::views(fixes@)),
{
    match find_fix_point(fixes, "ZZ") {
        Some(point) => Some(point),
        None => find_agreed_point(fixes),
    }
}

/// The fixes and navigation aids that positions are looked up in.
pub struct CoordinateMatcher {
    fixes: KeyedLists<FixEntry>,
    navs: KeyedLists<NavEntry>,
}

/// Whether an entry can be found at all: its identifier and its ICAO code are not empty.
pub open spec fn named(identifier: Seq<char>, icao: Seq<char>) -> bool {
    identifier.len() > 0 && icao.len() > 0
}

/// The choice of the fixes with an identifier.
pub open spec fn fix_chooser(identifier: Seq<char>) -> spec_fn(FixEntry<Seq<char>>) -> bool {
    |fix: FixEntry<Seq<char>>|
        fix.identifier == identifier && named(fix.identifier, fix.icao_code)
}

/// The choice of the navigation aids with an identifier.
pub open spec fn nav_chooser(identifier: Seq<char>) -> spec_fn(NavEntry<Seq<char>>) -> bool {
    |nav: NavEntry<Seq<char>>|
        nav.identifier == identifier && named(nav.identifier, nav.icao_code)
}

impl CoordinateMatcher {
    /// The collections are well formed.
    pub closed spec fn wf(self) -> bool {
        self.fixes.wf() && self.navs.wf()
    }

    /// The fixes with an identifier, in order of arrival.
    pub closed spec fn fixes_at(self, identifier: Seq<char>) -> Seq<FixEntry<Seq<char>>> {
        text::views(self.fixes.at(identifier))
    }

    /// The navigation aids with an identifier, in order of arrival.
    pub closed spec fn navs_at(self, identifier: Seq<char>) -> Seq<NavEntry<Seq<char>>> {
        text::views(self.navs.at(identifier))
    }

    /// A matcher without entries.
    pub fn new() -> (r: Self)
        ensures
            r.wf(),
            forall|id: Seq<char>| #[trigger]
                r.fixes_at(id) == Seq::<FixEntry<Seq<char>>>::empty(),
            forall|id: Seq<char>| #[trigger] r.navs_at(id) == Seq::<NavEntry<Seq<char>>>::empty(),
    {
        let r = CoordinateMatcher { fixes: KeyedLists::new(), navs: KeyedLists::new() };
        assert forall|id: Seq<char>| #[trigger]
            r.fixes_at(id) == Seq::<FixEntry<Seq<char>>>::empty() by {
            assert(r.fixes.at(id).len() == 0);
            assert(r.fixes_at(id) =~= Seq::<FixEntry<Seq<char>>>::empty());
        }
        assert forall|id: Seq<char>| #[trigger]
            r.navs_at(id) == Seq::<NavEntry<Seq<char>>>::empty() by {
            assert(r.navs.at(id).len() == 0);
            assert(r.navs_at(id) =~= Seq::<NavEntry<Seq<char>>>::empty());
        }
        r
    }

    /// Adds a fix; one without identifier or ICAO code is dropped.
    pub fn push_fix_entry(&mut self, entry: FixEntry)
        requires
            old(self).wf(),
        ensures
            final(self).wf(),
            forall|id: Seq<char>| #[trigger]
                final(self).fixes_at(id) == (if fix_chooser(id)(entry@) {
                    old(self).fixes_at(id).push(entry@)
                } else {
                    old(self).fixes_at(id)
                }),
            forall|id: Seq<char>| #[trigger] final(self).navs_at(id) == old(self).navs_at(id),
    {
        if text::is_empty(entry.identifier.as_str()) || text::is_empty(entry.icao_code.as_str()) {
            return;
        }
        let key: String = entry.identifier.clone();
        proof {
            text::lemma_views_push(self.fixes.at(key@), entry);
        }
        self.fixes.push(key.as_str(), entry);
    }

    /// Adds a navigation aid; one without identifier or ICAO code is dropped.
    pub fn push_nav_entry(&mut self, entry: NavEntry)
        requires
            old(self).wf(),
        ensures
            final(self).wf(),
            forall|id: Seq<char>| #[trigger]
                final(self).navs_at(id) == (if nav_chooser(id)(entry@) {
                    old(self).navs_at(id).push(entry@)
                } else {
                    old(self).navs_at(id)
                }),
            forall|id: Seq<char>| #[trigger] final(self).fixes_at(id) == old(self).fixes_at(id),
    {
        if text::is_empty(entry.identifier.as_str()) || text::is_empty(entry.icao_code.as_str()) {
            return;
        }
        let key: String = entry.identifier.clone();
        proof {
            text::lemma_views_push(self.navs.at(key@), entry);
        }
        self.navs.push(key.as_str(), entry);
    }

    /// The matcher of the given fixes and navigation aids, in their order.
    pub fn from_entries(fixes: Vec<FixEntry>, navs: Vec<NavEntry>) -> (r: Self)
        ensures
            r.wf(),
            forall|id: Seq<char>| #[trigger]
                r.fixes_at(id) == text::views(fixes@).filter(fix_chooser(id)),
            forall|id: Seq<char>| #[trigger]
                r.navs_at(id) == text::views(navs@).filter(nav_chooser(id)),
    {
        let mut r: CoordinateMatcher = CoordinateMatcher::new();
        let ghost all_fixes = text::views(fixes@);
        let ghost all_navs = text::views(navs@);
        proof {
            reveal(Seq::filter);
            assert(all_fixes.take(0) =~= Seq::empty());
            assert(all_navs.take(0) =~= Seq::empty());
        }
        let ghost source = fixes@;
        for entry in it: fixes
            invariant
                r.wf(),
                it.seq() == source,
                all_fixes == text::views(source),
                forall|id: Seq<char>| #[trigger]
                    r.fixes_at(id) == all_fixes.take(it.index() as int).filter(fix_chooser(id)),
                forall|id: Seq<char>| #[trigger]
                    r.navs_at(id) == Seq::<NavEntry<Seq<char>>>::empty(),
        {
            let ghost i = it.index() as int;
            proof {
                assert(all_fixes.take(i + 1) =~= all_fixes.take(i).push(entry@));
                assert forall|id: Seq<char>| true implies #[trigger] all_fixes.take(i + 1).filter(
                    fix_chooser(id),
                ) == (if fix_chooser(id)(entry@) {
                    r.fixes_at(id).push(entry@)
                } else {
                    r.fixes_at(id)
                }) by {
                    text::lemma_filter_push(all_fixes.take(i), entry@, fix_chooser(id));
                }
            }
            r.push_fix_entry(entry);
        }
        assert(all_fixes.take(source.len() as int) == all_fixes);
        let ghost source = navs@;
        for entry in it: navs
            invariant
                r.wf(),
                it.seq() == source,
                all_navs == text::views(source),
                forall|id: Seq<char>| #[trigger]
                    r.fixes_at(id) == all_fixes.filter(fix_chooser(id)),
                forall|id: Seq<char>| #[trigger]
                    r.navs_at(id) == all_navs.take(it.index() as int).filter(nav_chooser(id)),
        {
            let ghost i = it.index() as int;
            proof {
                assert(all_navs.take(i + 1) =~= all_navs.take(i).push(entry@));
                assert forall|id: Seq<char>| true implies #[trigger] all_navs.take(i + 1).filter(
                    nav_chooser(id),
                ) == (if nav_chooser(id)(entry@) {
                    r.navs_at(id).push(entry@)
                } else {
                    r.navs_at(id)
                }) by {
                    text::lemma_filter_push(all_navs.take(i), entry@, nav_chooser(id));
                }
            }
            r.push_nav_entry(entry);
        }
        assert(all_navs.take(source.len() as int) == all_navs);
        r
    }

    /// The position of a fix; without an identifier or an ICAO code there is none.
    pub open spec fn found(
        self,
        search_type: CoordinateSearchType,
        identifier: Option<Seq<char>>,
        icao_code: Option<Seq<char>>,
        region_code: Option<Seq<char>>,
    ) -> Option<Point> {
        match (identifier, icao_code) {
            (Some(id), Some(icao)) => found_point(
                search_type,
                id,
                icao,
                region_code,
                self.fixes_at(id),
                self.navs_at(id),
            ),
            _ => None,
        }
    }

    /// The position that a request asks for.
    pub fn find_coordinates_native(&self, request: &CoordinateLookupRequest<'_>) -> (r: Option<
        Point,
    >)
        requires
            self.wf(),
        ensures
            r == self.found(
                request.search_type,
                text::opt(request.identifier),
                text::opt(request.icao_code),
                text::opt(request.region_code),
            ),
    {
        let (identifier, icao) = match (request.identifier, request.icao_code) {
            (Some(identifier), Some(icao)) => (identifier, icao),
            _ => return None,
        };
        match request.search_type {
            CoordinateSearchType::RecommendedNavaid => {
                return self.find_nav(identifier, icao);
            },
            CoordinateSearchType::Waypoint | CoordinateSearchType::Center => {},
        }
        let cs: Vec<char> = text::chars_of(identifier);
        if has_digit(&cs) || cs.len() == 4 || cs.len() == 5 {
            let fixes: &Vec<FixEntry> = match self.fixes.get(identifier) {
                Some(fixes) => fixes,
                None => {
                    assert(self.fixes_at(identifier@).len() == 0);
                    assert(text::collect(
                        self.fixes_at(identifier@),
                        current_chooser(self.fixes_at(identifier@)),
                    ).len() == 0);
                    return None;
                },
            };
            match request.region_code {
                Some(region) => {
                    match find_region_point(fixes, icao, region) {
                        Some(point) => return Some(point),
                        None => {},
                    }
                },
                None => {},
            }
            match find_fix_point(fixes, icao) {
                Some(point) => return Some(point),
                None => {},
            }
            return find_waypoint_fallback(fixes);
        }
        if 1 <= cs.len() && cs.len() <= 3 {
            return self.find_nav(identifier, icao);
        }
        None
    }

    fn find_nav(&self, identifier: &str, icao: &str) -> (r: Option<Point>)
        requires
            self.wf(),
        ensures
            r == nav_point(self.navs_at(identifier@), icao@),
    {
        match self.navs.get(identifier) {
            Some(navs) => find_nav_point(navs, icao),
            None => {
                assert(self.navs_at(identifier@).len() == 0);
                None
            },
        }
    }
}

/// The fixes that were read, with their positions.
pub open spec fn placed_fixes(texts: Seq<FixText<Seq<char>>>, points: Seq<Point>) -> Seq<
    FixEntry<Seq<char>>,
> {
    Seq::new(
        texts.len(),
        |i: int|
            FixEntry {
                identifier: texts[i].identifier,
                icao_code: texts[i].icao_code,
                region_code: texts[i].region_code,
                point: points[i],
            },
    )
}

/// The navigation aids that were read, with their positions.
pub open spec fn placed_navs(texts: Seq<NavText<Seq<char>>>, points: Seq<Point>) -> Seq<
    NavEntry<Seq<char>>,
> {
    Seq::new(
        texts.len(),
        |i: int|
            NavEntry {
                identifier: texts[i].identifier,
                icao_code: texts[i].icao_code,
                point: points[i],
            },
    )
}

/// The matcher of the records of a file of fixes and one of navigation aids, given the positions
/// that their coordinates denote.
pub fn create_coordinate_matcher_from_files(
    fixes: &Vec<FixText>,
    fix_points: &Vec<Point>,
    navs: &Vec<NavText>,
    nav_points: &Vec<Point>,
) -> (r: CoordinateMatcher)
    requires
        fix_points@.len() == fixes@.len(),
        nav_points@.len() == navs@.len(),
    ensures
        r.wf(),
        forall|id: Seq<char>| #[trigger]
            r.fixes_at(id) == placed_fixes(text::views(fixes@), fix_points@).filter(
                fix_chooser(id),
            ),
        forall|id: Seq<char>| #[trigger]
            r.navs_at(id) == placed_navs(text::views(navs@), nav_points@).filter(nav_chooser(id)),
{
    let ghost all_fixes = placed_fixes(text::views(fixes@), fix_points@);
    let ghost all_navs = placed_navs(text::views(navs@), nav_points@);
    let mut fix_entries: Vec<FixEntry> = Vec::new();
    assert(text::views(fix_entries@) =~= all_fixes.take(0));
    for i in 0..fixes.len()
        invariant
            fix_points@.len() == fixes@.len(),
            all_fixes == placed_fixes(text::views(fixes@), fix_points@),
            text::views(fix_entries@) == all_fixes.take(i as int),
    {
        let entry = FixEntry {
            identifier: fixes[i].identifier.clone(),
            icao_code: fixes[i].icao_code.clone(),
            region_code: fixes[i].region_code.clone(),
            point: fix_points[i],
        };
        proof {
            text::lemma_views_push(fix_entries@, entry);
            assert(all_fixes.take(i + 1) =~= all_fixes.take(i as int).push(entry@));
        }
        fix_entries.push(entry);
    }
    assert(all_fixes.take(fixes@.len() as int) == all_fixes);
    let mut nav_entries: Vec<NavEntry> = Vec::new();
    assert(text::views(nav_entries@) =~= all_navs.take(0));
    for i in 0..navs.len()
        invariant
            nav_points@.len() == navs@.len(),
            all_navs == placed_navs(text::views(navs@), nav_points@),
            text::views(nav_entries@) == all_navs.take(i as int),
    {
        let entry = NavEntry {
            identifier: navs[i].identifier.clone(),
            icao_code: navs[i].icao_code.clone(),
            point: nav_points[i],
        };
        proof {
            text::lemma_views_push(nav_entries@, entry);
            assert(all_navs.take(i + 1) =~= all_navs.take(i as int).push(entry@));
        }
        nav_entries.push(entry);
    }
    assert(all_navs.take(navs@.len() as int) == all_navs);
    CoordinateMatcher::from_entries(fix_entries, nav_entries)
}

/// The ICAO code in the last pair with the identifier and a code.
pub open spec fn last_icao(items: Seq<(Seq<char>, Seq<char>)>, identifier: Seq<char>) -> Option<
    Seq<char>,
>
    decreases items.len(),
{
    if items.len() == 0 {
        None
    } else if items.last().0 == identifier && named(items.last().0, items.last().1) {
        Some(items.last().1)
    } else {
        last_icao(items.drop_last(), identifier)
    }
}

/// The ICAO code in the last triple with the identifier, the type and a code.
pub open spec fn last_nav_icao(
    items: Seq<(Seq<char>, Seq<char>, Seq<char>)>,
    nav_type: Seq<char>,
    identifier: Seq<char>,
) -> Option<Seq<char>>
    decreases items.len(),
{
    if items.len() == 0 {
        None
    } else if items.last().0 == identifier && items.last().1 == nav_type && named(
        items.last().0,
        items.last().2,
    ) {
        Some(items.last().2)
    } else {
        last_nav_icao(items.drop_last(), nav_type, identifier)
    }
}

/// The type of a VOR with distance measuring equipment in navigation records.
pub open spec fn nav_type_vor_dme() -> Seq<char> {
    "VOR/DME"@
}

/// The type of a beacon, in navigation records and in route points alike.
pub open spec fn code_type_ndb() -> Seq<char> {
    "NDB"@
}

/// What a map of texts holds under a key.
pub open spec fn text_at(map: Map<Seq<char>, String>, key: Seq<char>) -> Option<Seq<char>> {
    if map.contains_key(key) {
        Some(map[key]@)
    } else {
        None
    }
}

/// The ICAO codes of fixes, VORs and beacons by identifier.
pub struct IcaoCodeResolver {
    fix_map: StringHashMap<String>,
    vor_dme_map: StringHashMap<String>,
    ndb_map: StringHashMap<String>,
}

impl IcaoCodeResolver {
    /// The ICAO code of a fix.
    pub closed spec fn fix_icao(self, identifier: Seq<char>) -> Option<Seq<char>> {
        text_at(self.fix_map@, identifier)
    }

    /// The ICAO code of a VOR with distance measuring equipment.
    pub closed spec fn vor_dme_icao(self, identifier: Seq<char>) -> Option<Seq<char>> {
        text_at(self.vor_dme_map@, identifier)
    }

    /// The ICAO code of a beacon.
    pub closed spec fn ndb_icao(self, identifier: Seq<char>) -> Option<Seq<char>> {
        text_at(self.ndb_map@, identifier)
    }

    /// Collects the codes; of two with one identifier the later one counts.
    pub fn from_items(
        fix_items: Vec<(String, String)>,
        nav_items: Vec<(String, String, String)>,
    ) -> (r: Self)
        ensures
            forall|id: Seq<char>| #[trigger]
                r.fix_icao(id) == last_icao(text::views(fix_items@), id),
            forall|id: Seq<char>| #[trigger]
                r.vor_dme_icao(id) == last_nav_icao(
                    text::views(nav_items@),
                    nav_type_vor_dme(),
                    id,
                ),
            forall|id: Seq<char>| #[trigger]
                r.ndb_icao(id) == last_nav_icao(text::views(nav_items@), code_type_ndb(), id),
    {
        let ghost fixes = text::views(fix_items@);
        let ghost navs = text::views(nav_items@);
        assert(fixes.take(0).len() == 0);
        assert(navs.take(0).len() == 0);
        assert("VOR/DME"@ != "NDB"@ && "VOR/DME"@.len() > 0 && "NDB"@.len() > 0) by {
            reveal_strlit("VOR/DME");
            reveal_strlit("NDB");
        }
        let mut fix_map: StringHashMap<String> = StringHashMap::new();
        for i in 0..fix_items.len()
            invariant
                fixes == text::views(fix_items@),
                forall|id: Seq<char>| #[trigger]
                    text_at(fix_map@, id) == last_icao(fixes.take(i as int), id),
        {
            let ghost item = fixes[i as int];
            assert(item == fix_items@[i as int]@);
            assert(fixes.take(i + 1).drop_last() == fixes.take(i as int));
            let ghost before = fix_map@;
            if !text::is_empty(fix_items[i].0.as_str()) && !text::is_empty(
                fix_items[i].1.as_str(),
            ) {
                fix_map.insert(fix_items[i].0.clone(), fix_items[i].1.clone());
            }
            assert forall|id: Seq<char>| #[trigger]
                text_at(fix_map@, id) == last_icao(fixes.take(i + 1), id) by {
                assert(text_at(before, id) == last_icao(fixes.take(i as int), id));
            }
        }
        assert(fixes.take(fix_items@.len() as int) == fixes);
        let mut vor_dme_map: StringHashMap<String> = StringHashMap::new();
        let mut ndb_map: StringHashMap<String> = StringHashMap::new();
        for i in 0..nav_items.len()
            invariant
                navs == text::views(nav_items@),
                "VOR/DME"@ != "NDB"@,
                "VOR/DME"@.len() > 0,
                "NDB"@.len() > 0,
                forall|id: Seq<char>| #[trigger]
                    text_at(vor_dme_map@, id) == last_nav_icao(
                        navs.take(i as int),
                        nav_type_vor_dme(),
                        id,
                    ),
                forall|id: Seq<char>| #[trigger]
                    text_at(ndb_map@, id) == last_nav_icao(
                        navs.take(i as int),
                        code_type_ndb(),
                        id,
                    ),
        {
            let ghost item = navs[i as int];
            assert(item == nav_items@[i as int]@);
            assert(navs.take(i + 1).drop_last() == navs.take(i as int));
            let ghost vors_before = vor_dme_map@;
            let ghost ndbs_before = ndb_map@;
            if !text::is_empty(nav_items[i].0.as_str()) && !text::is_empty(
                nav_items[i].1.as_str(),
            ) && !text::is_empty(nav_items[i].2.as_str()) {
                if text::same(nav_items[i].1.as_str(), "VOR/DME") {
                    vor_dme_map.insert(nav_items[i].0.clone(), nav_items[i].2.clone());
                } else if text::same(nav_items[i].1.as_str(), "NDB") {
                    ndb_map.insert(nav_items[i].0.clone(), nav_items[i].2.clone());
                }
            }
            assert forall|id: Seq<char>| #[trigger]
                text_at(vor_dme_map@, id) == last_nav_icao(
                    navs.take(i + 1),
                    nav_type_vor_dme(),
                    id,
                ) by {
                assert(text_at(vors_before, id) == last_nav_icao(
                    navs.take(i as int),
                    nav_type_vor_dme(),
                    id,
                ));
            }
            assert forall|id: Seq<char>| #[trigger]
                text_at(ndb_map@, id) == last_nav_icao(
                    navs.take(i + 1),
                    code_type_ndb(),
                    id,
                ) by {
                assert(text_at(ndbs_before, id) == last_nav_icao(
                    navs.take(i as int),
                    code_type_ndb(),
                    id,
                ));
            }
        }
        assert(navs.take(nav_items@.len() as int) == navs);
        IcaoCodeResolver { fix_map, vor_dme_map, ndb_map }
    }

    /// The ICAO code of a route point of the given type.
    pub fn resolve_ref(
        &self,
        waypoint_identifier: Option<&str>,
        code_type: Option<&str>,
    ) -> (r: Option<String>)
        ensures
            text::opt(r) == (match (waypoint_identifier, code_type) {
                (Some(identifier), Some(code)) => {
                    if code@ == "DESIGNATED_POINT"@ || code@ == "\u{5730}\u{540d}\u{70b9}"@ {
                        self.fix_icao(identifier@)
                    } else if code@ == "VORDME"@ {
                        self.vor_dme_icao(identifier@)
                    } else if code@ == code_type_ndb() {
                        self.ndb_icao(identifier@)
                    } else {
                        None
                    }
                },
                _ => None,
            }),
    {
        let (identifier, code) = match (waypoint_identifier, code_type) {
            (Some(identifier), Some(code)) => (identifier, code),
            _ => return None,
        };
        if text::same(code, "DESIGNATED_POINT") || text::same(code, "\u{5730}\u{540d}\u{70b9}") {
            copied(self.fix_map.get(identifier))
        } else if text::same(code, "VORDME") {
            copied(self.vor_dme_map.get(identifier))
        } else if text::same(code, "NDB") {
            copied(self.ndb_map.get(identifier))
        } else {
            None
        }
    }
}

fn copied(found: Option<&String>) -> (r: Option<String>)
    ensures
        text::opt(r) == text::opt(found),
{
    match found {
        Some(value) => Some(value.clone()),
        None => None,
    }
}

/// The first entry with an ICAO code gives the position of a navigation aid; there is none only
/// where no entry has that code.
pub proof fn the_first_aid_with_its_code_is_found(
    navs: Seq<NavEntry<Seq<char>>>,
    icao: Seq<char>,
)
    ensures
        match nav_point(navs, icao) {
            Some(point) => exists|i: int|
                {
                    &&& 0 <= i < navs.len()
                    &&& (#[trigger] navs[i]).icao_code == icao
                    &&& navs[i].point == point
                    &&& forall|j: int| 0 <= j < i ==> (#[trigger] navs[j]).icao_code != icao
                },
            None => forall|i: int| 0 <= i < navs.len() ==> (#[trigger] navs[i]).icao_code != icao,
        },
    decreases navs.len(),
{
    if navs.len() > 0 {
        if navs[0].icao_code != icao {
            let rest = navs.skip(1);
            the_first_aid_with_its_code_is_found(rest, icao);
            match nav_point(rest, icao) {
                Some(point) => {
                    let i = choose|i: int|
                        {
                            &&& 0 <= i < rest.len()
                            &&& (#[trigger] rest[i]).icao_code == icao
                            &&& rest[i].point == point
                            &&& forall|j: int|
                                0 <= j < i ==> (#[trigger] rest[j]).icao_code != icao
                        };
                    assert(navs[i + 1] == rest[i]);
                    assert forall|j: int| 0 <= j < i + 1 implies (#[trigger] navs[j]).icao_code
                        != icao by {
                        if j > 0 {
                            assert(rest[j - 1] == navs[j]);
                        }
                    }
                },
                None => {
                    assert forall|i: int| 0 <= i < navs.len() implies (#[trigger] navs[i]).icao_code
                        != icao by {
                        if i > 0 {
                            assert(rest[i - 1] == navs[i]);
                        }
                    }
                },
            }
        } else {
            assert(navs[0].icao_code == icao);
        }
    }
}

/// A recommended navigation aid is found wherever the aids hold one with its identifier and ICAO
/// code, at the position of such an entry, and nowhere else.
pub proof fn a_recommended_aid_is_found_wherever_it_is_held(
    matcher: CoordinateMatcher,
    identifier: Seq<char>,
    icao: Seq<char>,
    region: Option<Seq<char>>,
)
    ensures
        match matcher.found(
            CoordinateSearchType::RecommendedNavaid,
            Some(identifier),
            Some(icao),
            region,
        ) {
            Some(point) => exists|i: int|
                {
                    &&& 0 <= i < matcher.navs_at(identifier).len()
                    &&& (#[trigger] matcher.navs_at(identifier)[i]).icao_code == icao
                    &&& matcher.navs_at(identifier)[i].point == point
                    &&& forall|j: int|
                        0 <= j < i ==> (#[trigger] matcher.navs_at(identifier)[j]).icao_code
                            != icao
                },
            None => forall|i: int|
                0 <= i < matcher.navs_at(identifier).len() ==> (
                #[trigger] matcher.navs_at(identifier)[i]).icao_code != icao,
        },
{
    the_first_aid_with_its_code_is_found(matcher.navs_at(identifier), icao);
}

/// From the file to the request: an aid that was read with an identifier and an ICAO code is found
/// under them as a recommended aid.
pub proof fn every_aid_that_was_read_is_found(
    matcher: CoordinateMatcher,
    texts: Seq<NavText<Seq<char>>>,
    points: Seq<Point>,
    k: int,
)
    requires
        0 <= k < texts.len(),
        points.len() == texts.len(),
        texts[k].identifier.len() > 0,
        texts[k].icao_code.len() > 0,
        matcher.navs_at(texts[k].identifier) == placed_navs(texts, points).filter(
            nav_chooser(texts[k].identifier),
        ),
    ensures
        ({
            let found = matcher.found(
                CoordinateSearchType::RecommendedNavaid,
                Some(texts[k].identifier),
                Some(texts[k].icao_code),
                None,
            );
            &&& found is Some
            &&& exists|i: int|
                {
                    &&& 0 <= i < texts.len()
                    &&& (#[trigger] texts[i]).identifier == texts[k].identifier
                    &&& texts[i].icao_code == texts[k].icao_code
                    &&& found == Some(points[i])
                }
        }),
{
    broadcast use vstd::seq_lib::group_filter_ensures;

    let id = texts[k].identifier;
    let icao = texts[k].icao_code;
    let placed = placed_navs(texts, points);
    let keep = nav_chooser(id);
    let navs = matcher.navs_at(id);
    assert(keep(placed[k]));
    assert(navs.contains(placed[k]));
    the_first_aid_with_its_code_is_found(navs, icao);
    let n = choose|n: int| 0 <= n < navs.len() && navs[n] == placed[k];
    assert(navs[n].icao_code == icao);
    assert(nav_point(navs, icao) is Some);
    let point = nav_point(navs, icao)->0;
    let m = choose|m: int|
        {
            &&& 0 <= m < navs.len()
            &&& (#[trigger] navs[m]).icao_code == icao
            &&& navs[m].point == point
            &&& forall|j: int| 0 <= j < m ==> (#[trigger] navs[j]).icao_code != icao
        };
    lemma_filtered_comes_from(placed, keep, m);
    let i = choose|i: int| 0 <= i < placed.len() && placed[i] == placed.filter(keep)[m];
    assert(keep(placed.filter(keep)[m]));
    assert(texts[i].identifier == id);
    assert(texts[i].icao_code == icao);
}

proof fn lemma_filtered_comes_from<A>(s: Seq<A>, keep: spec_fn(A) -> bool, m: int)
    requires
        0 <= m < s.filter(keep).len(),
    ensures
        exists|i: int| 0 <= i < s.len() && s[i] == s.filter(keep)[m],
    decreases s.len(),
{
    reveal(Seq::filter);
    if s.len() > 0 {
        let init = s.drop_last();
        if m < init.filter(keep).len() {
            lemma_filtered_comes_from(init, keep, m);
            let i = choose|i: int| 0 <= i < init.len() && init[i] == init.filter(keep)[m];
            assert(s[i] == s.filter(keep)[m]);
        } else {
            assert(s[s.len() - 1] == s.filter(keep)[m]);
        }
    }
}

/// The last fix with an ICAO code gives its position; there is none only where no fix has it.
pub proof fn the_last_fix_with_its_code_is_found(
    fixes: Seq<FixEntry<Seq<char>>>,
    icao: Seq<char>,
)
    ensures
        match fix_point(fixes, icao) {
            Some(point) => exists|i: int|
                {
                    &&& 0 <= i < fixes.len()
                    &&& (#[trigger] fixes[i]).icao_code == icao
                    &&& fixes[i].point == point
                    &&& forall|j: int|
                        i < j < fixes.len() ==> (#[trigger] fixes[j]).icao_code != icao
                },
            None => forall|i: int| 0 <= i < fixes.len() ==> (#[trigger] fixes[i]).icao_code != icao,
        },
    decreases fixes.len(),
{
    if fixes.len() > 0 {
        let init = fixes.drop_last();
        let last = fixes.len() - 1;
        assert(fixes[last] == fixes.last());
        if fixes.last().icao_code != icao {
            the_last_fix_with_its_code_is_found(init, icao);
            match fix_point(init, icao) {
                Some(point) => {
                    let i = choose|i: int|
                        {
                            &&& 0 <= i < init.len()
                            &&& (#[trigger] init[i]).icao_code == icao
                            &&& init[i].point == point
                            &&& forall|j: int|
                                i < j < init.len() ==> (#[trigger] init[j]).icao_code != icao
                        };
                    assert(fixes[i] == init[i]);
                    assert forall|j: int| i < j < fixes.len() implies (
                    #[trigger] fixes[j]).icao_code != icao by {
                        if j < last {
                            assert(init[j] == fixes[j]);
                        }
                    }
                },
                None => {
                    assert forall|i: int| 0 <= i < fixes.len() implies (
                    #[trigger] fixes[i]).icao_code != icao by {
                        if i < last {
                            assert(init[i] == fixes[i]);
                        }
                    }
                },
            }
        } else {
            assert(fixes[last].icao_code == icao);
        }
    }
}

/// The last fix with an ICAO code in a region gives its position; there is none only where no fix
/// has both.
pub proof fn the_last_fix_of_a_region_is_found(
    fixes: Seq<FixEntry<Seq<char>>>,
    icao: Seq<char>,
    region: Seq<char>,
)
    ensures
        match region_point(fixes, icao, region) {
            Some(point) => exists|i: int|
                {
                    &&& 0 <= i < fixes.len()
                    &&& (#[trigger] fixes[i]).icao_code == icao
                    &&& fixes[i].region_code == region
                    &&& fixes[i].point == point
                    &&& forall|j: int|
                        i < j < fixes.len() ==> (#[trigger] fixes[j]).icao_code != icao
                            || fixes[j].region_code != region
                },
            None => forall|i: int|
                0 <= i < fixes.len() ==> (#[trigger] fixes[i]).icao_code != icao
                    || fixes[i].region_code != region,
        },
    decreases fixes.len(),
{
    if fixes.len() > 0 {
        let init = fixes.drop_last();
        let last = fixes.len() - 1;
        assert(fixes[last] == fixes.last());
        if fixes.last().icao_code != icao || fixes.last().region_code != region {
            the_last_fix_of_a_region_is_found(init, icao, region);
            match region_point(init, icao, region) {
                Some(point) => {
                    let i = choose|i: int|
                        {
                            &&& 0 <= i < init.len()
                            &&& (#[trigger] init[i]).icao_code == icao
                            &&& init[i].region_code == region
                            &&& init[i].point == point
                            &&& forall|j: int|
                                i < j < init.len() ==> (#[trigger] init[j]).icao_code != icao
                                    || init[j].region_code != region
                        };
                    assert(fixes[i] == init[i]);
                    assert forall|j: int| i < j < fixes.len() implies (
                    #[trigger] fixes[j]).icao_code != icao || fixes[j].region_code != region by {
                        if j < last {
                            assert(init[j] == fixes[j]);
                        }
                    }
                },
                None => {
                    assert forall|i: int| 0 <= i < fixes.len() implies (
                    #[trigger] fixes[i]).icao_code != icao || fixes[i].region_code != region by {
                        if i < last {
                            assert(init[i] == fixes[i]);
                        }
                    }
                },
            }
        } else {
            assert(fixes[last].icao_code == icao);
        }
    }
}

/// Where a waypoint or a center fix is found: by region and ICAO code, else by ICAO code, else under
/// the code of the whole world, else where all fixes with its identifier agree. A name of four or
/// five characters, or with a digit, is that of a fix; another of up to three characters is that of
/// a navigation aid.
pub proof fn a_waypoint_is_found_in_its_region_then_by_its_code(
    matcher: CoordinateMatcher,
    search_type: CoordinateSearchType,
    identifier: Seq<char>,
    icao: Seq<char>,
    region: Option<Seq<char>>,
)
    requires
        search_type != CoordinateSearchType::RecommendedNavaid,
    ensures
        ({
            let found = matcher.found(search_type, Some(identifier), Some(icao), region);
            let fixes = matcher.fixes_at(identifier);
            let digits = exists|i: int|
                0 <= i < identifier.len() && '0' <= #[trigger] identifier[i] <= '9';
            let fix = digits || identifier.len() == 4 || identifier.len() == 5;
            let here = match region {
                Some(code) => region_point(fixes, icao, code),
                None => None,
            };
            &&& fix && here is Some ==> found == here
            &&& fix && here is None && fix_point(fixes, icao) is Some ==> found == fix_point(
                fixes,
                icao,
            )
            &&& fix && here is None && fix_point(fixes, icao) is None && fix_point(fixes, "ZZ"@)
                is Some ==> found == fix_point(fixes, "ZZ"@)
            &&& !fix && 1 <= identifier.len() <= 3 ==> found == nav_point(
                matcher.navs_at(identifier),
                icao,
            )
            &&& !fix && (identifier.len() == 0 || identifier.len() > 5) ==> found is None
        }),
        matcher.found(search_type, None, Some(icao), region) is None,
        matcher.found(search_type, Some(identifier), None, region) is None,
{
    if exists|i: int| 0 <= i < identifier.len() && '0' <= #[trigger] identifier[i] <= '9' {
        let i = choose|i: int| 0 <= i < identifier.len() && '0' <= #[trigger] identifier[i] <= '9';
        assert(numeric::digit(identifier[i]));
    }
    if exists|i: int| 0 <= i < identifier.len() && numeric::digit(#[trigger] identifier[i]) {
        let i = choose|i: int| 0 <= i < identifier.len() && numeric::digit(#[trigger] identifier[i]);
        assert('0' <= identifier[i] <= '9');
    }
}

/// Where neither region nor code nor the whole world's code leads to a fix, its position is that on
/// which all fixes with its identifier agree, each as its last line has it; where they disagree,
/// there is none.
pub proof fn fixes_that_agree_give_the_position(fixes: Seq<FixEntry<Seq<char>>>, p: Point)
    requires
        forall|i: int| 0 <= i < fixes.len() ==> (#[trigger] fixes[i]).icao_code != "ZZ"@,
        fixes.len() > 0,
    ensures
        (forall|i: int| 0 <= i < fixes.len() ==> (#[trigger] fixes[i]).point == p)
            && double::same_point(p, p) ==> fallback_point(fixes) == Some(p),
        forall|i: int|
            0 <= i < fixes.len() && !superseded(fixes, i) && fallback_point(fixes) is Some ==> (
            double::same_point(fallback_point(fixes)->0, #[trigger] fixes[i].point)
                || fixes[i].point == fallback_point(fixes)->0),
{
    the_last_fix_with_its_code_is_found(fixes, "ZZ"@);
    let f = current_chooser(fixes);
    let points = current_points(fixes);
    let last = fixes.len() - 1;
    assert(!superseded(fixes, last));
    text::lemma_collect_contains(fixes, f, fixes[last].point);
    assert(f(last, fixes[last]) == Some(fixes[last].point));
    assert(points.contains(fixes[last].point));
    if forall|i: int| 0 <= i < fixes.len() ==> (#[trigger] fixes[i]).point == p {
        assert forall|k: int| 0 <= k < points.len() implies points[k] == p by {
            text::lemma_collect_contains(fixes, f, points[k]);
            assert(points.contains(points[k]));
            let i = choose|i: int|
                0 <= i < fixes.len() && f(i, #[trigger] fixes[i]) == Some(points[k]);
            assert(fixes[i].point == p);
        }
    }
    assert forall|i: int|
        0 <= i < fixes.len() && !superseded(fixes, i) && fallback_point(fixes) is Some implies (
    double::same_point(fallback_point(fixes)->0, #[trigger] fixes[i].point) || fixes[i].point
        == fallback_point(fixes)->0) by {
        text::lemma_collect_contains(fixes, f, fixes[i].point);
        assert(f(i, fixes[i]) == Some(fixes[i].point));
        let k = choose|k: int| 0 <= k < points.len() && points[k] == fixes[i].point;
        if k > 0 {
            assert(double::same_point(points[0], points[k]));
        }
    }
}

/// A line of the fix file gives its first two words as latitude and longitude, the third as
/// identifier, the fourth as region and the fifth as ICAO code, where the fix is asked for.
pub proof fn fixes_are_read_by_their_words(
    line: Seq<char>,
    required: Option<Seq<Seq<char>>>,
    fix: FixText<Seq<char>>,
)
    ensures
        fix_text(line, required) == Some(fix) <==> {
            let w = text::words(Blank::Ascii, line);
            &&& w.len() >= 5
            &&& fix.latitude == w[0]
            &&& fix.longitude == w[1]
            &&& fix.identifier == w[2]
            &&& fix.region_code == w[3]
            &&& fix.icao_code == w[4]
            &&& numeric::float_literal(w[0])
            &&& numeric::float_literal(w[1])
            &&& required is Some ==> required->0.contains(w[2])
        },
{
}

/// A line of the navigation aid file gives its second and third word as latitude and longitude of
/// the aid, under the three pairs of words that may be its identifier and ICAO code, where these
/// are asked for.
pub proof fn aids_are_read_by_their_words(
    line: Seq<char>,
    required: Option<Seq<Seq<char>>>,
    aid: NavText<Seq<char>>,
)
    ensures
        nav_texts(line, required).contains(aid) <==> {
            let w = text::words(Blank::Ascii, line);
            &&& w.len() >= 11
            &&& aid.latitude == w[1]
            &&& aid.longitude == w[2]
            &&& numeric::float_literal(w[1])
            &&& numeric::float_literal(w[2])
            &&& required is Some ==> required->0.contains(aid.identifier)
            &&& {
                ||| aid.identifier == w[8] && aid.icao_code == w[10]
                ||| aid.identifier == w[7] && aid.icao_code == w[9]
                ||| aid.identifier == w[6] && aid.icao_code == w[8]
            }
        },
{
    let w = text::words(Blank::Ascii, line);
    if w.len() >= 11 && numeric::float_literal(w[1]) && numeric::float_literal(w[2]) {
        let a = nav_key(w, 8, 10, required);
        let b = nav_key(w, 7, 9, required);
        let c = nav_key(w, 6, 8, required);
        let all = a + b + c;
        assert(nav_texts(line, required) == all);
        if all.contains(aid) {
            let k = choose|k: int| 0 <= k < all.len() && all[k] == aid;
            if k < a.len() {
                assert(a[k] == aid);
            } else if k < a.len() + b.len() {
                assert(b[k - a.len()] == aid);
            } else {
                assert(c[k - a.len() - b.len()] == aid);
            }
        }
        if a.len() > 0 {
            assert(all[0] == a[0]);
        }
        if b.len() > 0 {
            assert(all[a.len() as int] == b[0]);
        }
        if c.len() > 0 {
            assert(all[(a.len() + b.len()) as int] == c[0]);
        }
    }
}

/// Every fix and every aid stands at the position that was worked out for it.
pub proof fn entries_stand_at_their_own_positions(
    fixes: Seq<FixText<Seq<char>>>,
    navs: Seq<NavText<Seq<char>>>,
    points: Seq<Point>,
    i: int,
)
    ensures
        0 <= i < fixes.len() ==> {
            let entry = placed_fixes(fixes, points)[i];
            &&& entry.identifier == fixes[i].identifier
            &&& entry.icao_code == fixes[i].icao_code
            &&& entry.region_code == fixes[i].region_code
            &&& entry.point == points[i]
        },
        0 <= i < navs.len() ==> {
            let entry = placed_navs(navs, points)[i];
            &&& entry.identifier == navs[i].identifier
            &&& entry.icao_code == navs[i].icao_code
            &&& entry.point == points[i]
        },
        placed_fixes(fixes, points).len() == fixes.len(),
        placed_navs(navs, points).len() == navs.len(),
{
}

/// The last item with an identifier and a code gives the ICAO code of a fix.
pub proof fn the_last_code_of_a_fix_counts(items: Seq<(Seq<char>, Seq<char>)>, i: int)
    requires
        0 <= i < items.len(),
        items[i].0.len() > 0,
        items[i].1.len() > 0,
        forall|j: int|
            i < j < items.len() ==> (#[trigger] items[j]).0 != items[i].0 || items[j].1.len() == 0,
    ensures
        last_icao(items, items[i].0) == Some(items[i].1),
    decreases items.len(),
{
    if i < items.len() - 1 {
        let init = items.drop_last();
        assert(items[items.len() - 1] == items.last());
        assert(init[i] == items[i]);
        assert forall|j: int| i < j < init.len() implies (#[trigger] init[j]).0 != init[i].0
            || init[j].1.len() == 0 by {
            assert(init[j] == items[j]);
        }
        the_last_code_of_a_fix_counts(init, i);
    }
}

/// The last item of a kind with an identifier and a code gives the ICAO code of a navigation aid of
/// that kind.
pub proof fn the_last_code_of_an_aid_of_its_kind_counts(
    items: Seq<(Seq<char>, Seq<char>, Seq<char>)>,
    i: int,
)
    requires
        0 <= i < items.len(),
        items[i].0.len() > 0,
        items[i].2.len() > 0,
        forall|j: int|
            i < j < items.len() ==> (#[trigger] items[j]).0 != items[i].0 || items[j].1
                != items[i].1 || items[j].2.len() == 0,
    ensures
        last_nav_icao(items, items[i].1, items[i].0) == Some(items[i].2),
    decreases items.len(),
{
    if i < items.len() - 1 {
        let init = items.drop_last();
        assert(items[items.len() - 1] == items.last());
        assert(init[i] == items[i]);
        assert forall|j: int| i < j < init.len() implies (#[trigger] init[j]).0 != init[i].0
            || init[j].1 != init[i].1 || init[j].2.len() == 0 by {
            assert(init[j] == items[j]);
        }
        the_last_code_of_an_aid_of_its_kind_counts(init, i);
    }
}

/// The two kinds of navigation aids on routes.
pub proof fn route_aids_are_of_two_kinds()
    ensures
        nav_type_vor_dme() == "VOR/DME"@,
        code_type_ndb() == "NDB"@,
{
}

/// Every field of a `FixText` is seen under its own name.
pub proof fn every_field_of_fix_text_is_seen(it: FixText)
    ensures
        it@.latitude == it.latitude@,
        it@.longitude == it.longitude@,
        it@.identifier == it.identifier@,
        it@.region_code == it.region_code@,
        it@.icao_code == it.icao_code@,
{
}

/// Every field of a `NavText` is seen under its own name.
pub proof fn every_field_of_nav_text_is_seen(it: NavText)
    ensures
        it@.latitude == it.latitude@,
        it@.longitude == it.longitude@,
        it@.identifier == it.identifier@,
        it@.icao_code == it.icao_code@,
{
}

/// Every field of a `FixEntry` is seen under its own name.
pub proof fn every_field_of_fix_entry_is_seen(it: FixEntry)
    ensures
        it@.identifier == it.identifier@,
        it@.icao_code == it.icao_code@,
        it@.region_code == it.region_code@,
        it@.point == it.point,
{
}

/// Every field of a `NavEntry` is seen under its own name.
pub proof fn every_field_of_nav_entry_is_seen(it: NavEntry)
    ensures
        it@.identifier == it.identifier@,
        it@.icao_code == it.icao_code@,
        it@.point == it.point,
{
}

/// A fix or an aid that no entry names with a code has none.
pub proof fn what_is_not_named_has_no_code(
    fixes: Seq<(Seq<char>, Seq<char>)>,
    aids: Seq<(Seq<char>, Seq<char>, Seq<char>)>,
    nav_type: Seq<char>,
    identifier: Seq<char>,
)
    ensures
        (forall|i: int|
            0 <= i < fixes.len() ==> (#[trigger] fixes[i]).0 != identifier || fixes[i].1.len() == 0)
            ==> last_icao(fixes, identifier) is None,
        (forall|i: int|
            0 <= i < aids.len() ==> (#[trigger] aids[i]).0 != identifier || aids[i].1 != nav_type
                || aids[i].2.len() == 0) ==> last_nav_icao(aids, nav_type, identifier) is None,
    decreases fixes.len() + aids.len(),
{
    if fixes.len() > 0 && (forall|i: int|
        0 <= i < fixes.len() ==> (#[trigger] fixes[i]).0 != identifier || fixes[i].1.len() == 0) {
        let init = fixes.drop_last();
        assert(fixes[fixes.len() - 1] == fixes.last());
        assert forall|i: int| 0 <= i < init.len() implies (#[trigger] init[i]).0 != identifier
            || init[i].1.len() == 0 by {
            assert(init[i] == fixes[i]);
        }
        what_is_not_named_has_no_code(init, aids, nav_type, identifier);
    }
    if aids.len() > 0 && (forall|i: int|
        0 <= i < aids.len() ==> (#[trigger] aids[i]).0 != identifier || aids[i].1 != nav_type
            || aids[i].2.len() == 0) {
        let init = aids.drop_last();
        assert(aids[aids.len() - 1] == aids.last());
        assert forall|i: int| 0 <= i < init.len() implies (#[trigger] init[i]).0 != identifier
            || init[i].1 != nav_type || init[i].2.len() == 0 by {
            assert(init[i] == aids[i]);
        }
        what_is_not_named_has_no_code(fixes, init, nav_type, identifier);
    }
}

} // verus!
