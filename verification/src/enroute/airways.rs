//! Airways: reading the route file, completing its points and numbering them.

use crate::decode;
use crate::text;
use crate::text::Blank;
use crate::numeric;
use vstd::prelude::*;

verus! {

/// The kind of a route point.
#[derive(Clone, Copy, PartialEq, Eq, Debug, Structural)]
pub enum AirwayCodeType {
    DesignatedPoint,
    VorDme,
    Ndb,
    Other,
}

impl AirwayCodeType {
    /// The kind that a code names.
    pub open spec fn named(value: Seq<char>) -> AirwayCodeType {
        if value == "DESIGNATED_POINT"@ || value == "\u{5730}\u{540d}\u{70b9}"@ {
            AirwayCodeType::DesignatedPoint
        } else if value == "VORDME"@ {
            AirwayCodeType::VorDme
        } else if value == "NDB"@ {
            AirwayCodeType::Ndb
        } else {
            AirwayCodeType::Other
        }
    }

    /// Reads a code.
    pub fn parse(value: &str) -> (r: AirwayCodeType)
        ensures
            r == AirwayCodeType::named(value@),
    {
        if text::same(value, "DESIGNATED_POINT") || text::same(
            value,
            "\u{5730}\u{540d}\u{70b9}",
        ) {
            AirwayCodeType::DesignatedPoint
        } else if text::same(value, "VORDME") {
            AirwayCodeType::VorDme
        } else if text::same(value, "NDB") {
            AirwayCodeType::Ndb
        } else {
            AirwayCodeType::Other
        }
    }

    /// The code under which a point of this kind is resolved.
    pub open spec fn code(self) -> Option<Seq<char>> {
        match self {
            AirwayCodeType::DesignatedPoint => Some("DESIGNATED_POINT"@),
            AirwayCodeType::VorDme => Some("VORDME"@),
            AirwayCodeType::Ndb => Some("NDB"@),
            AirwayCodeType::Other => None,
        }
    }

    /// The code under which a point of this kind is resolved.
    pub fn resolver_code(self) -> (r: Option<&'static str>)
        ensures
            text::opt(r) == self.code(),
    {
        match self {
            AirwayCodeType::DesignatedPoint => Some("DESIGNATED_POINT"),
            AirwayCodeType::VorDme => Some("VORDME"),
            AirwayCodeType::Ndb => Some("NDB"),
            AirwayCodeType::Other => None,
        }
    }
}

/// A code that a point is resolved under names the kind of the point again.
pub proof fn resolver_code_names_its_kind(kind: AirwayCodeType)
    requires
        kind != AirwayCodeType::Other,
    ensures
        kind.code() matches Some(code) && AirwayCodeType::named(code) == kind,
{
    reveal_strlit("DESIGNATED_POINT");
    reveal_strlit("\u{5730}\u{540d}\u{70b9}");
    reveal_strlit("VORDME");
    reveal_strlit("NDB");
    assert("DESIGNATED_POINT"@.len() == 16);
    assert("\u{5730}\u{540d}\u{70b9}"@.len() == 3);
    assert("VORDME"@.len() == 6);
    assert("NDB"@.len() == 3);
    assert("NDB"@[0] == 'N');
    assert("\u{5730}\u{540d}\u{70b9}"@[0] == '\u{5730}');
}

/// A row of the route file. `N` holds its two numbers, the magnetic track and the length: as
/// text where they are literals, or converted.
#[verifier::ext_equal]
pub struct ParsedAirwayCsvRow<T = String, N = u64> {
    pub route_identifier: T,
    pub start_waypoint: T,
    pub start_code_type: AirwayCodeType,
    pub direction_restriction: Option<T>,
    pub outbound_course: N,
    pub inbound_distance: N,
    pub end_waypoint: Option<T>,
    pub end_code_type: Option<AirwayCodeType>,
}

impl View for ParsedAirwayCsvRow<String, u64> {
    type V = ParsedAirwayCsvRow<Seq<char>, u64>;

    open spec fn view(&self) -> Self::V {
        ParsedAirwayCsvRow {
            route_identifier: self.route_identifier@,
            start_waypoint: self.start_waypoint@,
            start_code_type: self.start_code_type,
            direction_restriction: text::opt(self.direction_restriction),
            outbound_course: self.outbound_course,
            inbound_distance: self.inbound_distance,
            end_waypoint: text::opt(self.end_waypoint),
            end_code_type: self.end_code_type,
        }
    }
}

impl View for ParsedAirwayCsvRow<String, Option<String>> {
    type V = ParsedAirwayCsvRow<Seq<char>, Option<Seq<char>>>;

    open spec fn view(&self) -> Self::V {
        ParsedAirwayCsvRow {
            route_identifier: self.route_identifier@,
            start_waypoint: self.start_waypoint@,
            start_code_type: self.start_code_type,
            direction_restriction: text::opt(self.direction_restriction),
            outbound_course: text::opt(self.outbound_course),
            inbound_distance: text::opt(self.inbound_distance),
            end_waypoint: text::opt(self.end_waypoint),
            end_code_type: self.end_code_type,
        }
    }
}

impl ParsedAirwayCsvRow<String, Option<String>> {
    /// The row with its numbers converted.
    pub fn with_numbers(self, outbound_course: u64, inbound_distance: u64) -> (r:
        ParsedAirwayCsvRow<String, u64>)
        ensures
            r@.route_identifier == self@.route_identifier,
            r@.start_waypoint == self@.start_waypoint,
            r@.start_code_type == self@.start_code_type,
            r@.direction_restriction == self@.direction_restriction,
            r@.outbound_course == outbound_course,
            r@.inbound_distance == inbound_distance,
            r@.end_waypoint == self@.end_waypoint,
            r@.end_code_type == self@.end_code_type,
    {
        ParsedAirwayCsvRow {
            route_identifier: self.route_identifier,
            start_waypoint: self.start_waypoint,
            start_code_type: self.start_code_type,
            direction_restriction: self.direction_restriction,
            outbound_course,
            inbound_distance,
            end_waypoint: self.end_waypoint,
            end_code_type: self.end_code_type,
        }
    }
}

/// Why a route file is refused.
#[derive(Clone, Copy, PartialEq, Eq, Debug, Structural)]
pub enum AirwayCsvError {
    MissingRoute,
    MissingStartPoint,
    MissingStartType,
}

impl AirwayCsvError {
    /// The column that is missing.
    pub fn column(self) -> (r: &'static str)
        ensures
            r@ == (match self {
                AirwayCsvError::MissingRoute => "TXT_DESIG"@,
                AirwayCsvError::MissingStartPoint => "CODE_POINT_START"@,
                AirwayCsvError::MissingStartType => "CODE_TYPE_START"@,
            }),
    {
        match self {
            AirwayCsvError::MissingRoute => "TXT_DESIG",
            AirwayCsvError::MissingStartPoint => "CODE_POINT_START",
            AirwayCsvError::MissingStartType => "CODE_TYPE_START",
        }
    }
}

/// The columns of the route file; those that may be missing are optional.
#[derive(Clone, Copy, PartialEq, Eq, Debug, Structural)]
pub struct AirwayColumns {
    pub route: usize,
    pub start_point: usize,
    pub start_type: usize,
    pub direction: Option<usize>,
    pub end_point: Option<usize>,
    pub end_type: Option<usize>,
    pub magnetic_track: Option<usize>,
    pub length: Option<usize>,
}

/// The last position of `name` among the fields.
pub open spec fn last_field(fields: Seq<Seq<char>>, name: Seq<char>) -> Option<usize>
    decreases fields.len(),
{
    if fields.len() == 0 {
        None
    } else if fields.last() == name {
        Some((fields.len() - 1) as usize)
    } else {
        last_field(fields.drop_last(), name)
    }
}

/// The trimmed fields of a line.
pub open spec fn csv_fields(line: Seq<char>) -> Seq<Seq<char>> {
    text::trimmed_pieces(Blank::Csv, text::trim_end(Blank::LineEnd, line), ',')
}

/// The header line without a byte order mark.
pub open spec fn without_mark(line: Seq<char>) -> Seq<char> {
    if line.len() > 0 && line[0] == '\u{feff}' {
        line.skip(1)
    } else {
        line
    }
}

/// The columns that a header names, or the first required one that it lacks.
pub open spec fn header_columns(line: Seq<char>) -> Result<AirwayColumns, AirwayCsvError> {
    let fields = csv_fields(without_mark(line));
    match (
        last_field(fields, "TXT_DESIG"@),
        last_field(fields, "CODE_POINT_START"@),
        last_field(fields, "CODE_TYPE_START"@),
    ) {
        (Some(route), Some(start_point), Some(start_type)) => Ok(
            AirwayColumns {
                route,
                start_point,
                start_type,
                direction: last_field(fields, "CODE_DIR"@),
                end_point: last_field(fields, "CODE_POINT_END"@),
                end_type: last_field(fields, "CODE_TYPE_END"@),
                magnetic_track: last_field(fields, "VAL_MAG_TRACK"@),
                length: last_field(fields, "VAL_LEN"@),
            },
        ),
        (None, _, _) => Err(AirwayCsvError::MissingRoute),
        (_, None, _) => Err(AirwayCsvError::MissingStartPoint),
        (_, _, None) => Err(AirwayCsvError::MissingStartType),
    }
}

fn find_last_field(fields: &Vec<String>, name: &str) -> (r: Option<usize>)
    ensures
        r == last_field(text::views(fields@), name@),
{
    let ghost all = text::views(fields@);
    let mut n: usize = fields.len();
    assert(all.take(n as int) == all);
    while n > 0
        invariant
            n <= fields@.len(),
            all == text::views(fields@),
            last_field(all, name@) == last_field(all.take(n as int), name@),
        decreases n,
    {
        assert(all.take(n as int).last() == fields@[n - 1]@);
        assert(all.take(n as int).drop_last() == all.take(n - 1));
        if text::same(fields[n - 1].as_str(), name) {
            return Some(n - 1);
        }
        n = n - 1;
    }
    None
}

fn split_csv_fields(line: &str) -> (out: Vec<String>)
    ensures
        text::views(out@) == csv_fields(line@),
{
    let body: String = text::trimmed_end(Blank::LineEnd, line);
    text::split_trimmed(Blank::Csv, &text::chars_of(body.as_str()), ',')
}

/// Reads the header of a route file.
pub fn parse_csv_header_indices_simple(line: &str) -> (r: Result<AirwayColumns, AirwayCsvError>)
    ensures
        r == header_columns(line@),
{
    let cs: Vec<char> = text::chars_of(line);
    let header: String = if cs.len() > 0 && cs[0] == '\u{feff}' {
        assert(cs@.skip(1) == cs@.subrange(1, cs@.len() as int));
        text::text_of(&cs, 1, cs.len())
    } else {
        text::copy(line)
    };
    let fields: Vec<String> = split_csv_fields(header.as_str());
    let route: usize = match find_last_field(&fields, "TXT_DESIG") {
        Some(position) => position,
        None => return Err(AirwayCsvError::MissingRoute),
    };
    let start_point: usize = match find_last_field(&fields, "CODE_POINT_START") {
        Some(position) => position,
        None => return Err(AirwayCsvError::MissingStartPoint),
    };
    let start_type: usize = match find_last_field(&fields, "CODE_TYPE_START") {
        Some(position) => position,
        None => return Err(AirwayCsvError::MissingStartType),
    };
    Ok(
        AirwayColumns {
            route,
            start_point,
            start_type,
            direction: find_last_field(&fields, "CODE_DIR"),
            end_point: find_last_field(&fields, "CODE_POINT_END"),
            end_type: find_last_field(&fields, "CODE_TYPE_END"),
            magnetic_track: find_last_field(&fields, "VAL_MAG_TRACK"),
            length: find_last_field(&fields, "VAL_LEN"),
        },
    )
}

/// The field in a column; a short line lacks its last ones.
pub open spec fn field_at(fields: Seq<Seq<char>>, column: Option<usize>) -> Option<Seq<char>> {
    match column {
        Some(position) if position < fields.len() => Some(fields[position as int]),
        _ => None,
    }
}

/// The field in a column, empty where the line lacks it.
pub open spec fn field_value(fields: Seq<Seq<char>>, column: Option<usize>) -> Seq<char> {
    match field_at(fields, column) {
        Some(value) => value,
        None => ""@,
    }
}

/// The field in a column, if the line has it and it is not empty.
pub open spec fn filled_field(fields: Seq<Seq<char>>, column: Option<usize>) -> Option<Seq<char>> {
    match field_at(fields, column) {
        Some(value) if value.len() > 0 => Some(value),
        _ => None,
    }
}

/// The field in a column, if it denotes a number.
pub open spec fn number_field(fields: Seq<Seq<char>>, column: Option<usize>) -> Option<Seq<char>> {
    match filled_field(fields, column) {
        Some(value) if numeric::float_literal(value) => Some(value),
        _ => None,
    }
}

/// The row that a line of the route file gives.
pub open spec fn csv_row(columns: AirwayColumns, line: Seq<char>) -> ParsedAirwayCsvRow<
    Seq<char>,
    Option<Seq<char>>,
> {
    let fields = csv_fields(line);
    ParsedAirwayCsvRow {
        route_identifier: field_value(fields, Some(columns.route)),
        start_waypoint: field_value(fields, Some(columns.start_point)),
        start_code_type: AirwayCodeType::named(field_value(fields, Some(columns.start_type))),
        direction_restriction: filled_field(fields, columns.direction),
        outbound_course: number_field(fields, columns.magnetic_track),
        inbound_distance: number_field(fields, columns.length),
        end_waypoint: filled_field(fields, columns.end_point),
        end_code_type: match filled_field(fields, columns.end_type) {
            Some(code) => Some(AirwayCodeType::named(code)),
            None => None,
        },
    }
}

/// The rows that a route file gives: none for an empty one, else one for each line behind the
/// header.
pub open spec fn csv_rows(content: Seq<char>) -> Result<
    Seq<ParsedAirwayCsvRow<Seq<char>, Option<Seq<char>>>>,
    AirwayCsvError,
> {
    let all = text::lines(content);
    if all.len() == 0 {
        Ok(seq![])
    } else {
        match header_columns(all[0]) {
            Ok(columns) => Ok(
                Seq::new((all.len() - 1) as nat, |i: int| csv_row(columns, all[i + 1])),
            ),
            Err(error) => Err(error),
        }
    }
}

fn read_value(fields: &Vec<String>, column: Option<usize>) -> (r: String)
    ensures
        r@ == field_value(text::views(fields@), column),
{
    match column {
        Some(position) if position < fields.len() => fields[position].clone(),
        _ => text::copy(""),
    }
}

fn read_filled(fields: &Vec<String>, column: Option<usize>) -> (r: Option<String>)
    ensures
        text::opt(r) == filled_field(text::views(fields@), column),
{
    match column {
        Some(position) if position < fields.len() => {
            if text::is_empty(fields[position].as_str()) {
                None
            } else {
                Some(fields[position].clone())
            }
        },
        _ => None,
    }
}

fn read_number(fields: &Vec<String>, column: Option<usize>) -> (r: Option<String>)
    ensures
        text::opt(r) == number_field(text::views(fields@), column),
{
    match read_filled(fields, column) {
        Some(value) => {
            if numeric::is_float_literal(value.as_str()) {
                Some(value)
            } else {
                None
            }
        },
        None => None,
    }
}

fn parse_csv_row(columns: AirwayColumns, line: &str) -> (r: ParsedAirwayCsvRow<
    String,
    Option<String>,
>)
    ensures
        r@ == csv_row(columns, line@),
{
    let fields: Vec<String> = split_csv_fields(line);
    let start_type: String = read_value(&fields, Some(columns.start_type));
    ParsedAirwayCsvRow {
        route_identifier: read_value(&fields, Some(columns.route)),
        start_waypoint: read_value(&fields, Some(columns.start_point)),
        start_code_type: AirwayCodeType::parse(start_type.as_str()),
        direction_restriction: read_filled(&fields, columns.direction),
        outbound_course: read_number(&fields, columns.magnetic_track),
        inbound_distance: read_number(&fields, columns.length),
        end_waypoint: read_filled(&fields, columns.end_point),
        end_code_type: match read_filled(&fields, columns.end_type) {
            Some(code) => Some(AirwayCodeType::parse(code.as_str())),
            None => None,
        },
    }
}

/// The view of the outcome of reading a route file.
pub open spec fn rows_view(
    r: Result<Vec<ParsedAirwayCsvRow<String, Option<String>>>, AirwayCsvError>,
) -> Result<Seq<ParsedAirwayCsvRow<Seq<char>, Option<Seq<char>>>>, AirwayCsvError> {
    match r {
        Ok(rows) => Ok(text::views(rows@)),
        Err(error) => Err(error),
    }
}

/// Reads a decoded route file.
pub fn parse_airway_csv_rows_simple(content: &str) -> (r: Result<
    Vec<ParsedAirwayCsvRow<String, Option<String>>>,
    AirwayCsvError,
>)
    ensures
        rows_view(r) == csv_rows(content@),
{
    let all: Vec<String> = text::split_lines(content);
    let ghost v = text::views(all@);
    let mut rows: Vec<ParsedAirwayCsvRow<String, Option<String>>> = Vec::new();
    if all.len() == 0 {
        assert(text::views(rows@) =~= seq![]);
        return Ok(rows);
    }
    assert(v[0] == all@[0]@);
    let columns: AirwayColumns = match parse_csv_header_indices_simple(all[0].as_str()) {
        Ok(columns) => columns,
        Err(error) => return Err(error),
    };
    let ghost goal = Seq::new((v.len() - 1) as nat, |i: int| csv_row(columns, v[i + 1]));
    assert(text::views(rows@) =~= goal.take(0));
    for i in 1..all.len()
        invariant
            all@.len() > 0,
            v == text::views(all@),
            goal == Seq::new((v.len() - 1) as nat, |i: int| csv_row(columns, v[i + 1])),
            text::views(rows@) == goal.take(i - 1),
    {
        let row = parse_csv_row(columns, all[i].as_str());
        proof {
            text::lemma_views_push(rows@, row);
            assert(goal.take(i as int) =~= goal.take(i - 1).push(goal[i - 1]));
        }
        rows.push(row);
    }
    assert(goal.take(v.len() - 1) == goal);
    Ok(rows)
}

/// Reads the bytes of a route file, which is written in the GBK encoding.
pub fn parse_airway_csv_rows(bytes: &[u8]) -> (r: Result<
    Vec<ParsedAirwayCsvRow<String, Option<String>>>,
    AirwayCsvError,
>)
    requires
        bytes@.len() <= decode::MAX_DECODED_BYTES,
    ensures
        rows_view(r) == csv_rows(decode::gbk_text(bytes@)),
{
    let content: String = decode::decode_gbk(bytes);
    parse_airway_csv_rows_simple(content.as_str())
}

/// The kinds of route points go by their names in the file; any other name is of no known kind.
pub proof fn kinds_go_by_their_names(value: Seq<char>)
    ensures
        AirwayCodeType::named("DESIGNATED_POINT"@) == AirwayCodeType::DesignatedPoint,
        AirwayCodeType::named("\u{5730}\u{540d}\u{70b9}"@) == AirwayCodeType::DesignatedPoint,
        AirwayCodeType::named("VORDME"@) == AirwayCodeType::VorDme,
        AirwayCodeType::named("NDB"@) == AirwayCodeType::Ndb,
        AirwayCodeType::named(value) == AirwayCodeType::DesignatedPoint ==> value
            == "DESIGNATED_POINT"@ || value == "\u{5730}\u{540d}\u{70b9}"@,
        AirwayCodeType::named(value) == AirwayCodeType::VorDme ==> value == "VORDME"@,
        AirwayCodeType::named(value) == AirwayCodeType::Ndb ==> value == "NDB"@,
{
    reveal_strlit("DESIGNATED_POINT");
    reveal_strlit("\u{5730}\u{540d}\u{70b9}");
    reveal_strlit("VORDME");
    reveal_strlit("NDB");
    assert("NDB"@.len() == 3 && "\u{5730}\u{540d}\u{70b9}"@.len() == 3);
    assert("NDB"@[0] == 'N' && "\u{5730}\u{540d}\u{70b9}"@[0] == '\u{5730}');
    assert("VORDME"@.len() == 6 && "DESIGNATED_POINT"@.len() == 16);
}

/// A column is found by the last header field with its name.
pub proof fn a_column_is_found_by_the_last_field_with_its_name(
    fields: Seq<Seq<char>>,
    name: Seq<char>,
)
    requires
        fields.len() <= usize::MAX,
    ensures
        match last_field(fields, name) {
            Some(position) => {
                &&& position < fields.len()
                &&& fields[position as int] == name
                &&& forall|k: int| position < k < fields.len() ==> #[trigger] fields[k] != name
            },
            None => forall|k: int| 0 <= k < fields.len() ==> #[trigger] fields[k] != name,
        },
    decreases fields.len(),
{
    if fields.len() > 0 {
        let init = fields.drop_last();
        let last = fields.len() - 1;
        a_column_is_found_by_the_last_field_with_its_name(init, name);
        assert(fields[last] == fields.last());
        assert forall|k: int| 0 <= k < init.len() implies init[k] == fields[k] by {}
    }
}

/// Every property of a route segment is read from the column that is headed for it.
pub proof fn segments_are_read_from_their_columns(content: Seq<char>, i: int)
    requires
        csv_rows(content) is Ok,
        0 <= i,
        i + 1 < text::lines(content).len(),
    ensures
        csv_rows(content)->Ok_0.len() == text::lines(content).len() - 1,
        ({
            let header = text::lines(content)[0];
            let names = csv_fields(
                if header.len() > 0 && header[0] == '\u{feff}' {
                    header.skip(1)
                } else {
                    header
                },
            );
            let fields = csv_fields(text::lines(content)[i + 1]);
            let row = csv_rows(content)->Ok_0[i];
            &&& last_field(names, "TXT_DESIG"@) is Some
            &&& last_field(names, "CODE_POINT_START"@) is Some
            &&& last_field(names, "CODE_TYPE_START"@) is Some
            &&& row.route_identifier == field_value(fields, last_field(names, "TXT_DESIG"@))
            &&& row.start_waypoint == field_value(fields, last_field(names, "CODE_POINT_START"@))
            &&& row.start_code_type == AirwayCodeType::named(
                field_value(fields, last_field(names, "CODE_TYPE_START"@)),
            )
            &&& row.direction_restriction == filled_field(fields, last_field(names, "CODE_DIR"@))
            &&& row.outbound_course == number_field(fields, last_field(names, "VAL_MAG_TRACK"@))
            &&& row.inbound_distance == number_field(fields, last_field(names, "VAL_LEN"@))
            &&& row.end_waypoint == filled_field(fields, last_field(names, "CODE_POINT_END"@))
            &&& row.end_code_type == (match filled_field(
                fields,
                last_field(names, "CODE_TYPE_END"@),
            ) {
                Some(code) => Some(AirwayCodeType::named(code)),
                None => None,
            })
        }),
{
}

/// A route file is refused just where it lacks the route, the start point or its kind, and the first
/// that it lacks is named. An empty file has no rows.
pub proof fn route_files_are_refused_for_a_required_column(content: Seq<char>)
    ensures
        text::lines(content).len() == 0 ==> csv_rows(content) is Ok && csv_rows(
            content,
        )->Ok_0.len() == 0,
        text::lines(content).len() > 0 ==> {
            let names = csv_fields(without_mark(text::lines(content)[0]));
            let route = last_field(names, "TXT_DESIG"@);
            let start = last_field(names, "CODE_POINT_START"@);
            let kind = last_field(names, "CODE_TYPE_START"@);
            &&& csv_rows(content) is Ok <==> route is Some && start is Some && kind is Some
            &&& csv_rows(content) is Err ==> csv_rows(content)->Err_0 == (if route is None {
                AirwayCsvError::MissingRoute
            } else if start is None {
                AirwayCsvError::MissingStartPoint
            } else {
                AirwayCsvError::MissingStartType
            })
        },
{
}

/// A field of a segment is what stands at its position; what is not there or empty is none, and a
/// number has to read as one.
pub proof fn fields_of_a_segment_stand_at_their_positions(
    fields: Seq<Seq<char>>,
    position: usize,
)
    ensures
        position < fields.len() ==> field_value(fields, Some(position)) == fields[position as int],
        position >= fields.len() ==> field_value(fields, Some(position)) == ""@,
        field_value(fields, None) == ""@,
        position < fields.len() && fields[position as int].len() > 0 ==> filled_field(
            fields,
            Some(position),
        ) == Some(fields[position as int]),
        position >= fields.len() || fields[position as int].len() == 0 ==> filled_field(
            fields,
            Some(position),
        ) is None,
        filled_field(fields, None) is None,
        number_field(fields, Some(position)) == (match filled_field(fields, Some(position)) {
            Some(value) => if numeric::float_literal(value) {
                Some(value)
            } else {
                None
            },
            None => None,
        }),
{
}

/// The fields of a line are what stands between its commas, without blanks around.
pub proof fn fields_stand_between_commas(line: Seq<char>, i: int)
    requires
        0 <= i < csv_fields(line).len(),
    ensures
        ({
            let body = text::trim_end(Blank::LineEnd, line);
            let pieces = text::split(body, ',');
            &&& csv_fields(line).len() == pieces.len()
            &&& csv_fields(line)[i] == text::trim(Blank::Csv, pieces[i])
            &&& !pieces[i].contains(',')
            &&& text::joined_by(pieces, ',') == body
        }),
{
    text::splitting_is_undone_by_joining(text::trim_end(Blank::LineEnd, line), ',');
}

} // verus!
