//! Fixed-layout text records: waypoints, radio navigation aids and comma-separated procedure legs.
//!
//! A number in a record is kept as the text of its literal, which is checked to denote a
//! double-precision number.

use crate::numeric;
use crate::text;
use crate::text::Blank;
use vstd::prelude::*;

verus! {

/// The smallest waypoint type code that does not fit in three bytes.
pub const TYPE_CODE_LIMIT: u64 = 0x100_0000;

/// The character of one byte of a type code.
pub open spec fn byte_char(b: int) -> char {
    b as u32 as char
}

/// The text that a waypoint type code spells: its bytes from the lowest up, the middle one only
/// where the code has at least four hexadecimal digits, without surrounding blanks.
pub open spec fn waypoint_type(code: Seq<char>) -> Option<Seq<char>> {
    match numeric::unsigned(code) {
        Some(value) if value < TYPE_CODE_LIMIT => {
            let low = seq![byte_char(value as int % 256)];
            let middle = if value >= 0x1000 {
                seq![byte_char(value as int / 256 % 256)]
            } else {
                Seq::empty()
            };
            let high = seq![byte_char(value as int / 65536)];
            Some(text::trim(Blank::Unicode, low + middle + high))
        },
        _ => None,
    }
}

/// Decodes a decimal waypoint type code.
pub fn parse_waypoint_type_decimal(code: &str) -> (r: Option<String>)
    ensures
        text::opt(r) == waypoint_type(code@),
{
    let value: u64 = match numeric::parse_unsigned(code) {
        Some(value) => value,
        None => return None,
    };
    if value >= TYPE_CODE_LIMIT {
        return None;
    }
    let mut out: String = String::new();
    out.push((value % 256) as u8 as char);
    if value >= 0x1000 {
        out.push((value / 256 % 256) as u8 as char);
    }
    out.push((value / 65536) as u8 as char);
    let ghost low = seq![byte_char(value as int % 256)];
    let ghost middle = if value >= 0x1000 {
        seq![byte_char(value as int / 256 % 256)]
    } else {
        Seq::empty()
    };
    let ghost high = seq![byte_char(value as int / 65536)];
    assert(out@ =~= low + middle + high);
    Some(text::trimmed(Blank::Unicode, out.as_str()))
}

/// The regions whose records are converted.
pub open spec fn supported_region(icao: Seq<char>) -> bool {
    ||| icao == "VH"@
    ||| icao == "VM"@
    ||| icao == "ZB"@
    ||| icao == "ZS"@
    ||| icao == "ZH"@
    ||| icao == "ZG"@
    ||| icao == "ZY"@
    ||| icao == "ZU"@
    ||| icao == "ZW"@
    ||| icao == "ZL"@
    ||| icao == "ZJ"@
    ||| icao == "ZP"@
    ||| icao == "ZZ"@
}

/// Tests whether records of the region are converted.
pub fn is_supported_region(icao: &str) -> (r: bool)
    ensures
        r == supported_region(icao@),
{
    text::same(icao, "VH") || text::same(icao, "VM") || text::same(icao, "ZB") || text::same(
        icao,
        "ZS",
    ) || text::same(icao, "ZH") || text::same(icao, "ZG") || text::same(icao, "ZY") || text::same(
        icao,
        "ZU",
    ) || text::same(icao, "ZW") || text::same(icao, "ZL") || text::same(icao, "ZJ") || text::same(
        icao,
        "ZP",
    ) || text::same(icao, "ZZ")
}

/// A waypoint as its record gives it.
#[verifier::ext_equal]
pub struct WaypointRecord<T = String> {
    pub is_enroute: bool,
    pub region_code: T,
    pub icao_code: T,
    pub waypoint_identifier: T,
    pub waypoint_type: T,
    pub latitude: T,
    pub longitude: T,
}

impl View for WaypointRecord {
    type V = WaypointRecord<Seq<char>>;

    open spec fn view(&self) -> Self::V {
        WaypointRecord {
            is_enroute: self.is_enroute,
            region_code: self.region_code@,
            icao_code: self.icao_code@,
            waypoint_identifier: self.waypoint_identifier@,
            waypoint_type: self.waypoint_type@,
            latitude: self.latitude@,
            longitude: self.longitude@,
        }
    }
}

/// The waypoint that the words of a record give: latitude, longitude, identifier, region,
/// ICAO code and type code.
pub open spec fn waypoint(parts: Seq<Seq<char>>) -> Option<WaypointRecord<Seq<char>>> {
    if parts.len() >= 6 && supported_region(parts[4]) && numeric::float_literal(parts[0])
        && numeric::float_literal(parts[1]) {
        match waypoint_type(parts[5]) {
            Some(spelled) => Some(
                WaypointRecord {
                    is_enroute: parts[3] == "ENRT"@,
                    region_code: parts[3],
                    icao_code: parts[4],
                    waypoint_identifier: parts[2],
                    waypoint_type: spelled,
                    latitude: parts[0],
                    longitude: parts[1],
                },
            ),
            None => None,
        }
    } else {
        None
    }
}

/// Reads a waypoint from the words of its record.
pub fn parse_waypoint_line(parts: &Vec<String>) -> (r: Option<WaypointRecord>)
    ensures
        text::opt(r) == waypoint(text::views(parts@)),
{
    let ghost w = text::views(parts@);
    if parts.len() < 6 {
        return None;
    }
    assert(w[0] == parts@[0]@ && w[1] == parts@[1]@ && w[2] == parts@[2]@ && w[3] == parts@[3]@
        && w[4] == parts@[4]@ && w[5] == parts@[5]@);
    if !is_supported_region(parts[4].as_str()) {
        return None;
    }
    if !numeric::is_float_literal(parts[0].as_str()) || !numeric::is_float_literal(
        parts[1].as_str(),
    ) {
        return None;
    }
    match parse_waypoint_type_decimal(parts[5].as_str()) {
        Some(spelled) => Some(
            WaypointRecord {
                is_enroute: text::same(parts[3].as_str(), "ENRT"),
                region_code: parts[3].clone(),
                icao_code: parts[4].clone(),
                waypoint_identifier: parts[2].clone(),
                waypoint_type: spelled,
                latitude: parts[0].clone(),
                longitude: parts[1].clone(),
            },
        ),
        None => None,
    }
}

/// The number of header lines before the first waypoint record.
pub const HEADER_LINES: usize = 3;

/// A terminal waypoint; its name is its identifier.
#[verifier::ext_equal]
pub struct TerminalWaypointRow<T = String> {
    pub region_code: T,
    pub icao_code: T,
    pub waypoint_identifier: T,
    pub waypoint_name: T,
    pub waypoint_type: T,
    pub latitude: T,
    pub longitude: T,
}

impl View for TerminalWaypointRow {
    type V = TerminalWaypointRow<Seq<char>>;

    open spec fn view(&self) -> Self::V {
        TerminalWaypointRow {
            region_code: self.region_code@,
            icao_code: self.icao_code@,
            waypoint_identifier: self.waypoint_identifier@,
            waypoint_name: self.waypoint_name@,
            waypoint_type: self.waypoint_type@,
            latitude: self.latitude@,
            longitude: self.longitude@,
        }
    }
}

/// The terminal waypoint on the line with the given number, counted from one.
pub open spec fn terminal_waypoint(line: Seq<char>, number: int) -> Option<
    TerminalWaypointRow<Seq<char>>,
> {
    if number <= HEADER_LINES {
        None
    } else {
        match waypoint(text::words(Blank::Unicode, line)) {
            Some(found) if !found.is_enroute => Some(
                TerminalWaypointRow {
                    region_code: found.region_code,
                    icao_code: found.icao_code,
                    waypoint_identifier: found.waypoint_identifier,
                    waypoint_name: found.waypoint_identifier,
                    waypoint_type: found.waypoint_type,
                    latitude: found.latitude,
                    longitude: found.longitude,
                },
            ),
            _ => None,
        }
    }
}

/// Reads a terminal waypoint record.
pub fn parse_terminal_waypoint_record(line: &str, line_number: usize) -> (r: Option<
    TerminalWaypointRow,
>)
    ensures
        text::opt(r) == terminal_waypoint(line@, line_number as int),
{
    if line_number <= HEADER_LINES {
        return None;
    }
    let parts: Vec<String> = text::split_words(Blank::Unicode, &text::chars_of(line));
    match parse_waypoint_line(&parts) {
        Some(found) => {
            if found.is_enroute {
                None
            } else {
                Some(
                    TerminalWaypointRow {
                        region_code: found.region_code,
                        icao_code: found.icao_code,
                        waypoint_name: found.waypoint_identifier.clone(),
                        waypoint_identifier: found.waypoint_identifier,
                        waypoint_type: found.waypoint_type,
                        latitude: found.latitude,
                        longitude: found.longitude,
                    },
                )
            }
        },
        None => None,
    }
}

/// An enroute waypoint.
#[verifier::ext_equal]
pub struct EnrouteWaypointRow<T = String> {
    pub icao_code: T,
    pub waypoint_identifier: T,
    pub waypoint_type: T,
    pub latitude: T,
    pub longitude: T,
}

impl View for EnrouteWaypointRow {
    type V = EnrouteWaypointRow<Seq<char>>;

    open spec fn view(&self) -> Self::V {
        EnrouteWaypointRow {
            icao_code: self.icao_code@,
            waypoint_identifier: self.waypoint_identifier@,
            waypoint_type: self.waypoint_type@,
            latitude: self.latitude@,
            longitude: self.longitude@,
        }
    }
}

/// The enroute waypoint on the line with the given number, counted from one.
pub open spec fn enroute_waypoint(line: Seq<char>, number: int) -> Option<
    EnrouteWaypointRow<Seq<char>>,
> {
    if number <= HEADER_LINES {
        None
    } else {
        match waypoint(text::words(Blank::Unicode, line)) {
            Some(found) if found.is_enroute => Some(
                EnrouteWaypointRow {
                    icao_code: found.icao_code,
                    waypoint_identifier: found.waypoint_identifier,
                    waypoint_type: found.waypoint_type,
                    latitude: found.latitude,
                    longitude: found.longitude,
                },
            ),
            _ => None,
        }
    }
}

/// Reads an enroute waypoint record.
pub fn parse_enroute_waypoint_record(line: &str, line_number: usize) -> (r: Option<
    EnrouteWaypointRow,
>)
    ensures
        text::opt(r) == enroute_waypoint(line@, line_number as int),
{
    if line_number <= HEADER_LINES {
        return None;
    }
    let parts: Vec<String> = text::split_words(Blank::Unicode, &text::chars_of(line));
    match parse_waypoint_line(&parts) {
        Some(found) => {
            if !found.is_enroute {
                None
            } else {
                Some(
                    EnrouteWaypointRow {
                        icao_code: found.icao_code,
                        waypoint_identifier: found.waypoint_identifier,
                        waypoint_type: found.waypoint_type,
                        latitude: found.latitude,
                        longitude: found.longitude,
                    },
                )
            }
        },
        None => None,
    }
}

/// The reading of terminal waypoints, line by line.
pub open spec fn terminal_waypoint_reader() -> spec_fn(int, Seq<char>) -> Option<
    TerminalWaypointRow<Seq<char>>,
> {
    |i: int, line: Seq<char>| terminal_waypoint(line, i + 1)
}

/// The reading of enroute waypoints, line by line.
pub open spec fn enroute_waypoint_reader() -> spec_fn(int, Seq<char>) -> Option<
    EnrouteWaypointRow<Seq<char>>,
> {
    |i: int, line: Seq<char>| enroute_waypoint(line, i + 1)
}

/// The terminal waypoints of a file, given line by line.
pub fn parse_terminal_waypoints_lines(lines: &Vec<String>) -> (out: Vec<TerminalWaypointRow>)
    ensures
        text::views(out@) == text::collect(text::views(lines@), terminal_waypoint_reader()),
{
    let mut out: Vec<TerminalWaypointRow> = Vec::new();
    let ghost all = text::views(lines@);
    let ghost f = terminal_waypoint_reader();
    assert(all.take(0).len() == 0);
    assert(text::views(out@) =~= text::collect(all.take(0), f));
    for i in 0..lines.len()
        invariant
            all == text::views(lines@),
            f == terminal_waypoint_reader(),
            text::views(out@) == text::collect(all.take(i as int), f),
    {
        proof {
            text::lemma_collect_step(all, f, i as int);
            assert(all[i as int] == lines@[i as int]@);
        }
        match parse_terminal_waypoint_record(lines[i].as_str(), i + 1) {
            Some(row) => {
                proof {
                    text::lemma_views_push(out@, row);
                }
                out.push(row);
            },
            None => {},
        }
    }
    assert(all.take(lines@.len() as int) == all);
    out
}

/// The enroute waypoints of a file, given line by line.
pub fn parse_enroute_waypoints_lines(lines: &Vec<String>) -> (out: Vec<EnrouteWaypointRow>)
    ensures
        text::views(out@) == text::collect(text::views(lines@), enroute_waypoint_reader()),
{
    let mut out: Vec<EnrouteWaypointRow> = Vec::new();
    let ghost all = text::views(lines@);
    let ghost f = enroute_waypoint_reader();
    assert(all.take(0).len() == 0);
    assert(text::views(out@) =~= text::collect(all.take(0), f));
    for i in 0..lines.len()
        invariant
            all == text::views(lines@),
            f == enroute_waypoint_reader(),
            text::views(out@) == text::collect(all.take(i as int), f),
    {
        proof {
            text::lemma_collect_step(all, f, i as int);
            assert(all[i as int] == lines@[i as int]@);
        }
        match parse_enroute_waypoint_record(lines[i].as_str(), i + 1) {
            Some(row) => {
                proof {
                    text::lemma_views_push(out@, row);
                }
                out.push(row);
            },
            None => {},
        }
    }
    assert(all.take(lines@.len() as int) == all);
    out
}

/// A record of a radio navigation aid: at least twelve words, of a supported region.
pub open spec fn nav_record(parts: Seq<Seq<char>>) -> bool {
    parts.len() >= 12 && supported_region(parts[9])
}

/// Splits the record of a radio navigation aid into its words.
fn parse_nav_line_common(line: &str) -> (r: Option<Vec<String>>)
    ensures
        match r {
            Some(parts) => {
                &&& text::views(parts@) == text::words(Blank::Unicode, line@)
                &&& nav_record(text::views(parts@))
            },
            None => !nav_record(text::words(Blank::Unicode, line@)),
        },
{
    let parts: Vec<String> = text::split_words(Blank::Unicode, &text::chars_of(line));
    if parts.len() < 12 {
        return None;
    }
    assert(text::views(parts@)[9] == parts@[9]@);
    if !is_supported_region(parts[9].as_str()) {
        return None;
    }
    Some(parts)
}

/// A VHF navigation aid as its record gives it.
#[verifier::ext_equal]
pub struct VhfNavRow<T = String> {
    pub airport_identifier: Option<T>,
    pub icao_code: T,
    pub navaid_identifier: T,
    pub navaid_name: Option<T>,
    pub navaid_frequency: T,
    pub navaid_class: T,
    pub latitude: T,
    pub longitude: T,
    pub dme_elevation: T,
    pub range: T,
    pub has_dme_ident: bool,
}

impl View for VhfNavRow {
    type V = VhfNavRow<Seq<char>>;

    open spec fn view(&self) -> Self::V {
        VhfNavRow {
            airport_identifier: text::opt(self.airport_identifier),
            icao_code: self.icao_code@,
            navaid_identifier: self.navaid_identifier@,
            navaid_name: text::opt(self.navaid_name),
            navaid_frequency: self.navaid_frequency@,
            navaid_class: self.navaid_class@,
            latitude: self.latitude@,
            longitude: self.longitude@,
            dme_elevation: self.dme_elevation@,
            range: self.range@,
            has_dme_ident: self.has_dme_ident,
        }
    }
}

/// The frequency in megahertz: the raw digits with a point behind the first three.
pub open spec fn vhf_frequency(raw: Seq<char>) -> Seq<char> {
    raw.take(3).push('.') + raw.skip(3)
}

/// The VHF navigation aid that a record gives.
pub open spec fn vhf_nav(line: Seq<char>) -> Option<VhfNavRow<Seq<char>>> {
    let parts = text::words(Blank::Unicode, line);
    let nav_type = parts.last();
    if {
        &&& nav_record(parts)
        &&& nav_type == "VOR/DME"@ || nav_type == "DME-ILS"@
        &&& parts[0] == "3"@ || parts[0] == "12"@
        &&& numeric::float_literal(parts[1])
        &&& numeric::float_literal(parts[2])
        &&& numeric::float_literal(parts[3])
        &&& parts[4].len() >= 4
        &&& numeric::float_literal(vhf_frequency(parts[4]))
    } {
        Some(
            VhfNavRow {
                airport_identifier: if parts[8] == "ENRT"@ {
                    None
                } else {
                    Some(parts[8])
                },
                icao_code: parts[9],
                navaid_identifier: parts[7],
                navaid_name: Some(parts[10]),
                navaid_frequency: vhf_frequency(parts[4]),
                navaid_class: if nav_type == "VOR/DME"@ {
                    "VDHW "@
                } else {
                    " IT N"@
                },
                latitude: parts[1],
                longitude: parts[2],
                dme_elevation: parts[3],
                range: parts[5],
                has_dme_ident: parts[0] == "12"@,
            },
        )
    } else {
        None
    }
}

/// Puts the point into a raw frequency.
fn place_point(raw: &Vec<char>) -> (out: String)
    requires
        raw@.len() >= 4,
    ensures
        out@ == vhf_frequency(raw@),
{
    let mut out: String = text::text_of(raw, 0, 3);
    out.push('.');
    let tail: String = text::text_of(raw, 3, raw.len());
    out.append(tail.as_str());
    assert(out@ =~= vhf_frequency(raw@));
    out
}

/// Reads a raw frequency of at least four characters, if it denotes one.
pub fn parse_frequency(raw: &str) -> (r: Option<String>)
    ensures
        text::opt(r) == (if raw@.len() >= 4 && numeric::float_literal(vhf_frequency(raw@)) {
            Some(vhf_frequency(raw@))
        } else {
            None
        }),
{
    let cs: Vec<char> = text::chars_of(raw);
    if cs.len() < 4 {
        return None;
    }
    let frequency: String = place_point(&cs);
    if numeric::is_float_literal(frequency.as_str()) {
        Some(frequency)
    } else {
        None
    }
}

/// Reads the record of a VHF navigation aid.
pub fn parse_vhf_nav_record(line: &str) -> (r: Option<VhfNavRow>)
    ensures
        text::opt(r) == vhf_nav(line@),
{
    let parts: Vec<String> = match parse_nav_line_common(line) {
        Some(parts) => parts,
        None => return None,
    };
    let ghost w = text::views(parts@);
    assert(forall|k: int| 0 <= k < parts@.len() ==> w[k] == parts@[k]@);
    let last: usize = parts.len() - 1;
    let is_vor: bool = text::same(parts[last].as_str(), "VOR/DME");
    if !is_vor && !text::same(parts[last].as_str(), "DME-ILS") {
        return None;
    }
    let has_dme_ident: bool = text::same(parts[0].as_str(), "12");
    if !has_dme_ident && !text::same(parts[0].as_str(), "3") {
        return None;
    }
    if !numeric::is_float_literal(parts[1].as_str()) || !numeric::is_float_literal(
        parts[2].as_str(),
    ) || !numeric::is_float_literal(parts[3].as_str()) {
        return None;
    }
    let frequency: String = match parse_frequency(parts[4].as_str()) {
        Some(frequency) => frequency,
        None => return None,
    };
    let airport_identifier: Option<String> = if text::same(parts[8].as_str(), "ENRT") {
        None
    } else {
        Some(parts[8].clone())
    };
    Some(
        VhfNavRow {
            airport_identifier,
            icao_code: parts[9].clone(),
            navaid_identifier: parts[7].clone(),
            navaid_name: Some(parts[10].clone()),
            navaid_frequency: frequency,
            navaid_class: if is_vor {
                text::copy("VDHW ")
            } else {
                text::copy(" IT N")
            },
            latitude: parts[1].clone(),
            longitude: parts[2].clone(),
            dme_elevation: parts[3].clone(),
            range: parts[5].clone(),
            has_dme_ident,
        },
    )
}

/// A non-directional beacon as its record gives it.
#[verifier::ext_equal]
pub struct NdbNavRow<T = String> {
    pub icao_code: T,
    pub navaid_identifier: T,
    pub navaid_name: T,
    pub navaid_frequency: T,
    pub latitude: T,
    pub longitude: T,
    pub range: T,
}

impl View for NdbNavRow {
    type V = NdbNavRow<Seq<char>>;

    open spec fn view(&self) -> Self::V {
        NdbNavRow {
            icao_code: self.icao_code@,
            navaid_identifier: self.navaid_identifier@,
            navaid_name: self.navaid_name@,
            navaid_frequency: self.navaid_frequency@,
            latitude: self.latitude@,
            longitude: self.longitude@,
            range: self.range@,
        }
    }
}

/// The enroute beacon that a record gives.
pub open spec fn ndb_nav(line: Seq<char>) -> Option<NdbNavRow<Seq<char>>> {
    let parts = text::words(Blank::Unicode, line);
    if {
        &&& nav_record(parts)
        &&& parts[8] == "ENRT"@
        &&& parts.last() == "NDB"@
        &&& numeric::float_literal(parts[1])
        &&& numeric::float_literal(parts[2])
        &&& numeric::float_literal(parts[4])
        &&& numeric::float_literal(parts[5])
    } {
        Some(
            NdbNavRow {
                icao_code: parts[9],
                navaid_identifier: parts[7],
                navaid_name: parts[10],
                navaid_frequency: parts[4],
                latitude: parts[1],
                longitude: parts[2],
                range: parts[5],
            },
        )
    } else {
        None
    }
}

/// Reads the record of an enroute beacon.
pub fn parse_ndb_nav_record(line: &str) -> (r: Option<NdbNavRow>)
    ensures
        text::opt(r) == ndb_nav(line@),
{
    let parts: Vec<String> = match parse_nav_line_common(line) {
        Some(parts) => parts,
        None => return None,
    };
    let ghost w = text::views(parts@);
    assert(forall|k: int| 0 <= k < parts@.len() ==> w[k] == parts@[k]@);
    if !text::same(parts[8].as_str(), "ENRT") || !text::same(
        parts[parts.len() - 1].as_str(),
        "NDB",
    ) {
        return None;
    }
    if !numeric::is_float_literal(parts[4].as_str()) || !numeric::is_float_literal(
        parts[1].as_str(),
    ) || !numeric::is_float_literal(parts[2].as_str()) || !numeric::is_float_literal(
        parts[5].as_str(),
    ) {
        return None;
    }
    Some(
        NdbNavRow {
            icao_code: parts[9].clone(),
            navaid_identifier: parts[7].clone(),
            navaid_name: parts[10].clone(),
            navaid_frequency: parts[4].clone(),
            latitude: parts[1].clone(),
            longitude: parts[2].clone(),
            range: parts[5].clone(),
        },
    )
}

/// The reading of VHF navigation aids, line by line.
pub open spec fn vhf_nav_reader() -> spec_fn(int, Seq<char>) -> Option<VhfNavRow<Seq<char>>> {
    |i: int, line: Seq<char>| vhf_nav(line)
}

/// The reading of enroute beacons, line by line.
pub open spec fn ndb_nav_reader() -> spec_fn(int, Seq<char>) -> Option<NdbNavRow<Seq<char>>> {
    |i: int, line: Seq<char>| ndb_nav(line)
}

/// The VHF navigation aids of a file, given line by line.
pub fn parse_vhf_nav_lines(lines: &Vec<String>) -> (out: Vec<VhfNavRow>)
    ensures
        text::views(out@) == text::collect(text::views(lines@), vhf_nav_reader()),
{
    let mut out: Vec<VhfNavRow> = Vec::new();
    let ghost all = text::views(lines@);
    let ghost f = vhf_nav_reader();
    assert(all.take(0).len() == 0);
    assert(text::views(out@) =~= text::collect(all.take(0), f));
    for i in 0..lines.len()
        invariant
            all == text::views(lines@),
            f == vhf_nav_reader(),
            text::views(out@) == text::collect(all.take(i as int), f),
    {
        proof {
            text::lemma_collect_step(all, f, i as int);
            assert(all[i as int] == lines@[i as int]@);
        }
        match parse_vhf_nav_record(lines[i].as_str()) {
            Some(row) => {
                proof {
                    text::lemma_views_push(out@, row);
                }
                out.push(row);
            },
            None => {},
        }
    }
    assert(all.take(lines@.len() as int) == all);
    out
}

/// The enroute beacons of a file, given line by line.
pub fn parse_ndb_nav_lines(lines: &Vec<String>) -> (out: Vec<NdbNavRow>)
    ensures
        text::views(out@) == text::collect(text::views(lines@), ndb_nav_reader()),
{
    let mut out: Vec<NdbNavRow> = Vec::new();
    let ghost all = text::views(lines@);
    let ghost f = ndb_nav_reader();
    assert(all.take(0).len() == 0);
    assert(text::views(out@) =~= text::collect(all.take(0), f));
    for i in 0..lines.len()
        invariant
            all == text::views(lines@),
            f == ndb_nav_reader(),
            text::views(out@) == text::collect(all.take(i as int), f),
    {
        proof {
            text::lemma_collect_step(all, f, i as int);
            assert(all[i as int] == lines@[i as int]@);
        }
        match parse_ndb_nav_record(lines[i].as_str()) {
            Some(row) => {
                proof {
                    text::lemma_views_push(out@, row);
                }
                out.push(row);
            },
            None => {},
        }
    }
    assert(all.take(lines@.len() as int) == all);
    out
}

/// The trimmed fields of one comma-separated procedure line.
pub struct CifpFields {
    fields: Vec<String>,
}

impl View for CifpFields {
    type V = Seq<Seq<char>>;

    closed spec fn view(&self) -> Seq<Seq<char>> {
        text::views(self.fields@)
    }
}

impl CifpFields {
    /// The field at a position.
    pub fn get(&self, idx: usize) -> (r: Option<&str>)
        ensures
            match r {
                Some(field) => idx < self@.len() && field@ == self@[idx as int],
                None => idx >= self@.len(),
            },
    {
        if idx < self.fields.len() {
            Some(self.fields[idx].as_str())
        } else {
            None
        }
    }

    /// The first field.
    pub fn first(&self) -> (r: Option<&str>)
        ensures
            match r {
                Some(field) => self@.len() > 0 && field@ == self@[0],
                None => self@.len() == 0,
            },
    {
        self.get(0)
    }

    /// All fields in order.
    pub fn iter(&self) -> (out: Vec<&str>)
        ensures
            out@.len() == self@.len(),
            forall|k: int| 0 <= k < out@.len() ==> #[trigger] out@[k]@ == self@[k],
    {
        let mut out: Vec<&str> = Vec::new();
        for i in 0..self.fields.len()
            invariant
                out@.len() == i,
                forall|k: int| 0 <= k < i ==> #[trigger] out@[k]@ == self@[k],
        {
            out.push(self.fields[i].as_str());
        }
        out
    }
}

/// The fields of a line that starts with `prefix` and has at least `min_fields` of them.
pub open spec fn cifp_fields(line: Seq<char>, prefix: Seq<char>, min_fields: int) -> Option<
    Seq<Seq<char>>,
> {
    let body = text::trim_end(Blank::LineEnd, line);
    let fields = text::trimmed_pieces(Blank::Ascii, body, ',');
    if prefix.is_prefix_of(body) && fields.len() >= min_fields {
        Some(fields)
    } else {
        None
    }
}

/// Splits one line into its trimmed fields.
pub fn split_cifp_fields(line: &str, prefix: &str, min_fields: usize) -> (r: Option<CifpFields>)
    ensures
        text::opt(r) == cifp_fields(line@, prefix@, min_fields as int),
{
    let body: String = text::trimmed_end(Blank::LineEnd, line);
    let cs: Vec<char> = text::chars_of(body.as_str());
    if !text::has_prefix(&cs, prefix) {
        return None;
    }
    let fields: Vec<String> = text::split_trimmed(Blank::Ascii, &cs, ',');
    assert(text::views(fields@).len() == fields@.len());
    if fields.len() < min_fields {
        return None;
    }
    Some(CifpFields { fields })
}

/// The splitting of procedure lines, line by line.
pub open spec fn cifp_reader(prefix: Seq<char>, min_fields: int) -> spec_fn(
    int,
    Seq<char>,
) -> Option<Seq<Seq<char>>> {
    |i: int, line: Seq<char>| cifp_fields(line, prefix, min_fields)
}

/// The fields of every line that starts with `prefix` and has at least `min_fields` of them.
pub fn for_each_cifp_line(lines: &Vec<String>, prefix: &str, min_fields: usize) -> (out: Vec<
    CifpFields,
>)
    ensures
        text::views(out@) == text::collect(
            text::views(lines@),
            cifp_reader(prefix@, min_fields as int),
        ),
{
    let mut out: Vec<CifpFields> = Vec::new();
    let ghost all = text::views(lines@);
    let ghost f = cifp_reader(prefix@, min_fields as int);
    assert(all.take(0).len() == 0);
    assert(text::views(out@) =~= text::collect(all.take(0), f));
    for i in 0..lines.len()
        invariant
            all == text::views(lines@),
            f == cifp_reader(prefix@, min_fields as int),
            text::views(out@) == text::collect(all.take(i as int), f),
    {
        proof {
            text::lemma_collect_step(all, f, i as int);
            assert(all[i as int] == lines@[i as int]@);
        }
        match split_cifp_fields(lines[i].as_str(), prefix, min_fields) {
            Some(row) => {
                proof {
                    text::lemma_views_push(out@, row);
                }
                out.push(row);
            },
            None => {},
        }
    }
    assert(all.take(lines@.len() as int) == all);
    out
}

/// No line holds both a terminal and an enroute waypoint, and a waypoint of either kind lies in a
/// supported region.
pub proof fn waypoints_are_read_separately(line: Seq<char>, number: int)
    ensures
        !(terminal_waypoint(line, number) is Some && enroute_waypoint(line, number) is Some),
        terminal_waypoint(line, number) matches Some(row) ==> supported_region(row.icao_code),
        enroute_waypoint(line, number) matches Some(row) ==> supported_region(row.icao_code),
{
}

/// No line holds both a VHF navigation aid and a beacon.
pub proof fn navigation_aids_are_read_separately(line: Seq<char>)
    ensures
        !(vhf_nav(line) is Some && ndb_nav(line) is Some),
{
    reveal_strlit("NDB");
    reveal_strlit("VOR/DME");
    reveal_strlit("DME-ILS");
    let kind = text::words(Blank::Unicode, line).last();
    if kind == "NDB"@ {
        assert(kind.len() == 3);
    }
}

/// A type code spells three characters: its lowest byte is the first, its highest the third.
pub proof fn type_codes_spell_three_characters(
    code: Seq<char>,
    value: u64,
    a: char,
    b: char,
    c: char,
)
    requires
        33 <= a as int <= 126,
        33 <= b as int <= 126,
        33 <= c as int <= 126,
        numeric::unsigned(code) == Some(value),
        value == a as int + 256 * (b as int) + 65536 * (c as int),
    ensures
        waypoint_type(code) == Some(seq![a, b, c]),
{
    lemma_bytes(value as int, a as int, b as int, c as int);
    assert(value >= 0x1000);
    let spelled = seq![a] + seq![b] + seq![c];
    assert(byte_char(a as int) == a && byte_char(b as int) == b && byte_char(c as int) == c);
    assert(spelled =~= seq![a, b, c]);
    text::trimming_keeps_what_is_trimmed(Blank::Unicode, spelled);
}

proof fn lemma_bytes(value: int, a: int, b: int, c: int)
    requires
        33 <= a <= 126,
        33 <= b <= 126,
        33 <= c <= 126,
        value == a + 256 * b + 65536 * c,
    ensures
        value % 256 == a,
        value / 256 % 256 == b,
        value / 65536 == c,
        value < 0x100_0000,
{
    assert(value / 256 == b + 256 * c);
}

/// A type code that is no number, or takes more than three bytes, spells nothing.
pub proof fn other_type_codes_spell_nothing(code: Seq<char>)
    ensures
        numeric::unsigned(code) is None ==> waypoint_type(code) is None,
        numeric::unsigned(code) matches Some(value) ==> (waypoint_type(code) is None <==> value
            >= 16777216),
{
}

/// Waypoints are read in thirteen regions.
pub proof fn regions_are_known_by_their_codes(icao: Seq<char>)
    ensures
        supported_region(icao) <==> {
            &&& icao.len() == 2
            &&& {
                ||| icao[0] == 'V' && (icao[1] == 'H' || icao[1] == 'M')
                ||| icao[0] == 'Z' && (icao[1] == 'B' || icao[1] == 'S' || icao[1] == 'H'
                    || icao[1] == 'G' || icao[1] == 'Y' || icao[1] == 'U' || icao[1] == 'W'
                    || icao[1] == 'L' || icao[1] == 'J' || icao[1] == 'P' || icao[1] == 'Z')
            }
        },
{
    reveal_strlit("VH");
    reveal_strlit("VM");
    reveal_strlit("ZB");
    reveal_strlit("ZS");
    reveal_strlit("ZH");
    reveal_strlit("ZG");
    reveal_strlit("ZY");
    reveal_strlit("ZU");
    reveal_strlit("ZW");
    reveal_strlit("ZL");
    reveal_strlit("ZJ");
    reveal_strlit("ZP");
    reveal_strlit("ZZ");
    assert("VH"@ =~= seq!['V', 'H']);
    assert("VM"@ =~= seq!['V', 'M']);
    assert("ZB"@ =~= seq!['Z', 'B']);
    assert("ZS"@ =~= seq!['Z', 'S']);
    assert("ZH"@ =~= seq!['Z', 'H']);
    assert("ZG"@ =~= seq!['Z', 'G']);
    assert("ZY"@ =~= seq!['Z', 'Y']);
    assert("ZU"@ =~= seq!['Z', 'U']);
    assert("ZW"@ =~= seq!['Z', 'W']);
    assert("ZL"@ =~= seq!['Z', 'L']);
    assert("ZJ"@ =~= seq!['Z', 'J']);
    assert("ZP"@ =~= seq!['Z', 'P']);
    assert("ZZ"@ =~= seq!['Z', 'Z']);
    if icao.len() == 2 {
        assert(icao =~= seq![icao[0], icao[1]]);
    }
}

/// A waypoint behind the three header lines is read by its words: latitude, longitude, identifier,
/// region, ICAO code and type code. It is enroute where its region says so.
pub proof fn waypoints_are_read_by_their_words(line: Seq<char>, number: int)
    ensures
        ({
            let w = text::words(Blank::Unicode, line);
            let whole = number > 3 && w.len() >= 6 && supported_region(w[4])
                && numeric::float_literal(w[0]) && numeric::float_literal(w[1])
                && waypoint_type(w[5]) is Some;
            &&& enroute_waypoint(line, number) is Some <==> whole && w[3] == "ENRT"@
            &&& terminal_waypoint(line, number) is Some <==> whole && w[3] != "ENRT"@
            &&& enroute_waypoint(line, number) matches Some(row) ==> {
                &&& row.latitude == w[0]
                &&& row.longitude == w[1]
                &&& row.waypoint_identifier == w[2]
                &&& row.icao_code == w[4]
                &&& Some(row.waypoint_type) == waypoint_type(w[5])
            }
            &&& terminal_waypoint(line, number) matches Some(row) ==> {
                &&& row.latitude == w[0]
                &&& row.longitude == w[1]
                &&& row.waypoint_identifier == w[2]
                &&& row.waypoint_name == w[2]
                &&& row.region_code == w[3]
                &&& row.icao_code == w[4]
                &&& Some(row.waypoint_type) == waypoint_type(w[5])
            }
        }),
{
}

/// The waypoints of a file are those of its lines, where lines are counted from one.
pub proof fn every_waypoint_of_a_file_is_read(
    lines: Seq<Seq<char>>,
    terminal: TerminalWaypointRow<Seq<char>>,
    enroute: EnrouteWaypointRow<Seq<char>>,
)
    ensures
        text::collect(lines, terminal_waypoint_reader()).contains(terminal) <==> exists|i: int|
            0 <= i < lines.len() && terminal_waypoint(#[trigger] lines[i], i + 1) == Some(terminal),
        text::collect(lines, enroute_waypoint_reader()).contains(enroute) <==> exists|i: int|
            0 <= i < lines.len() && enroute_waypoint(#[trigger] lines[i], i + 1) == Some(enroute),
{
    let f = terminal_waypoint_reader();
    let g = enroute_waypoint_reader();
    text::lemma_collect_contains(lines, f, terminal);
    text::lemma_collect_contains(lines, g, enroute);
    assert forall|i: int| 0 <= i < lines.len() implies f(i, #[trigger] lines[i])
        == terminal_waypoint(lines[i], i + 1) && g(i, lines[i]) == enroute_waypoint(
        lines[i],
        i + 1,
    ) by {}
}

/// A frequency has its point behind the third digit, and nothing else is changed.
pub proof fn frequencies_have_their_point_behind_three_digits(raw: Seq<char>)
    requires
        raw.len() >= 4,
    ensures
        vhf_frequency(raw).len() == raw.len() + 1,
        vhf_frequency(raw)[3] == '.',
        forall|i: int| 0 <= i < 3 ==> #[trigger] vhf_frequency(raw)[i] == raw[i],
        forall|i: int| 3 < i <= raw.len() ==> #[trigger] vhf_frequency(raw)[i] == raw[i - 1],
{
}

/// A station is read by its words, and only stations of two kinds are read.
pub proof fn stations_are_read_by_their_words(line: Seq<char>)
    ensures
        ({
            let w = text::words(Blank::Unicode, line);
            let last = w[w.len() - 1];
            &&& vhf_nav(line) is Some <==> {
                &&& w.len() >= 12
                &&& supported_region(w[9])
                &&& last == "VOR/DME"@ || last == "DME-ILS"@
                &&& w[0] == "3"@ || w[0] == "12"@
                &&& numeric::float_literal(w[1])
                &&& numeric::float_literal(w[2])
                &&& numeric::float_literal(w[3])
                &&& w[4].len() >= 4
                &&& numeric::float_literal(vhf_frequency(w[4]))
            }
            &&& vhf_nav(line) matches Some(row) ==> {
                &&& row.latitude == w[1]
                &&& row.longitude == w[2]
                &&& row.dme_elevation == w[3]
                &&& row.navaid_frequency == vhf_frequency(w[4])
                &&& row.range == w[5]
                &&& row.navaid_identifier == w[7]
                &&& w[8] == "ENRT"@ ==> row.airport_identifier is None
                &&& w[8] != "ENRT"@ ==> row.airport_identifier == Some(w[8])
                &&& row.icao_code == w[9]
                &&& row.navaid_name == Some(w[10])
                &&& last == "VOR/DME"@ ==> row.navaid_class == "VDHW "@
                &&& last == "DME-ILS"@ ==> row.navaid_class == " IT N"@
                &&& w[0] == "12"@ ==> row.has_dme_ident
                &&& w[0] == "3"@ ==> !row.has_dme_ident
            }
        }),
{
    reveal_strlit("3");
    reveal_strlit("12");
    reveal_strlit("VOR/DME");
    reveal_strlit("DME-ILS");
    assert("3"@.len() == 1);
    assert("12"@.len() == 2);
    assert("VOR/DME"@[0] != "DME-ILS"@[0]);
}

/// A beacon is read by its words, and only enroute beacons are read.
pub proof fn beacons_are_read_by_their_words(line: Seq<char>)
    ensures
        ({
            let w = text::words(Blank::Unicode, line);
            &&& ndb_nav(line) is Some <==> {
                &&& w.len() >= 12
                &&& supported_region(w[9])
                &&& w[8] == "ENRT"@
                &&& w[w.len() - 1] == "NDB"@
                &&& numeric::float_literal(w[1])
                &&& numeric::float_literal(w[2])
                &&& numeric::float_literal(w[4])
                &&& numeric::float_literal(w[5])
            }
            &&& ndb_nav(line) matches Some(row) ==> {
                &&& row.latitude == w[1]
                &&& row.longitude == w[2]
                &&& row.navaid_frequency == w[4]
                &&& row.range == w[5]
                &&& row.navaid_identifier == w[7]
                &&& row.icao_code == w[9]
                &&& row.navaid_name == w[10]
            }
        }),
{
}

/// The stations and beacons of a file are those of its lines.
pub proof fn every_aid_of_a_file_is_read(
    lines: Seq<Seq<char>>,
    station: VhfNavRow<Seq<char>>,
    beacon: NdbNavRow<Seq<char>>,
)
    ensures
        text::collect(lines, vhf_nav_reader()).contains(station) <==> exists|i: int|
            0 <= i < lines.len() && vhf_nav(#[trigger] lines[i]) == Some(station),
        text::collect(lines, ndb_nav_reader()).contains(beacon) <==> exists|i: int|
            0 <= i < lines.len() && ndb_nav(#[trigger] lines[i]) == Some(beacon),
{
    let f = vhf_nav_reader();
    let g = ndb_nav_reader();
    text::lemma_collect_contains(lines, f, station);
    text::lemma_collect_contains(lines, g, beacon);
    assert forall|i: int| 0 <= i < lines.len() implies f(i, #[trigger] lines[i]) == vhf_nav(lines[i])
        && g(i, lines[i]) == ndb_nav(lines[i]) by {}
}

/// A procedure line gives its trimmed pieces between commas, where it begins with the prefix and
/// has pieces enough.
pub proof fn procedure_lines_give_their_pieces(
    line: Seq<char>,
    prefix: Seq<char>,
    min_fields: int,
)
    ensures
        ({
            let body = text::trim_end(Blank::LineEnd, line);
            let pieces = text::trimmed_pieces(Blank::Ascii, body, ',');
            &&& cifp_fields(line, prefix, min_fields) is Some <==> prefix.is_prefix_of(body)
                && pieces.len() >= min_fields
            &&& cifp_fields(line, prefix, min_fields) matches Some(fields) ==> fields == pieces
        }),
{
}

/// Every field of a `WaypointRecord` is seen under its own name.
pub proof fn every_field_of_waypoint_record_is_seen(it: WaypointRecord)
    ensures
        it@.is_enroute == it.is_enroute,
        it@.region_code == it.region_code@,
        it@.icao_code == it.icao_code@,
        it@.waypoint_identifier == it.waypoint_identifier@,
        it@.waypoint_type == it.waypoint_type@,
        it@.latitude == it.latitude@,
        it@.longitude == it.longitude@,
{
}

/// Every field of a `TerminalWaypointRow` is seen under its own name.
pub proof fn every_field_of_terminal_waypoint_row_is_seen(it: TerminalWaypointRow)
    ensures
        it@.region_code == it.region_code@,
        it@.icao_code == it.icao_code@,
        it@.waypoint_identifier == it.waypoint_identifier@,
        it@.waypoint_name == it.waypoint_name@,
        it@.waypoint_type == it.waypoint_type@,
        it@.latitude == it.latitude@,
        it@.longitude == it.longitude@,
{
}

/// Every field of an `EnrouteWaypointRow` is seen under its own name.
pub proof fn every_field_of_enroute_waypoint_row_is_seen(it: EnrouteWaypointRow)
    ensures
        it@.icao_code == it.icao_code@,
        it@.waypoint_identifier == it.waypoint_identifier@,
        it@.waypoint_type == it.waypoint_type@,
        it@.latitude == it.latitude@,
        it@.longitude == it.longitude@,
{
}

/// Every field of a `VhfNavRow` is seen under its own name.
pub proof fn every_field_of_vhf_nav_row_is_seen(it: VhfNavRow)
    ensures
        it@.airport_identifier == text::opt(it.airport_identifier),
        it@.icao_code == it.icao_code@,
        it@.navaid_identifier == it.navaid_identifier@,
        it@.navaid_name == text::opt(it.navaid_name),
        it@.navaid_frequency == it.navaid_frequency@,
        it@.navaid_class == it.navaid_class@,
        it@.latitude == it.latitude@,
        it@.longitude == it.longitude@,
        it@.dme_elevation == it.dme_elevation@,
        it@.range == it.range@,
        it@.has_dme_ident == it.has_dme_ident,
{
}

/// Every field of a `NdbNavRow` is seen under its own name.
pub proof fn every_field_of_ndb_nav_row_is_seen(it: NdbNavRow)
    ensures
        it@.icao_code == it.icao_code@,
        it@.navaid_identifier == it.navaid_identifier@,
        it@.navaid_name == it.navaid_name@,
        it@.navaid_frequency == it.navaid_frequency@,
        it@.latitude == it.latitude@,
        it@.longitude == it.longitude@,
        it@.range == it.range@,
{
}

} // verus!
