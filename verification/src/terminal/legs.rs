//! The fields of one leg of a procedure.

use crate::numeric;
use crate::parsers::CifpFields;
use crate::text;
use crate::text::Blank;
use vstd::prelude::*;

verus! {

/// The field at a position, without surrounding blanks; none where nothing is left of it.
pub open spec fn leg_field(fields: Seq<Seq<char>>, idx: int) -> Option<Seq<char>> {
    if 0 <= idx < fields.len() && text::trim(Blank::Unicode, fields[idx]).len() > 0 {
        Some(text::trim(Blank::Unicode, fields[idx]))
    } else {
        None
    }
}

/// The field at a position of a line.
pub fn extract_opt_field(fields: &CifpFields, idx: usize) -> (r: Option<String>)
    ensures
        text::opt(r) == leg_field(fields@, idx as int),
{
    match fields.get(idx) {
        Some(field) => {
            let value: String = text::trimmed(Blank::Unicode, field);
            if text::is_empty(value.as_str()) {
                None
            } else {
                Some(value)
            }
        },
        None => None,
    }
}

/// An altitude in feet: a flight level counts hundreds of feet, anything else stands as it is. A
/// flight level that is no number, or too large a one, gives none.
pub open spec fn altitude(s: Seq<char>) -> Option<Seq<char>> {
    let alt = text::trim(Blank::Unicode, s);
    if alt.len() == 0 {
        None
    } else if "FL"@.is_prefix_of(alt) {
        match numeric::signed(alt.skip("FL"@.len() as int)) {
            Some(level) => if i64::MIN <= level * 100 <= i64::MAX {
                Some(numeric::signed_decimal(level * 100))
            } else {
                None
            },
            None => None,
        }
    } else {
        Some(alt)
    }
}

/// Reads an altitude.
pub fn parse_altitude(alt_str: &str) -> (r: Option<String>)
    ensures
        text::opt(r) == altitude(alt_str@),
{
    let alt: String = text::trimmed(Blank::Unicode, alt_str);
    let cs: Vec<char> = text::chars_of(alt.as_str());
    if cs.len() == 0 {
        return None;
    }
    if !text::has_prefix(&cs, "FL") {
        return Some(alt);
    }
    proof {
        reveal_strlit("FL");
    }
    let level: String = text::text_of(&cs, 2, cs.len());
    assert(level@ =~= alt@.skip(2));
    match numeric::parse_signed(level.as_str()) {
        Some(value) => match value.checked_mul(100) {
            Some(feet) => Some(numeric::write_signed_decimal(feet)),
            None => None,
        },
        None => None,
    }
}

/// A required navigation performance: a number of two digits times a negative power of ten.
#[derive(Clone, Copy, PartialEq, Eq, Debug, Structural)]
pub struct Rnp {
    pub numerator: u32,
    pub exponent: u32,
}

/// The performance that three digits denote: two of the number and one of the exponent.
pub open spec fn rnp_value(s: Seq<char>) -> Option<Rnp> {
    let t = text::trim(Blank::Unicode, s);
    if t.len() == 3 && numeric::all_digits(t) {
        Some(
            Rnp {
                numerator: (10 * numeric::digit_value(t[0]) + numeric::digit_value(t[1])) as u32,
                exponent: numeric::digit_value(t[2]) as u32,
            },
        )
    } else {
        None
    }
}

/// Reads a required navigation performance.
pub fn convert_rnp(rnp: &str) -> (r: Option<Rnp>)
    ensures
        r == rnp_value(rnp@),
{
    let trimmed: String = text::trimmed(Blank::Unicode, rnp);
    let cs: Vec<char> = text::chars_of(trimmed.as_str());
    if cs.len() != 3 || !numeric::is_digit(cs[0]) || !numeric::is_digit(cs[1])
        || !numeric::is_digit(cs[2]) {
        return None;
    }
    Some(
        Rnp {
            numerator: 10 * (cs[0] as u32 - '0' as u32) + (cs[1] as u32 - '0' as u32),
            exponent: cs[2] as u32 - '0' as u32,
        },
    )
}

/// A number in text that is divided later: the checked literal without surrounding blanks.
pub open spec fn number_text(s: Seq<char>) -> Option<Seq<char>> {
    let t = text::trim(Blank::Unicode, s);
    if numeric::float_literal(t) {
        Some(t)
    } else {
        None
    }
}

/// Reads a number that is divided later.
pub fn convert_number(value: &str) -> (r: Option<String>)
    ensures
        text::opt(r) == number_text(value@),
{
    let trimmed: String = text::trimmed(Blank::Unicode, value);
    if numeric::is_float_literal(trimmed.as_str()) {
        Some(trimmed)
    } else {
        None
    }
}

/// The number in the field at a position.
pub open spec fn leg_number(fields: Seq<Seq<char>>, idx: int) -> Option<Seq<char>> {
    if 0 <= idx < fields.len() {
        number_text(fields[idx])
    } else {
        None
    }
}

fn extract_number(fields: &CifpFields, idx: usize) -> (r: Option<String>)
    ensures
        text::opt(r) == leg_number(fields@, idx as int),
{
    match fields.get(idx) {
        Some(field) => convert_number(field),
        None => None,
    }
}

/// The altitude in the field at a position.
pub open spec fn leg_altitude(fields: Seq<Seq<char>>, idx: int) -> Option<Seq<char>> {
    if 0 <= idx < fields.len() {
        altitude(fields[idx])
    } else {
        None
    }
}

fn extract_altitude(fields: &CifpFields, idx: usize) -> (r: Option<String>)
    ensures
        text::opt(r) == leg_altitude(fields@, idx as int),
{
    match fields.get(idx) {
        Some(field) => parse_altitude(field),
        None => None,
    }
}

/// The sequence number in the first field, between two byte positions.
pub open spec fn leg_seqno(fields: Seq<Seq<char>>, from: int, to: int) -> Option<Seq<char>> {
    let source = if fields.len() > 0 {
        fields[0]
    } else {
        seq![]
    };
    match text::byte_slice(source, from, to) {
        Some(part) => if text::trim(Blank::Unicode, part).len() > 0 {
            Some(text::trim(Blank::Unicode, part))
        } else {
            None
        },
        None => None,
    }
}

fn extract_seqno(fields: &CifpFields, from: usize, to: usize) -> (r: Option<String>)
    ensures
        text::opt(r) == leg_seqno(fields@, from as int, to as int),
{
    let source: String = match fields.first() {
        Some(field) => text::copy(field),
        None => {
            let empty: String = String::new();
            assert(empty@ =~= seq![]);
            empty
        },
    };
    match text::slice_bytes(source.as_str(), from, to) {
        Some(part) => {
            let seqno: String = text::trimmed(Blank::Unicode, part.as_str());
            if text::is_empty(seqno.as_str()) {
                None
            } else {
                Some(seqno)
            }
        },
        None => None,
    }
}

/// What a leg says besides its fixes; the numbers are checked literals that are not divided yet.
#[verifier::ext_equal]
pub struct TerminalRowFields<T = String> {
    pub procedure_identifier: Option<T>,
    pub route_type: Option<T>,
    pub transition_identifier: Option<T>,
    pub seqno: Option<T>,
    pub waypoint_description_code: Option<T>,
    pub turn_direction: Option<T>,
    pub path_termination: Option<T>,
    pub altitude_description: Option<T>,
    pub altitude1: Option<T>,
    pub altitude2: Option<T>,
    pub transition_altitude: Option<T>,
    pub arc_radius: Option<T>,
    pub course: Option<T>,
    pub rho: Option<T>,
    pub theta: Option<T>,
    pub rnp: Option<Rnp>,
    pub route_distance: Option<T>,
    pub speed_limit: Option<T>,
    pub speed_limit_description: Option<T>,
    pub vertical_angle: Option<T>,
}

impl View for TerminalRowFields {
    type V = TerminalRowFields<Seq<char>>;

    open spec fn view(&self) -> Self::V {
        TerminalRowFields {
            procedure_identifier: text::opt(self.procedure_identifier),
            route_type: text::opt(self.route_type),
            transition_identifier: text::opt(self.transition_identifier),
            seqno: text::opt(self.seqno),
            waypoint_description_code: text::opt(self.waypoint_description_code),
            turn_direction: text::opt(self.turn_direction),
            path_termination: text::opt(self.path_termination),
            altitude_description: text::opt(self.altitude_description),
            altitude1: text::opt(self.altitude1),
            altitude2: text::opt(self.altitude2),
            transition_altitude: text::opt(self.transition_altitude),
            arc_radius: text::opt(self.arc_radius),
            course: text::opt(self.course),
            rho: text::opt(self.rho),
            theta: text::opt(self.theta),
            rnp: self.rnp,
            route_distance: text::opt(self.route_distance),
            speed_limit: text::opt(self.speed_limit),
            speed_limit_description: text::opt(self.speed_limit_description),
            vertical_angle: text::opt(self.vertical_angle),
        }
    }
}

/// The fields of a leg. An altitude without a second one and without a description is one to be
/// met exactly.
pub open spec fn row_fields(fields: Seq<Seq<char>>, from: int, to: int) -> TerminalRowFields<
    Seq<char>,
> {
    TerminalRowFields {
        procedure_identifier: leg_field(fields, 2),
        route_type: leg_field(fields, 1),
        transition_identifier: leg_field(fields, 3),
        seqno: leg_seqno(fields, from, to),
        waypoint_description_code: leg_field(fields, 8),
        turn_direction: leg_field(fields, 9),
        path_termination: leg_field(fields, 11),
        altitude_description: if leg_field(fields, 22) is None && leg_altitude(fields, 23) is Some
            && leg_altitude(fields, 24) is None {
            Some("@"@)
        } else {
            leg_field(fields, 22)
        },
        altitude1: leg_altitude(fields, 23),
        altitude2: leg_altitude(fields, 24),
        transition_altitude: leg_field(fields, 25),
        arc_radius: leg_number(fields, 17),
        course: leg_number(fields, 20),
        rho: leg_number(fields, 19),
        theta: leg_number(fields, 18),
        rnp: if 10 < fields.len() {
            rnp_value(fields[10])
        } else {
            None
        },
        route_distance: leg_number(fields, 21),
        speed_limit: leg_field(fields, 27),
        speed_limit_description: leg_field(fields, 26),
        vertical_angle: leg_number(fields, 28),
    }
}

/// Reads the fields of a leg.
pub fn collect_terminal_row_fields(fields: &CifpFields, seqno_start: usize, seqno_end: usize) -> (r:
    TerminalRowFields)
    ensures
        r@ == row_fields(fields@, seqno_start as int, seqno_end as int),
{
    let description: Option<String> = extract_opt_field(fields, 22);
    let altitude1: Option<String> = extract_altitude(fields, 23);
    let altitude2: Option<String> = extract_altitude(fields, 24);
    let altitude_description: Option<String> = if description.is_none() && altitude1.is_some()
        && altitude2.is_none() {
        Some(text::copy("@"))
    } else {
        description
    };
    TerminalRowFields {
        procedure_identifier: extract_opt_field(fields, 2),
        route_type: extract_opt_field(fields, 1),
        transition_identifier: extract_opt_field(fields, 3),
        seqno: extract_seqno(fields, seqno_start, seqno_end),
        waypoint_description_code: extract_opt_field(fields, 8),
        turn_direction: extract_opt_field(fields, 9),
        path_termination: extract_opt_field(fields, 11),
        altitude_description,
        altitude1,
        altitude2,
        transition_altitude: extract_opt_field(fields, 25),
        arc_radius: extract_number(fields, 17),
        course: extract_number(fields, 20),
        rho: extract_number(fields, 19),
        theta: extract_number(fields, 18),
        rnp: match fields.get(10) {
            Some(field) => convert_rnp(field),
            None => None,
        },
        route_distance: extract_number(fields, 21),
        speed_limit: extract_opt_field(fields, 27),
        speed_limit_description: extract_opt_field(fields, 26),
        vertical_angle: extract_number(fields, 28),
    }
}

/// Ten to the power of `n`.
pub open spec fn power_of_ten(n: nat) -> int
    decreases n,
{
    if n == 0 {
        1
    } else {
        10 * power_of_ten((n - 1) as nat)
    }
}

proof fn lemma_power_of_ten_grows(a: nat, b: nat)
    requires
        a <= b,
    ensures
        1 <= power_of_ten(a) <= power_of_ten(b),
    decreases b,
{
    if a < b {
        lemma_power_of_ten_grows(a, (b - 1) as nat);
    } else if a > 0 {
        lemma_power_of_ten_grows((a - 1) as nat, (a - 1) as nat);
    }
}

/// Whether a leg needs an authorization: its performance is better than three tenths of a mile,
/// or just that on an arc to a fix.
pub open spec fn authorized(rnp: Option<Rnp>, path_termination: Option<Seq<char>>) -> bool {
    match rnp {
        Some(value) => {
            ||| 10 * value.numerator < 3 * power_of_ten(value.exponent as nat)
            ||| {
                &&& 10 * value.numerator == 3 * power_of_ten(value.exponent as nat)
                &&& path_termination is Some
                &&& numeric::reads(text::trim(Blank::Unicode, path_termination->0), "RF"@)
            }
        },
        None => false,
    }
}

/// Tests whether a leg needs an authorization.
pub fn row_requires_authorization(rnp: Option<Rnp>, path_termination: &Option<String>) -> (r: bool)
    ensures
        r == authorized(rnp, text::opt(*path_termination)),
{
    let value: Rnp = match rnp {
        Some(value) => value,
        None => return false,
    };
    let scaled: u64 = 10 * value.numerator as u64;
    let mut limit: u64 = 3;
    let mut i: u32 = 0;
    while i < value.exponent
        invariant
            i <= value.exponent,
            scaled == 10 * value.numerator,
            limit == 3 * power_of_ten(i as nat),
            rnp == Some(value),
        decreases value.exponent - i,
    {
        if limit > scaled {
            proof {
                lemma_power_of_ten_grows(i as nat, value.exponent as nat);
            }
            return true;
        }
        limit = limit * 10;
        i = i + 1;
    }
    if scaled < limit {
        return true;
    }
    if scaled > limit {
        return false;
    }
    match path_termination {
        Some(path) => {
            let trimmed: String = text::trimmed(Blank::Unicode, path.as_str());
            numeric::reads_same(trimmed.as_str(), "RF")
        },
        None => false,
    }
}

/// What a procedure's legs say of its authorization: a single one that needs it is enough.
pub open spec fn group_authorized(group: Seq<TerminalRowFields<Seq<char>>>) -> bool {
    exists|i: int|
        0 <= i < group.len() && authorized((#[trigger] group[i]).rnp, group[i].path_termination)
}

/// The authorization mark of a procedure, from its legs.
pub fn compute_authorization_required(group: &Vec<TerminalRowFields>) -> (r: Option<String>)
    ensures
        text::opt(r) == (if group_authorized(text::views(group@)) {
            Some("Y"@)
        } else {
            None
        }),
{
    let ghost all = text::views(group@);
    for i in 0..group.len()
        invariant
            all == text::views(group@),
            forall|k: int|
                0 <= k < i ==> !authorized((#[trigger] all[k]).rnp, all[k].path_termination),
    {
        assert(all[i as int] == group@[i as int]@);
        if row_requires_authorization(group[i].rnp, &group[i].path_termination) {
            assert(authorized(all[i as int].rnp, all[i as int].path_termination));
            return Some(text::copy("Y"));
        }
    }
    None
}

/// A field of a leg is what stands between the blanks; a blank or missing field is none.
pub proof fn a_field_is_what_stands_between_the_blanks(
    fields: Seq<Seq<char>>,
    idx: int,
    value: Seq<char>,
)
    ensures
        leg_field(fields, idx) == Some(value) <==> {
            &&& 0 <= idx < fields.len()
            &&& value.len() > 0
            &&& value == text::trim(Blank::Unicode, fields[idx])
        },
{
}

/// A number of a leg is what stands between the blanks of its field, where that is a number.
pub proof fn a_number_is_what_stands_between_the_blanks(
    fields: Seq<Seq<char>>,
    idx: int,
    value: Seq<char>,
)
    ensures
        leg_number(fields, idx) == Some(value) <==> {
            &&& 0 <= idx < fields.len()
            &&& value == text::trim(Blank::Unicode, fields[idx])
            &&& numeric::float_literal(value)
        },
{
}

/// Every property of a leg is read from the field that the file format has for it.
pub proof fn every_property_of_a_leg_has_its_own_field(
    fields: Seq<Seq<char>>,
    from: int,
    to: int,
)
    ensures
        ({
            let leg = row_fields(fields, from, to);
            &&& leg.route_type == leg_field(fields, 1)
            &&& leg.procedure_identifier == leg_field(fields, 2)
            &&& leg.transition_identifier == leg_field(fields, 3)
            &&& leg.waypoint_description_code == leg_field(fields, 8)
            &&& leg.turn_direction == leg_field(fields, 9)
            &&& leg.path_termination == leg_field(fields, 11)
            &&& leg.arc_radius == leg_number(fields, 17)
            &&& leg.theta == leg_number(fields, 18)
            &&& leg.rho == leg_number(fields, 19)
            &&& leg.course == leg_number(fields, 20)
            &&& leg.route_distance == leg_number(fields, 21)
            &&& leg.altitude1 == leg_altitude(fields, 23)
            &&& leg.altitude2 == leg_altitude(fields, 24)
            &&& leg.transition_altitude == leg_field(fields, 25)
            &&& leg.speed_limit_description == leg_field(fields, 26)
            &&& leg.speed_limit == leg_field(fields, 27)
            &&& leg.vertical_angle == leg_number(fields, 28)
            &&& leg.rnp == (if fields.len() > 10 {
                rnp_value(fields[10])
            } else {
                None
            })
            &&& leg_field(fields, 22) is Some ==> leg.altitude_description == leg_field(fields, 22)
            &&& leg_field(fields, 22) is None ==> leg.altitude_description == (if leg.altitude1
                is Some && leg.altitude2 is None {
                Some("@"@)
            } else {
                None
            })
        }),
{
}

/// The turn direction and the path terminator of a leg stand in its tenth and its twelfth field.
pub proof fn turn_and_path_terminator_stand_in_their_fields(
    fields: Seq<Seq<char>>,
    from: int,
    to: int,
    turn: Seq<char>,
    path: Seq<char>,
)
    requires
        fields.len() > 11,
        text::trim(Blank::Unicode, fields[9]) == turn,
        text::trim(Blank::Unicode, fields[11]) == path,
        turn.len() > 0,
        path.len() > 0,
    ensures
        row_fields(fields, from, to).turn_direction == Some(turn),
        row_fields(fields, from, to).path_termination == Some(path),
{
}

/// A leg keeps its properties when a field that is none of its own changes: only the properties that
/// are read from a field can change with it.
pub proof fn other_fields_do_not_touch_a_property(
    fields: Seq<Seq<char>>,
    k: int,
    value: Seq<char>,
    from: int,
    to: int,
)
    requires
        0 <= k < fields.len(),
    ensures
        ({
            let a = row_fields(fields, from, to);
            let b = row_fields(fields.update(k, value), from, to);
            &&& k != 0 ==> a.seqno == b.seqno
            &&& k != 1 ==> a.route_type == b.route_type
            &&& k != 2 ==> a.procedure_identifier == b.procedure_identifier
            &&& k != 3 ==> a.transition_identifier == b.transition_identifier
            &&& k != 8 ==> a.waypoint_description_code == b.waypoint_description_code
            &&& k != 9 ==> a.turn_direction == b.turn_direction
            &&& k != 10 ==> a.rnp == b.rnp
            &&& k != 11 ==> a.path_termination == b.path_termination
            &&& k != 17 ==> a.arc_radius == b.arc_radius
            &&& k != 18 ==> a.theta == b.theta
            &&& k != 19 ==> a.rho == b.rho
            &&& k != 20 ==> a.course == b.course
            &&& k != 21 ==> a.route_distance == b.route_distance
            &&& k != 22 && k != 23 && k != 24 ==> a.altitude_description == b.altitude_description
            &&& k != 23 ==> a.altitude1 == b.altitude1
            &&& k != 24 ==> a.altitude2 == b.altitude2
            &&& k != 25 ==> a.transition_altitude == b.transition_altitude
            &&& k != 26 ==> a.speed_limit_description == b.speed_limit_description
            &&& k != 27 ==> a.speed_limit == b.speed_limit
            &&& k != 28 ==> a.vertical_angle == b.vertical_angle
        }),
{
}

/// A flight level is written in feet, a hundred for each level; another altitude stands as it is,
/// and a blank one is none.
pub proof fn flight_levels_are_hundreds_of_feet(fields: Seq<Seq<char>>, idx: int, level: nat)
    requires
        0 <= idx < fields.len(),
        100 * level <= i64::MAX,
    ensures
        ({
            let t = text::trim(Blank::Unicode, fields[idx]);
            &&& t.len() == 0 ==> leg_altitude(fields, idx) is None
            &&& t.len() > 0 && !(t.len() >= 2 && t[0] == 'F' && t[1] == 'L') ==> leg_altitude(
                fields,
                idx,
            ) == Some(t)
            &&& t == seq!['F', 'L'] + numeric::decimal(level) ==> leg_altitude(fields, idx) == Some(
                numeric::decimal(100 * level),
            )
        }),
        forall|i: int| i < 0 || i >= fields.len() ==> leg_altitude(fields, i) is None,
{
    let t = text::trim(Blank::Unicode, fields[idx]);
    reveal_strlit("FL");
    assert("FL"@ =~= seq!['F', 'L']);
    if "FL"@.is_prefix_of(t) {
        assert(t[0] == "FL"@[0] && t[1] == "FL"@[1]);
    }
    if t == seq!['F', 'L'] + numeric::decimal(level) {
        numeric::decimal_reads_back(level);
        assert("FL"@.is_prefix_of(t));
        let digits = numeric::decimal(level);
        assert(t.skip(2) =~= digits);
        assert(numeric::digit(digits[0]));
        assert(numeric::without_sign(digits) == digits);
        assert(numeric::signed(digits) == Some(level as i64));
    }
}

/// A required navigation performance is written in three digits: two for the value and one for the
/// number of places that it is moved behind the point.
pub proof fn performance_is_two_digits_and_an_exponent(s: Seq<char>, a: int, b: int, e: int)
    requires
        0 <= a < 10,
        0 <= b < 10,
        0 <= e < 10,
        text::trim(Blank::Unicode, s) == seq![
            numeric::digit_char(a),
            numeric::digit_char(b),
            numeric::digit_char(e),
        ],
    ensures
        rnp_value(s) == Some(Rnp { numerator: (10 * a + b) as u32, exponent: e as u32 }),
{
    let t = text::trim(Blank::Unicode, s);
    assert(t.len() == 3 && t[0] == numeric::digit_char(a) && t[1] == numeric::digit_char(b) && t[2]
        == numeric::digit_char(e));
    assert(numeric::all_digits(t));
}

/// Anything but three digits is no required navigation performance.
pub proof fn performance_needs_three_digits(s: Seq<char>)
    requires
        ({
            let t = text::trim(Blank::Unicode, s);
            t.len() != 3 || !('0' <= t[0] <= '9') || !('0' <= t[1] <= '9') || !('0' <= t[2] <= '9')
        }),
    ensures
        rnp_value(s) is None,
{
    let t = text::trim(Blank::Unicode, s);
    if t.len() == 3 && numeric::all_digits(t) {
        assert(numeric::digit(t[0]) && numeric::digit(t[1]) && numeric::digit(t[2]));
    }
}

/// Authorization is required below three tenths of a mile, and at three tenths for a leg around a
/// fix; never above, and never without a required performance.
pub proof fn authorization_is_required_below_three_tenths(
    rnp: Rnp,
    path_termination: Option<Seq<char>>,
)
    ensures
        !authorized(None, path_termination),
        10 * rnp.numerator < 3 * vstd::arithmetic::power::pow(10, rnp.exponent as nat)
            ==> authorized(Some(rnp), path_termination),
        10 * rnp.numerator > 3 * vstd::arithmetic::power::pow(10, rnp.exponent as nat)
            ==> !authorized(Some(rnp), path_termination),
        10 * rnp.numerator == 3 * vstd::arithmetic::power::pow(10, rnp.exponent as nat) ==> {
            &&& path_termination is None ==> !authorized(Some(rnp), path_termination)
            &&& path_termination is Some ==> {
                let t = text::trim(Blank::Unicode, path_termination->0);
                authorized(Some(rnp), path_termination) <==> t.len() == 2 && (t[0] == 'R' || t[0]
                    == 'r') && (t[1] == 'F' || t[1] == 'f')
            }
        },
{
    lemma_power_of_ten(rnp.exponent as nat);
    reveal_strlit("RF");
    assert("RF"@ =~= seq!['R', 'F']);
    assert(numeric::lower("RF"@[0]) == 'r' && numeric::lower("RF"@[1]) == 'f');
    if path_termination is Some {
        let t = text::trim(Blank::Unicode, path_termination->0);
        if numeric::reads(t, "RF"@) {
            assert(numeric::lower(t[0]) == numeric::lower("RF"@[0]));
            assert(numeric::lower(t[1]) == numeric::lower("RF"@[1]));
        } else if t.len() == 2 && (t[0] == 'R' || t[0] == 'r') && (t[1] == 'F' || t[1] == 'f') {
            assert(numeric::lower(t[0]) == 'r' && numeric::lower(t[1]) == 'f');
            assert(numeric::reads(t, "RF"@));
        }
    }
}

proof fn lemma_power_of_ten(n: nat)
    ensures
        power_of_ten(n) == vstd::arithmetic::power::pow(10, n),
    decreases n,
{
    reveal(vstd::arithmetic::power::pow);
    if n > 0 {
        lemma_power_of_ten((n - 1) as nat);
    }
}

/// The sequence number of a leg is what stands between the blanks of a slice of its first field.
pub proof fn the_sequence_number_is_a_slice_of_the_first_field(
    fields: Seq<Seq<char>>,
    from: int,
    to: int,
)
    requires
        fields.len() > 0,
        forall|i: int| 0 <= i < fields[0].len() ==> (#[trigger] fields[0][i]) <= '\u{7F}',
        0 <= from <= to <= fields[0].len(),
    ensures
        ({
            let t = text::trim(Blank::Unicode, fields[0].subrange(from, to));
            row_fields(fields, from, to).seqno == (if t.len() > 0 {
                Some(t)
            } else {
                None
            })
        }),
{
    text::ascii_slices_count_characters(fields[0], from, to);
}

/// Every field of a `TerminalRowFields` is seen under its own name.
pub proof fn every_field_of_terminal_row_fields_is_seen(it: TerminalRowFields)
    ensures
        it@.procedure_identifier == text::opt(it.procedure_identifier),
        it@.route_type == text::opt(it.route_type),
        it@.transition_identifier == text::opt(it.transition_identifier),
        it@.seqno == text::opt(it.seqno),
        it@.waypoint_description_code == text::opt(it.waypoint_description_code),
        it@.turn_direction == text::opt(it.turn_direction),
        it@.path_termination == text::opt(it.path_termination),
        it@.altitude_description == text::opt(it.altitude_description),
        it@.altitude1 == text::opt(it.altitude1),
        it@.altitude2 == text::opt(it.altitude2),
        it@.transition_altitude == text::opt(it.transition_altitude),
        it@.arc_radius == text::opt(it.arc_radius),
        it@.course == text::opt(it.course),
        it@.rho == text::opt(it.rho),
        it@.theta == text::opt(it.theta),
        it@.rnp == it.rnp,
        it@.route_distance == text::opt(it.route_distance),
        it@.speed_limit == text::opt(it.speed_limit),
        it@.speed_limit_description == text::opt(it.speed_limit_description),
        it@.vertical_angle == text::opt(it.vertical_angle),
{
}

/// Authorization is required of a group where it is of one of its legs.
pub proof fn a_group_is_authorized_by_one_of_its_legs(
    group: Seq<TerminalRowFields<Seq<char>>>,
    i: int,
)
    ensures
        0 <= i < group.len() && authorized(group[i].rnp, group[i].path_termination)
            ==> group_authorized(group),
        group_authorized(Seq::empty()) == false,
        group_authorized(group) ==> group.len() > 0,
        group.len() == 1 ==> group_authorized(group) == authorized(
            group[0].rnp,
            group[0].path_termination,
        ),
{
}

} // verus!
