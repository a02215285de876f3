//! The areas that regions belong to.

use crate::text;
use vstd::prelude::*;

verus! {

/// The area of waypoints and runways of a region.
pub open spec fn waypoint_area(icao: Seq<char>) -> Seq<char> {
    if icao == "VH"@ || icao == "VM"@ {
        "PAC"@
    } else {
        "EEU"@
    }
}

/// The area of waypoints and runways of a region.
pub fn waypoint_area_code(icao: &str) -> (r: &'static str)
    ensures
        r@ == waypoint_area(icao@),
{
    if text::same(icao, "VH") || text::same(icao, "VM") {
        "PAC"
    } else {
        "EEU"
    }
}

/// The area of radio navigation aids of a region.
pub open spec fn navaid_area(icao: Seq<char>) -> Seq<char> {
    if icao == "VH"@ {
        "PAC"@
    } else {
        "EEU"@
    }
}

/// The area of radio navigation aids of a region.
pub fn navaid_area_code(icao: &str) -> (r: &'static str)
    ensures
        r@ == navaid_area(icao@),
{
    if text::same(icao, "VH") {
        "PAC"
    } else {
        "EEU"
    }
}

/// The data set that tables are laid out for.
#[derive(Clone, Copy, PartialEq, Eq, Debug, Structural)]
pub enum Dataset {
    Pmdg,
    IniBuilds,
}

/// Hong Kong lies in the Pacific; Macau does so for waypoints only; all else lies in eastern Europe.
pub proof fn areas_are_known_by_their_codes(icao: Seq<char>)
    ensures
        icao == seq!['V', 'H'] ==> waypoint_area(icao) == "PAC"@ && navaid_area(icao) == "PAC"@,
        icao == seq!['V', 'M'] ==> waypoint_area(icao) == "PAC"@ && navaid_area(icao) == "EEU"@,
        icao != seq!['V', 'H'] && icao != seq!['V', 'M'] ==> waypoint_area(icao) == "EEU"@
            && navaid_area(icao) == "EEU"@,
{
    reveal_strlit("VH");
    reveal_strlit("VM");
    assert("VH"@ =~= seq!['V', 'H']);
    assert("VM"@ =~= seq!['V', 'M']);
    assert("VH"@[1] != "VM"@[1]);
}

} // verus!
