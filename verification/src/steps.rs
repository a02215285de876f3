//! The steps of a run: their order and names, the procedures that they read, and what happens when
//! the database is locked.

use crate::db;
use crate::numeric;
use crate::terminal::procedures::TerminalProcedureConfig;
use crate::text;
use vstd::prelude::*;

verus! {

/// A step of a run.
#[derive(Clone, Copy, PartialEq, Eq, Debug, Structural)]
pub enum Step {
    All,
    Airports,
    Runways,
    Vhfs,
    Gs,
    Ndbs,
    EnrouteWaypoints,
    TerminalWaypoints,
    Sids,
    Stars,
    Iaps,
    Airways,
}

/// The steps of a full run, in the order in which they build on each other.
pub open spec fn registered_steps() -> Seq<Step> {
    seq![
        Step::Airports,
        Step::Runways,
        Step::Vhfs,
        Step::Gs,
        Step::Ndbs,
        Step::EnrouteWaypoints,
        Step::TerminalWaypoints,
        Step::Sids,
        Step::Stars,
        Step::Iaps,
        Step::Airways,
    ]
}

/// The steps that a selection stands for.
pub open spec fn steps_of(step: Step) -> Seq<Step> {
    if step == Step::All {
        registered_steps()
    } else {
        seq![step]
    }
}

/// Lists the steps that a selection stands for.
pub fn execute_selected_steps(step: Step) -> (out: Vec<Step>)
    ensures
        out@ == steps_of(step),
{
    if step == Step::All {
        let out: Vec<Step> = vec![
            Step::Airports,
            Step::Runways,
            Step::Vhfs,
            Step::Gs,
            Step::Ndbs,
            Step::EnrouteWaypoints,
            Step::TerminalWaypoints,
            Step::Sids,
            Step::Stars,
            Step::Iaps,
            Step::Airways,
        ];
        assert(out@ =~= steps_of(step));
        out
    } else {
        let out: Vec<Step> = vec![step];
        assert(out@ =~= steps_of(step));
        out
    }
}

/// A full run has every step just once.
pub proof fn full_run_has_every_step_once(step: Step)
    requires
        step != Step::All,
    ensures
        steps_of(Step::All).no_duplicates(),
        steps_of(Step::All).contains(step),
{
    let all = registered_steps();
    let at: int = match step {
        Step::All => 0,
        Step::Airports => 0,
        Step::Runways => 1,
        Step::Vhfs => 2,
        Step::Gs => 3,
        Step::Ndbs => 4,
        Step::EnrouteWaypoints => 5,
        Step::TerminalWaypoints => 6,
        Step::Sids => 7,
        Step::Stars => 8,
        Step::Iaps => 9,
        Step::Airways => 10,
    };
    assert(all[at] == step);
}

/// The name of a step.
pub open spec fn name_of(step: Step) -> Seq<char> {
    match step {
        Step::All => "all"@,
        Step::Airports => "airports"@,
        Step::Runways => "runways"@,
        Step::Vhfs => "vhfs"@,
        Step::Gs => "gs"@,
        Step::Ndbs => "ndbs"@,
        Step::EnrouteWaypoints => "enroute_waypoints"@,
        Step::TerminalWaypoints => "terminal_waypoints"@,
        Step::Sids => "sids"@,
        Step::Stars => "stars"@,
        Step::Iaps => "iaps"@,
        Step::Airways => "airways"@,
    }
}

/// The name of a step.
pub fn step_name(step: Step) -> (r: &'static str)
    ensures
        r@ == name_of(step),
{
    match step {
        Step::All => "all",
        Step::Airports => "airports",
        Step::Runways => "runways",
        Step::Vhfs => "vhfs",
        Step::Gs => "gs",
        Step::Ndbs => "ndbs",
        Step::EnrouteWaypoints => "enroute_waypoints",
        Step::TerminalWaypoints => "terminal_waypoints",
        Step::Sids => "sids",
        Step::Stars => "stars",
        Step::Iaps => "iaps",
        Step::Airways => "airways",
    }
}

/// The starts of the names of the airports whose departures are read.
pub open spec fn sid_prefixes() -> Seq<Seq<char>> {
    seq![
        "OP"@,
        "ZB"@,
        "ZY"@,
        "ZS"@,
        "ZG"@,
        "ZL"@,
        "ZH"@,
        "ZU"@,
        "ZP"@,
        "ZW"@,
        "ZJ"@,
        "ZZ"@,
    ]
}

/// The starts of the names of the airports whose arrivals and approaches are read.
pub open spec fn terminal_prefixes() -> Seq<Seq<char>> {
    seq![
        "OP"@,
        "VH"@,
        "ZB"@,
        "ZY"@,
        "ZS"@,
        "ZG"@,
        "ZL"@,
        "ZH"@,
        "ZU"@,
        "ZP"@,
        "ZW"@,
        "ZJ"@,
        "ZZ"@,
    ]
}

fn list_prefixes(with_hong_kong: bool) -> (out: Vec<String>)
    ensures
        text::views(out@) == (if with_hong_kong {
            terminal_prefixes()
        } else {
            sid_prefixes()
        }),
{
    let mut out: Vec<String> = vec![text::copy("OP")];
    if with_hong_kong {
        out.push(text::copy("VH"));
    }
    out.push(text::copy("ZB"));
    out.push(text::copy("ZY"));
    out.push(text::copy("ZS"));
    out.push(text::copy("ZG"));
    out.push(text::copy("ZL"));
    out.push(text::copy("ZH"));
    out.push(text::copy("ZU"));
    out.push(text::copy("ZP"));
    out.push(text::copy("ZW"));
    out.push(text::copy("ZJ"));
    out.push(text::copy("ZZ"));
    proof {
        if with_hong_kong {
            assert(text::views(out@) =~= terminal_prefixes());
        } else {
            assert(text::views(out@) =~= sid_prefixes());
        }
    }
    out
}

/// How many legs are written together.
pub const PROCEDURE_BATCH: usize = 2000;

/// How many fields a leg has at least.
pub const PROCEDURE_FIELDS: usize = 18;

/// Whether a configuration is that of a step that reads procedures.
pub open spec fn configures(config: TerminalProcedureConfig, step: Step) -> bool {
    let (table, prefix, from, to, airports) = match step {
        Step::Sids => ("tbl_sids"@, "SID:"@, 4int, 7int, sid_prefixes()),
        Step::Stars => ("tbl_stars"@, "STAR:"@, 5int, 8int, terminal_prefixes()),
        _ => ("tbl_iaps"@, "APPCH:"@, 6int, 9int, terminal_prefixes()),
    };
    &&& step == Step::Sids || step == Step::Stars || step == Step::Iaps
    &&& config.table_name@ == table
    &&& config.cifp_prefix@ == prefix
    &&& config.seqno_start == from
    &&& config.seqno_end == to
    &&& text::views(config.airport_prefixes@) == airports
    &&& config.compute_auth == (step == Step::Sids)
    &&& config.use_iaps_logic == (step == Step::Iaps)
    &&& config.batch_size == PROCEDURE_BATCH
    &&& config.min_fields == PROCEDURE_FIELDS
}

/// The configuration of a step that reads procedures; other steps have none.
pub fn run_terminal_cifp_step(step: Step) -> (r: Option<TerminalProcedureConfig>)
    ensures
        match r {
            Some(config) => configures(config, step),
            None => step != Step::Sids && step != Step::Stars && step != Step::Iaps,
        },
{
    let (table_name, cifp_prefix, seqno_start, with_hong_kong): (&str, &str, usize, bool) =
        match step {
        Step::Sids => ("tbl_sids", "SID:", 4, false),
        Step::Stars => ("tbl_stars", "STAR:", 5, true),
        Step::Iaps => ("tbl_iaps", "APPCH:", 6, true),
        _ => return None,
    };
    Some(
        TerminalProcedureConfig {
            table_name: text::copy(table_name),
            cifp_prefix: text::copy(cifp_prefix),
            seqno_start,
            seqno_end: seqno_start + 3,
            airport_prefixes: list_prefixes(with_hong_kong),
            compute_auth: step == Step::Sids,
            use_iaps_logic: step == Step::Iaps,
            batch_size: PROCEDURE_BATCH,
            min_fields: PROCEDURE_FIELDS,
        },
    )
}

/// A text with its ASCII letters in lower case.
pub open spec fn lowered(s: Seq<char>) -> Seq<char> {
    s.map_values(|c: char| numeric::lower(c))
}

/// Whether an error tells that the database is locked.
pub open spec fn locked(message: Seq<char>) -> bool {
    text::occurs(lowered(message), "database is locked"@)
}

/// Tests whether an error tells that the database is locked.
pub fn is_locked_error_message(message: &str) -> (r: bool)
    ensures
        r == locked(message@),
{
    let cs: Vec<char> = text::chars_of(message);
    let mut lower: String = String::new();
    assert(lower@ =~= lowered(message@).take(0));
    for i in 0..cs.len()
        invariant
            cs@ == message@,
            lower@ == lowered(message@).take(i as int),
    {
        lower.push(numeric::to_lower(cs[i]));
        assert(lowered(message@).take(i + 1) =~= lowered(message@).take(i as int).push(
            lower@.last(),
        ));
    }
    assert(lowered(message@).take(cs@.len() as int) == lowered(message@));
    text::contains_text(lower.as_str(), "database is locked")
}

/// How an attempt went.
pub enum AttemptOutcome {
    Succeeded,
    /// It failed with a message.
    Failed(String),
}

/// What follows an attempt.
#[derive(Clone, Copy, PartialEq, Eq, Debug, Structural)]
pub enum RetryAction {
    /// The work is done.
    Finish,
    /// The error stands.
    Fail,
    /// The database was locked: wait, then try again.
    WaitAndRetry,
    /// The database was locked: wait, and leave it at that.
    WaitAndGiveUp,
}

/// What follows the attempt with the given number, counted from zero.
pub fn after_attempt(attempt: usize, retries: usize, outcome: &AttemptOutcome) -> (r: RetryAction)
    requires
        attempt < retries,
    ensures
        r == (match outcome {
            AttemptOutcome::Succeeded => RetryAction::Finish,
            AttemptOutcome::Failed(message) => if !locked(message@) {
                RetryAction::Fail
            } else if attempt + 1 < retries {
                RetryAction::WaitAndRetry
            } else {
                RetryAction::WaitAndGiveUp
            },
        }),
{
    match outcome {
        AttemptOutcome::Succeeded => RetryAction::Finish,
        AttemptOutcome::Failed(message) => {
            if !is_locked_error_message(message.as_str()) {
                RetryAction::Fail
            } else if attempt + 1 < retries {
                RetryAction::WaitAndRetry
            } else {
                RetryAction::WaitAndGiveUp
            }
        },
    }
}

/// The query for the indexes that are dropped at the end.
pub fn list_indexes_query() -> (r: &'static str)
    ensures
        r@ == "SELECT name FROM sqlite_master WHERE type='index' AND name NOT LIKE 'sqlite_%';"@,
{
    "SELECT name FROM sqlite_master WHERE type='index' AND name NOT LIKE 'sqlite_%';"
}

/// Builds the statement that drops an index.
pub fn drop_index_statement(index_name: &str) -> (sql: String)
    ensures
        sql@ == "DROP INDEX IF EXISTS "@ + db::quoted_identifier(index_name@),
{
    let mut sql: String = text::copy("DROP INDEX IF EXISTS ");
    let name: String = db::quote_sqlite_identifier(index_name);
    sql.append(name.as_str());
    sql
}

/// Steps run in the order in which their data depends on each other: points before procedures, and
/// airways last. A single step runs alone.
pub proof fn points_are_written_before_procedures_and_airways(step: Step)
    ensures
        steps_of(Step::All).len() == 11,
        steps_of(Step::All)[0] == Step::Airports,
        steps_of(Step::All)[1] == Step::Runways,
        steps_of(Step::All)[2] == Step::Vhfs,
        steps_of(Step::All)[3] == Step::Gs,
        steps_of(Step::All)[4] == Step::Ndbs,
        steps_of(Step::All)[5] == Step::EnrouteWaypoints,
        steps_of(Step::All)[6] == Step::TerminalWaypoints,
        steps_of(Step::All)[7] == Step::Sids,
        steps_of(Step::All)[8] == Step::Stars,
        steps_of(Step::All)[9] == Step::Iaps,
        steps_of(Step::All)[10] == Step::Airways,
        step != Step::All ==> steps_of(step) == seq![step],
{
}

/// Steps are chosen by their names.
pub proof fn steps_go_by_their_names()
    ensures
        name_of(Step::All) == "all"@,
        name_of(Step::Airports) == "airports"@,
        name_of(Step::Runways) == "runways"@,
        name_of(Step::Vhfs) == "vhfs"@,
        name_of(Step::Gs) == "gs"@,
        name_of(Step::Ndbs) == "ndbs"@,
        name_of(Step::EnrouteWaypoints) == "enroute_waypoints"@,
        name_of(Step::TerminalWaypoints) == "terminal_waypoints"@,
        name_of(Step::Sids) == "sids"@,
        name_of(Step::Stars) == "stars"@,
        name_of(Step::Iaps) == "iaps"@,
        name_of(Step::Airways) == "airways"@,
{
}

/// Each kind of procedure is read from lines with its own prefix and written to its own table. The
/// sequence number is the three characters behind the prefix.
pub proof fn procedures_are_read_by_their_prefix(config: TerminalProcedureConfig, step: Step)
    requires
        configures(config, step),
    ensures
        step == Step::Sids || step == Step::Stars || step == Step::Iaps,
        step == Step::Sids ==> config.table_name@ == "tbl_sids"@ && config.cifp_prefix@ == "SID:"@,
        step == Step::Stars ==> config.table_name@ == "tbl_stars"@ && config.cifp_prefix@
            == "STAR:"@,
        step == Step::Iaps ==> config.table_name@ == "tbl_iaps"@ && config.cifp_prefix@
            == "APPCH:"@,
        config.seqno_start == config.cifp_prefix@.len(),
        config.seqno_end == config.cifp_prefix@.len() + 3,
        config.compute_auth <==> step == Step::Sids,
        config.use_iaps_logic <==> step == Step::Iaps,
        config.batch_size == 2000,
        config.min_fields == 18,
{
    reveal_strlit("SID:");
    reveal_strlit("STAR:");
    reveal_strlit("APPCH:");
    assert("SID:"@.len() == 4);
    assert("STAR:"@.len() == 5);
    assert("APPCH:"@.len() == 6);
}

/// Procedures are read of the same airports, but departures not of those of Hong Kong.
pub proof fn departures_are_not_read_of_hong_kong(
    config: TerminalProcedureConfig,
    step: Step,
    prefix: Seq<char>,
)
    requires
        configures(config, step),
    ensures
        text::views(config.airport_prefixes@).contains(prefix) <==> {
            &&& prefix.len() == 2
            &&& {
                ||| prefix[0] == 'O' && prefix[1] == 'P'
                ||| prefix[0] == 'V' && prefix[1] == 'H' && step != Step::Sids
                ||| prefix[0] == 'Z' && (prefix[1] == 'B' || prefix[1] == 'Y' || prefix[1] == 'S'
                    || prefix[1] == 'G' || prefix[1] == 'L' || prefix[1] == 'H' || prefix[1] == 'U'
                    || prefix[1] == 'P' || prefix[1] == 'W' || prefix[1] == 'J' || prefix[1] == 'Z')
            }
        },
{
    reveal_strlit("OP");
    reveal_strlit("VH");
    reveal_strlit("ZB");
    reveal_strlit("ZY");
    reveal_strlit("ZS");
    reveal_strlit("ZG");
    reveal_strlit("ZL");
    reveal_strlit("ZH");
    reveal_strlit("ZU");
    reveal_strlit("ZP");
    reveal_strlit("ZW");
    reveal_strlit("ZJ");
    reveal_strlit("ZZ");
    assert("OP"@ =~= seq!['O', 'P']);
    assert("VH"@ =~= seq!['V', 'H']);
    assert("ZB"@ =~= seq!['Z', 'B']);
    assert("ZY"@ =~= seq!['Z', 'Y']);
    assert("ZS"@ =~= seq!['Z', 'S']);
    assert("ZG"@ =~= seq!['Z', 'G']);
    assert("ZL"@ =~= seq!['Z', 'L']);
    assert("ZH"@ =~= seq!['Z', 'H']);
    assert("ZU"@ =~= seq!['Z', 'U']);
    assert("ZP"@ =~= seq!['Z', 'P']);
    assert("ZW"@ =~= seq!['Z', 'W']);
    assert("ZJ"@ =~= seq!['Z', 'J']);
    assert("ZZ"@ =~= seq!['Z', 'Z']);
    let sids = sid_prefixes();
    let all = terminal_prefixes();
    assert(sids[0] == "OP"@);
    assert(sids[1] == "ZB"@);
    assert(sids[2] == "ZY"@);
    assert(sids[3] == "ZS"@);
    assert(sids[4] == "ZG"@);
    assert(sids[5] == "ZL"@);
    assert(sids[6] == "ZH"@);
    assert(sids[7] == "ZU"@);
    assert(sids[8] == "ZP"@);
    assert(sids[9] == "ZW"@);
    assert(sids[10] == "ZJ"@);
    assert(sids[11] == "ZZ"@);
    assert(all[0] == "OP"@);
    assert(all[1] == "VH"@);
    assert(all[2] == "ZB"@);
    assert(all[3] == "ZY"@);
    assert(all[4] == "ZS"@);
    assert(all[5] == "ZG"@);
    assert(all[6] == "ZL"@);
    assert(all[7] == "ZH"@);
    assert(all[8] == "ZU"@);
    assert(all[9] == "ZP"@);
    assert(all[10] == "ZW"@);
    assert(all[11] == "ZJ"@);
    assert(all[12] == "ZZ"@);
    if prefix.len() == 2 {
        assert(prefix =~= seq![prefix[0], prefix[1]]);
    }
}

/// A message tells of a locked database where it says so, in letters of either case.
pub proof fn a_locked_database_is_told_in_either_case(message: Seq<char>, i: int)
    ensures
        lowered(message).len() == message.len(),
        0 <= i < message.len() ==> lowered(message)[i] == numeric::lower(message[i]),
        locked(message) <==> exists|k: int|
            0 <= k && k + "database is locked"@.len() <= message.len() && #[trigger] lowered(
                message,
            ).subrange(k, k + "database is locked"@.len()) == "database is locked"@,
{
}

} // verus!
