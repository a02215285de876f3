//! The outcome of a comparison and the report on it.

use crate::compare::rows;
use crate::compare::schema_diff;
use crate::compare::tables;
use crate::compare::tables::{ColumnInfo, TolerantColumn};
use crate::db;
use crate::numeric;
use crate::text;
use vstd::prelude::*;

verus! {

/// The most lines of a difference of definitions that are reported.
pub const MAX_SCHEMA_DIFF_LINES: usize = 200;

/// The text that the `Debug` formatting of `str` writes for a text.
pub uninterp spec fn debug_text(s: Seq<char>) -> Seq<char>;

/// Calls the `Debug` formatting of `str`, which writes a text in quotation marks, with escapes by
/// the Unicode tables.
#[verifier::external_body]
fn write_debug(s: &str) -> (r: String)
    ensures
        r@ == debug_text(s@),
{
    format!("{:?}", s)
}

/// A value of a sample; a real number is given as it is shown.
#[derive(Debug)]
#[verifier::ext_equal]
pub enum SampleValue<T = String, B = Vec<u8>> {
    Null,
    Integer(i64),
    Real(T),
    Text(T),
    Blob(B),
}

impl View for SampleValue {
    type V = SampleValue<Seq<char>, Seq<u8>>;

    open spec fn view(&self) -> Self::V {
        match self {
            SampleValue::Null => SampleValue::Null,
            SampleValue::Integer(value) => SampleValue::Integer(*value),
            SampleValue::Real(shown) => SampleValue::Real(shown@),
            SampleValue::Text(value) => SampleValue::Text(value@),
            SampleValue::Blob(bytes) => SampleValue::Blob(bytes@),
        }
    }
}

/// How a value is shown, given how its text is shown in quotation marks.
pub open spec fn shown_value(value: SampleValue<Seq<char>, Seq<u8>>, quoted: Seq<char>) -> Seq<
    char,
> {
    match value {
        SampleValue::Null => "null"@,
        SampleValue::Integer(number) => numeric::signed_decimal(number as int),
        SampleValue::Real(shown) => shown,
        SampleValue::Text(_) => quoted,
        SampleValue::Blob(bytes) => "X'"@ + rows::hex(bytes) + "'"@,
    }
}

/// Shows a value, given how its text is shown in quotation marks.
pub fn show_value(value: &SampleValue, quoted: &str) -> (r: String)
    ensures
        r@ == shown_value(value@, quoted@),
{
    match value {
        SampleValue::Null => text::copy("null"),
        SampleValue::Integer(number) => numeric::write_signed_decimal(*number),
        SampleValue::Real(shown) => shown.clone(),
        SampleValue::Text(_) => text::copy(quoted),
        SampleValue::Blob(bytes) => {
            let mut r: String = text::copy("X'");
            let digits: String = rows::write_hex(bytes);
            r.append(digits.as_str());
            r.append("'");
            r
        },
    }
}

/// The text of a value, where it is one.
pub open spec fn value_text(value: SampleValue<Seq<char>, Seq<u8>>) -> Seq<char> {
    match value {
        SampleValue::Text(content) => content,
        _ => ""@,
    }
}

/// How a value is shown.
pub open spec fn rendered_value(value: SampleValue<Seq<char>, Seq<u8>>) -> Seq<char> {
    shown_value(value, debug_text(value_text(value)))
}

impl SampleValue {
    /// Shows a value.
    pub fn render(&self) -> (r: String)
        ensures
            r@ == rendered_value(self@),
    {
        let quoted: String = match self {
            SampleValue::Text(content) => write_debug(content.as_str()),
            _ => write_debug(""),
        };
        show_value(self, quoted.as_str())
    }
}

/// A value of a sample with the name of its column.
#[derive(Debug)]
pub struct SampleEntry<T = String, V = SampleValue> {
    pub name: T,
    pub value: V,
}

impl View for SampleEntry {
    type V = SampleEntry<Seq<char>, SampleValue<Seq<char>, Seq<u8>>>;

    open spec fn view(&self) -> Self::V {
        SampleEntry { name: self.name@, value: self.value@ }
    }
}

/// A row of a sample.
#[derive(Debug)]
pub struct SampleRow {
    pub entries: Vec<SampleEntry>,
}

impl View for SampleRow {
    type V = Seq<SampleEntry<Seq<char>, SampleValue<Seq<char>, Seq<u8>>>>;

    open spec fn view(&self) -> Self::V {
        text::views(self.entries@)
    }
}

/// The entries of a row: names and values side by side, as far as there are both.
pub open spec fn entries_of(
    columns: Seq<Seq<char>>,
    values: Seq<SampleValue<Seq<char>, Seq<u8>>>,
) -> Seq<SampleEntry<Seq<char>, SampleValue<Seq<char>, Seq<u8>>>> {
    Seq::new(
        if columns.len() <= values.len() {
            columns.len()
        } else {
            values.len()
        },
        |i: int| SampleEntry { name: columns[i], value: values[i] },
    )
}

/// How an entry is shown: the name in quotation marks, a colon and the value.
pub open spec fn rendered_entry(entry: SampleEntry<Seq<char>, SampleValue<Seq<char>, Seq<u8>>>) -> Seq<
    char,
> {
    debug_text(entry.name) + ": "@ + rendered_value(entry.value)
}

/// How a row is shown, given how its entries are shown.
pub open spec fn braced(entries: Seq<Seq<char>>) -> Seq<char> {
    "{"@ + db::joined(entries, ", "@) + "}"@
}

/// Puts entries between braces, with commas between.
pub fn show_entries(entries: &Vec<String>) -> (r: String)
    ensures
        r@ == braced(text::views(entries@)),
{
    let mut r: String = text::copy("{");
    let list: String = db::join_texts(entries, ", ");
    r.append(list.as_str());
    r.append("}");
    r
}

/// How a row is shown.
pub open spec fn rendered_row(row: Seq<SampleEntry<Seq<char>, SampleValue<Seq<char>, Seq<u8>>>>) -> Seq<
    char,
> {
    braced(
        row.map_values(
            |entry: SampleEntry<Seq<char>, SampleValue<Seq<char>, Seq<u8>>>| rendered_entry(entry),
        ),
    )
}

impl SampleRow {
    /// Makes a row of names and values.
    pub fn from_columns_and_values(columns: &Vec<String>, values: Vec<SampleValue>) -> (r: SampleRow)
        ensures
            r@ == entries_of(text::views(columns@), text::views(values@)),
    {
        let ghost goal = entries_of(text::views(columns@), text::views(values@));
        let ghost all = text::views(values@);
        let mut entries: Vec<SampleEntry> = Vec::new();
        assert(text::views(entries@) =~= goal.take(0));
        for value in it: values
            invariant
                all == text::views(it.seq()),
                goal == entries_of(text::views(columns@), all),
                text::views(entries@) == goal.take(
                    if it.index() <= goal.len() {
                        it.index() as int
                    } else {
                        goal.len() as int
                    },
                ),
        {
            let ghost i = it.index() as int;
            let at: usize = entries.len();
            if at < columns.len() {
                proof {
                    assert(text::views(entries@).len() == at);
                    assert(i == at);
                    assert(goal.len() > i) by {
                        assert(all.len() > i);
                    }
                }
                let entry = SampleEntry { name: columns[at].clone(), value };
                proof {
                    assert(all[i] == entry.value@);
                    text::lemma_views_push(entries@, entry);
                    assert(goal.take(i + 1) =~= goal.take(i).push(entry@));
                }
                entries.push(entry);
            } else {
                proof {
                    assert(text::views(entries@).len() == at);
                    assert(goal.len() <= columns@.len());
                    assert(i >= goal.len());
                }
            }
        }
        assert(goal.take(goal.len() as int) == goal);
        SampleRow { entries }
    }

    /// Shows a row.
    pub fn render(&self) -> (r: String)
        ensures
            r@ == rendered_row(self@),
    {
        let ghost goal = self@.map_values(
            |entry: SampleEntry<Seq<char>, SampleValue<Seq<char>, Seq<u8>>>| rendered_entry(entry),
        );
        let mut parts: Vec<String> = Vec::new();
        assert(text::views(parts@) =~= goal.take(0));
        for i in 0..self.entries.len()
            invariant
                goal == self@.map_values(
                    |entry: SampleEntry<Seq<char>, SampleValue<Seq<char>, Seq<u8>>>|
                        rendered_entry(entry),
                ),
                text::views(parts@) == goal.take(i as int),
        {
            let mut part: String = write_debug(self.entries[i].name.as_str());
            part.append(": ");
            let value: String = self.entries[i].value.render();
            part.append(value.as_str());
            proof {
                assert(self@[i as int] == self.entries@[i as int]@);
                text::lemma_views_push(parts@, part);
                assert(goal.take(i + 1) =~= goal.take(i as int).push(part@));
            }
            parts.push(part);
        }
        assert(goal.take(self.entries@.len() as int) == goal);
        show_entries(&parts)
    }
}

/// What a comparison found in a table.
#[derive(Debug)]
pub struct TableDiff {
    pub table: String,
    pub schema_changed: bool,
    pub row_count_a: Option<i64>,
    pub row_count_b: Option<i64>,
    pub groups_only_in_a: Option<usize>,
    pub groups_only_in_b: Option<usize>,
    pub schema_detail: Vec<String>,
    pub sample_only_in_a: Vec<SampleRow>,
    pub sample_only_in_b: Vec<SampleRow>,
}

/// A number, or zero where there is none.
pub open spec fn or_zero(count: Option<usize>) -> int {
    match count {
        Some(n) => n as int,
        None => 0,
    }
}

impl TableDiff {
    /// Whether the tables differ.
    pub open spec fn differs(self) -> bool {
        ||| self.schema_changed
        ||| self.row_count_a != self.row_count_b
        ||| or_zero(self.groups_only_in_a) > 0
        ||| or_zero(self.groups_only_in_b) > 0
    }

    /// Tests whether the tables differ.
    pub fn has_difference(&self) -> (r: bool)
        ensures
            r == self.differs(),
    {
        let same_count: bool = match (self.row_count_a, self.row_count_b) {
            (Some(a), Some(b)) => a == b,
            (None, None) => true,
            _ => false,
        };
        let more_in_a: bool = match self.groups_only_in_a {
            Some(n) => n > 0,
            None => false,
        };
        let more_in_b: bool = match self.groups_only_in_b {
            Some(n) => n > 0,
            None => false,
        };
        self.schema_changed || !same_count || more_in_a || more_in_b
    }
}

/// Whether two databases differ: in their tables, or in what these hold.
pub open spec fn databases_differ(only_in_a: nat, only_in_b: nat, diffs: Seq<TableDiff>) -> bool {
    ||| only_in_a > 0
    ||| only_in_b > 0
    ||| exists|i: int| 0 <= i < diffs.len() && (#[trigger] diffs[i]).differs()
}

/// Tests whether two databases differ.
pub fn has_any_difference(
    only_in_a: &Vec<String>,
    only_in_b: &Vec<String>,
    diffs: &Vec<TableDiff>,
) -> (r: bool)
    ensures
        r == databases_differ(only_in_a@.len(), only_in_b@.len(), diffs@),
{
    if only_in_a.len() > 0 || only_in_b.len() > 0 {
        return true;
    }
    for i in 0..diffs.len()
        invariant
            only_in_a@.len() == 0,
            only_in_b@.len() == 0,
            forall|k: int| 0 <= k < i ==> !(#[trigger] diffs@[k]).differs(),
    {
        if diffs[i].has_difference() {
            return true;
        }
    }
    false
}

/// The exit code: one where differences exist and are to be failed on, else zero.
pub fn exit_code_for_diff(diff_exists: bool, fail_on_diff: bool) -> (code: i32)
    ensures
        code == (if diff_exists && fail_on_diff {
            1int
        } else {
            0int
        }),
{
    if diff_exists && fail_on_diff {
        1
    } else {
        0
    }
}

/// How the data of a table is compared.
pub enum DataComparison {
    /// Not at all.
    Skipped,
    /// By distinct rows and their numbers.
    Grouped,
    /// Row by row, with tolerances.
    Tolerant(Vec<TolerantColumn>),
}

/// What the definitions of a table tell.
pub struct TablePlan {
    pub schema_changed: bool,
    pub schema_detail: Vec<String>,
    pub comparison: DataComparison,
}

/// Whether the definitions of a table differ: in its columns or in its text.
pub open spec fn schemas_differ(
    create_a: Seq<char>,
    create_b: Seq<char>,
    columns_a: Seq<ColumnInfo<Seq<char>>>,
    columns_b: Seq<ColumnInfo<Seq<char>>>,
) -> bool {
    columns_a != columns_b || create_a != create_b
}

/// Plans the comparison of a table. Its data is compared where the columns are the same and there
/// are any, unless that is to be skipped; with tolerances where some column has one.
pub fn plan_table(
    table: &str,
    create_a: &str,
    create_b: &str,
    columns_a: &Vec<ColumnInfo>,
    columns_b: &Vec<ColumnInfo>,
    skip_data: bool,
) -> (r: TablePlan)
    ensures
        ({
            let a = text::views(columns_a@);
            let b = text::views(columns_b@);
            let tolerant = text::collect(a, tables::tolerance_chooser(table@));
            &&& r.schema_changed == schemas_differ(create_a@, create_b@, a, b)
            &&& text::views(r.schema_detail@) == (if r.schema_changed {
                schema_diff::schema_diff(create_a@, create_b@)
            } else {
                seq![]
            })
            &&& match r.comparison {
                DataComparison::Skipped => skip_data || a != b || a.len() == 0,
                DataComparison::Grouped => !skip_data && a == b && a.len() > 0 && tolerant.len()
                    == 0,
                DataComparison::Tolerant(columns) => !skip_data && a == b && a.len() > 0
                    && tolerant.len() > 0 && columns@ == tolerant,
            }
        }),
{
    let same_columns: bool = tables::has_same_columns(columns_a, columns_b);
    let schema_changed: bool = !same_columns || !text::same(create_a, create_b);
    let schema_detail: Vec<String> = if schema_changed {
        schema_diff::build_schema_diff_lines(create_a, create_b)
    } else {
        Vec::new()
    };
    assert(!schema_changed ==> text::views(schema_detail@) =~= seq![]);
    assert(text::views(columns_a@).len() == columns_a@.len());
    let comparison: DataComparison = if skip_data || !same_columns || columns_a.len() == 0 {
        DataComparison::Skipped
    } else {
        let tolerant: Vec<TolerantColumn> = tables::comparison_tolerances(table, columns_a);
        if tolerant.len() == 0 {
            DataComparison::Grouped
        } else {
            DataComparison::Tolerant(tolerant)
        }
    };
    TablePlan { schema_changed, schema_detail, comparison }
}

/// What was found in the data of a table: how many rows or groups only one of the databases has,
/// and samples of them.
pub struct DataFound {
    pub only_in_a: usize,
    pub only_in_b: usize,
    pub sample_a: Vec<SampleRow>,
    pub sample_b: Vec<SampleRow>,
}

/// A count as the database gives it, taken as zero where it is negative.
pub fn take_count(count: i64) -> (r: usize)
    requires
        count <= usize::MAX,
    ensures
        r == (if count < 0 {
            0int
        } else {
            count as int
        }),
{
    if count < 0 {
        0
    } else {
        count as usize
    }
}

/// Whether a sample is taken: of groups only where there are any.
pub open spec fn sampled(comparison: DataComparison, count: usize) -> bool {
    match comparison {
        DataComparison::Skipped => false,
        DataComparison::Grouped => count > 0,
        DataComparison::Tolerant(_) => true,
    }
}

/// Tests whether a sample is taken.
pub fn is_sampled(comparison: &DataComparison, count: usize) -> (r: bool)
    ensures
        r == sampled(*comparison, count),
{
    match comparison {
        DataComparison::Skipped => false,
        DataComparison::Grouped => count > 0,
        DataComparison::Tolerant(_) => true,
    }
}

/// The sample that is reported.
pub open spec fn kept_sample(comparison: DataComparison, count: usize, sample: Seq<SampleRow>) -> Seq<
    SampleRow,
> {
    if sampled(comparison, count) {
        sample
    } else {
        seq![]
    }
}

fn keep_sample(comparison: &DataComparison, count: usize, sample: Vec<SampleRow>) -> (r: Vec<
    SampleRow,
>)
    ensures
        r@ == kept_sample(*comparison, count, sample@),
{
    if is_sampled(comparison, count) {
        sample
    } else {
        Vec::new()
    }
}

/// What the comparison of a table comes to, given its plan, how many rows it has on each side, and
/// what was found in its data where that was compared.
pub fn compare_table(
    table: &str,
    plan: TablePlan,
    row_count_a: i64,
    row_count_b: i64,
    found: Option<DataFound>,
) -> (r: TableDiff)
    ensures
        r.table@ == table@,
        r.schema_changed == plan.schema_changed,
        r.schema_detail == plan.schema_detail,
        r.row_count_a == Some(row_count_a),
        r.row_count_b == Some(row_count_b),
        match found {
            Some(data) if !(plan.comparison is Skipped) => {
                &&& r.groups_only_in_a == Some(data.only_in_a)
                &&& r.groups_only_in_b == Some(data.only_in_b)
                &&& r.sample_only_in_a@ == kept_sample(
                    plan.comparison,
                    data.only_in_a,
                    data.sample_a@,
                )
                &&& r.sample_only_in_b@ == kept_sample(
                    plan.comparison,
                    data.only_in_b,
                    data.sample_b@,
                )
            },
            _ => {
                &&& r.groups_only_in_a is None
                &&& r.groups_only_in_b is None
                &&& r.sample_only_in_a@.len() == 0
                &&& r.sample_only_in_b@.len() == 0
            },
        },
{
    let compared: bool = match &plan.comparison {
        DataComparison::Skipped => false,
        _ => true,
    };
    let mut diff = TableDiff {
        table: text::copy(table),
        schema_changed: plan.schema_changed,
        row_count_a: Some(row_count_a),
        row_count_b: Some(row_count_b),
        groups_only_in_a: None,
        groups_only_in_b: None,
        schema_detail: plan.schema_detail,
        sample_only_in_a: Vec::new(),
        sample_only_in_b: Vec::new(),
    };
    match found {
        Some(data) => {
            if compared {
                diff.groups_only_in_a = Some(data.only_in_a);
                diff.groups_only_in_b = Some(data.only_in_b);
                diff.sample_only_in_a = keep_sample(
                    &plan.comparison,
                    data.only_in_a,
                    data.sample_a,
                );
                diff.sample_only_in_b = keep_sample(
                    &plan.comparison,
                    data.only_in_b,
                    data.sample_b,
                );
            }
        },
        None => {},
    }
    diff
}

/// The heading lines of a report.
pub open spec fn heading_lines(db_a: Seq<char>, db_b: Seq<char>) -> Seq<Seq<char>> {
    seq![
        "=== SQLite 数据库对比报告 ==="@,
        "DB A: "@ + db_a,
        "DB B: "@ + db_b,
        "Note: configured coordinate columns are normalized with ROUND(..., 8) before diffing."@,
        ""@,
    ]
}

fn list_heading(db_a: &str, db_b: &str) -> (out: Vec<String>)
    ensures
        text::views(out@) == heading_lines(db_a@, db_b@),
{
    let mut first: String = text::copy("DB A: ");
    first.append(db_a);
    let mut second: String = text::copy("DB B: ");
    second.append(db_b);
    let out: Vec<String> = vec![
        text::copy("=== SQLite 数据库对比报告 ==="),
        first,
        second,
        text::copy(
            "Note: configured coordinate columns are normalized with ROUND(..., 8) before diffing.",
        ),
        text::copy(""),
    ];
    assert(text::views(out@) =~= heading_lines(db_a@, db_b@));
    out
}

/// The line before a list: a caption and, in brackets, how many items follow.
pub open spec fn counted(caption: Seq<char>, n: nat) -> Seq<char> {
    caption + " ("@ + numeric::decimal(n) + "):"@
}

fn make_counted(caption: &str, n: usize) -> (r: String)
    ensures
        r@ == counted(caption@, n as nat),
{
    let mut r: String = text::copy(caption);
    r.append(" (");
    let number: String = numeric::write_decimal(n as u64);
    r.append(number.as_str());
    r.append("):");
    r
}

/// The names of tables, one in each line.
pub open spec fn bulleted(tables: Seq<Seq<char>>) -> Seq<Seq<char>> {
    tables.map_values(|table: Seq<char>| "  - "@ + table)
}

/// The lines on tables that only one database has.
pub open spec fn only_lines(caption: Seq<char>, tables: Seq<Seq<char>>) -> Seq<Seq<char>> {
    seq![counted(caption, tables.len())] + (if tables.len() == 0 {
        seq!["  (无)"@]
    } else {
        bulleted(tables)
    }) + seq![""@]
}

fn list_only_lines(caption: &str, tables: &Vec<String>) -> (out: Vec<String>)
    ensures
        text::views(out@) == only_lines(caption@, text::views(tables@)),
{
    let ghost all = text::views(tables@);
    let ghost items = bulleted(all);
    let ghost start = seq![counted(caption@, all.len())];
    let mut out: Vec<String> = vec![make_counted(caption, tables.len())];
    assert(text::views(out@) =~= start);
    if tables.len() == 0 {
        out.push(text::copy("  (无)"));
    } else {
        assert(start =~= start + items.take(0));
        for i in 0..tables.len()
            invariant
                all == text::views(tables@),
                items == bulleted(all),
                text::views(out@) == start + items.take(i as int),
        {
            let mut line: String = text::copy("  - ");
            line.append(tables[i].as_str());
            proof {
                assert(all[i as int] == tables@[i as int]@);
                text::lemma_views_push(out@, line);
                assert((start + items.take(i as int)).push(line@) =~= start + items.take(i + 1));
            }
            out.push(line);
        }
        assert(items.take(tables@.len() as int) == items);
    }
    out.push(text::copy(""));
    assert(text::views(out@) =~= only_lines(caption@, all));
    out
}

/// The lines on the definition of a table.
pub open spec fn schema_lines(changed: bool, detail: Seq<Seq<char>>) -> Seq<Seq<char>> {
    if !changed {
        seq!["  [结构差异] 无"@]
    } else {
        let indented = detail.map_values(|line: Seq<char>| "  "@ + line);
        if detail.len() > MAX_SCHEMA_DIFF_LINES {
            seq!["  [结构差异] 有"@] + indented.take(MAX_SCHEMA_DIFF_LINES as int)
                + seq!["  ... (结构差异输出已截断)"@]
        } else {
            seq!["  [结构差异] 有"@] + indented
        }
    }
}

fn list_schema_lines(changed: bool, detail: &Vec<String>) -> (out: Vec<String>)
    ensures
        text::views(out@) == schema_lines(changed, text::views(detail@)),
{
    if !changed {
        let out: Vec<String> = vec![text::copy("  [结构差异] 无")];
        assert(text::views(out@) =~= schema_lines(changed, text::views(detail@)));
        return out;
    }
    let ghost all = text::views(detail@);
    let ghost indented = all.map_values(|line: Seq<char>| "  "@ + line);
    let ghost start = seq!["  [结构差异] 有"@];
    let mut out: Vec<String> = vec![text::copy("  [结构差异] 有")];
    assert(text::views(out@) =~= start + indented.take(0));
    let mut i: usize = 0;
    let most: usize = MAX_SCHEMA_DIFF_LINES;
    while i < detail.len() && i < most
        invariant
            i <= detail@.len(),
            i <= most,
            all == text::views(detail@),
            indented == all.map_values(|line: Seq<char>| "  "@ + line),
            text::views(out@) == start + indented.take(i as int),
        decreases detail@.len() - i,
    {
        let mut line: String = text::copy("  ");
        line.append(detail[i].as_str());
        proof {
            assert(all[i as int] == detail@[i as int]@);
            text::lemma_views_push(out@, line);
            assert((start + indented.take(i as int)).push(line@) =~= start + indented.take(i + 1));
        }
        out.push(line);
        i = i + 1;
    }
    if detail.len() > most {
        let line: String = text::copy("  ... (结构差异输出已截断)");
        proof {
            text::lemma_views_push(out@, line);
        }
        out.push(line);
    } else {
        assert(indented.take(detail@.len() as int) == indented);
    }
    assert(text::views(out@) =~= schema_lines(changed, all));
    out
}

/// One line of a sample, from how its row is shown.
pub open spec fn sample_line(i: int, row: Seq<char>) -> Seq<char> {
    "    ["@ + numeric::decimal((i + 1) as nat) + "] "@ + row
}

/// A sample, one row in each line.
pub open spec fn sample_text(sample: Seq<SampleRow>) -> Seq<char> {
    if sample.len() == 0 {
        "(无样例)"@
    } else {
        db::joined(
            Seq::new(sample.len(), |i: int| sample_line(i, rendered_row(sample[i]@))),
            "\n"@,
        )
    }
}

/// Writes a sample, one row in each line.
pub fn format_sample_rows(sample: &Vec<SampleRow>) -> (r: String)
    ensures
        r@ == sample_text(sample@),
{
    if sample.len() == 0 {
        return text::copy("(无样例)");
    }
    let ghost goal = Seq::new(
        sample@.len(),
        |i: int| sample_line(i, rendered_row(sample@[i]@)),
    );
    let mut lines: Vec<String> = Vec::new();
    assert(text::views(lines@) =~= goal.take(0));
    for i in 0..sample.len()
        invariant
            goal == Seq::new(
                sample@.len(),
                |i: int| sample_line(i, rendered_row(sample@[i]@)),
            ),
            text::views(lines@) == goal.take(i as int),
    {
        let mut line: String = text::copy("    [");
        let number: String = numeric::write_decimal((i + 1) as u64);
        line.append(number.as_str());
        line.append("] ");
        let row: String = sample[i].render();
        line.append(row.as_str());
        proof {
            text::lemma_views_push(lines@, line);
            assert(goal.take(i + 1) =~= goal.take(i as int).push(line@));
        }
        lines.push(line);
    }
    assert(goal.take(sample@.len() as int) == goal);
    db::join_texts(&lines, "\n")
}

/// A count of rows, or zero where there is none.
pub open spec fn count_or_zero(count: Option<i64>) -> int {
    match count {
        Some(n) => n as int,
        None => 0,
    }
}

/// The line on the numbers of rows.
pub open spec fn count_line(a: Option<i64>, b: Option<i64>) -> Seq<char> {
    "  [行数] DB A="@ + numeric::signed_decimal(count_or_zero(a)) + ", DB B="@
        + numeric::signed_decimal(count_or_zero(b))
}

fn make_count_line(a: Option<i64>, b: Option<i64>) -> (r: String)
    ensures
        r@ == count_line(a, b),
        a is Some && b is Some ==> r@ == "  [行数] DB A="@ + numeric::signed_decimal(a->0 as int)
            + ", DB B="@ + numeric::signed_decimal(b->0 as int),
{
    let in_a: i64 = match a {
        Some(n) => n,
        None => 0,
    };
    let in_b: i64 = match b {
        Some(n) => n,
        None => 0,
    };
    let mut r: String = text::copy("  [行数] DB A=");
    let number: String = numeric::write_signed_decimal(in_a);
    r.append(number.as_str());
    r.append(", DB B=");
    let number: String = numeric::write_signed_decimal(in_b);
    r.append(number.as_str());
    r
}

/// The lines on a sample of rows that only one database has.
pub open spec fn sample_lines(n: int, caption: Seq<char>, sample: Seq<SampleRow>) -> Seq<Seq<char>> {
    if n > 0 {
        seq![caption, sample_text(sample)]
    } else {
        seq![]
    }
}

/// The lines on the data of a table.
pub open spec fn data_lines(diff: TableDiff) -> Seq<Seq<char>> {
    match (diff.groups_only_in_a, diff.groups_only_in_b) {
        (Some(in_a), Some(in_b)) => seq![
            "  [数据差异] 仅在 DB A 的分组行: "@ + numeric::decimal(in_a as nat)
                + ", 仅在 DB B 的分组行: "@ + numeric::decimal(in_b as nat),
        ] + sample_lines(
            in_a as int,
            "  [样例] 仅在 DB A 的分组行（含 __row_count__）:"@,
            diff.sample_only_in_a@,
        ) + sample_lines(
            in_b as int,
            "  [样例] 仅在 DB B 的分组行（含 __row_count__）:"@,
            diff.sample_only_in_b@,
        ),
        _ => seq!["  [数据差异] 未比较（结构不同或启用了 --skip-data）"@],
    }
}

fn list_data_lines(diff: &TableDiff) -> (out: Vec<String>)
    ensures
        text::views(out@) == data_lines(*diff),
{
    let mut out: Vec<String> = Vec::new();
    match (diff.groups_only_in_a, diff.groups_only_in_b) {
        (Some(in_a), Some(in_b)) => {
            let mut line: String = text::copy("  [数据差异] 仅在 DB A 的分组行: ");
            let number: String = numeric::write_decimal(in_a as u64);
            line.append(number.as_str());
            line.append(", 仅在 DB B 的分组行: ");
            let number: String = numeric::write_decimal(in_b as u64);
            line.append(number.as_str());
            out.push(line);
            if in_a > 0 {
                out.push(text::copy("  [样例] 仅在 DB A 的分组行（含 __row_count__）:"));
                out.push(format_sample_rows(&diff.sample_only_in_a));
            }
            if in_b > 0 {
                out.push(text::copy("  [样例] 仅在 DB B 的分组行（含 __row_count__）:"));
                out.push(format_sample_rows(&diff.sample_only_in_b));
            }
        },
        _ => {
            out.push(text::copy("  [数据差异] 未比较（结构不同或启用了 --skip-data）"));
        },
    }
    assert(text::views(out@) =~= data_lines(*diff));
    out
}

/// The lines on a table that differs.
pub open spec fn table_lines(diff: TableDiff) -> Seq<Seq<char>> {
    seq![""@, "--- 表: "@ + diff.table@ + " ---"@] + schema_lines(
        diff.schema_changed,
        text::views(diff.schema_detail@),
    ) + seq![count_line(diff.row_count_a, diff.row_count_b)] + data_lines(diff)
}

fn list_table_lines(diff: &TableDiff) -> (out: Vec<String>)
    ensures
        text::views(out@) == table_lines(*diff),
{
    let mut title: String = text::copy("--- 表: ");
    title.append(diff.table.as_str());
    title.append(" ---");
    let mut out: Vec<String> = vec![text::copy(""), title];
    let ghost start = text::views(out@);
    let mut schema: Vec<String> = list_schema_lines(diff.schema_changed, &diff.schema_detail);
    let ghost structure = schema@;
    out.append(&mut schema);
    let counts: String = make_count_line(diff.row_count_a, diff.row_count_b);
    let ghost count = counts@;
    out.push(counts);
    let mut data: Vec<String> = list_data_lines(diff);
    let ghost content = data@;
    out.append(&mut data);
    proof {
        assert(start =~= seq![""@, "--- 表: "@ + diff.table@ + " ---"@]);
        assert(text::views(out@) =~= start + text::views(structure) + seq![count] + text::views(
            content,
        ));
    }
    out
}

/// The lines on the tables that differ.
pub open spec fn changed_lines() -> spec_fn(int, TableDiff) -> Seq<Seq<char>> {
    |i: int, diff: TableDiff| table_lines(diff)
}

/// The tables that differ.
pub open spec fn changed_tables(diffs: Seq<TableDiff>) -> Seq<TableDiff> {
    diffs.filter(|diff: TableDiff| diff.differs())
}

/// The lines of a report.
pub open spec fn report_lines(
    db_a: Seq<char>,
    db_b: Seq<char>,
    only_in_a: Seq<Seq<char>>,
    only_in_b: Seq<Seq<char>>,
    diffs: Seq<TableDiff>,
) -> Seq<Seq<char>> {
    let changed = changed_tables(diffs);
    heading_lines(db_a, db_b) + only_lines("仅在 DB A 存在的表"@, only_in_a) + only_lines(
        "仅在 DB B 存在的表"@,
        only_in_b,
    ) + seq![counted("共同表中存在差异的表"@, changed.len())] + (if changed.len() == 0 {
        seq!["  (无)"@]
    } else {
        text::flat_collect(changed, changed_lines())
    })
}

fn append_lines(out: &mut Vec<String>, lines: Vec<String>)
    ensures
        text::views(final(out)@) == text::views(old(out)@) + text::views(lines@),
{
    let mut more: Vec<String> = lines;
    assert(text::views(out@ + more@) =~= text::views(out@) + text::views(more@));
    out.append(&mut more);
}

/// Writes the report on a comparison.
pub fn build_report(
    db_a: &str,
    db_b: &str,
    only_in_a: &Vec<String>,
    only_in_b: &Vec<String>,
    table_diffs: &Vec<TableDiff>,
) -> (r: String)
    ensures
        r@ == db::joined(
            report_lines(
                db_a@,
                db_b@,
                text::views(only_in_a@),
                text::views(only_in_b@),
                table_diffs@,
            ),
            "\n"@,
        ),
{
    let ghost keep = |diff: TableDiff| diff.differs();
    let ghost changed = changed_tables(table_diffs@);
    let ghost f = changed_lines();
    let mut body: Vec<String> = Vec::new();
    let mut count: usize = 0;
    proof {
        reveal(Seq::filter);
        assert(table_diffs@.take(0).filter(keep) =~= seq![]);
        assert(text::views(body@) =~= text::flat_collect(table_diffs@.take(0).filter(keep), f));
    }
    for i in 0..table_diffs.len()
        invariant
            keep == (|diff: TableDiff| diff.differs()),
            f == changed_lines(),
            count <= i,
            count == table_diffs@.take(i as int).filter(keep).len(),
            text::views(body@) == text::flat_collect(
                table_diffs@.take(i as int).filter(keep),
                f,
            ),
    {
        let ghost before = table_diffs@.take(i as int);
        let ghost diff = table_diffs@[i as int];
        proof {
            assert(table_diffs@.take(i + 1) =~= before.push(diff));
            text::lemma_filter_push(before, diff, keep);
        }
        if table_diffs[i].has_difference() {
            let lines: Vec<String> = list_table_lines(&table_diffs[i]);
            proof {
                let kept = before.filter(keep).push(diff);
                assert(kept.drop_last() =~= before.filter(keep));
            }
            append_lines(&mut body, lines);
            count = count + 1;
        }
    }
    assert(table_diffs@.take(table_diffs@.len() as int) == table_diffs@);
    let mut lines: Vec<String> = list_heading(db_a, db_b);
    append_lines(&mut lines, list_only_lines("仅在 DB A 存在的表", only_in_a));
    append_lines(&mut lines, list_only_lines("仅在 DB B 存在的表", only_in_b));
    let caption: String = make_counted("共同表中存在差异的表", count);
    proof {
        text::lemma_views_push(lines@, caption);
        assert(text::views(lines@).push(caption@) =~= text::views(lines@) + seq![caption@]);
    }
    lines.push(caption);
    if count == 0 {
        let none: Vec<String> = vec![text::copy("  (无)")];
        assert(text::views(none@) =~= seq!["  (无)"@]);
        append_lines(&mut lines, none);
    } else {
        append_lines(&mut lines, body);
    }
    db::join_texts(&lines, "\n")
}

/// The line of row counts names the count of database A behind `DB A=` and that of database B behind
/// `DB B=`.
pub proof fn row_counts_stand_behind_their_databases(a: i64, b: i64)
    ensures
        count_line(Some(a), Some(b)) == "  [行数] DB A="@ + numeric::signed_decimal(a as int)
            + ", DB B="@ + numeric::signed_decimal(b as int),
        numeric::signed(numeric::signed_decimal(a as int)) == Some(a),
        numeric::signed(numeric::signed_decimal(b as int)) == Some(b),
        count_line(None, None) == "  [行数] DB A="@ + numeric::decimal(0) + ", DB B="@
            + numeric::decimal(0),
{
    numeric::signed_decimal_reads_back(a as int);
    numeric::signed_decimal_reads_back(b as int);
}

/// Exchanging the databases exchanges what is said of them: the counts of rows, and whether they
/// differ does not change.
pub proof fn exchanging_the_databases_exchanges_the_counts(diff: TableDiff, other: TableDiff)
    requires
        other.row_count_a == diff.row_count_b,
        other.row_count_b == diff.row_count_a,
        other.groups_only_in_a == diff.groups_only_in_b,
        other.groups_only_in_b == diff.groups_only_in_a,
        other.schema_changed == diff.schema_changed,
    ensures
        other.differs() == diff.differs(),
{
}

/// Tables differ where their definitions do, where their numbers of rows do, or where one has groups
/// that the other lacks; else they do not.
pub proof fn tables_differ_in_definition_count_or_groups(diff: TableDiff)
    ensures
        diff.schema_changed ==> diff.differs(),
        diff.row_count_a != diff.row_count_b ==> diff.differs(),
        diff.groups_only_in_a is Some && diff.groups_only_in_a->0 > 0 ==> diff.differs(),
        diff.groups_only_in_b is Some && diff.groups_only_in_b->0 > 0 ==> diff.differs(),
        !diff.schema_changed && diff.row_count_a == diff.row_count_b && (diff.groups_only_in_a
            is None || diff.groups_only_in_a->0 == 0) && (diff.groups_only_in_b is None
            || diff.groups_only_in_b->0 == 0) ==> !diff.differs(),
{
}

/// What is reported of a table: its name, whether its definition changed, its row counts, and how
/// many groups only one database has, each behind the name of its database.
pub proof fn a_table_is_reported_with_its_own_counts(diff: TableDiff, a: i64, b: i64)
    requires
        diff.row_count_a == Some(a),
        diff.row_count_b == Some(b),
    ensures
        table_lines(diff).len() >= 4,
        table_lines(diff)[0] == ""@,
        table_lines(diff)[1] == "--- 表: "@ + diff.table@ + " ---"@,
        table_lines(diff)[2] == (if diff.schema_changed {
            "  [结构差异] 有"@
        } else {
            "  [结构差异] 无"@
        }),
        table_lines(diff).contains(
            "  [行数] DB A="@ + numeric::signed_decimal(a as int) + ", DB B="@
                + numeric::signed_decimal(b as int),
        ),
        diff.groups_only_in_a is Some && diff.groups_only_in_b is Some ==> table_lines(
            diff,
        ).contains(
            "  [数据差异] 仅在 DB A 的分组行: "@ + numeric::decimal(diff.groups_only_in_a->0 as nat)
                + ", 仅在 DB B 的分组行: "@ + numeric::decimal(diff.groups_only_in_b->0 as nat),
        ),
        diff.groups_only_in_a is None || diff.groups_only_in_b is None ==> table_lines(
            diff,
        ).contains("  [数据差异] 未比较（结构不同或启用了 --skip-data）"@),
{
    let schema = schema_lines(diff.schema_changed, text::views(diff.schema_detail@));
    let lines = table_lines(diff);
    let head = seq![""@, "--- 表: "@ + diff.table@ + " ---"@];
    let at = (head.len() + schema.len()) as int;
    assert(schema.len() >= 1);
    assert(lines[0] == head[0]);
    assert(lines[1] == head[1]);
    assert(lines[2] == schema[0]);
    assert(lines[at] == count_line(diff.row_count_a, diff.row_count_b));
    assert(lines[at + 1] == data_lines(diff)[0]);
}

/// Samples are reported behind the caption of their own database, and only where there is something
/// to sample.
pub proof fn samples_stand_under_their_own_database(diff: TableDiff, in_a: usize, in_b: usize)
    requires
        diff.groups_only_in_a == Some(in_a),
        diff.groups_only_in_b == Some(in_b),
    ensures
        ({
            let lines = data_lines(diff);
            let b_at: int = if in_a > 0 {
                3
            } else {
                1
            };
            &&& lines.len() == 1 + (if in_a > 0 {
                2int
            } else {
                0
            }) + (if in_b > 0 {
                2int
            } else {
                0
            })
            &&& in_a > 0 ==> lines[1] == "  [样例] 仅在 DB A 的分组行（含 __row_count__）:"@ && lines[2]
                == sample_text(diff.sample_only_in_a@)
            &&& in_b > 0 ==> lines[b_at] == "  [样例] 仅在 DB B 的分组行（含 __row_count__）:"@
                && lines[b_at + 1] == sample_text(diff.sample_only_in_b@)
        }),
{
}

/// A report names the databases, counts and lists the tables that only one of them has, and counts
/// the common tables that differ.
pub proof fn a_report_names_what_only_one_database_has(
    db_a: Seq<char>,
    db_b: Seq<char>,
    only_in_a: Seq<Seq<char>>,
    only_in_b: Seq<Seq<char>>,
    diffs: Seq<TableDiff>,
)
    ensures
        ({
            let lines = report_lines(db_a, db_b, only_in_a, only_in_b, diffs);
            let a_len: int = if only_in_a.len() == 0 {
                1
            } else {
                only_in_a.len() as int
            };
            let b_len: int = if only_in_b.len() == 0 {
                1
            } else {
                only_in_b.len() as int
            };
            let b_at = 5 + a_len + 2;
            let c_at = b_at + b_len + 2;
            &&& lines.len() > c_at
            &&& lines[1] == "DB A: "@ + db_a
            &&& lines[2] == "DB B: "@ + db_b
            &&& lines[5] == "仅在 DB A 存在的表"@ + " ("@ + numeric::decimal(only_in_a.len()) + "):"@
            &&& lines[b_at] == "仅在 DB B 存在的表"@ + " ("@ + numeric::decimal(only_in_b.len())
                + "):"@
            &&& forall|i: int|
                0 <= i < only_in_a.len() ==> lines[6 + i] == "  - "@ + #[trigger] only_in_a[i]
            &&& forall|i: int|
                0 <= i < only_in_b.len() ==> lines[b_at + 1 + i] == "  - "@
                    + #[trigger] only_in_b[i]
            &&& lines[c_at] == "共同表中存在差异的表"@ + " ("@ + numeric::decimal(
                changed_tables(diffs).len(),
            ) + "):"@
        }),
{
    let lines = report_lines(db_a, db_b, only_in_a, only_in_b, diffs);
    let head = heading_lines(db_a, db_b);
    let a = only_lines("仅在 DB A 存在的表"@, only_in_a);
    let b = only_lines("仅在 DB B 存在的表"@, only_in_b);
    assert(head.len() == 5);
    assert(lines[1] == head[1] && lines[2] == head[2]);
    assert(lines[5] == a[0]);
    let b_at = 5 + a.len();
    assert(lines[b_at as int] == b[0]);
    assert forall|i: int| 0 <= i < only_in_a.len() implies lines[6 + i] == "  - "@
        + #[trigger] only_in_a[i] by {
        assert(lines[6 + i] == a[1 + i]);
        assert(a[1 + i] == bulleted(only_in_a)[i]);
    }
    assert forall|i: int| 0 <= i < only_in_b.len() implies lines[b_at + 1 + i] == "  - "@
        + #[trigger] only_in_b[i] by {
        assert(lines[b_at + 1 + i] == b[1 + i]);
        assert(b[1 + i] == bulleted(only_in_b)[i]);
    }
}

/// Just the tables that differ are reported.
pub proof fn just_the_differing_tables_are_reported(diffs: Seq<TableDiff>, i: int)
    requires
        0 <= i < diffs.len(),
    ensures
        changed_tables(diffs).contains(diffs[i]) <==> diffs[i].schema_changed
            || diffs[i].row_count_a != diffs[i].row_count_b || (diffs[i].groups_only_in_a is Some
            && diffs[i].groups_only_in_a->0 > 0) || (diffs[i].groups_only_in_b is Some
            && diffs[i].groups_only_in_b->0 > 0),
{
    broadcast use vstd::seq_lib::group_filter_ensures;

    let keep = |diff: TableDiff| diff.differs();
    if changed_tables(diffs).contains(diffs[i]) {
        let k = choose|k: int|
            0 <= k < changed_tables(diffs).len() && changed_tables(diffs)[k] == diffs[i];
        assert(keep(diffs.filter(keep)[k]));
    }
    if diffs[i].differs() {
        assert(keep(diffs[i]));
        assert(diffs.filter(keep).contains(diffs[i]));
    }
}

/// Databases differ where one has a table that the other lacks, or where a common table differs.
pub proof fn databases_differ_in_tables_or_in_what_they_hold(
    only_in_a: nat,
    only_in_b: nat,
    diffs: Seq<TableDiff>,
    i: int,
)
    ensures
        only_in_a > 0 ==> databases_differ(only_in_a, only_in_b, diffs),
        only_in_b > 0 ==> databases_differ(only_in_a, only_in_b, diffs),
        0 <= i < diffs.len() && diffs[i].row_count_a != diffs[i].row_count_b ==> databases_differ(
            only_in_a,
            only_in_b,
            diffs,
        ),
        databases_differ(0, 0, diffs) ==> diffs.len() > 0,
        databases_differ(0, 0, seq![]) == false,
{
    if 0 <= i < diffs.len() && diffs[i].row_count_a != diffs[i].row_count_b {
        assert(diffs[i].differs());
    }
}

/// A sample row shows each column with its own value, as long as there are both.
pub proof fn a_sample_shows_each_column_with_its_own_value(
    columns: Seq<Seq<char>>,
    values: Seq<SampleValue<Seq<char>, Seq<u8>>>,
    i: int,
)
    requires
        0 <= i < columns.len(),
        i < values.len(),
    ensures
        i < entries_of(columns, values).len(),
        entries_of(columns, values)[i].name == columns[i],
        entries_of(columns, values)[i].value == values[i],
        rendered_entry(entries_of(columns, values)[i]) == debug_text(columns[i]) + ": "@
            + rendered_value(values[i]),
        rendered_value(SampleValue::Null) == "null"@,
        forall|n: i64| #[trigger]
            rendered_value(SampleValue::Integer(n)) == numeric::signed_decimal(n as int),
        forall|t: Seq<char>| #[trigger] rendered_value(SampleValue::Text(t)) == debug_text(t),
        forall|t: Seq<char>| #[trigger] rendered_value(SampleValue::Real(t)) == t,
        forall|b: Seq<u8>| #[trigger]
            rendered_value(SampleValue::Blob(b)) == "X'"@ + rows::hex(b) + "'"@,
{
}

/// Definitions differ where the columns or the statements do, and a change of definitions is shown
/// in full up to a limit.
pub proof fn changed_definitions_are_shown_up_to_a_limit(detail: Seq<Seq<char>>, i: int)
    requires
        0 <= i < detail.len(),
        i < 200,
    ensures
        schema_lines(true, detail)[1 + i] == "  "@ + detail[i],
        schema_lines(true, detail).len() == (if detail.len() > 200 {
            202nat
        } else {
            1 + detail.len()
        }),
        schema_lines(false, detail).len() == 1,
        detail.len() > 200 ==> schema_lines(true, detail)[201] == "  ... (结构差异输出已截断)"@,
{
}

/// A sample row stands in braces, its entries with commas between them; the rows of a sample are
/// counted from one, and an empty sample is said to be none.
pub proof fn sample_rows_are_counted_from_one(sample: Seq<SampleRow>)
    ensures
        sample.len() == 0 ==> sample_text(sample) == "(无样例)"@,
        sample.len() == 1 ==> sample_text(sample) == "    ["@ + numeric::decimal(1) + "] "@ + ("{"@
            + db::joined(
            sample[0]@.map_values(
                |entry: SampleEntry<Seq<char>, SampleValue<Seq<char>, Seq<u8>>>|
                    rendered_entry(entry),
            ),
            ", "@,
        ) + "}"@),
        sample.len() >= 2 ==> sample_text(sample) == sample_text(sample.drop_last()) + "\n"@ + (
        "    ["@ + numeric::decimal(sample.len()) + "] "@ + ("{"@ + db::joined(
            sample.last()@.map_values(
                |entry: SampleEntry<Seq<char>, SampleValue<Seq<char>, Seq<u8>>>|
                    rendered_entry(entry),
            ),
            ", "@,
        ) + "}"@)),
{
    let lines = Seq::new(sample.len(), |i: int| sample_line(i, rendered_row(sample[i]@)));
    if sample.len() >= 1 {
        let init = sample.drop_last();
        assert(lines.drop_last() =~= Seq::new(
            init.len(),
            |i: int| sample_line(i, rendered_row(init[i]@)),
        ));
        assert(lines[0] == sample_line(0, rendered_row(sample[0]@)));
    }
}

/// A sample is kept where rows were compared and, for grouped ones, where some differ.
pub proof fn samples_are_kept_of_what_differs(
    comparison: DataComparison,
    count: usize,
    sample: Seq<SampleRow>,
)
    ensures
        comparison is Skipped ==> kept_sample(comparison, count, sample).len() == 0,
        comparison is Grouped && count == 0 ==> kept_sample(comparison, count, sample).len() == 0,
        comparison is Grouped && count > 0 ==> kept_sample(comparison, count, sample) == sample,
        comparison is Tolerant ==> kept_sample(comparison, count, sample) == sample,
{
}

/// Definitions differ where the statements or the columns do.
pub proof fn definitions_differ_in_statement_or_columns(
    create_a: Seq<char>,
    create_b: Seq<char>,
    columns_a: Seq<ColumnInfo<Seq<char>>>,
    columns_b: Seq<ColumnInfo<Seq<char>>>,
)
    ensures
        create_a != create_b ==> schemas_differ(create_a, create_b, columns_a, columns_b),
        columns_a != columns_b ==> schemas_differ(create_a, create_b, columns_a, columns_b),
        !schemas_differ(create_a, create_a, columns_a, columns_a),
{
}

/// Every field of a `SampleEntry` is seen under its own name.
pub proof fn every_field_of_sample_entry_is_seen(it: SampleEntry)
    ensures
        it@.name == it.name@,
        it@.value == it.value@,
{
}

} // verus!
