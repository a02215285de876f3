//! The difference of two table definitions, line by line.

use crate::keyed;
use crate::numeric;
use crate::text;
use vstd::prelude::*;

verus! {

/// What happens to a line on the way from the left text to the right one.
#[derive(Clone, Copy, PartialEq, Eq, Debug, Structural)]
pub enum DiffOp {
    Equal,
    Delete,
    Insert,
}

/// A line and what happens to it.
#[verifier::ext_equal]
pub struct DiffLine<T = String> {
    pub op: DiffOp,
    pub line: T,
}

impl View for DiffLine {
    type V = DiffLine<Seq<char>>;

    open spec fn view(&self) -> Self::V {
        DiffLine { op: self.op, line: self.line@ }
    }
}

/// How many lines two texts can have in common, in the same order.
pub open spec fn common_len(left: Seq<Seq<char>>, right: Seq<Seq<char>>) -> int
    decreases left.len(), right.len(),
{
    if left.len() == 0 || right.len() == 0 {
        0
    } else if left[0] == right[0] {
        1 + common_len(left.skip(1), right.skip(1))
    } else if common_len(left.skip(1), right) >= common_len(left, right.skip(1)) {
        common_len(left.skip(1), right)
    } else {
        common_len(left, right.skip(1))
    }
}

/// The lines of both texts, with what happens to them. Equal lines are kept; of two that differ,
/// the left one goes first unless more is kept by taking the right one.
pub open spec fn difference(left: Seq<Seq<char>>, right: Seq<Seq<char>>) -> Seq<
    DiffLine<Seq<char>>,
>
    decreases left.len(), right.len(),
{
    if left.len() == 0 && right.len() == 0 {
        seq![]
    } else if left.len() > 0 && right.len() > 0 && left[0] == right[0] {
        seq![DiffLine { op: DiffOp::Equal, line: left[0] }] + difference(
            left.skip(1),
            right.skip(1),
        )
    } else if right.len() == 0 || (left.len() > 0 && common_len(left.skip(1), right) >= common_len(
        left,
        right.skip(1),
    )) {
        seq![DiffLine { op: DiffOp::Delete, line: left[0] }] + difference(left.skip(1), right)
    } else {
        seq![DiffLine { op: DiffOp::Insert, line: right[0] }] + difference(left, right.skip(1))
    }
}

/// The lines that are not marked with the given operation.
pub open spec fn lines_without(diff: Seq<DiffLine<Seq<char>>>, op: DiffOp) -> Seq<Seq<char>>
    decreases diff.len(),
{
    if diff.len() == 0 {
        seq![]
    } else if diff[0].op == op {
        lines_without(diff.skip(1), op)
    } else {
        seq![diff[0].line] + lines_without(diff.skip(1), op)
    }
}

/// How many lines are marked with the given operation.
pub open spec fn count_of(diff: Seq<DiffLine<Seq<char>>>, op: DiffOp) -> int
    decreases diff.len(),
{
    if diff.len() == 0 {
        0
    } else if diff[0].op == op {
        1 + count_of(diff.skip(1), op)
    } else {
        count_of(diff.skip(1), op)
    }
}

/// A difference holds both texts: without the insertions it is the left one, without the deletions
/// the right one. It keeps as many lines as can be kept.
pub proof fn difference_holds_both_texts(left: Seq<Seq<char>>, right: Seq<Seq<char>>)
    ensures
        lines_without(difference(left, right), DiffOp::Insert) == left,
        lines_without(difference(left, right), DiffOp::Delete) == right,
        count_of(difference(left, right), DiffOp::Equal) == common_len(left, right),
    decreases left.len(), right.len(),
{
    let diff = difference(left, right);
    if left.len() == 0 && right.len() == 0 {
        assert(lines_without(diff, DiffOp::Insert) =~= left);
        assert(lines_without(diff, DiffOp::Delete) =~= right);
    } else if left.len() > 0 && right.len() > 0 && left[0] == right[0] {
        difference_holds_both_texts(left.skip(1), right.skip(1));
        assert(diff.skip(1) =~= difference(left.skip(1), right.skip(1)));
        assert(seq![left[0]] + left.skip(1) =~= left);
        assert(seq![right[0]] + right.skip(1) =~= right);
    } else if right.len() == 0 || (left.len() > 0 && common_len(left.skip(1), right) >= common_len(
        left,
        right.skip(1),
    )) {
        difference_holds_both_texts(left.skip(1), right);
        assert(diff.skip(1) =~= difference(left.skip(1), right));
        assert(seq![left[0]] + left.skip(1) =~= left);
    } else {
        difference_holds_both_texts(left, right.skip(1));
        assert(diff.skip(1) =~= difference(left, right.skip(1)));
        assert(seq![right[0]] + right.skip(1) =~= right);
    }
}

/// Whether the lines of `part` occur in `whole` in the same order.
pub open spec fn occurs_in_order(part: Seq<Seq<char>>, whole: Seq<Seq<char>>) -> bool
    decreases whole.len(),
{
    if part.len() == 0 {
        true
    } else if whole.len() == 0 {
        false
    } else if part[0] == whole[0] {
        occurs_in_order(part.skip(1), whole.skip(1))
    } else {
        occurs_in_order(part, whole.skip(1))
    }
}

/// No more lines can be kept: lines that occur in order in both texts are no more than those that
/// a difference keeps.
pub proof fn no_more_lines_can_be_kept(
    left: Seq<Seq<char>>,
    right: Seq<Seq<char>>,
    part: Seq<Seq<char>>,
)
    requires
        occurs_in_order(part, left),
        occurs_in_order(part, right),
    ensures
        part.len() <= common_len(left, right),
    decreases left.len(), right.len(),
{
    lemma_common_len_bounds(left, right);
    if part.len() > 0 {
        if left[0] == right[0] {
            if part[0] == left[0] {
                no_more_lines_can_be_kept(left.skip(1), right.skip(1), part.skip(1));
            } else {
                no_more_lines_can_be_kept(left.skip(1), right.skip(1), part);
            }
        } else if part[0] == left[0] {
            no_more_lines_can_be_kept(left, right.skip(1), part);
        } else {
            no_more_lines_can_be_kept(left.skip(1), right, part);
        }
    }
}

proof fn lemma_common_len_bounds(left: Seq<Seq<char>>, right: Seq<Seq<char>>)
    ensures
        0 <= common_len(left, right) <= left.len(),
    decreases left.len(), right.len(),
{
    if left.len() > 0 && right.len() > 0 {
        lemma_common_len_bounds(left.skip(1), right.skip(1));
        lemma_common_len_bounds(left.skip(1), right);
        lemma_common_len_bounds(left, right.skip(1));
    }
}

/// The last `n` lines.
spec fn tail(lines: Seq<Seq<char>>, n: int) -> Seq<Seq<char>> {
    lines.skip(lines.len() - n)
}

/// Whether a row of the table holds what the last lines of both texts have in common.
spec fn row_holds(left: Seq<Seq<char>>, right: Seq<Seq<char>>, row: Seq<usize>, k: int) -> bool {
    forall|m: int|
        0 <= m < row.len() ==> #[trigger] row[m] == common_len(tail(left, k), tail(right, m))
}

/// The table of what the last lines of both texts have in common, by their numbers.
fn build_table(left: &Vec<String>, right: &Vec<String>) -> (table: Vec<Vec<usize>>)
    ensures
        table@.len() == left@.len() + 1,
        forall|k: int|
            0 <= k < table@.len() ==> (#[trigger] table@[k])@.len() == right@.len() + 1
                && row_holds(text::views(left@), text::views(right@), table@[k]@, k),
{
    let ghost a = text::views(left@);
    let ghost b = text::views(right@);
    let rows: usize = left.len();
    let columns: usize = right.len();
    let mut first: Vec<usize> = Vec::new();
    first.push(0);
    assert(tail(a, 0).len() == 0);
    for m in 0..columns
        invariant
            tail(a, 0).len() == 0,
            first@.len() == m + 1,
            row_holds(a, b, first@, 0),
    {
        first.push(0);
    }
    let mut table: Vec<Vec<usize>> = Vec::new();
    table.push(first);
    for k in 0..rows
        invariant
            a == text::views(left@),
            b == text::views(right@),
            rows == left@.len(),
            columns == right@.len(),
            table@.len() == k + 1,
            forall|i: int|
                0 <= i <= k ==> (#[trigger] table@[i])@.len() == columns + 1 && row_holds(
                    a,
                    b,
                    table@[i]@,
                    i,
                ),
    {
        let ghost before = table@[k as int]@;
        assert(row_holds(a, b, before, k as int));
        let at: usize = rows - 1 - k;
        let mut row: Vec<usize> = Vec::new();
        row.push(0);
        assert(tail(b, 0).len() == 0);
        for m in 0..columns
            invariant
                a == text::views(left@),
                b == text::views(right@),
                rows == left@.len(),
                columns == right@.len(),
                k < rows,
                at == rows - 1 - k,
                table@.len() == k + 1,
                table@[k as int]@ == before,
                before.len() == columns + 1,
                row_holds(a, b, before, k as int),
                row@.len() == m + 1,
                row_holds(a, b, row@, k + 1),
        {
            let other: usize = columns - 1 - m;
            let ghost x = tail(a, k + 1);
            let ghost y = tail(b, m + 1);
            assert(x[0] == left@[at as int]@);
            assert(y[0] == right@[other as int]@);
            assert(x.skip(1) =~= tail(a, k as int));
            assert(y.skip(1) =~= tail(b, m as int));
            assert(before[m as int] == common_len(tail(a, k as int), tail(b, m as int)));
            assert(before[m + 1] == common_len(tail(a, k as int), y));
            assert(row@[m as int] == common_len(x, tail(b, m as int)));
            proof {
                lemma_common_len_bounds(tail(a, k as int), tail(b, m as int));
            }
            let value: usize = if text::same(left[at].as_str(), right[other].as_str()) {
                table[k][m] + 1
            } else if table[k][m + 1] >= row[m] {
                table[k][m + 1]
            } else {
                row[m]
            };
            row.push(value);
        }
        table.push(row);
    }
    table
}

/// The difference of two lists of lines.
pub fn diff_operations(left: &Vec<String>, right: &Vec<String>) -> (out: Vec<DiffLine>)
    ensures
        text::views(out@) == difference(text::views(left@), text::views(right@)),
{
    let table: Vec<Vec<usize>> = build_table(left, right);
    let ghost a = text::views(left@);
    let ghost b = text::views(right@);
    let ghost goal = difference(a, b);
    let rows: usize = left.len();
    let columns: usize = right.len();
    let mut i: usize = 0;
    let mut j: usize = 0;
    let mut out: Vec<DiffLine> = Vec::new();
    assert(a.skip(0) == a && b.skip(0) == b);
    assert(text::views(out@) + goal =~= goal);
    while i < rows || j < columns
        invariant
            a == text::views(left@),
            b == text::views(right@),
            rows == left@.len(),
            columns == right@.len(),
            i <= rows,
            j <= columns,
            table@.len() == rows + 1,
            forall|k: int|
                0 <= k < table@.len() ==> (#[trigger] table@[k])@.len() == columns + 1
                    && row_holds(a, b, table@[k]@, k),
            text::views(out@) + difference(a.skip(i as int), b.skip(j as int)) == goal,
        decreases (rows - i) + (columns - j),
    {
        let ghost x = a.skip(i as int);
        let ghost y = b.skip(j as int);
        let ghost done = text::views(out@);
        if i < rows && j < columns && text::same(left[i].as_str(), right[j].as_str()) {
            assert(x[0] == left@[i as int]@ && y[0] == right@[j as int]@);
            assert(x.skip(1) == a.skip(i + 1) && y.skip(1) == b.skip(j + 1));
            let kept = DiffLine { op: DiffOp::Equal, line: left[i].clone() };
            proof {
                text::lemma_views_push(out@, kept);
                let rest = difference(a.skip(i + 1), b.skip(j + 1));
                assert(done + (seq![kept@] + rest) =~= done.push(kept@) + rest);
            }
            out.push(kept);
            i = i + 1;
            j = j + 1;
        } else {
            let delete: bool = if j == columns {
                true
            } else if i == rows {
                false
            } else {
                let below: usize = rows - 1 - i;
                let beside: usize = columns - 1 - j;
                assert(x[0] == left@[i as int]@ && y[0] == right@[j as int]@);
                assert(x.skip(1) =~= tail(a, below as int));
                assert(y.skip(1) =~= tail(b, beside as int));
                assert(x =~= tail(a, below + 1));
                assert(y =~= tail(b, beside + 1));
                assert(row_holds(a, b, table@[below as int]@, below as int));
                assert(row_holds(a, b, table@[below + 1]@, below + 1));
                assert(table@[below as int]@[beside + 1] == common_len(x.skip(1), y));
                assert(table@[below + 1]@[beside as int] == common_len(x, y.skip(1)));
                table[below][beside + 1] >= table[below + 1][beside]
            };
            if delete {
                assert(x[0] == left@[i as int]@);
                assert(x.skip(1) == a.skip(i + 1));
                let gone = DiffLine { op: DiffOp::Delete, line: left[i].clone() };
                proof {
                    text::lemma_views_push(out@, gone);
                    let rest = difference(a.skip(i + 1), y);
                    assert(done + (seq![gone@] + rest) =~= done.push(gone@) + rest);
                }
                out.push(gone);
                i = i + 1;
            } else {
                assert(y[0] == right@[j as int]@);
                assert(y.skip(1) == b.skip(j + 1));
                let new = DiffLine { op: DiffOp::Insert, line: right[j].clone() };
                proof {
                    text::lemma_views_push(out@, new);
                    let rest = difference(x, b.skip(j + 1));
                    assert(done + (seq![new@] + rest) =~= done.push(new@) + rest);
                }
                out.push(new);
                j = j + 1;
            }
        }
    }
    assert(difference(a.skip(i as int), b.skip(j as int)) =~= seq![]);
    assert(text::views(out@) =~= goal);
    out
}

/// The lines of a definition; an empty one is named as such.
pub open spec fn definition_lines(create: Seq<char>) -> Seq<Seq<char>> {
    if create.len() == 0 {
        seq!["<EMPTY>"@]
    } else {
        text::text_lines(create)
    }
}

fn list_definition_lines(create: &str) -> (out: Vec<String>)
    ensures
        text::views(out@) == definition_lines(create@),
{
    if text::is_empty(create) {
        let out: Vec<String> = vec![text::copy("<EMPTY>")];
        assert(text::views(out@) =~= definition_lines(create@));
        return out;
    }
    text::split_text_lines(create)
}

/// The mark before a line of a difference.
pub open spec fn op_mark(op: DiffOp) -> char {
    match op {
        DiffOp::Equal => ' ',
        DiffOp::Delete => '-',
        DiffOp::Insert => '+',
    }
}

/// The lines of a difference with their marks.
pub open spec fn marked_lines(diff: Seq<DiffLine<Seq<char>>>) -> Seq<Seq<char>> {
    diff.map_values(|line: DiffLine<Seq<char>>| seq![op_mark(line.op)] + line.line)
}

/// The head of a difference of texts with the given numbers of lines.
pub open spec fn diff_head(left: nat, right: nat) -> Seq<Seq<char>> {
    seq![
        "--- db_a"@,
        "+++ db_b"@,
        "@@ -1,"@ + numeric::decimal(left) + " +1,"@ + numeric::decimal(right) + " @@"@,
    ]
}

/// The difference of two definitions; none where their lines are the same.
pub open spec fn schema_diff(create_a: Seq<char>, create_b: Seq<char>) -> Seq<Seq<char>> {
    let left = definition_lines(create_a);
    let right = definition_lines(create_b);
    if left == right {
        seq![]
    } else {
        diff_head(left.len(), right.len()) + marked_lines(difference(left, right))
    }
}

/// The difference of two definitions, line by line.
pub fn build_schema_diff_lines(create_a: &str, create_b: &str) -> (out: Vec<String>)
    ensures
        text::views(out@) == schema_diff(create_a@, create_b@),
{
    let left: Vec<String> = list_definition_lines(create_a);
    let right: Vec<String> = list_definition_lines(create_b);
    let mut out: Vec<String> = Vec::new();
    if keyed::same_row(&left, &right) {
        assert(text::views(out@) =~= schema_diff(create_a@, create_b@));
        return out;
    }
    let operations: Vec<DiffLine> = diff_operations(&left, &right);
    let mut range: String = text::copy("@@ -1,");
    let count: String = numeric::write_decimal(left.len() as u64);
    range.append(count.as_str());
    range.append(" +1,");
    let count: String = numeric::write_decimal(right.len() as u64);
    range.append(count.as_str());
    range.append(" @@");
    out.push(text::copy("--- db_a"));
    out.push(text::copy("+++ db_b"));
    out.push(range);
    let ghost head = diff_head(left@.len(), right@.len());
    let ghost diff = text::views(operations@);
    let ghost marked = marked_lines(diff);
    assert(text::views(left@).len() == left@.len());
    assert(text::views(right@).len() == right@.len());
    assert(text::views(out@) =~= head + marked.take(0));
    for i in 0..operations.len()
        invariant
            diff == text::views(operations@),
            marked == marked_lines(diff),
            text::views(out@) == head + marked.take(i as int),
    {
        let mut line: String = String::new();
        line.push(
            match operations[i].op {
                DiffOp::Equal => ' ',
                DiffOp::Delete => '-',
                DiffOp::Insert => '+',
            },
        );
        line.append(operations[i].line.as_str());
        proof {
            assert(diff[i as int] == operations@[i as int]@);
            assert(line@ =~= marked[i as int]);
            text::lemma_views_push(out@, line);
            assert((head + marked.take(i as int)).push(line@) =~= head + marked.take(i + 1));
        }
        out.push(line);
    }
    assert(marked.take(operations@.len() as int) == marked);
    out
}

/// A definition does not differ from itself.
pub proof fn same_definitions_do_not_differ(create: Seq<char>)
    ensures
        schema_diff(create, create).len() == 0,
{
}

/// Lines of the left only are marked with a minus, lines of the right only with a plus, and common
/// ones with a blank.
pub proof fn lines_are_marked_by_their_side(diff: Seq<DiffLine<Seq<char>>>, i: int)
    requires
        0 <= i < diff.len(),
    ensures
        marked_lines(diff).len() == diff.len(),
        marked_lines(diff)[i].skip(1) == diff[i].line,
        diff[i].op == DiffOp::Delete ==> marked_lines(diff)[i][0] == '-',
        diff[i].op == DiffOp::Insert ==> marked_lines(diff)[i][0] == '+',
        diff[i].op == DiffOp::Equal ==> marked_lines(diff)[i][0] == ' ',
{
    assert(marked_lines(diff)[i].skip(1) =~= diff[i].line);
}

/// Where the first lines differ and either may go, that of the left goes first.
pub proof fn the_left_line_goes_first(left: Seq<Seq<char>>, right: Seq<Seq<char>>)
    requires
        left.len() > 0,
        right.len() > 0,
        left[0] != right[0],
    ensures
        common_len(left.skip(1), right) >= common_len(left, right.skip(1)) ==> difference(
            left,
            right,
        )[0].op == DiffOp::Delete,
        common_len(left.skip(1), right) < common_len(left, right.skip(1)) ==> difference(
            left,
            right,
        )[0].op == DiffOp::Insert,
{
}

/// Definitions that differ are shown behind three lines that name both databases and count the lines
/// of both; an empty definition is shown as such.
pub proof fn differing_definitions_are_shown_behind_a_head(a: Seq<char>, b: Seq<char>)
    ensures
        definition_lines(Seq::empty()) == seq!["<EMPTY>"@],
        a.len() > 0 ==> definition_lines(a) == text::text_lines(a),
        definition_lines(a) == definition_lines(b) <==> schema_diff(a, b).len() == 0,
        definition_lines(a) != definition_lines(b) ==> {
            &&& schema_diff(a, b)[0] == "--- db_a"@
            &&& schema_diff(a, b)[1] == "+++ db_b"@
            &&& schema_diff(a, b)[2] == "@@ -1,"@ + numeric::decimal(definition_lines(a).len())
                + " +1,"@ + numeric::decimal(definition_lines(b).len()) + " @@"@
            &&& schema_diff(a, b).skip(3) == marked_lines(
                difference(definition_lines(a), definition_lines(b)),
            )
        },
{
    let lines = marked_lines(difference(definition_lines(a), definition_lines(b)));
    let head = diff_head(definition_lines(a).len(), definition_lines(b).len());
    assert((head + lines).skip(3) =~= lines);
}

/// Every field of a `DiffLine` is seen under its own name.
pub proof fn every_field_of_diff_line_is_seen(it: DiffLine)
    ensures
        it@.op == it.op,
        it@.line == it.line@,
{
}

} // verus!
