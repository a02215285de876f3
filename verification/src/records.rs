//! Records of tables: listing their keys, leaving out those that a table has already, and laying
//! out their values by column.

use crate::db;
use crate::db::Cell;
use crate::keyed;
use crate::keyed::RowSet;
use crate::text;
use vstd::prelude::*;

verus! {

/// A record that a row of texts identifies.
pub trait Record: Sized {
    /// The texts that identify the record.
    spec fn key(&self) -> Seq<Seq<char>>;

    /// The texts that identify the record.
    fn key_row(&self) -> (r: Vec<String>)
        ensures
            text::views(r@) == self.key(),
    ;
}

/// The keys of records, in order.
pub open spec fn keys_of<R: Record>(records: Seq<R>) -> Seq<Seq<Seq<char>>> {
    records.map_values(|record: R| record.key())
}

/// Lists the keys of records, each once.
pub fn list_keys<R: Record>(records: &Vec<R>) -> (r: RowSet)
    ensures
        r.wf(),
        r@ == keyed::distinct_rows(keys_of(records@)),
{
    let ghost all = keys_of(records@);
    let mut r: RowSet = RowSet::new();
    assert(all.take(0).len() == 0);
    for i in 0..records.len()
        invariant
            r.wf(),
            all == keys_of(records@),
            r@ == keyed::distinct_rows(all.take(i as int)),
    {
        let key: Vec<String> = records[i].key_row();
        r.insert(key);
        assert(all.take(i + 1).drop_last() == all.take(i as int));
        assert(all.take(i + 1).last() == records@[i as int].key());
    }
    assert(all.take(records@.len() as int) == all);
    r
}

/// Whether the key of a record is not among those given.
pub open spec fn absent<R: Record>(existing: Seq<Seq<Seq<char>>>) -> spec_fn(R) -> bool {
    |record: R| !existing.contains(record.key())
}

/// Keeps the records whose keys are not among those given, in order.
pub fn retain_absent<R: Record>(records: Vec<R>, existing: &RowSet) -> (out: Vec<R>)
    requires
        existing.wf(),
    ensures
        out@ == records@.filter(absent(existing@)),
{
    let ghost all = records@;
    let ghost keep = absent::<R>(existing@);
    let mut out: Vec<R> = Vec::new();
    proof {
        reveal(Seq::filter);
        assert(all.take(0).len() == 0);
    }
    for record in it: records
        invariant
            existing.wf(),
            it.seq() == all,
            keep == absent::<R>(existing@),
            out@ == all.take(it.index() as int).filter(keep),
    {
        let ghost i = it.index() as int;
        let key: Vec<String> = record.key_row();
        proof {
            assert(all.take(i + 1) =~= all.take(i).push(record));
            text::lemma_filter_push(all.take(i), record, keep);
        }
        if !existing.contains(&key) {
            out.push(record);
        }
    }
    assert(all.take(all.len() as int) == all);
    out
}

/// Once all kept records are among the known ones, none is kept any more.
pub proof fn filtered_rerun_is_empty<R: Record>(
    records: Seq<R>,
    existing: Seq<Seq<Seq<char>>>,
    after: Seq<Seq<Seq<char>>>,
)
    requires
        forall|key: Seq<Seq<char>>| #[trigger] existing.contains(key) ==> after.contains(key),
        forall|i: int|
            0 <= i < records.filter(absent(existing)).len() ==> after.contains(
                (#[trigger] records.filter(absent(existing))[i]).key(),
            ),
    ensures
        records.filter(absent::<R>(after)).len() == 0,
    decreases records.len(),
{
    reveal(Seq::filter);
    if records.len() > 0 {
        let init = records.drop_last();
        let record = records.last();
        assert(init.push(record) =~= records);
        text::lemma_filter_push(init, record, absent::<R>(existing));
        text::lemma_filter_push(init, record, absent::<R>(after));
        let kept = records.filter(absent::<R>(existing));
        let part = init.filter(absent::<R>(existing));
        assert forall|i: int| 0 <= i < part.len() implies after.contains(
            (#[trigger] part[i]).key(),
        ) by {
            assert(kept[i] == part[i]);
        }
        filtered_rerun_is_empty(init, existing, after);
        if !existing.contains(record.key()) {
            assert(kept[part.len() as int] == record);
        }
    }
}

/// The records whose keys are not among those given, only the first of those with the same key.
pub open spec fn first_absent<R: Record>(
    records: Seq<R>,
    existing: Seq<Seq<Seq<char>>>,
) -> Seq<R>
    decreases records.len(),
{
    if records.len() == 0 {
        seq![]
    } else {
        let init = first_absent(records.drop_last(), existing);
        let record = records.last();
        if existing.contains(record.key()) || keys_of(init).contains(record.key()) {
            init
        } else {
            init.push(record)
        }
    }
}

/// What is kept has no key twice and none of those given.
pub proof fn first_absent_keys_are_new<R: Record>(
    records: Seq<R>,
    existing: Seq<Seq<Seq<char>>>,
)
    ensures
        keys_of(first_absent(records, existing)).no_duplicates(),
        forall|i: int|
            0 <= i < first_absent(records, existing).len() ==> !existing.contains(
                (#[trigger] first_absent(records, existing)[i]).key(),
            ),
    decreases records.len(),
{
    if records.len() > 0 {
        let init = first_absent(records.drop_last(), existing);
        first_absent_keys_are_new(records.drop_last(), existing);
        let kept = first_absent(records, existing);
        let record = records.last();
        if !(existing.contains(record.key()) || keys_of(init).contains(record.key())) {
            assert(keys_of(kept) =~= keys_of(init).push(record.key()));
            assert forall|i: int| 0 <= i < kept.len() implies !existing.contains(
                (#[trigger] kept[i]).key(),
            ) by {
                if i < init.len() {
                    assert(kept[i] == init[i]);
                }
            }
        }
    }
}

/// Keeps the records whose keys are not among those given, only the first of each key.
pub fn retain_first_absent<R: Record>(records: Vec<R>, existing: &RowSet) -> (out: Vec<R>)
    requires
        existing.wf(),
    ensures
        out@ == first_absent(records@, existing@),
{
    let ghost all = records@;
    let mut seen: RowSet = RowSet::new();
    let mut out: Vec<R> = Vec::new();
    assert(all.take(0).len() == 0);
    assert(keys_of(out@) =~= seen@);
    for record in it: records
        invariant
            existing.wf(),
            seen.wf(),
            it.seq() == all,
            seen@ == keys_of(out@),
            out@ == first_absent(all.take(it.index() as int), existing@),
    {
        let ghost i = it.index() as int;
        assert(all.take(i + 1).drop_last() =~= all.take(i));
        assert(all.take(i + 1).last() == record);
        let key: Vec<String> = record.key_row();
        if !existing.contains(&key) && seen.insert(key) {
            assert(keys_of(out@.push(record)) =~= keys_of(out@).push(record.key()));
            out.push(record);
        }
    }
    assert(all.take(all.len() as int) == all);
    out
}

/// A record whose values can be bound to the columns of a table.
pub trait Bindable: Sized {
    /// The value for a column; a column that the record does not know gets none. The magnetic
    /// variation is not part of the record.
    spec fn cell(&self, variation: Option<u64>, column: Seq<char>) -> Cell<Seq<char>>;

    /// The value for a column.
    fn make_cell(&self, variation: Option<u64>, column: &str) -> (r: Cell)
        ensures
            r@ == self.cell(variation, column@),
    ;
}

/// The values of a record for the columns of a table, in their order.
pub open spec fn bound_row<R: Bindable>(
    record: R,
    variation: Option<u64>,
    columns: Seq<Seq<char>>,
) -> Seq<Cell<Seq<char>>> {
    columns.map_values(|column: Seq<char>| record.cell(variation, column))
}

/// Lays out the values of a record for the columns of a table.
pub fn bind_record<R: Bindable>(record: &R, variation: Option<u64>, columns: &Vec<String>) -> (out:
    Vec<Cell>)
    ensures
        text::views(out@) == bound_row(*record, variation, text::views(columns@)),
{
    let ghost goal = bound_row(*record, variation, text::views(columns@));
    let mut out: Vec<Cell> = Vec::new();
    assert(text::views(out@) =~= goal.take(0));
    for i in 0..columns.len()
        invariant
            goal == bound_row(*record, variation, text::views(columns@)),
            text::views(out@) == goal.take(i as int),
    {
        let value: Cell = record.make_cell(variation, columns[i].as_str());
        proof {
            text::lemma_views_push(out@, value);
            assert(goal.take(i + 1) =~= goal.take(i as int).push(value@));
        }
        out.push(value);
    }
    assert(goal.take(columns@.len() as int) == goal);
    out
}

/// The variation for the record at `i`, where variations are given.
pub open spec fn variation_at(variations: Option<Seq<u64>>, i: int) -> Option<u64> {
    match variations {
        Some(values) => Some(values[i]),
        None => None,
    }
}

/// The view of optional variations.
pub open spec fn variations_view(variations: Option<&Vec<u64>>) -> Option<Seq<u64>> {
    match variations {
        Some(values) => Some(values@),
        None => None,
    }
}

/// The views of rows of values.
pub open spec fn cell_rows(v: Seq<Vec<Cell>>) -> Seq<Seq<Cell<Seq<char>>>> {
    v.map_values(|row: Vec<Cell>| text::views(row@))
}

/// The values of records for the columns of a table, row by row.
pub open spec fn bound_rows<R: Bindable>(
    records: Seq<R>,
    variations: Option<Seq<u64>>,
    columns: Seq<Seq<char>>,
) -> Seq<Seq<Cell<Seq<char>>>> {
    Seq::new(
        records.len(),
        |i: int| bound_row(records[i], variation_at(variations, i), columns),
    )
}

/// Lays out the values of records for the columns of a table.
pub fn bind_records<R: Bindable>(
    records: &Vec<R>,
    variations: Option<&Vec<u64>>,
    columns: &Vec<String>,
) -> (out: Vec<Vec<Cell>>)
    requires
        variations matches Some(values) ==> values@.len() >= records@.len(),
    ensures
        cell_rows(out@) == bound_rows(
            records@,
            variations_view(variations),
            text::views(columns@),
        ),
{
    let ghost goal = bound_rows(records@, variations_view(variations), text::views(columns@));
    let mut out: Vec<Vec<Cell>> = Vec::new();
    assert(cell_rows(out@) =~= goal.take(0));
    for i in 0..records.len()
        invariant
            variations matches Some(values) ==> values@.len() >= records@.len(),
            goal == bound_rows(
                records@,
                variations_view(variations),
                text::views(columns@),
            ),
            cell_rows(out@) == goal.take(i as int),
    {
        let variation: Option<u64> = match variations {
            Some(values) => Some(values[i]),
            None => None,
        };
        let row: Vec<Cell> = bind_record(&records[i], variation, columns);
        proof {
            assert(cell_rows(out@.push(row)) =~= cell_rows(out@).push(text::views(row@)));
            assert(goal.take(i + 1) =~= goal.take(i as int).push(text::views(row@)));
        }
        out.push(row);
    }
    assert(goal.take(records@.len() as int) == goal);
    out
}

/// An optional text as a value.
pub open spec fn text_cell(value: Option<Seq<char>>) -> Cell<Seq<char>> {
    match value {
        Some(found) => Cell::Text(found),
        None => Cell::Null,
    }
}

/// Makes a value of an optional text.
pub fn make_text_cell(value: &Option<String>) -> (r: Cell)
    ensures
        r@ == text_cell(text::opt(*value)),
{
    match value {
        Some(found) => Cell::Text(found.clone()),
        None => Cell::Null,
    }
}

/// An optional integer as a value.
pub open spec fn integer_cell(value: Option<i64>) -> Cell<Seq<char>> {
    match value {
        Some(found) => Cell::Integer(found),
        None => Cell::Null,
    }
}

/// Makes a value of an optional integer.
pub fn make_integer_cell(value: Option<i64>) -> (r: Cell)
    ensures
        r@ == integer_cell(value),
{
    match value {
        Some(found) => Cell::Integer(found),
        None => Cell::Null,
    }
}

/// An optional bit pattern as a value.
pub open spec fn bits_cell(value: Option<u64>) -> Cell<Seq<char>> {
    match value {
        Some(found) => Cell::Bits(found),
        None => Cell::Null,
    }
}

/// Makes a value of an optional bit pattern.
pub fn make_bits_cell(value: Option<u64>) -> (r: Cell)
    ensures
        r@ == bits_cell(value),
{
    match value {
        Some(found) => Cell::Bits(found),
        None => Cell::Null,
    }
}

/// The statement that inserts a row into a table with fixed columns.
pub open spec fn fixed_insert(verb: Seq<char>, table: Seq<char>, columns: Seq<Seq<char>>) -> Seq<
    char,
> {
    verb + " INTO "@ + table + " ("@ + db::joined(columns, ", "@) + ") VALUES ("@
        + db::placeholders(columns.len()) + ")"@
}

/// Builds the statement that inserts a row into a table with fixed columns.
pub fn fixed_insert_sql(verb: &str, table: &str, columns: &Vec<String>) -> (sql: String)
    ensures
        sql@ == fixed_insert(verb@, table@, text::views(columns@)),
{
    let mut sql: String = text::copy(verb);
    sql.append(" INTO ");
    sql.append(table);
    sql.append(" (");
    let list: String = db::join_texts(columns, ", ");
    sql.append(list.as_str());
    sql.append(") VALUES (");
    let variables: String = db::repeat_text("?", ", ", columns.len());
    sql.append(variables.as_str());
    sql.append(")");
    sql
}

/// Tests whether a table has a column.
pub fn has_column(columns: &Vec<String>, name: &str) -> (r: bool)
    ensures
        r == text::views(columns@).contains(name@),
{
    let ghost all = text::views(columns@);
    for i in 0..columns.len()
        invariant
            all == text::views(columns@),
            forall|k: int| 0 <= k < i ==> all[k] != name@,
    {
        if text::same(columns[i].as_str(), name) {
            assert(all[i as int] == name@);
            return true;
        }
    }
    false
}

/// Once the first record of each new key is known, none is kept any more.
pub proof fn first_absent_rerun_is_empty<R: Record>(
    records: Seq<R>,
    existing: Seq<Seq<Seq<char>>>,
    after: Seq<Seq<Seq<char>>>,
)
    requires
        forall|key: Seq<Seq<char>>| #[trigger] existing.contains(key) ==> after.contains(key),
        forall|i: int|
            0 <= i < first_absent(records, existing).len() ==> after.contains(
                (#[trigger] first_absent(records, existing)[i]).key(),
            ),
    ensures
        first_absent(records, after).len() == 0,
    decreases records.len(),
{
    if records.len() > 0 {
        let init = records.drop_last();
        let record = records.last();
        let kept = first_absent(records, existing);
        let part = first_absent(init, existing);
        assert forall|i: int| 0 <= i < part.len() implies after.contains(
            (#[trigger] part[i]).key(),
        ) by {
            assert(kept[i] == part[i]);
        }
        first_absent_rerun_is_empty(init, existing, after);
        if existing.contains(record.key()) {
            assert(after.contains(record.key()));
        } else if keys_of(part).contains(record.key()) {
            let k = choose|k: int|
                0 <= k < keys_of(part).len() && keys_of(part)[k] == record.key();
            assert(part[k].key() == record.key());
        } else {
            assert(kept[part.len() as int] == record);
        }
    }
}

/// A cell shows what is there, and nothing where there is nothing.
pub proof fn cells_show_what_is_there(value: Seq<char>, number: i64, bits: u64)
    ensures
        text_cell(Some(value)) == Cell::Text(value),
        text_cell(None) == Cell::<Seq<char>>::Null,
        integer_cell(Some(number)) == Cell::<Seq<char>>::Integer(number),
        integer_cell(None) == Cell::<Seq<char>>::Null,
        bits_cell(Some(bits)) == Cell::<Seq<char>>::Bits(bits),
        bits_cell(None) == Cell::<Seq<char>>::Null,
{
}

/// Every record is bound with its own variation, column by column.
pub proof fn records_are_bound_with_their_own_variation<R: Bindable>(
    records: Seq<R>,
    variations: Seq<u64>,
    columns: Seq<Seq<char>>,
    i: int,
    k: int,
)
    requires
        0 <= i < records.len(),
        0 <= k < columns.len(),
        variations.len() >= records.len(),
    ensures
        bound_rows(records, Some(variations), columns).len() == records.len(),
        bound_rows(records, Some(variations), columns)[i].len() == columns.len(),
        bound_rows(records, Some(variations), columns)[i][k] == records[i].cell(
            Some(variations[i]),
            columns[k],
        ),
        bound_rows(records, None, columns)[i][k] == records[i].cell(None, columns[k]),
{
}

/// Of the records that a table does not have, the first with each key is kept.
pub proof fn the_first_absent_record_with_a_key_is_kept<R: Record>(
    records: Seq<R>,
    existing: Seq<Seq<Seq<char>>>,
    k: int,
)
    requires
        0 <= k < records.len(),
        !existing.contains(records[k].key()),
        forall|j: int| 0 <= j < k ==> (#[trigger] records[j]).key() != records[k].key(),
    ensures
        first_absent(records, existing).contains(records[k]),
    decreases records.len(),
{
    let init = records.drop_last();
    let kept = first_absent(init, existing);
    if k < records.len() - 1 {
        assert(init[k] == records[k]);
        assert forall|j: int| 0 <= j < k implies (#[trigger] init[j]).key() != init[k].key() by {
            assert(init[j] == records[j]);
        }
        the_first_absent_record_with_a_key_is_kept(init, existing, k);
        let p = choose|p: int| 0 <= p < kept.len() && kept[p] == records[k];
        assert(first_absent(records, existing)[p] == records[k]);
    } else {
        if keys_of(kept).contains(records[k].key()) {
            let p = choose|p: int| 0 <= p < kept.len() && keys_of(kept)[p] == records[k].key();
            kept_records_were_given(init, existing, p);
            let j = choose|j: int| 0 <= j < init.len() && init[j] == kept[p];
            assert(records[j] == init[j]);
        }
        assert(first_absent(records, existing)[kept.len() as int] == records[k]);
    }
}

/// Every record that is kept was given.
pub proof fn kept_records_were_given<R: Record>(
    records: Seq<R>,
    existing: Seq<Seq<Seq<char>>>,
    p: int,
)
    requires
        0 <= p < first_absent(records, existing).len(),
    ensures
        records.contains(first_absent(records, existing)[p]),
    decreases records.len(),
{
    if records.len() > 0 {
        let init = records.drop_last();
        if p < first_absent(init, existing).len() {
            kept_records_were_given(init, existing, p);
            let j = choose|j: int|
                0 <= j < init.len() && init[j] == first_absent(init, existing)[p];
            assert(records[j] == first_absent(records, existing)[p]);
        } else {
            assert(records[records.len() - 1] == first_absent(records, existing)[p]);
        }
    }
}

/// An insertion names its table and its columns, and has a place for every column.
pub proof fn an_insertion_has_a_place_for_every_column(
    verb: Seq<char>,
    table: Seq<char>,
    columns: Seq<Seq<char>>,
)
    ensures
        fixed_insert(verb, table, columns) == verb + " INTO "@ + table + " ("@ + db::joined(
            columns,
            ", "@,
        ) + ") VALUES ("@ + db::placeholders(columns.len()) + ")"@,
{
}

} // verus!
