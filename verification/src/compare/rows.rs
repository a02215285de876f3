//! Pairing the rows of two tables that may differ a little.
//!
//! Rows that agree in all other columns belong together. How far two of them lie apart is measured
//! outside of this library, which takes the outcome for each pair.

use crate::compare::tables::TolerantColumn;
use crate::double;
use crate::keyed;
use crate::keyed::RowSet;
use crate::numeric;
use crate::text;
use vstd::prelude::*;

verus! {

/// A value of a row; real numbers are bit patterns.
#[derive(Debug)]
#[verifier::ext_equal]
pub enum CellValue<T = String, B = Vec<u8>> {
    Null,
    Integer(i64),
    Real(u64),
    Text(T),
    Blob(B),
}

impl View for CellValue {
    type V = CellValue<Seq<char>, Seq<u8>>;

    open spec fn view(&self) -> Self::V {
        match self {
            CellValue::Null => CellValue::Null,
            CellValue::Integer(value) => CellValue::Integer(*value),
            CellValue::Real(bits) => CellValue::Real(*bits),
            CellValue::Text(value) => CellValue::Text(value@),
            CellValue::Blob(bytes) => CellValue::Blob(bytes@),
        }
    }
}

/// A hexadecimal digit.
pub open spec fn hex_digit(value: int) -> char {
    if value < 10 {
        numeric::digit_char(value)
    } else if value == 10 {
        'A'
    } else if value == 11 {
        'B'
    } else if value == 12 {
        'C'
    } else if value == 13 {
        'D'
    } else if value == 14 {
        'E'
    } else {
        'F'
    }
}

fn make_hex_digit(value: u8) -> (c: char)
    ensures
        c == hex_digit(value as int),
{
    match value {
        0 => '0',
        1 => '1',
        2 => '2',
        3 => '3',
        4 => '4',
        5 => '5',
        6 => '6',
        7 => '7',
        8 => '8',
        9 => '9',
        10 => 'A',
        11 => 'B',
        12 => 'C',
        13 => 'D',
        14 => 'E',
        _ => 'F',
    }
}

/// Bytes in hexadecimal, two digits each.
pub open spec fn hex(bytes: Seq<u8>) -> Seq<char>
    decreases bytes.len(),
{
    if bytes.len() == 0 {
        seq![]
    } else {
        hex(bytes.drop_last()).push(hex_digit(bytes.last() as int / 16)).push(
            hex_digit(bytes.last() as int % 16),
        )
    }
}

/// Writes bytes in hexadecimal.
pub fn write_hex(bytes: &Vec<u8>) -> (out: String)
    ensures
        out@ == hex(bytes@),
{
    let mut out: String = String::new();
    assert(out@ =~= hex(bytes@.take(0)));
    for i in 0..bytes.len()
        invariant
            out@ == hex(bytes@.take(i as int)),
    {
        assert(bytes@.take(i + 1).drop_last() == bytes@.take(i as int));
        assert(bytes@.take(i + 1).last() == bytes@[i as int]);
        out.push(make_hex_digit(bytes[i] / 16));
        out.push(make_hex_digit(bytes[i] % 16));
    }
    assert(bytes@.take(bytes@.len() as int) == bytes@);
    out
}

/// A value as a text that no other value has.
pub open spec fn cell_code(value: CellValue<Seq<char>, Seq<u8>>) -> Seq<char> {
    match value {
        CellValue::Null => seq!['n'],
        CellValue::Integer(number) => seq!['i'] + numeric::signed_decimal(number as int),
        CellValue::Real(bits) => seq!['r'] + numeric::decimal(bits as nat),
        CellValue::Text(content) => seq!['t'] + content,
        CellValue::Blob(bytes) => seq!['b'] + hex(bytes),
    }
}

fn make_cell_code(value: &CellValue) -> (code: String)
    ensures
        code@ == cell_code(value@),
{
    let mut code: String = String::new();
    match value {
        CellValue::Null => {
            code.push('n');
        },
        CellValue::Integer(number) => {
            code.push('i');
            let digits: String = numeric::write_signed_decimal(*number);
            code.append(digits.as_str());
        },
        CellValue::Real(bits) => {
            code.push('r');
            let digits: String = numeric::write_decimal(*bits);
            code.append(digits.as_str());
        },
        CellValue::Text(content) => {
            code.push('t');
            code.append(content.as_str());
        },
        CellValue::Blob(bytes) => {
            code.push('b');
            let digits: String = write_hex(bytes);
            code.append(digits.as_str());
        },
    }
    assert(code@ =~= cell_code(value@));
    code
}

proof fn lemma_decimal_injective(a: nat, b: nat)
    requires
        numeric::decimal(a) == numeric::decimal(b),
    ensures
        a == b,
{
    numeric::decimal_reads_back(a);
    numeric::decimal_reads_back(b);
}

proof fn lemma_signed_decimal_injective(a: int, b: int)
    requires
        numeric::signed_decimal(a) == numeric::signed_decimal(b),
    ensures
        a == b,
{
    let x = numeric::signed_decimal(a);
    let y = numeric::signed_decimal(b);
    if a < 0 {
        assert(x[0] == '-');
        assert(x.skip(1) =~= numeric::decimal((-a) as nat));
    } else {
        numeric::decimal_reads_back(a as nat);
        assert(numeric::digit(x[0]));
    }
    if b < 0 {
        assert(y[0] == '-');
        assert(y.skip(1) =~= numeric::decimal((-b) as nat));
    } else {
        numeric::decimal_reads_back(b as nat);
        assert(numeric::digit(y[0]));
    }
    if a < 0 && b < 0 {
        lemma_decimal_injective((-a) as nat, (-b) as nat);
    } else if a >= 0 && b >= 0 {
        lemma_decimal_injective(a as nat, b as nat);
    }
}

proof fn lemma_hex_injective(a: Seq<u8>, b: Seq<u8>)
    requires
        hex(a) == hex(b),
    ensures
        a == b,
    decreases a.len(),
{
    if a.len() == 0 {
        if b.len() > 0 {
            assert(hex(b).len() > 0);
        }
        assert(a =~= b);
    } else if b.len() == 0 {
        assert(hex(a).len() > 0);
    } else {
        let x = hex(a.drop_last());
        let y = hex(b.drop_last());
        let n = hex(a).len() as int;
        assert(hex(a).take(n - 2) =~= x);
        assert(hex(b).take(n - 2) =~= y);
        lemma_hex_injective(a.drop_last(), b.drop_last());
        let p = a.last() as int;
        let q = b.last() as int;
        assert(hex(a)[n - 2] == hex_digit(p / 16) && hex(a)[n - 1] == hex_digit(p % 16));
        assert(hex(b)[n - 2] == hex_digit(q / 16) && hex(b)[n - 1] == hex_digit(q % 16));
        assert(p / 16 == q / 16 && p % 16 == q % 16);
        assert(a =~= a.drop_last().push(a.last()));
        assert(b =~= b.drop_last().push(b.last()));
    }
}

spec fn code_mark(value: CellValue<Seq<char>, Seq<u8>>) -> char {
    match value {
        CellValue::Null => 'n',
        CellValue::Integer(_) => 'i',
        CellValue::Real(_) => 'r',
        CellValue::Text(_) => 't',
        CellValue::Blob(_) => 'b',
    }
}

/// Different values have different texts.
pub proof fn cell_code_is_injective(
    a: CellValue<Seq<char>, Seq<u8>>,
    b: CellValue<Seq<char>, Seq<u8>>,
)
    requires
        cell_code(a) == cell_code(b),
    ensures
        a == b,
{
    let x = cell_code(a);
    let y = cell_code(b);
    assert(x[0] == code_mark(a) && y[0] == code_mark(b));
    match (a, b) {
        (CellValue::Integer(m), CellValue::Integer(n)) => {
            assert(x.skip(1) =~= numeric::signed_decimal(m as int));
            assert(y.skip(1) =~= numeric::signed_decimal(n as int));
            lemma_signed_decimal_injective(m as int, n as int);
        },
        (CellValue::Real(m), CellValue::Real(n)) => {
            assert(x.skip(1) =~= numeric::decimal(m as nat));
            assert(y.skip(1) =~= numeric::decimal(n as nat));
            lemma_decimal_injective(m as nat, n as nat);
        },
        (CellValue::Text(m), CellValue::Text(n)) => {
            assert(x.skip(1) =~= m);
            assert(y.skip(1) =~= n);
        },
        (CellValue::Blob(m), CellValue::Blob(n)) => {
            assert(x.skip(1) =~= hex(m));
            assert(y.skip(1) =~= hex(n));
            lemma_hex_injective(m, n);
        },
        _ => {},
    }
}

/// Tests two values for equality.
pub fn is_same_value(a: &CellValue, b: &CellValue) -> (r: bool)
    ensures
        r == (a@ == b@),
{
    let x: String = make_cell_code(a);
    let y: String = make_cell_code(b);
    proof {
        if x@ == y@ {
            cell_code_is_injective(a@, b@);
        }
    }
    text::same(x.as_str(), y.as_str())
}

/// Whether a column may differ.
pub open spec fn tolerated(tolerant: Seq<TolerantColumn>, index: int) -> bool {
    exists|k: int| 0 <= k < tolerant.len() && (#[trigger] tolerant[k]).index == index
}

fn is_tolerated(tolerant: &Vec<TolerantColumn>, index: usize) -> (r: bool)
    ensures
        r == tolerated(tolerant@, index as int),
{
    for k in 0..tolerant.len()
        invariant
            forall|m: int| 0 <= m < k ==> (#[trigger] tolerant@[m]).index != index,
    {
        if tolerant[k].index == index {
            return true;
        }
    }
    false
}

/// What a value contributes to the key of its row: nothing in a column that may differ.
pub open spec fn key_part(tolerant: Seq<TolerantColumn>) -> spec_fn(
    int,
    CellValue<Seq<char>, Seq<u8>>,
) -> Option<Seq<char>> {
    |i: int, value: CellValue<Seq<char>, Seq<u8>>|
        if tolerated(tolerant, i) {
            None
        } else {
            Some(cell_code(value))
        }
}

/// The key of a row: its values in the columns that may not differ.
pub open spec fn base_key(
    row: Seq<CellValue<Seq<char>, Seq<u8>>>,
    tolerant: Seq<TolerantColumn>,
) -> Seq<Seq<char>> {
    text::collect(row, key_part(tolerant))
}

fn make_base_key(row: &Vec<CellValue>, tolerant: &Vec<TolerantColumn>) -> (key: Vec<String>)
    ensures
        text::views(key@) == base_key(text::views(row@), tolerant@),
{
    let ghost all = text::views(row@);
    let ghost f = key_part(tolerant@);
    let mut key: Vec<String> = Vec::new();
    assert(all.take(0).len() == 0);
    assert(text::views(key@) =~= text::collect(all.take(0), f));
    for i in 0..row.len()
        invariant
            all == text::views(row@),
            f == key_part(tolerant@),
            text::views(key@) == text::collect(all.take(i as int), f),
    {
        proof {
            text::lemma_collect_step(all, f, i as int);
            assert(all[i as int] == row@[i as int]@);
        }
        if !is_tolerated(tolerant, i) {
            let code: String = make_cell_code(&row[i]);
            proof {
                text::lemma_views_push(key@, code);
            }
            key.push(code);
        }
    }
    assert(all.take(row@.len() as int) == all);
    key
}

/// The keys of rows.
pub open spec fn base_keys(rows: Seq<Vec<CellValue>>, tolerant: Seq<TolerantColumn>) -> Seq<
    Seq<Seq<char>>,
> {
    rows.map_values(|row: Vec<CellValue>| base_key(text::views(row@), tolerant))
}

/// The rows of both tables that share a key, by their positions.
pub struct RowGroup {
    pub left: Vec<usize>,
    pub right: Vec<usize>,
}

/// The positions of a key.
pub open spec fn positions_of(keys: Seq<Seq<Seq<char>>>, key: Seq<Seq<char>>) -> Seq<int> {
    text::collect(keys, keyed::position_chooser(key))
}

/// The groups of rows: one for each key, in the order in which the keys appear, first in the left
/// table and then in the right one.
pub open spec fn groups_rows(
    groups: Seq<RowGroup>,
    left: Seq<Seq<Seq<char>>>,
    right: Seq<Seq<Seq<char>>>,
) -> bool {
    let keys = keyed::distinct_rows(left + right);
    &&& groups.len() == keys.len()
    &&& forall|j: int|
        0 <= j < groups.len() ==> keyed::positions((#[trigger] groups[j]).left@) == positions_of(
            left,
            keys[j],
        ) && keyed::positions(groups[j].right@) == positions_of(right, keys[j])
}

proof fn lemma_no_positions(keys: Seq<Seq<Seq<char>>>, key: Seq<Seq<char>>)
    requires
        !keys.contains(key),
    ensures
        positions_of(keys, key).len() == 0,
    decreases keys.len(),
{
    if keys.len() > 0 {
        let init = keys.drop_last();
        assert(!init.contains(key)) by {
            if init.contains(key) {
                let k = choose|k: int| 0 <= k < init.len() && init[k] == key;
                assert(keys[k] == key);
            }
        }
        lemma_no_positions(init, key);
        assert(keys[keys.len() - 1] != key);
    }
}

/// What is known of the groups while rows are added: `keys` are those met so far, and the groups
/// hold the positions among the rows added so far.
spec fn partly_grouped(
    groups: Seq<RowGroup>,
    keys: Seq<Seq<Seq<char>>>,
    left: Seq<Seq<Seq<char>>>,
    right: Seq<Seq<Seq<char>>>,
) -> bool {
    &&& keys == keyed::distinct_rows(left + right)
    &&& groups_rows(groups, left, right)
}

proof fn lemma_add_row(
    before: Seq<RowGroup>,
    after: Seq<RowGroup>,
    left: Seq<Seq<Seq<char>>>,
    right: Seq<Seq<Seq<char>>>,
    key: Seq<Seq<char>>,
    to_left: bool,
)
    requires
        groups_rows(before, left, right),
        !to_left || right.len() == 0,
        ({
            let keys = keyed::distinct_rows(left + right);
            let at = if to_left {
                left.len() as int
            } else {
                right.len() as int
            };
            if keys.contains(key) {
                &&& after.len() == before.len()
                &&& exists|j: int|
                    0 <= j < keys.len() && keys[j] == key && grown(before, after, j, at, to_left)
            } else {
                &&& after.len() == before.len() + 1
                &&& forall|k: int| 0 <= k < before.len() ==> #[trigger] after[k] == before[k]
                &&& keyed::positions(after.last().left@) == (if to_left {
                    seq![at]
                } else {
                    seq![]
                })
                &&& keyed::positions(after.last().right@) == (if to_left {
                    seq![]
                } else {
                    seq![at]
                })
            }
        }),
    ensures
        to_left ==> groups_rows(after, left.push(key), right),
        !to_left ==> groups_rows(after, left, right.push(key)),
{
    let keys = keyed::distinct_rows(left + right);
    let new_left = if to_left {
        left.push(key)
    } else {
        left
    };
    let new_right = if to_left {
        right
    } else {
        right.push(key)
    };
    let joined = new_left + new_right;
    assert(joined =~= (left + right).push(key));
    assert(joined.drop_last() =~= left + right);
    let new_keys = keyed::distinct_rows(joined);
    assert(new_keys == keyed::with_row(keys, key));
    keyed::lemma_distinct_rows(left + right);
    assert(left.push(key).drop_last() =~= left);
    assert(right.push(key).drop_last() =~= right);
    assert forall|j: int| 0 <= j < after.len() implies keyed::positions(
        (#[trigger] after[j]).left@,
    ) == positions_of(new_left, new_keys[j]) && keyed::positions(after[j].right@) == positions_of(
        new_right,
        new_keys[j],
    ) by {
        if keys.contains(key) {
            let m = choose|m: int|
                0 <= m < keys.len() && keys[m] == key && grown(
                    before,
                    after,
                    m,
                    if to_left {
                        left.len() as int
                    } else {
                        right.len() as int
                    },
                    to_left,
                );
            if j != m {
                assert(keys[j] != key);
                assert(after[j] == before[j]);
            }
        } else if j < before.len() {
            assert(keys[j] != key) by {
                assert(keys.contains(keys[j]));
            }
            assert(after[j] == before[j]);
        } else {
            assert(new_keys[j] == key);
            assert(!(left + right).contains(key));
            assert(!left.contains(key)) by {
                if left.contains(key) {
                    let k = choose|k: int| 0 <= k < left.len() && left[k] == key;
                    assert((left + right)[k] == key);
                }
            }
            assert(!right.contains(key)) by {
                if right.contains(key) {
                    let k = choose|k: int| 0 <= k < right.len() && right[k] == key;
                    assert((left + right)[left.len() + k] == key);
                }
            }
            lemma_no_positions(left, key);
            lemma_no_positions(right, key);
            assert(positions_of(left, key) =~= seq![]);
            assert(positions_of(right, key) =~= seq![]);
            assert(keyed::positions(after[j].left@) =~= positions_of(new_left, key));
            assert(keyed::positions(after[j].right@) =~= positions_of(new_right, key));
        }
    }
}

/// Whether only the group at `j` has grown, by one position on one side.
spec fn grown(
    before: Seq<RowGroup>,
    after: Seq<RowGroup>,
    j: int,
    at: int,
    to_left: bool,
) -> bool {
    &&& before.len() == after.len()
    &&& 0 <= j < before.len()
    &&& forall|k: int| 0 <= k < before.len() && k != j ==> #[trigger] after[k] == before[k]
    &&& keyed::positions(after[j].left@) == (if to_left {
        keyed::positions(before[j].left@).push(at)
    } else {
        keyed::positions(before[j].left@)
    })
    &&& keyed::positions(after[j].right@) == (if to_left {
        keyed::positions(before[j].right@)
    } else {
        keyed::positions(before[j].right@).push(at)
    })
}

fn add_row(
    groups: &mut Vec<RowGroup>,
    met: &mut RowSet,
    key: Vec<String>,
    at: usize,
    to_left: bool,
    Ghost(left): Ghost<Seq<Seq<Seq<char>>>>,
    Ghost(right): Ghost<Seq<Seq<Seq<char>>>>,
)
    requires
        old(met).wf(),
        partly_grouped(old(groups)@, old(met)@, left, right),
        !to_left || right.len() == 0,
        at == (if to_left {
            left.len()
        } else {
            right.len()
        }),
    ensures
        final(met).wf(),
        to_left ==> partly_grouped(
            final(groups)@,
            final(met)@,
            left.push(text::views(key@)),
            right,
        ),
        !to_left ==> partly_grouped(
            final(groups)@,
            final(met)@,
            left,
            right.push(text::views(key@)),
        ),
{
    let ghost k = text::views(key@);
    let ghost before = groups@;
    let ghost keys = met@;
    proof {
        if to_left {
            assert(left.push(k) + right =~= (left + right).push(k));
        } else {
            assert(left + right.push(k) =~= (left + right).push(k));
        }
        assert((left + right).push(k).drop_last() =~= left + right);
    }
    match met.find(&key) {
        Some(j) => {
            if to_left {
                groups[j].left.push(at);
            } else {
                groups[j].right.push(at);
            }
            proof {
                assert(keyed::positions(before[j as int].left@.push(at)) =~= keyed::positions(
                    before[j as int].left@,
                ).push(at as int));
                assert(keyed::positions(before[j as int].right@.push(at)) =~= keyed::positions(
                    before[j as int].right@,
                ).push(at as int));
                assert(grown(before, groups@, j as int, at as int, to_left));
                assert(keys.contains(k));
                lemma_add_row(before, groups@, left, right, k, to_left);
            }
        },
        None => {
            let group = if to_left {
                RowGroup { left: vec![at], right: Vec::new() }
            } else {
                RowGroup { left: Vec::new(), right: vec![at] }
            };
            proof {
                assert(keyed::positions(group.left@) =~= (if to_left {
                    seq![at as int]
                } else {
                    seq![]
                }));
                assert(keyed::positions(group.right@) =~= (if to_left {
                    seq![]
                } else {
                    seq![at as int]
                }));
            }
            met.insert(key);
            groups.push(group);
            proof {
                lemma_add_row(before, groups@, left, right, k, to_left);
            }
        },
    }
}

/// Groups the rows of two tables by their values in the columns that may not differ.
pub fn group_rows(
    rows_a: &Vec<Vec<CellValue>>,
    rows_b: &Vec<Vec<CellValue>>,
    tolerant: &Vec<TolerantColumn>,
) -> (groups: Vec<RowGroup>)
    ensures
        groups_rows(
            groups@,
            base_keys(rows_a@, tolerant@),
            base_keys(rows_b@, tolerant@),
        ),
{
    let ghost left = base_keys(rows_a@, tolerant@);
    let ghost right = base_keys(rows_b@, tolerant@);
    let mut met: RowSet = RowSet::new();
    let mut groups: Vec<RowGroup> = Vec::new();
    assert((left.take(0) + right.take(0)).len() == 0);
    assert(met@ =~= keyed::distinct_rows(left.take(0) + right.take(0)));
    for i in 0..rows_a.len()
        invariant
            met.wf(),
            left == base_keys(rows_a@, tolerant@),
            partly_grouped(groups@, met@, left.take(i as int), right.take(0)),
    {
        let key: Vec<String> = make_base_key(&rows_a[i], tolerant);
        assert(left.take(i + 1) =~= left.take(i as int).push(text::views(key@)));
        add_row(
            &mut groups,
            &mut met,
            key,
            i,
            true,
            Ghost(left.take(i as int)),
            Ghost(right.take(0)),
        );
    }
    assert(left.take(rows_a@.len() as int) == left);
    for i in 0..rows_b.len()
        invariant
            met.wf(),
            right == base_keys(rows_b@, tolerant@),
            partly_grouped(groups@, met@, left, right.take(i as int)),
    {
        let key: Vec<String> = make_base_key(&rows_b[i], tolerant);
        assert(right.take(i + 1) =~= right.take(i as int).push(text::views(key@)));
        add_row(
            &mut groups,
            &mut met,
            key,
            i,
            false,
            Ghost(left),
            Ghost(right.take(i as int)),
        );
    }
    assert(right.take(rows_b@.len() as int) == right);
    groups
}

/// The best partner among the first `n` rows on the right that are still free: the first of those
/// that lie nearest.
pub open spec fn best_partner(distances: Seq<Option<u64>>, used: Seq<bool>, n: int) -> Option<int>
    decreases n,
{
    if n <= 0 {
        None
    } else {
        let best = best_partner(distances, used, n - 1);
        match distances[n - 1] {
            Some(distance) => if used[n - 1] {
                best
            } else {
                match best {
                    Some(k) => if double::less(distance, distances[k]->0) {
                        Some(n - 1)
                    } else {
                        best
                    },
                    None => Some(n - 1),
                }
            },
            None => best,
        }
    }
}

/// The best partner is free, close enough, and none that is free lies nearer. There is none only
/// where no free row is close enough.
pub proof fn best_partner_is_nearest(distances: Seq<Option<u64>>, used: Seq<bool>, n: int)
    ensures
        match best_partner(distances, used, n) {
            Some(best) => {
                &&& 0 <= best < n
                &&& !used[best]
                &&& distances[best] is Some
                &&& forall|k: int|
                    0 <= k < n && !used[k] && (#[trigger] distances[k]) is Some ==> !double::less(
                        distances[k]->0,
                        distances[best]->0,
                    )
            },
            None => forall|k: int| 0 <= k < n && !used[k] ==> (#[trigger] distances[k]) is None,
        },
    decreases n,
{
    if n > 0 {
        best_partner_is_nearest(distances, used, n - 1);
    }
}

/// Which rows on the right are taken once the first `n` rows on the left have chosen.
pub open spec fn taken_after(distances: Seq<Seq<Option<u64>>>, width: nat, n: int) -> Seq<bool>
    decreases n,
{
    if n <= 0 {
        Seq::new(width, |k: int| false)
    } else {
        let taken = taken_after(distances, width, n - 1);
        match best_partner(distances[n - 1], taken, width as int) {
            Some(k) => taken.update(k, true),
            None => taken,
        }
    }
}

/// The partner that the row on the left at `i` chooses.
pub open spec fn partner_of(distances: Seq<Seq<Option<u64>>>, width: nat, i: int) -> Option<int> {
    best_partner(distances[i], taken_after(distances, width, i), width as int)
}

proof fn lemma_taken(distances: Seq<Seq<Option<u64>>>, width: nat, i: int, n: int)
    requires
        0 <= i < n,
    ensures
        taken_after(distances, width, n).len() == width,
        match partner_of(distances, width, i) {
            Some(k) => 0 <= k < width && taken_after(distances, width, n)[k],
            None => true,
        },
    decreases n,
{
    lemma_taken_len(distances, width, n);
    lemma_taken_len(distances, width, n - 1);
    best_partner_is_nearest(
        distances[n - 1],
        taken_after(distances, width, n - 1),
        width as int,
    );
    if i < n - 1 {
        lemma_taken(distances, width, i, n - 1);
    }
}

proof fn lemma_taken_len(distances: Seq<Seq<Option<u64>>>, width: nat, n: int)
    ensures
        taken_after(distances, width, n).len() == width,
    decreases n,
{
    if n > 0 {
        lemma_taken_len(distances, width, n - 1);
        best_partner_is_nearest(
            distances[n - 1],
            taken_after(distances, width, n - 1),
            width as int,
        );
    }
}

/// No row on the right is the partner of two rows on the left.
pub proof fn partners_are_not_shared(
    distances: Seq<Seq<Option<u64>>>,
    width: nat,
    i: int,
    j: int,
)
    requires
        0 <= i < j,
        partner_of(distances, width, i) is Some,
    ensures
        partner_of(distances, width, i) != partner_of(distances, width, j),
{
    lemma_taken(distances, width, i, j);
    best_partner_is_nearest(distances[j], taken_after(distances, width, j), width as int);
}

/// The choice of the rows on the left without a partner.
pub open spec fn lonely_left(
    distances: Seq<Seq<Option<u64>>>,
    width: nat,
) -> spec_fn(int, usize) -> Option<usize> {
    |i: int, row: usize|
        if partner_of(distances, width, i) is None {
            Some(row)
        } else {
            None
        }
}

/// The choice of the rows on the right that nobody took.
pub open spec fn lonely_right(taken: Seq<bool>) -> spec_fn(int, usize) -> Option<usize> {
    |k: int, row: usize|
        if taken[k] {
            None
        } else {
            Some(row)
        }
}

/// The distances between the rows of a group.
pub open spec fn distance_views(v: Seq<Vec<Option<u64>>>) -> Seq<Seq<Option<u64>>> {
    v.map_values(|row: Vec<Option<u64>>| row@)
}

/// The rows on the left of a group that stay without a partner.
pub open spec fn group_only_left(group: RowGroup, distances: Seq<Seq<Option<u64>>>) -> Seq<usize> {
    text::collect(group.left@, lonely_left(distances, group.right@.len()))
}

/// The rows on the right of a group that stay without a partner.
pub open spec fn group_only_right(group: RowGroup, distances: Seq<Seq<Option<u64>>>) -> Seq<usize> {
    text::collect(
        group.right@,
        lonely_right(taken_after(distances, group.right@.len(), group.left@.len() as int)),
    )
}

/// The rows that only one of the tables has, by their positions.
pub struct Unpaired {
    pub left: Vec<usize>,
    pub right: Vec<usize>,
}

fn find_best_partner(distances: &Vec<Option<u64>>, used: &Vec<bool>) -> (r: Option<usize>)
    requires
        distances@.len() == used@.len(),
    ensures
        match r {
            Some(k) => best_partner(distances@, used@, used@.len() as int) == Some(k as int) && k
                < used@.len(),
            None => best_partner(distances@, used@, used@.len() as int) is None,
        },
{
    let mut best: Option<usize> = None;
    for n in 0..used.len()
        invariant
            distances@.len() == used@.len(),
            match best {
                Some(k) => best_partner(distances@, used@, n as int) == Some(k as int) && k < n
                    && distances@[k as int] is Some,
                None => best_partner(distances@, used@, n as int) is None,
            },
    {
        match distances[n] {
            Some(distance) => {
                if !used[n] {
                    match best {
                        Some(k) => {
                            match distances[k] {
                                Some(nearest) => {
                                    if double::is_less(distance, nearest) {
                                        best = Some(n);
                                    }
                                },
                                None => {},
                            }
                        },
                        None => {
                            best = Some(n);
                        },
                    }
                }
            },
            None => {},
        }
    }
    best
}

/// Pairs the rows of a group: each row on the left takes the nearest free one on the right that is
/// close enough. A pair that is not has no distance.
pub fn pair_group(group: &RowGroup, distances: &Vec<Vec<Option<u64>>>) -> (r: Unpaired)
    requires
        distances@.len() == group.left@.len(),
        forall|i: int|
            0 <= i < distances@.len() ==> (#[trigger] distances@[i])@.len() == group.right@.len(),
    ensures
        r.left@ == group_only_left(*group, distance_views(distances@)),
        r.right@ == group_only_right(*group, distance_views(distances@)),
{
    let ghost all = distance_views(distances@);
    let ghost width = group.right@.len();
    let ghost f = lonely_left(all, width);
    let mut used: Vec<bool> = Vec::new();
    for k in 0..group.right.len()
        invariant
            used@ == Seq::new(k as nat, |i: int| false),
    {
        used.push(false);
        assert(used@ =~= Seq::new((k + 1) as nat, |i: int| false));
    }
    let mut left: Vec<usize> = Vec::new();
    assert(group.left@.take(0).len() == 0);
    for i in 0..group.left.len()
        invariant
            distances@.len() == group.left@.len(),
            forall|i: int|
                0 <= i < distances@.len() ==> (#[trigger] distances@[i])@.len()
                    == group.right@.len(),
            all == distance_views(distances@),
            width == group.right@.len(),
            f == lonely_left(all, width),
            used@.len() == width,
            used@ == taken_after(all, width, i as int),
            left@ == text::collect(group.left@.take(i as int), f),
    {
        proof {
            text::lemma_collect_step(group.left@, f, i as int);
            assert(all[i as int] == distances@[i as int]@);
        }
        match find_best_partner(&distances[i], &used) {
            Some(k) => {
                used.set(k, true);
            },
            None => {
                left.push(group.left[i]);
            },
        }
    }
    assert(group.left@.take(group.left@.len() as int) == group.left@);
    let ghost g = lonely_right(used@);
    let mut right: Vec<usize> = Vec::new();
    assert(group.right@.take(0).len() == 0);
    for k in 0..group.right.len()
        invariant
            g == lonely_right(used@),
            used@.len() == group.right@.len(),
            right@ == text::collect(group.right@.take(k as int), g),
    {
        proof {
            text::lemma_collect_step(group.right@, g, k as int);
        }
        if !used[k] {
            right.push(group.right[k]);
        }
    }
    assert(group.right@.take(group.right@.len() as int) == group.right@);
    Unpaired { left, right }
}

/// Whether distances are given for every pair of every group.
pub open spec fn distances_fit(groups: Seq<RowGroup>, distances: Seq<Vec<Vec<Option<u64>>>>) -> bool {
    &&& distances.len() == groups.len()
    &&& forall|g: int|
        0 <= g < groups.len() ==> (#[trigger] distances[g])@.len() == groups[g].left@.len()
    &&& forall|g: int, i: int|
        0 <= g < groups.len() && 0 <= i < distances[g]@.len() ==> (
        #[trigger] distances[g]@[i])@.len() == groups[g].right@.len()
}

/// The rows on the left of each group that stay without a partner.
pub open spec fn only_left(distances: Seq<Vec<Vec<Option<u64>>>>) -> spec_fn(
    int,
    RowGroup,
) -> Seq<usize> {
    |g: int, group: RowGroup| group_only_left(group, distance_views(distances[g]@))
}

/// The rows on the right of each group that stay without a partner.
pub open spec fn only_right(distances: Seq<Vec<Vec<Option<u64>>>>) -> spec_fn(
    int,
    RowGroup,
) -> Seq<usize> {
    |g: int, group: RowGroup| group_only_right(group, distance_views(distances[g]@))
}

/// Pairs the rows of all groups.
pub fn compare_with_tolerance(groups: &Vec<RowGroup>, distances: &Vec<Vec<Vec<Option<u64>>>>) -> (r:
    Unpaired)
    requires
        distances_fit(groups@, distances@),
    ensures
        r.left@ == text::flat_collect(groups@, only_left(distances@)),
        r.right@ == text::flat_collect(groups@, only_right(distances@)),
{
    let ghost f = only_left(distances@);
    let ghost h = only_right(distances@);
    let mut left: Vec<usize> = Vec::new();
    let mut right: Vec<usize> = Vec::new();
    assert(groups@.take(0).len() == 0);
    for g in 0..groups.len()
        invariant
            distances_fit(groups@, distances@),
            f == only_left(distances@),
            h == only_right(distances@),
            left@ == text::flat_collect(groups@.take(g as int), f),
            right@ == text::flat_collect(groups@.take(g as int), h),
    {
        let mut more: Unpaired = pair_group(&groups[g], &distances[g]);
        proof {
            text::lemma_flat_collect_step(groups@, f, g as int);
            text::lemma_flat_collect_step(groups@, h, g as int);
        }
        left.append(&mut more.left);
        right.append(&mut more.right);
    }
    assert(groups@.take(groups@.len() as int) == groups@);
    Unpaired { left, right }
}

/// The first of the positions, as many as a sample may have.
pub fn sample_positions(positions: &Vec<usize>, limit: usize) -> (out: Vec<usize>)
    ensures
        out@ == (if positions@.len() <= limit {
            positions@
        } else {
            positions@.take(limit as int)
        }),
{
    let mut out: Vec<usize> = Vec::new();
    let mut i: usize = 0;
    while i < positions.len() && i < limit
        invariant
            i <= positions@.len(),
            i <= limit,
            out@ == positions@.take(i as int),
        decreases positions@.len() - i,
    {
        out.push(positions[i]);
        i = i + 1;
    }
    assert(positions@.take(positions@.len() as int) == positions@);
    out
}

/// How many of the flags are set.
pub open spec fn count_set(flags: Seq<bool>) -> int
    decreases flags.len(),
{
    if flags.len() == 0 {
        0
    } else if flags.last() {
        count_set(flags.drop_last()) + 1
    } else {
        count_set(flags.drop_last())
    }
}

proof fn lemma_count_update(flags: Seq<bool>, k: int)
    requires
        0 <= k < flags.len(),
        !flags[k],
    ensures
        count_set(flags.update(k, true)) == count_set(flags) + 1,
    decreases flags.len(),
{
    let changed = flags.update(k, true);
    if k == flags.len() - 1 {
        assert(changed.drop_last() =~= flags.drop_last());
    } else {
        lemma_count_update(flags.drop_last(), k);
        assert(changed.drop_last() =~= flags.drop_last().update(k, true));
    }
}

proof fn lemma_count_none(n: nat)
    ensures
        count_set(Seq::new(n, |k: int| false)) == 0,
    decreases n,
{
    let flags = Seq::new(n, |k: int| false);
    if n > 0 {
        lemma_count_none((n - 1) as nat);
        assert(flags.drop_last() =~= Seq::new((n - 1) as nat, |k: int| false));
    }
}

proof fn lemma_lonely_left(
    rows: Seq<usize>,
    distances: Seq<Seq<Option<u64>>>,
    width: nat,
    n: int,
)
    requires
        0 <= n <= rows.len(),
    ensures
        text::collect(rows.take(n), lonely_left(distances, width)).len() + count_set(
            taken_after(distances, width, n),
        ) == n,
    decreases n,
{
    let f = lonely_left(distances, width);
    if n > 0 {
        lemma_lonely_left(rows, distances, width, n - 1);
        text::lemma_collect_step(rows, f, n - 1);
        let taken = taken_after(distances, width, n - 1);
        lemma_taken_len(distances, width, n - 1);
        best_partner_is_nearest(distances[n - 1], taken, width as int);
        match best_partner(distances[n - 1], taken, width as int) {
            Some(k) => {
                lemma_count_update(taken, k);
            },
            None => {},
        }
    } else {
        assert(rows.take(0).len() == 0);
        lemma_count_none(width);
    }
}

proof fn lemma_lonely_right(rows: Seq<usize>, taken: Seq<bool>, n: int)
    requires
        0 <= n <= rows.len(),
        taken.len() == rows.len(),
    ensures
        text::collect(rows.take(n), lonely_right(taken)).len() + count_set(taken.take(n)) == n,
    decreases n,
{
    let f = lonely_right(taken);
    if n > 0 {
        lemma_lonely_right(rows, taken, n - 1);
        text::lemma_collect_step(rows, f, n - 1);
        assert(taken.take(n).drop_last() =~= taken.take(n - 1));
        assert(taken.take(n).last() == taken[n - 1]);
    } else {
        assert(rows.take(0).len() == 0);
        assert(taken.take(0).len() == 0);
    }
}

/// As many rows find a partner on the left of a group as on its right.
pub proof fn pairs_count_the_same_on_both_sides(
    group: RowGroup,
    distances: Seq<Seq<Option<u64>>>,
)
    ensures
        group.left@.len() - group_only_left(group, distances).len() == group.right@.len()
            - group_only_right(group, distances).len(),
{
    let width = group.right@.len();
    let n = group.left@.len() as int;
    let taken = taken_after(distances, width, n);
    lemma_taken_len(distances, width, n);
    lemma_lonely_left(group.left@, distances, width, n);
    lemma_lonely_right(group.right@, taken, width as int);
    assert(group.left@.take(n) == group.left@);
    assert(group.right@.take(width as int) == group.right@);
    assert(taken.take(width as int) == taken);
}

/// The flags of the rows that belong to class `c`.
spec fn in_class(flags: Seq<bool>, classes: Seq<int>, c: int) -> Seq<bool> {
    Seq::new(classes.len(), |k: int| flags[k] && classes[k] == c)
}

/// The flags of the first `n` rows.
spec fn first_rows(width: nat, n: int) -> Seq<bool> {
    Seq::new(width, |k: int| k < n)
}

proof fn lemma_count_grows(a: Seq<bool>, b: Seq<bool>)
    requires
        a.len() == b.len(),
        forall|k: int| 0 <= k < a.len() && #[trigger] a[k] ==> b[k],
    ensures
        count_set(a) <= count_set(b),
    decreases a.len(),
{
    if a.len() > 0 {
        lemma_count_grows(a.drop_last(), b.drop_last());
    }
}

/// Setting a flag raises the count of its own class alone.
proof fn lemma_class_update(flags: Seq<bool>, classes: Seq<int>, k: int, c: int)
    requires
        flags.len() == classes.len(),
        0 <= k < flags.len(),
        !flags[k],
    ensures
        count_set(in_class(flags.update(k, true), classes, c)) == count_set(
            in_class(flags, classes, c),
        ) + (if classes[k] == c {
            1int
        } else {
            0
        }),
{
    let before = in_class(flags, classes, c);
    let after = in_class(flags.update(k, true), classes, c);
    if classes[k] == c {
        lemma_count_update(before, k);
        assert(after =~= before.update(k, true));
    } else {
        assert(after =~= before);
    }
}

/// The flags of a class count as often as the class occurs.
proof fn lemma_class_count(classes: Seq<int>, c: int)
    ensures
        count_set(in_class(first_rows(classes.len(), classes.len() as int), classes, c))
            == classes.to_multiset().count(c),
    decreases classes.len(),
{
    broadcast use vstd::multiset::group_multiset_axioms;

    let flags = in_class(first_rows(classes.len(), classes.len() as int), classes, c);
    if classes.len() > 0 {
        let init = classes.drop_last();
        lemma_class_count(init, c);
        assert(flags.drop_last() =~= in_class(first_rows(init.len(), init.len() as int), init, c));
        assert(classes =~= init.push(classes.last()));
        vstd::seq_lib::to_multiset_build(init, classes.last());
    } else {
        vstd::seq_lib::to_multiset_contains(classes, c);
    }
}

/// Whether rows of one class are at distance zero, and rows of two classes farther apart or too far
/// apart to be paired. `left` and `right` tell the classes of the rows on each side.
pub open spec fn separated(
    distances: Seq<Seq<Option<u64>>>,
    left: Seq<int>,
    right: Seq<int>,
) -> bool {
    forall|i: int, k: int|
        0 <= i < left.len() && 0 <= k < right.len() ==> if left[i] == right[k] {
            #[trigger] distances[i][k] == Some(0u64)
        } else {
            distances[i][k] is Some ==> double::less(0u64, distances[i][k]->0)
        }
}

/// Where rows of one class are at distance zero, all others are farther apart, and every class
/// occurs equally often on both sides, a row always finds a free row of its own class: as many rows
/// of a class are taken as have chosen.
proof fn lemma_own_class(
    distances: Seq<Seq<Option<u64>>>,
    left: Seq<int>,
    right: Seq<int>,
    n: int,
)
    requires
        0 <= n <= left.len(),
        left.len() == right.len(),
        left.to_multiset() == right.to_multiset(),
        separated(distances, left, right),
    ensures
        forall|c: int|
            count_set(
                #[trigger] in_class(taken_after(distances, right.len(), n), right, c),
            ) == count_set(in_class(first_rows(left.len(), n), left, c)),
        forall|i: int| 0 <= i < n ==> (#[trigger] partner_of(distances, right.len(), i)) is Some,
    decreases n,
{
    let width = right.len();
    lemma_taken_len(distances, width, n);
    if n == 0 {
        assert forall|c: int|
            count_set(#[trigger] in_class(taken_after(distances, width, n), right, c))
                == count_set(in_class(first_rows(width, n), left, c)) by {
            assert(in_class(taken_after(distances, width, n), right, c) =~= in_class(
                first_rows(width, n),
                left,
                c,
            ));
        }
    } else {
        let i = n - 1;
        let taken = taken_after(distances, width, i);
        let chosen = first_rows(width, i);
        let own = left[i];
        lemma_taken_len(distances, width, i);
        lemma_own_class(distances, left, right, i);
        best_partner_is_nearest(distances[i], taken, width as int);
        assert(exists|k: int| 0 <= k < width && !taken[k] && #[trigger] right[k] == own) by {
            if forall|k: int| 0 <= k < width && #[trigger] right[k] == own ==> taken[k] {
                let all = first_rows(width, width as int);
                lemma_class_update(chosen, left, i, own);
                lemma_count_grows(
                    in_class(chosen.update(i, true), left, own),
                    in_class(all, left, own),
                );
                lemma_class_count(left, own);
                lemma_class_count(right, own);
                lemma_count_grows(in_class(all, right, own), in_class(taken, right, own));
                assert(count_set(in_class(taken, right, own)) == count_set(
                    in_class(chosen, left, own),
                ));
            }
        }
        let free = choose|k: int| 0 <= k < width && !taken[k] && #[trigger] right[k] == own;
        assert(distances[i][free] == Some(0u64));
        assert(partner_of(distances, width, i) is Some);
        let best = partner_of(distances, width, i)->0;
        assert(right[best] == own) by {
            assert(distances[i][best] is Some);
        }
        assert(first_rows(width, n) =~= chosen.update(i, true));
        assert forall|c: int|
            count_set(#[trigger] in_class(taken_after(distances, width, n), right, c))
                == count_set(in_class(first_rows(width, n), left, c)) by {
            lemma_class_update(taken, right, best, c);
            lemma_class_update(chosen, left, i, c);
            assert(count_set(in_class(taken, right, c)) == count_set(in_class(chosen, left, c)));
        }
    }
}

proof fn lemma_none_lonely(
    rows: Seq<usize>,
    distances: Seq<Seq<Option<u64>>>,
    width: nat,
    n: int,
)
    requires
        0 <= n <= rows.len(),
        forall|i: int| 0 <= i < n ==> (#[trigger] partner_of(distances, width, i)) is Some,
    ensures
        text::collect(rows.take(n), lonely_left(distances, width)).len() == 0,
    decreases n,
{
    if n > 0 {
        lemma_none_lonely(rows, distances, width, n - 1);
        text::lemma_collect_step(rows, lonely_left(distances, width), n - 1);
        assert(partner_of(distances, width, n - 1) is Some);
    }
}

/// A group with the same rows on both sides, in whatever order, leaves no row without a partner.
/// `left` and `right` tell the classes of rows that agree.
pub proof fn same_rows_are_all_paired(
    group: RowGroup,
    distances: Seq<Seq<Option<u64>>>,
    left: Seq<int>,
    right: Seq<int>,
)
    requires
        group.left@.len() == left.len(),
        group.right@.len() == right.len(),
        left.to_multiset() == right.to_multiset(),
        separated(distances, left, right),
    ensures
        group_only_left(group, distances).len() == 0,
        group_only_right(group, distances).len() == 0,
{
    let n = left.len() as int;
    vstd::seq_lib::to_multiset_len(left);
    vstd::seq_lib::to_multiset_len(right);
    lemma_own_class(distances, left, right, n);
    lemma_none_lonely(group.left@, distances, right.len(), n);
    assert(group.left@.take(n) == group.left@);
    pairs_count_the_same_on_both_sides(group, distances);
}

/// The classes of the rows at some positions.
pub open spec fn classes_of(positions: Seq<usize>, classes: Seq<int>) -> Seq<int> {
    positions.map_values(|position: usize| classes[position as int])
}

/// The rows of a table, each as its key and its class.
pub open spec fn marked_rows(keys: Seq<Seq<Seq<char>>>, classes: Seq<int>) -> Seq<
    (Seq<Seq<char>>, int),
> {
    Seq::new(keys.len(), |i: int| (keys[i], classes[i]))
}

/// A class occurs at the positions of a key as often as key and class occur together.
proof fn lemma_marked_count(
    keys: Seq<Seq<Seq<char>>>,
    classes: Seq<int>,
    key: Seq<Seq<char>>,
    c: int,
)
    ensures
        positions_of(keys, key).map_values(|i: int| classes[i]).to_multiset().count(c)
            == marked_rows(keys, classes).to_multiset().count((key, c)),
    decreases keys.len(),
{
    broadcast use vstd::multiset::group_multiset_axioms;

    let f = |i: int| classes[i];
    let marked = marked_rows(keys, classes);
    let at = positions_of(keys, key);
    if keys.len() > 0 {
        let init = keys.drop_last();
        let last = keys.len() - 1;
        lemma_marked_count(init, classes, key, c);
        assert(marked =~= marked_rows(init, classes).push((keys[last], classes[last])));
        vstd::seq_lib::to_multiset_build(
            marked_rows(init, classes),
            (keys[last], classes[last]),
        );
        if keys[last] == key {
            let before = positions_of(init, key);
            assert(at =~= before.push(last));
            assert(at.map_values(f) =~= before.map_values(f).push(classes[last]));
            vstd::seq_lib::to_multiset_build(before.map_values(f), classes[last]);
        }
    } else {
        vstd::seq_lib::to_multiset_contains(marked, (key, c));
        vstd::seq_lib::to_multiset_contains(at.map_values(f), c);
    }
}

/// Tables with the same keys and classes have the same classes under each key.
proof fn lemma_group_classes(
    left: Seq<usize>,
    right: Seq<usize>,
    keys: (Seq<Seq<Seq<char>>>, Seq<Seq<Seq<char>>>),
    classes: (Seq<int>, Seq<int>),
    key: Seq<Seq<char>>,
)
    requires
        keyed::positions(left) == positions_of(keys.0, key),
        keyed::positions(right) == positions_of(keys.1, key),
        marked_rows(keys.0, classes.0).to_multiset() == marked_rows(
            keys.1,
            classes.1,
        ).to_multiset(),
    ensures
        classes_of(left, classes.0).to_multiset() == classes_of(right, classes.1).to_multiset(),
{
    assert(classes_of(left, classes.0) =~= keyed::positions(left).map_values(
        |i: int| classes.0[i],
    ));
    assert(classes_of(right, classes.1) =~= keyed::positions(right).map_values(
        |i: int| classes.1[i],
    ));
    assert forall|c: int| #[trigger]
        classes_of(left, classes.0).to_multiset().count(c) == classes_of(
            right,
            classes.1,
        ).to_multiset().count(c) by {
        lemma_marked_count(keys.0, classes.0, key, c);
        lemma_marked_count(keys.1, classes.1, key, c);
    }
    assert(classes_of(left, classes.0).to_multiset() =~= classes_of(
        right,
        classes.1,
    ).to_multiset());
}

/// Whether in every group the rows of one class are at distance zero, and no others.
pub open spec fn groups_separated(
    groups: Seq<RowGroup>,
    distances: Seq<Vec<Vec<Option<u64>>>>,
    classes_a: Seq<int>,
    classes_b: Seq<int>,
) -> bool {
    forall|g: int|
        0 <= g < groups.len() ==> separated(
            distance_views((#[trigger] distances[g])@),
            classes_of(groups[g].left@, classes_a),
            classes_of(groups[g].right@, classes_b),
        )
}

proof fn lemma_no_differences(
    groups: Seq<RowGroup>,
    distances: Seq<Vec<Vec<Option<u64>>>>,
    keys: (Seq<Seq<Seq<char>>>, Seq<Seq<Seq<char>>>),
    classes: (Seq<int>, Seq<int>),
    n: int,
)
    requires
        0 <= n <= groups.len(),
        groups_rows(groups, keys.0, keys.1),
        distances_fit(groups, distances),
        marked_rows(keys.0, classes.0).to_multiset() == marked_rows(
            keys.1,
            classes.1,
        ).to_multiset(),
        groups_separated(groups, distances, classes.0, classes.1),
    ensures
        text::flat_collect(groups.take(n), only_left(distances)).len() == 0,
        text::flat_collect(groups.take(n), only_right(distances)).len() == 0,
    decreases n,
{
    if n > 0 {
        let g = n - 1;
        lemma_no_differences(groups, distances, keys, classes, g);
        text::lemma_flat_collect_step(groups, only_left(distances), g);
        text::lemma_flat_collect_step(groups, only_right(distances), g);
        let left = groups[g].left@;
        let right = groups[g].right@;
        let key = keyed::distinct_rows(keys.0 + keys.1)[g];
        lemma_group_classes(left, right, keys, classes, key);
        assert(separated(
            distance_views(distances[g]@),
            classes_of(left, classes.0),
            classes_of(right, classes.1),
        ));
        same_rows_are_all_paired(
            groups[g],
            distance_views(distances[g]@),
            classes_of(left, classes.0),
            classes_of(right, classes.1),
        );
    }
}

/// Tables whose rows have the same keys and classes equally often, in whatever order, do not
/// differ: where the distances are zero exactly for the rows of one class, every row finds a
/// partner.
pub proof fn tables_of_the_same_classes_do_not_differ(
    groups: Seq<RowGroup>,
    distances: Seq<Vec<Vec<Option<u64>>>>,
    keys_a: Seq<Seq<Seq<char>>>,
    keys_b: Seq<Seq<Seq<char>>>,
    classes_a: Seq<int>,
    classes_b: Seq<int>,
)
    requires
        groups_rows(groups, keys_a, keys_b),
        distances_fit(groups, distances),
        marked_rows(keys_a, classes_a).to_multiset() == marked_rows(
            keys_b,
            classes_b,
        ).to_multiset(),
        groups_separated(groups, distances, classes_a, classes_b),
    ensures
        text::flat_collect(groups, only_left(distances)).len() == 0,
        text::flat_collect(groups, only_right(distances)).len() == 0,
{
    lemma_no_differences(
        groups,
        distances,
        (keys_a, keys_b),
        (classes_a, classes_b),
        groups.len() as int,
    );
    assert(groups.take(groups.len() as int) == groups);
}

/// The values of the rows of a table.
pub open spec fn row_values(rows: Seq<Vec<CellValue>>) -> Seq<
    Seq<CellValue<Seq<char>, Seq<u8>>>,
> {
    rows.map_values(|row: Vec<CellValue>| text::views(row@))
}

/// The classes of the rows of a table.
pub open spec fn row_classes(
    rows: Seq<Vec<CellValue>>,
    class: spec_fn(Seq<CellValue<Seq<char>, Seq<u8>>>) -> int,
) -> Seq<int> {
    row_values(rows).map_values(class)
}

/// Tables with the same rows, in whatever order, do not differ: where the distances are zero exactly
/// for the rows of one class, and equal rows are of one class, every row finds a partner.
pub proof fn rearranged_tables_do_not_differ(
    groups: Seq<RowGroup>,
    distances: Seq<Vec<Vec<Option<u64>>>>,
    rows_a: Seq<Vec<CellValue>>,
    rows_b: Seq<Vec<CellValue>>,
    tolerant: Seq<TolerantColumn>,
    class: spec_fn(Seq<CellValue<Seq<char>, Seq<u8>>>) -> int,
)
    requires
        groups_rows(groups, base_keys(rows_a, tolerant), base_keys(rows_b, tolerant)),
        distances_fit(groups, distances),
        row_values(rows_a).to_multiset() == row_values(rows_b).to_multiset(),
        groups_separated(
            groups,
            distances,
            row_classes(rows_a, class),
            row_classes(rows_b, class),
        ),
    ensures
        text::flat_collect(groups, only_left(distances)).len() == 0,
        text::flat_collect(groups, only_right(distances)).len() == 0,
{
    let keys_a = base_keys(rows_a, tolerant);
    let keys_b = base_keys(rows_b, tolerant);
    let classes_a = row_classes(rows_a, class);
    let classes_b = row_classes(rows_b, class);
    let mark = |values: Seq<CellValue<Seq<char>, Seq<u8>>>|
        (base_key(values, tolerant), class(values));
    text::lemma_images(row_values(rows_a), row_values(rows_b), mark);
    assert(marked_rows(keys_a, classes_a) =~= row_values(rows_a).map_values(mark));
    assert(marked_rows(keys_b, classes_b) =~= row_values(rows_b).map_values(mark));
    tables_of_the_same_classes_do_not_differ(
        groups,
        distances,
        keys_a,
        keys_b,
        classes_a,
        classes_b,
    );
}

/// A table that is compared with itself has no row of its own.
pub proof fn a_table_does_not_differ_from_itself(
    groups: Seq<RowGroup>,
    distances: Seq<Vec<Vec<Option<u64>>>>,
    rows: Seq<Vec<CellValue>>,
    tolerant: Seq<TolerantColumn>,
    class: spec_fn(Seq<CellValue<Seq<char>, Seq<u8>>>) -> int,
)
    requires
        groups_rows(groups, base_keys(rows, tolerant), base_keys(rows, tolerant)),
        distances_fit(groups, distances),
        groups_separated(
            groups,
            distances,
            row_classes(rows, class),
            row_classes(rows, class),
        ),
    ensures
        text::flat_collect(groups, only_left(distances)).len() == 0,
        text::flat_collect(groups, only_right(distances)).len() == 0,
{
    rearranged_tables_do_not_differ(groups, distances, rows, rows, tolerant, class);
}

/// Bytes are written as two digits each, the higher half first.
pub proof fn bytes_are_written_as_two_digits(bytes: Seq<u8>, i: int)
    requires
        0 <= i < bytes.len(),
    ensures
        hex(bytes).len() == 2 * bytes.len(),
        hex(bytes)[2 * i] == hex_digit(bytes[i] as int / 16),
        hex(bytes)[2 * i + 1] == hex_digit(bytes[i] as int % 16),
        hex_digit(10) == 'A',
        hex_digit(11) == 'B',
        hex_digit(12) == 'C',
        hex_digit(13) == 'D',
        hex_digit(14) == 'E',
        hex_digit(15) == 'F',
        forall|d: int| 0 <= d < 10 ==> #[trigger] hex_digit(d) == numeric::digit_char(d),
    decreases bytes.len(),
{
    let init = bytes.drop_last();
    if init.len() == 0 {
        assert(hex(init).len() == 0);
    } else {
        bytes_are_written_as_two_digits(
            init,
            if i < init.len() {
                i
            } else {
                0
            },
        );
    }
    if i < init.len() {
        assert(init[i] == bytes[i]);
    }
}

/// Rows of one table have the same key just where they agree in every column that is not tolerated.
pub proof fn rows_share_a_key_outside_the_tolerated_columns(
    a: Seq<CellValue<Seq<char>, Seq<u8>>>,
    b: Seq<CellValue<Seq<char>, Seq<u8>>>,
    tolerant: Seq<TolerantColumn>,
)
    requires
        a.len() == b.len(),
    ensures
        base_key(a, tolerant) == base_key(b, tolerant) <==> forall|i: int|
            0 <= i < a.len() && !tolerated(tolerant, i) ==> #[trigger] a[i] == b[i],
        base_key(a, tolerant).len() == base_key(b, tolerant).len(),
    decreases a.len(),
{
    if a.len() > 0 {
        let x = a.drop_last();
        let y = b.drop_last();
        let last = a.len() - 1;
        rows_share_a_key_outside_the_tolerated_columns(x, y, tolerant);
        let ka = base_key(x, tolerant);
        let kb = base_key(y, tolerant);
        if base_key(a, tolerant) == base_key(b, tolerant) {
            if !tolerated(tolerant, last) {
                assert(base_key(a, tolerant) == ka.push(cell_code(a[last])));
                assert(base_key(b, tolerant) == kb.push(cell_code(b[last])));
                assert(ka.push(cell_code(a[last])).last() == kb.push(cell_code(b[last])).last());
                cell_code_is_injective(a[last], b[last]);
                assert(ka =~= ka.push(cell_code(a[last])).drop_last());
                assert(kb =~= kb.push(cell_code(b[last])).drop_last());
            }
            assert forall|i: int| 0 <= i < a.len() && !tolerated(tolerant, i) implies #[trigger] a[i]
                == b[i] by {
                if i < last {
                    assert(x[i] == y[i]);
                }
            }
        }
        if forall|i: int|
            0 <= i < a.len() && !tolerated(tolerant, i) ==> #[trigger] a[i] == b[i] {
            assert forall|i: int| 0 <= i < x.len() && !tolerated(tolerant, i) implies #[trigger] x[i]
                == y[i] by {
                assert(a[i] == b[i]);
            }
            if !tolerated(tolerant, last) {
                assert(a[last] == b[last]);
            }
        }
    }
}

/// Groups hold the rows of both tables that share a key, each in the order of its table.
pub proof fn groups_hold_the_rows_that_share_a_key(
    groups: Seq<RowGroup>,
    left: Seq<Seq<Seq<char>>>,
    right: Seq<Seq<Seq<char>>>,
    j: int,
    i: int,
)
    requires
        groups_rows(groups, left, right),
        0 <= j < groups.len(),
    ensures
        ({
            let keys = keyed::distinct_rows(left + right);
            &&& groups.len() == keys.len()
            &&& keyed::positions(groups[j].left@).contains(i) <==> 0 <= i < left.len() && left[i]
                == keys[j]
            &&& keyed::positions(groups[j].right@).contains(i) <==> 0 <= i < right.len() && right[i]
                == keys[j]
        }),
{
    let keys = keyed::distinct_rows(left + right);
    keyed::the_positions_of_a_key_are_where_it_stands(left, keys[j], i);
    keyed::the_positions_of_a_key_are_where_it_stands(right, keys[j], i);
}

/// Of partners that are equally near, the first is chosen.
pub proof fn the_first_of_the_nearest_partners_is_chosen(
    distances: Seq<Option<u64>>,
    used: Seq<bool>,
    n: int,
    k: int,
)
    requires
        forall|j: int|
            0 <= j < n && (#[trigger] distances[j]) is Some ==> !double::nan(distances[j]->0),
        best_partner(distances, used, n) is Some,
        0 <= k < best_partner(distances, used, n)->0,
        !used[k],
        distances[k] is Some,
    ensures
        double::less(distances[best_partner(distances, used, n)->0]->0, distances[k]->0),
    decreases n,
{
    if n > 0 {
        best_partner_is_nearest(distances, used, n - 1);
        best_partner_is_nearest(distances, used, n);
        assert(!double::nan(distances[k]->0));
        if best_partner(distances, used, n) == best_partner(distances, used, n - 1) {
            the_first_of_the_nearest_partners_is_chosen(distances, used, n - 1, k);
        }
    }
}

/// A row on the right is taken once a row on the left has chosen it.
pub proof fn a_row_is_taken_once_it_is_chosen(
    distances: Seq<Seq<Option<u64>>>,
    width: nat,
    n: int,
    k: int,
)
    requires
        0 <= k < width,
    ensures
        taken_after(distances, width, n).len() == width,
        taken_after(distances, width, n)[k] <==> exists|i: int|
            0 <= i < n && #[trigger] partner_of(distances, width, i) == Some(k),
    decreases n,
{
    if n > 0 {
        a_row_is_taken_once_it_is_chosen(distances, width, n - 1, k);
        let taken = taken_after(distances, width, n - 1);
        best_partner_is_nearest(distances[n - 1], taken, width as int);
        assert(partner_of(distances, width, n - 1) == best_partner(
            distances[n - 1],
            taken,
            width as int,
        ));
    }
}

/// Just the rows of the left without a partner, and those of the right that nobody chose, are left
/// over.
pub proof fn rows_without_a_partner_are_left_over(
    group: RowGroup,
    distances: Seq<Seq<Option<u64>>>,
    row: usize,
)
    ensures
        group_only_left(group, distances).contains(row) <==> exists|i: int|
            0 <= i < group.left@.len() && #[trigger] group.left@[i] == row && partner_of(
                distances,
                group.right@.len(),
                i,
            ) is None,
        group_only_right(group, distances).contains(row) <==> exists|k: int|
            0 <= k < group.right@.len() && #[trigger] group.right@[k] == row && forall|i: int|
                0 <= i < group.left@.len() ==> #[trigger] partner_of(
                    distances,
                    group.right@.len(),
                    i,
                ) != Some(k),
{
    let width = group.right@.len();
    let n = group.left@.len() as int;
    let taken = taken_after(distances, width, n);
    let f = lonely_left(distances, width);
    let g = lonely_right(taken);
    text::lemma_collect_contains(group.left@, f, row);
    text::lemma_collect_contains(group.right@, g, row);
    assert forall|i: int| 0 <= i < n implies (f(i, #[trigger] group.left@[i]) == Some(row) <==> (
    group.left@[i] == row && partner_of(distances, width, i) is None)) by {}
    assert forall|k: int| 0 <= k < width implies (g(k, #[trigger] group.right@[k]) == Some(row)
        <==> (group.right@[k] == row && forall|i: int|
        0 <= i < n ==> #[trigger] partner_of(distances, width, i) != Some(k))) by {
        a_row_is_taken_once_it_is_chosen(distances, width, n, k);
    }
}

} // verus!
