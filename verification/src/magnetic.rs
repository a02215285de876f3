//! The tables of the magnetic model, and which positions it has to be asked for.
//!
//! The numbers of the model are held as checked literals; it is evaluated outside of this library.

use crate::double::Point;
use crate::keyed;
use crate::keyed::RowSet;
use crate::numeric;
use crate::text;
use crate::text::Blank;
use vstd::prelude::*;

verus! {

/// The largest degree of the standard model.
pub const SIZE_STANDARD: usize = 12;

/// The largest degree of the model in high resolution.
pub const SIZE_HIGH_RESOLUTION: usize = 133;

/// How many degrees a table has room for.
pub const MAX_SIZE: usize = 134;

/// The field of a record of coefficients.
#[derive(Clone, Copy, PartialEq, Eq, Debug, Structural)]
pub enum CoefficientField {
    Degree,
    Order,
    Gnm,
    Hnm,
    Dgnm,
    Dhnm,
}

/// Why a file of coefficients cannot be read.
#[derive(Debug)]
#[verifier::ext_equal]
pub enum CoefficientError<T = String> {
    /// The file is empty.
    Empty,
    /// The first line has too few fields.
    Header,
    /// The epoch is not a number.
    Epoch(T),
    /// A field of a record is not a number.
    Field(CoefficientField, T),
    /// The degree and the order of a record do not fit together, or not into the model.
    Corrupt(u64, u64),
}

impl View for CoefficientError {
    type V = CoefficientError<Seq<char>>;

    open spec fn view(&self) -> Self::V {
        match self {
            CoefficientError::Empty => CoefficientError::Empty,
            CoefficientError::Header => CoefficientError::Header,
            CoefficientError::Epoch(found) => CoefficientError::Epoch(found@),
            CoefficientError::Field(field, found) => CoefficientError::Field(*field, found@),
            CoefficientError::Corrupt(n, m) => CoefficientError::Corrupt(*n, *m),
        }
    }
}

/// A record of coefficients; the coefficients are checked literals.
#[verifier::ext_equal]
pub struct CoefficientRecord<T = String> {
    pub n: u64,
    pub m: u64,
    pub gnm: T,
    pub hnm: T,
    pub dgnm: T,
    pub dhnm: T,
}

impl View for CoefficientRecord {
    type V = CoefficientRecord<Seq<char>>;

    open spec fn view(&self) -> Self::V {
        CoefficientRecord {
            n: self.n,
            m: self.m,
            gnm: self.gnm@,
            hnm: self.hnm@,
            dgnm: self.dgnm@,
            dhnm: self.dhnm@,
        }
    }
}

/// What a line of a file of coefficients means.
#[verifier::ext_equal]
pub enum LineMeaning<T = String> {
    /// Nothing.
    Skip,
    /// The end.
    Stop,
    /// A record.
    Record(CoefficientRecord<T>),
    /// An error.
    Fail(CoefficientError<T>),
}

impl View for LineMeaning {
    type V = LineMeaning<Seq<char>>;

    open spec fn view(&self) -> Self::V {
        match self {
            LineMeaning::Skip => LineMeaning::Skip,
            LineMeaning::Stop => LineMeaning::Stop,
            LineMeaning::Record(record) => LineMeaning::Record(record@),
            LineMeaning::Fail(error) => LineMeaning::Fail(error@),
        }
    }
}

/// What a line means, by its words: too few of them mean nothing, and the end is marked by a degree
/// of its own or by an order beyond the model.
pub open spec fn line_meaning(parts: Seq<Seq<char>>, max_order: int) -> LineMeaning<Seq<char>> {
    if parts.len() < 6 {
        LineMeaning::Skip
    } else {
        match numeric::unsigned(parts[0]) {
            None => LineMeaning::Fail(
                CoefficientError::Field(CoefficientField::Degree, parts[0]),
            ),
            Some(n) => if n == 9999 {
                LineMeaning::Stop
            } else {
                match numeric::unsigned(parts[1]) {
                    None => LineMeaning::Fail(
                        CoefficientError::Field(CoefficientField::Order, parts[1]),
                    ),
                    Some(m) => if !numeric::float_literal(parts[2]) {
                        LineMeaning::Fail(
                            CoefficientError::Field(CoefficientField::Gnm, parts[2]),
                        )
                    } else if !numeric::float_literal(parts[3]) {
                        LineMeaning::Fail(
                            CoefficientError::Field(CoefficientField::Hnm, parts[3]),
                        )
                    } else if !numeric::float_literal(parts[4]) {
                        LineMeaning::Fail(
                            CoefficientError::Field(CoefficientField::Dgnm, parts[4]),
                        )
                    } else if !numeric::float_literal(parts[5]) {
                        LineMeaning::Fail(
                            CoefficientError::Field(CoefficientField::Dhnm, parts[5]),
                        )
                    } else if m > max_order {
                        LineMeaning::Stop
                    } else if m > n || n > max_order {
                        LineMeaning::Fail(CoefficientError::Corrupt(n, m))
                    } else {
                        LineMeaning::Record(
                            CoefficientRecord {
                                n,
                                m,
                                gnm: parts[2],
                                hnm: parts[3],
                                dgnm: parts[4],
                                dhnm: parts[5],
                            },
                        )
                    },
                }
            },
        }
    }
}

fn fail(field: CoefficientField, found: &str) -> (r: LineMeaning)
    ensures
        r@ == LineMeaning::Fail(CoefficientError::Field(field, found@)),
{
    LineMeaning::Fail(CoefficientError::Field(field, text::copy(found)))
}

/// Reads a line of coefficients.
pub fn read_coefficient_line(line: &str, max_order: u64) -> (r: LineMeaning)
    ensures
        r@ == line_meaning(text::words(Blank::Unicode, line@), max_order as int),
{
    let cs: Vec<char> = text::chars_of(line);
    let parts: Vec<String> = text::split_words(Blank::Unicode, &cs);
    let ghost words = text::words(Blank::Unicode, line@);
    assert(words.len() == parts@.len());
    if parts.len() < 6 {
        return LineMeaning::Skip;
    }
    assert(forall|k: int| 0 <= k < 6 ==> words[k] == (#[trigger] parts@[k])@);
    let n: u64 = match numeric::parse_unsigned(parts[0].as_str()) {
        Some(n) => n,
        None => return fail(CoefficientField::Degree, parts[0].as_str()),
    };
    if n == 9999 {
        return LineMeaning::Stop;
    }
    let m: u64 = match numeric::parse_unsigned(parts[1].as_str()) {
        Some(m) => m,
        None => return fail(CoefficientField::Order, parts[1].as_str()),
    };
    if !numeric::is_float_literal(parts[2].as_str()) {
        return fail(CoefficientField::Gnm, parts[2].as_str());
    }
    if !numeric::is_float_literal(parts[3].as_str()) {
        return fail(CoefficientField::Hnm, parts[3].as_str());
    }
    if !numeric::is_float_literal(parts[4].as_str()) {
        return fail(CoefficientField::Dgnm, parts[4].as_str());
    }
    if !numeric::is_float_literal(parts[5].as_str()) {
        return fail(CoefficientField::Dhnm, parts[5].as_str());
    }
    if m > max_order {
        return LineMeaning::Stop;
    }
    if m > n || n > max_order {
        return LineMeaning::Fail(CoefficientError::Corrupt(n, m));
    }
    LineMeaning::Record(
        CoefficientRecord {
            n,
            m,
            gnm: parts[2].clone(),
            hnm: parts[3].clone(),
            dgnm: parts[4].clone(),
            dhnm: parts[5].clone(),
        },
    )
}

/// The records of lines, up to the end or the first error.
pub open spec fn records_of(lines: Seq<Seq<char>>, max_order: int) -> Result<
    Seq<CoefficientRecord<Seq<char>>>,
    CoefficientError<Seq<char>>,
>
    decreases lines.len(),
{
    if lines.len() == 0 {
        Ok(seq![])
    } else {
        match line_meaning(text::words(Blank::Unicode, lines[0]), max_order) {
            LineMeaning::Skip => records_of(lines.skip(1), max_order),
            LineMeaning::Stop => Ok(seq![]),
            LineMeaning::Fail(error) => Err(error),
            LineMeaning::Record(record) => match records_of(lines.skip(1), max_order) {
                Ok(rest) => Ok(seq![record] + rest),
                Err(error) => Err(error),
            },
        }
    }
}

/// The coefficients of a model.
pub struct Coefficients {
    /// The epoch, as a checked literal.
    pub epoch: String,
    pub records: Vec<CoefficientRecord>,
}

/// The coefficients in a text: the epoch in the first line, and the records behind it.
pub open spec fn coefficients_of(content: Seq<char>, max_order: int) -> Result<
    (Seq<char>, Seq<CoefficientRecord<Seq<char>>>),
    CoefficientError<Seq<char>>,
> {
    let lines = text::text_lines(content);
    if lines.len() == 0 {
        Err(CoefficientError::Empty)
    } else {
        let header = text::words(Blank::Unicode, lines[0]);
        if header.len() < 3 {
            Err(CoefficientError::Header)
        } else if !numeric::float_literal(header[0]) {
            Err(CoefficientError::Epoch(header[0]))
        } else {
            match records_of(lines.skip(1), max_order) {
                Ok(records) => Ok((header[0], records)),
                Err(error) => Err(error),
            }
        }
    }
}

/// What goes before the outcome on the rest of the lines.
spec fn with_front(
    front: Seq<CoefficientRecord<Seq<char>>>,
    rest: Result<Seq<CoefficientRecord<Seq<char>>>, CoefficientError<Seq<char>>>,
) -> Result<Seq<CoefficientRecord<Seq<char>>>, CoefficientError<Seq<char>>> {
    match rest {
        Ok(records) => Ok(front + records),
        Err(error) => Err(error),
    }
}

fn read_records(lines: &Vec<String>, from: usize, max_order: u64) -> (r: Result<
    Vec<CoefficientRecord>,
    CoefficientError,
>)
    requires
        from <= lines@.len(),
    ensures
        match r {
            Ok(records) => records_of(
                text::views(lines@).skip(from as int),
                max_order as int,
            ) == Ok::<Seq<CoefficientRecord<Seq<char>>>, CoefficientError<Seq<char>>>(
                text::views(records@),
            ),
            Err(error) => records_of(text::views(lines@).skip(from as int), max_order as int)
                == Err::<Seq<CoefficientRecord<Seq<char>>>, CoefficientError<Seq<char>>>(error@),
        },
{
    let ghost all = text::views(lines@);
    let ghost goal = records_of(all.skip(from as int), max_order as int);
    let mut records: Vec<CoefficientRecord> = Vec::new();
    let mut i: usize = from;
    proof {
        match goal {
            Ok(rest) => {
                assert(text::views(records@) + rest =~= rest);
            },
            Err(_) => {},
        }
    }
    while i < lines.len()
        invariant
            from <= i <= lines@.len(),
            all == text::views(lines@),
            goal == records_of(all.skip(from as int), max_order as int),
            goal == with_front(
                text::views(records@),
                records_of(all.skip(i as int), max_order as int),
            ),
        decreases lines@.len() - i,
    {
        let ghost rest = all.skip(i as int);
        assert(rest[0] == lines@[i as int]@);
        assert(rest.skip(1) == all.skip(i + 1));
        match read_coefficient_line(lines[i].as_str(), max_order) {
            LineMeaning::Skip => {},
            LineMeaning::Stop => {
                assert(text::views(records@) + Seq::<CoefficientRecord<Seq<char>>>::empty()
                    =~= text::views(records@));
                return Ok(records);
            },
            LineMeaning::Fail(error) => {
                return Err(error);
            },
            LineMeaning::Record(record) => {
                proof {
                    text::lemma_views_push(records@, record);
                    match records_of(all.skip(i + 1), max_order as int) {
                        Ok(tail) => {
                            assert(text::views(records@) + (seq![record@] + tail) =~= text::views(
                                records@,
                            ).push(record@) + tail);
                        },
                        Err(_) => {},
                    }
                }
                records.push(record);
            },
        }
        i = i + 1;
    }
    assert(all.skip(i as int).len() == 0);
    assert(text::views(records@) + Seq::<CoefficientRecord<Seq<char>>>::empty() =~= text::views(
        records@,
    ));
    Ok(records)
}

/// Reads the coefficients of a model.
pub fn parse_coefficients_buffer(content: &str, max_order: u64) -> (r: Result<
    Coefficients,
    CoefficientError,
>)
    ensures
        match r {
            Ok(found) => coefficients_of(content@, max_order as int) == Ok::<
                (Seq<char>, Seq<CoefficientRecord<Seq<char>>>),
                CoefficientError<Seq<char>>,
            >((found.epoch@, text::views(found.records@))),
            Err(error) => coefficients_of(content@, max_order as int) == Err::<
                (Seq<char>, Seq<CoefficientRecord<Seq<char>>>),
                CoefficientError<Seq<char>>,
            >(error@),
        },
{
    let lines: Vec<String> = text::split_text_lines(content);
    let ghost all = text::text_lines(content@);
    assert(all.len() == lines@.len());
    if lines.len() == 0 {
        return Err(CoefficientError::Empty);
    }
    assert(all[0] == lines@[0]@);
    let cs: Vec<char> = text::chars_of(lines[0].as_str());
    let header: Vec<String> = text::split_words(Blank::Unicode, &cs);
    let ghost words = text::words(Blank::Unicode, all[0]);
    assert(words.len() == header@.len());
    if header.len() < 3 {
        return Err(CoefficientError::Header);
    }
    assert(words[0] == header@[0]@);
    if !numeric::is_float_literal(header[0].as_str()) {
        return Err(CoefficientError::Epoch(header[0].clone()));
    }
    match read_records(&lines, 1, max_order) {
        Ok(records) => Ok(Coefficients { epoch: header[0].clone(), records }),
        Err(error) => Err(error),
    }
}

/// Every record that is read fits into the model: its order is no larger than its degree, and that
/// no larger than the largest.
pub proof fn records_fit_the_model(lines: Seq<Seq<char>>, max_order: int)
    ensures
        match records_of(lines, max_order) {
            Ok(records) => forall|i: int|
                0 <= i < records.len() ==> (#[trigger] records[i]).m <= records[i].n <= max_order,
            Err(_) => true,
        },
    decreases lines.len(),
{
    if lines.len() > 0 {
        records_fit_the_model(lines.skip(1), max_order);
    }
}

/// The place of a coefficient in a flat table.
pub fn coeff_idx(m: usize, n: usize) -> (r: usize)
    requires
        m < MAX_SIZE,
        n < MAX_SIZE,
    ensures
        r == m * MAX_SIZE + n,
        r < MAX_SIZE * MAX_SIZE,
{
    assert(m * 134 <= 133 * 134) by (nonlinear_arith)
        requires
            m <= 133,
    ;
    m * MAX_SIZE + n
}

/// Different coefficients have different places.
pub proof fn coefficient_places_are_distinct(m: int, n: int, p: int, q: int)
    requires
        0 <= n < MAX_SIZE,
        0 <= q < MAX_SIZE,
        m * MAX_SIZE + n == p * MAX_SIZE + q,
    ensures
        m == p,
        n == q,
{
}

/// The points of `s`, each at the place where it occurs first.
pub open spec fn distinct_points(s: Seq<Point>) -> Seq<Point>
    decreases s.len(),
{
    if s.len() == 0 {
        seq![]
    } else {
        let init = distinct_points(s.drop_last());
        if init.contains(s.last()) {
            init
        } else {
            init.push(s.last())
        }
    }
}

/// Points that are asked for once each, and for every given point its place among them.
pub struct UniquePoints {
    pub points: Vec<Point>,
    pub indices: Vec<usize>,
}

impl UniquePoints {
    /// Whether these are the unique points of `points`.
    pub open spec fn lists(self, points: Seq<Point>) -> bool {
        &&& self.points@ == distinct_points(points)
        &&& self.indices@.len() == points.len()
        &&& forall|i: int|
            0 <= i < points.len() ==> (#[trigger] self.indices@[i]) < self.points@.len()
                && self.points@[self.indices@[i] as int] == points[i]
    }
}

spec fn point_row(point: Point) -> Seq<Seq<char>> {
    seq![
        numeric::decimal(point.latitude as nat),
        numeric::decimal(point.longitude as nat),
    ]
}

fn make_point_row(point: Point) -> (r: Vec<String>)
    ensures
        text::views(r@) == point_row(point),
{
    let r: Vec<String> = vec![
        numeric::write_decimal(point.latitude),
        numeric::write_decimal(point.longitude),
    ];
    assert(text::views(r@) =~= point_row(point));
    r
}

proof fn lemma_point_row_injective(a: Point, b: Point)
    requires
        point_row(a) == point_row(b),
    ensures
        a == b,
{
    assert(point_row(a)[0] == point_row(b)[0]);
    assert(point_row(a)[1] == point_row(b)[1]);
    numeric::decimal_reads_back(a.latitude as nat);
    numeric::decimal_reads_back(b.latitude as nat);
    numeric::decimal_reads_back(a.longitude as nat);
    numeric::decimal_reads_back(b.longitude as nat);
}

/// Lists the points that have to be asked for, each once.
pub fn list_unique_points(points: &Vec<Point>) -> (r: UniquePoints)
    ensures
        r.lists(points@),
{
    let mut met: RowSet = RowSet::new();
    let mut unique: Vec<Point> = Vec::new();
    let mut indices: Vec<usize> = Vec::new();
    assert(points@.take(0).len() == 0);
    for i in 0..points.len()
        invariant
            met.wf(),
            met@.len() == unique@.len(),
            forall|k: int| 0 <= k < unique@.len() ==> met@[k] == point_row(#[trigger] unique@[k]),
            unique@ == distinct_points(points@.take(i as int)),
            indices@.len() == i,
            forall|k: int|
                0 <= k < i ==> (#[trigger] indices@[k]) < unique@.len()
                    && unique@[indices@[k] as int] == points@[k],
    {
        let point: Point = points[i];
        let row: Vec<String> = make_point_row(point);
        let ghost before = unique@;
        assert(points@.take(i + 1).drop_last() == points@.take(i as int));
        assert(points@.take(i + 1).last() == point);
        match met.find(&row) {
            Some(at) => {
                proof {
                    assert(met@[at as int] == point_row(unique@[at as int]));
                    lemma_point_row_injective(unique@[at as int], point);
                    assert(unique@.contains(point));
                }
                indices.push(at);
            },
            None => {
                proof {
                    if unique@.contains(point) {
                        let k = choose|k: int| 0 <= k < unique@.len() && unique@[k] == point;
                        assert(met@[k] == point_row(unique@[k]));
                        assert(met@.contains(point_row(point)));
                    }
                }
                let at: usize = unique.len();
                met.insert(row);
                unique.push(point);
                indices.push(at);
                assert(forall|k: int|
                    0 <= k < before.len() ==> #[trigger] unique@[k] == before[k]);
            },
        }
    }
    assert(points@.take(points@.len() as int) == points@);
    UniquePoints { points: unique, indices }
}

/// Hands the values of unique points back to all points.
pub fn spread_values(values: &Vec<u64>, indices: &Vec<usize>) -> (out: Vec<u64>)
    requires
        forall|i: int| 0 <= i < indices@.len() ==> (#[trigger] indices@[i]) < values@.len(),
    ensures
        out@.len() == indices@.len(),
        forall|i: int|
            0 <= i < indices@.len() ==> #[trigger] out@[i] == values@[indices@[i] as int],
{
    let mut out: Vec<u64> = Vec::new();
    for i in 0..indices.len()
        invariant
            forall|k: int| 0 <= k < indices@.len() ==> (#[trigger] indices@[k]) < values@.len(),
            out@.len() == i,
            forall|k: int| 0 <= k < i ==> #[trigger] out@[k] == values@[indices@[k] as int],
    {
        out.push(values[indices[i]]);
    }
    out
}

/// No point is asked for twice, and none is left out.
pub proof fn unique_points_are_distinct(points: Seq<Point>)
    ensures
        distinct_points(points).no_duplicates(),
        forall|point: Point| #[trigger]
            distinct_points(points).contains(point) <==> points.contains(point),
    decreases points.len(),
{
    if points.len() > 0 {
        let init = points.drop_last();
        unique_points_are_distinct(init);
        let d = distinct_points(init);
        assert(init.push(points.last()) =~= points);
        assert forall|point: Point| #[trigger]
            distinct_points(points).contains(point) <==> points.contains(point) by {
            keyed::lemma_contains_push(init, points.last(), point);
            keyed::lemma_contains_push(d, points.last(), point);
            assert(d.contains(point) <==> init.contains(point));
            assert(d.contains(points.last()) <==> init.contains(points.last()));
        }
    }
}

/// What a batch comes to, given what became of each unique point: the values of all points, or the
/// first of the unique points that has no value.
pub open spec fn batched(
    outcomes: Seq<Option<u64>>,
    indices: Seq<usize>,
    r: Result<Seq<u64>, usize>,
) -> bool {
    match r {
        Ok(values) => {
            &&& forall|k: int| 0 <= k < outcomes.len() ==> (#[trigger] outcomes[k]) is Some
            &&& values == indices.map_values(|k: usize| outcomes[k as int]->0)
        },
        Err(k) => {
            &&& k < outcomes.len()
            &&& outcomes[k as int] is None
            &&& forall|j: int| 0 <= j < k ==> (#[trigger] outcomes[j]) is Some
        },
    }
}

/// The view of the result of a batch.
pub open spec fn batch_view(r: Result<Vec<u64>, usize>) -> Result<Seq<u64>, usize> {
    match r {
        Ok(values) => Ok(values@),
        Err(k) => Err(k),
    }
}

/// Puts a batch together from what became of each unique point.
pub fn batch_get_magnetic_variations_internal(
    outcomes: &Vec<Option<u64>>,
    indices: &Vec<usize>,
) -> (r: Result<Vec<u64>, usize>)
    requires
        forall|i: int| 0 <= i < indices@.len() ==> (#[trigger] indices@[i]) < outcomes@.len(),
    ensures
        batched(outcomes@, indices@, batch_view(r)),
{
    let mut values: Vec<u64> = Vec::new();
    for k in 0..outcomes.len()
        invariant
            values@.len() == k,
            forall|j: int|
                0 <= j < k ==> (#[trigger] outcomes@[j]) is Some && outcomes@[j]->0 == values@[j],
    {
        match outcomes[k] {
            Some(value) => values.push(value),
            None => return Err(k),
        }
    }
    let out: Vec<u64> = spread_values(&values, indices);
    assert forall|i: int| 0 <= i < indices@.len() implies #[trigger] out@[i]
        == outcomes@[indices@[i] as int]->0 by {
        assert(indices@[i] < outcomes@.len());
    }
    assert(out@ =~= indices@.map_values(|k: usize| outcomes@[k as int]->0));
    Ok(out)
}

/// The values at points, unless one of them has none.
pub open spec fn values_at(points: Seq<Point>, f: spec_fn(Point) -> Option<u64>) -> Option<
    Seq<u64>,
> {
    if forall|i: int| 0 <= i < points.len() ==> f(#[trigger] points[i]) is Some {
        Some(points.map_values(|point: Point| f(point)->0))
    } else {
        None
    }
}

/// A batch that asks for unique points alone gives every point its value, in order, and fails
/// exactly where some point has none.
pub proof fn batch_gives_the_values_at_all_points(
    points: Seq<Point>,
    unique: UniquePoints,
    f: spec_fn(Point) -> Option<u64>,
    r: Result<Seq<u64>, usize>,
)
    requires
        unique.lists(points),
        batched(unique.points@.map_values(f), unique.indices@, r),
    ensures
        match r {
            Ok(values) => values_at(points, f) == Some(values),
            Err(_) => values_at(points, f) is None,
        },
{
    let outcomes = unique.points@.map_values(f);
    unique_points_are_distinct(points);
    match r {
        Ok(values) => {
            assert forall|i: int| 0 <= i < points.len() implies f(#[trigger] points[i]) is Some
                && values[i] == f(points[i])->0 by {
                let k = unique.indices@[i] as int;
                assert(outcomes[k] == f(points[i]));
            }
            assert(values =~= points.map_values(|point: Point| f(point)->0));
        },
        Err(k) => {
            let point = unique.points@[k as int];
            assert(distinct_points(points).contains(point));
            assert(points.contains(point));
            let i = choose|i: int| 0 <= i < points.len() && points[i] == point;
            assert(outcomes[k as int] == f(points[i]));
        },
    }
}

/// A batch gives each point what a batch of that point alone gives it, so equal points get equal
/// values, and it fails exactly where the batch of some point alone fails.
pub proof fn batch_agrees_with_single_points(
    points: Seq<Point>,
    f: spec_fn(Point) -> Option<u64>,
)
    ensures
        match values_at(points, f) {
            Some(values) => {
                &&& values.len() == points.len()
                &&& forall|i: int|
                    0 <= i < points.len() ==> values_at(seq![#[trigger] points[i]], f) == Some(
                        seq![values[i]],
                    )
            },
            None => exists|i: int|
                0 <= i < points.len() && values_at(seq![#[trigger] points[i]], f) is None,
        },
{
    assert forall|i: int| 0 <= i < points.len() implies values_at(seq![#[trigger] points[i]], f)
        == (match f(points[i]) {
        Some(value) => Some(seq![value]),
        None => None,
    }) by {
        let single = seq![points[i]];
        assert(single[0] == points[i]);
        assert(single.map_values(|point: Point| f(point)->0) =~= seq![f(points[i])->0]);
    }
}

/// A record of coefficients is read by its words: degree, order, and four coefficients, each in its
/// place. It must fit into the model.
pub proof fn records_are_read_by_their_words(w: Seq<Seq<char>>, max_order: int)
    ensures
        line_meaning(w, max_order) matches LineMeaning::Record(record) ==> {
            &&& w.len() >= 6
            &&& numeric::unsigned(w[0]) == Some(record.n)
            &&& numeric::unsigned(w[1]) == Some(record.m)
            &&& record.gnm == w[2]
            &&& record.hnm == w[3]
            &&& record.dgnm == w[4]
            &&& record.dhnm == w[5]
            &&& record.m <= record.n <= max_order
            &&& record.n != 9999
        },
        line_meaning(w, max_order) is Record <==> {
            &&& w.len() >= 6
            &&& numeric::unsigned(w[0]) is Some
            &&& numeric::unsigned(w[1]) is Some
            &&& numeric::float_literal(w[2])
            &&& numeric::float_literal(w[3])
            &&& numeric::float_literal(w[4])
            &&& numeric::float_literal(w[5])
            &&& numeric::unsigned(w[1])->0 <= numeric::unsigned(w[0])->0 <= max_order
            &&& numeric::unsigned(w[0])->0 != 9999
        },
{
}

/// A line is skipped for want of words. The degree 9999 ends the records, and so does an order that
/// the model does not have.
pub proof fn records_end_at_the_mark_or_above_the_model(w: Seq<Seq<char>>, max_order: int)
    ensures
        line_meaning(w, max_order) is Skip <==> w.len() < 6,
        w.len() >= 6 && numeric::unsigned(w[0]) == Some(9999u64) ==> line_meaning(w, max_order)
            is Stop,
        line_meaning(w, max_order) is Stop <==> w.len() >= 6 && numeric::unsigned(w[0]) is Some && (
        numeric::unsigned(w[0]) == Some(9999u64) || numeric::unsigned(w[1]) is Some
            && numeric::float_literal(w[2]) && numeric::float_literal(w[3])
            && numeric::float_literal(w[4]) && numeric::float_literal(w[5])
            && numeric::unsigned(w[1])->0 > max_order),
{
}

/// The first word that is no number is reported, with what it was to be.
pub proof fn the_first_word_that_is_no_number_is_reported(w: Seq<Seq<char>>, max_order: int)
    requires
        w.len() >= 6,
        numeric::unsigned(w[0]) != Some(9999u64),
    ensures
        ({
            let meaning = line_meaning(w, max_order);
            let degree = numeric::unsigned(w[0]) is Some;
            let order = degree && numeric::unsigned(w[1]) is Some;
            let gnm = order && numeric::float_literal(w[2]);
            let hnm = gnm && numeric::float_literal(w[3]);
            let dgnm = hnm && numeric::float_literal(w[4]);
            let whole = dgnm && numeric::float_literal(w[5]);
            let failed = |field: CoefficientField, found: Seq<char>|
                LineMeaning::Fail(CoefficientError::Field(field, found));
            &&& !degree ==> meaning == failed(CoefficientField::Degree, w[0])
            &&& degree && !order ==> meaning == failed(CoefficientField::Order, w[1])
            &&& order && !gnm ==> meaning == failed(CoefficientField::Gnm, w[2])
            &&& gnm && !hnm ==> meaning == failed(CoefficientField::Hnm, w[3])
            &&& hnm && !dgnm ==> meaning == failed(CoefficientField::Dgnm, w[4])
            &&& dgnm && !whole ==> meaning == failed(CoefficientField::Dhnm, w[5])
            &&& whole && numeric::unsigned(w[1])->0 <= max_order && (numeric::unsigned(w[1])->0
                > numeric::unsigned(w[0])->0 || numeric::unsigned(w[0])->0 > max_order) ==> meaning
                == LineMeaning::Fail(
                CoefficientError::<Seq<char>>::Corrupt(
                    numeric::unsigned(w[0])->0,
                    numeric::unsigned(w[1])->0,
                ),
            )
        }),
{
}

/// A file is its header, whose first word is the epoch, and the records behind it, line by line.
pub proof fn files_are_read_behind_their_header(content: Seq<char>, max_order: int)
    ensures
        ({
            let lines = text::text_lines(content);
            let header = text::words(Blank::Unicode, lines[0]);
            let read = coefficients_of(content, max_order);
            &&& lines.len() == 0 ==> read is Err && read->Err_0 is Empty
            &&& lines.len() > 0 && header.len() < 3 ==> read is Err && read->Err_0 is Header
            &&& lines.len() > 0 && header.len() >= 3 && !numeric::float_literal(header[0])
                ==> read is Err && read->Err_0 == CoefficientError::Epoch(header[0])
            &&& read is Ok ==> read->Ok_0.0 == header[0]
            &&& lines.len() > 0 && header.len() >= 3 && numeric::float_literal(header[0]) ==> (
            read is Ok <==> records_of(lines.skip(1), max_order) is Ok)
            &&& read is Ok ==> Ok::<
                Seq<CoefficientRecord<Seq<char>>>,
                CoefficientError<Seq<char>>,
            >(read->Ok_0.1) == records_of(lines.skip(1), max_order)
        }),
{
}

/// A record stands before those of the lines behind it; a skipped line changes nothing, and what
/// stands behind the end is not read.
pub proof fn records_stand_in_the_order_of_their_lines(
    line: Seq<char>,
    lines: Seq<Seq<char>>,
    max_order: int,
)
    ensures
        ({
            let meaning = line_meaning(text::words(Blank::Unicode, line), max_order);
            let all = records_of(seq![line] + lines, max_order);
            let rest = records_of(lines, max_order);
            &&& meaning is Skip ==> all == rest
            &&& meaning is Stop ==> all is Ok && all->Ok_0.len() == 0
            &&& meaning is Fail ==> all is Err && all->Err_0 == meaning->Fail_0
            &&& meaning is Record && rest is Ok ==> all is Ok && all->Ok_0.len() == rest->Ok_0.len()
                + 1 && all->Ok_0[0] == meaning->Record_0 && all->Ok_0.skip(1) == rest->Ok_0
            &&& meaning is Record && rest is Err ==> all is Err && all->Err_0 == rest->Err_0
        }),
{
    let all = seq![line] + lines;
    assert(all.skip(1) =~= lines);
    assert(all[0] == line);
}

/// The standard model has twelve degrees and the fine one 133.
pub proof fn models_have_their_sizes()
    ensures
        SIZE_STANDARD == 12,
        SIZE_HIGH_RESOLUTION == 133,
        MAX_SIZE == SIZE_HIGH_RESOLUTION + 1,
{
}

/// Every field of a `CoefficientRecord` is seen under its own name.
pub proof fn every_field_of_coefficient_record_is_seen(it: CoefficientRecord)
    ensures
        it@.n == it.n,
        it@.m == it.m,
        it@.gnm == it.gnm@,
        it@.hnm == it.hnm@,
        it@.dgnm == it.dgnm@,
        it@.dhnm == it.dhnm@,
{
}

} // verus!
