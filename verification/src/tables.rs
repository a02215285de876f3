//! Tables in comma-separated files: columns by name, and fields of their rows.

use crate::numeric;
use crate::text;
use crate::text::Blank;
use vstd::prelude::*;

verus! {

/// The headers and the rows that `csv` reads from a text, with or without trimming; nothing where
/// it fails.
pub uninterp spec fn csv_table(content: Seq<char>, trimmed: bool) -> Option<
    (Seq<Seq<char>>, Seq<Seq<Seq<char>>>),
>;

/// A table: its headers and its rows.
pub struct CsvTable {
    pub headers: Vec<String>,
    pub rows: Vec<Vec<String>>,
}

impl View for CsvTable {
    type V = (Seq<Seq<char>>, Seq<Seq<Seq<char>>>);

    open spec fn view(&self) -> Self::V {
        (text::views(self.headers@), crate::keyed::row_views(self.rows@))
    }
}

/// Calls `Reader::headers` and `Reader::records` of `csv` on a reader built with
/// `ReaderBuilder::trim` (`Trim::All` where `trimmed` is set, else `Trim::None`) and
/// `ReaderBuilder::flexible`, over the bytes of the text. The reader has no other input, so the
/// result is a function of the two arguments.
#[verifier::external_body]
pub(crate) fn read_csv(content: &str, trimmed: bool) -> (r: Option<CsvTable>)
    ensures
        text::opt(r) == csv_table(content@, trimmed),
{
    let trim = if trimmed { csv::Trim::All } else { csv::Trim::None };
    let mut reader = csv::ReaderBuilder::new().trim(trim).flexible(true).from_reader(
        content.as_bytes(),
    );
    let headers = reader.headers().ok()?.iter().map(str::to_string).collect();
    let mut rows = Vec::new();
    for record in reader.records() {
        rows.push(record.ok()?.iter().map(str::to_string).collect());
    }
    Some(CsvTable { headers, rows })
}

/// The first position of a column among the headers.
pub open spec fn column(headers: Seq<Seq<char>>, name: Seq<char>) -> Option<usize>
    decreases headers.len(),
{
    if headers.len() == 0 {
        None
    } else {
        match column(headers.drop_last(), name) {
            Some(position) => Some(position),
            None => if headers.last() == name {
                Some((headers.len() - 1) as usize)
            } else {
                None
            },
        }
    }
}

/// Finds a column among the headers.
pub fn optional_index(headers: &Vec<String>, name: &str) -> (r: Option<usize>)
    ensures
        r == column(text::views(headers@), name@),
{
    let ghost all = text::views(headers@);
    assert(all.take(0).len() == 0);
    for i in 0..headers.len()
        invariant
            all == text::views(headers@),
            column(all.take(i as int), name@) is None,
    {
        assert(all.take(i + 1).drop_last() == all.take(i as int));
        assert(all.take(i + 1).last() == headers@[i as int]@);
        if text::same(headers[i].as_str(), name) {
            proof {
                lemma_column_extends(all, name@, i + 1);
            }
            return Some(i);
        }
    }
    assert(all.take(headers@.len() as int) == all);
    None
}

proof fn lemma_column_extends(headers: Seq<Seq<char>>, name: Seq<char>, n: int)
    requires
        0 <= n <= headers.len(),
        column(headers.take(n), name) is Some,
    ensures
        column(headers, name) == column(headers.take(n), name),
    decreases headers.len() - n,
{
    if n == headers.len() {
        assert(headers.take(n) == headers);
    } else {
        assert(headers.take(n + 1).drop_last() == headers.take(n));
        lemma_column_extends(headers, name, n + 1);
    }
}

/// The field of a row in a column, without blanks around; nothing where it is missing or blank.
pub open spec fn field(row: Seq<Seq<char>>, at: Option<usize>) -> Option<Seq<char>> {
    match at {
        Some(position) if position < row.len() => {
            let value = text::trim(Blank::Unicode, row[position as int]);
            if value.len() > 0 {
                Some(value)
            } else {
                None
            }
        },
        _ => None,
    }
}

/// Reads the field of a row in a column.
pub fn optional_string(row: &Vec<String>, at: Option<usize>) -> (r: Option<String>)
    ensures
        text::opt(r) == field(text::views(row@), at),
{
    match at {
        Some(position) if position < row.len() => {
            assert(text::views(row@)[position as int] == row@[position as int]@);
            let value: String = text::trimmed(Blank::Unicode, row[position].as_str());
            if text::is_empty(value.as_str()) {
                None
            } else {
                Some(value)
            }
        },
        _ => None,
    }
}

/// The field of a row in a column, empty where it is missing or blank.
pub open spec fn field_or_empty(row: Seq<Seq<char>>, at: Option<usize>) -> Seq<char> {
    match field(row, at) {
        Some(value) => value,
        None => ""@,
    }
}

/// Reads the field of a row in a column, empty where it is missing.
pub fn string_or_empty(row: &Vec<String>, at: Option<usize>) -> (r: String)
    ensures
        r@ == field_or_empty(text::views(row@), at),
{
    match optional_string(row, at) {
        Some(value) => value,
        None => text::copy(""),
    }
}

/// The number in a column of a row, as its literal.
pub open spec fn number(row: Seq<Seq<char>>, at: Option<usize>) -> Option<Seq<char>> {
    match field(row, at) {
        Some(value) if numeric::float_literal(value) => Some(value),
        _ => None,
    }
}

/// Reads the number in a column of a row.
pub fn optional_number(row: &Vec<String>, at: Option<usize>) -> (r: Option<String>)
    ensures
        text::opt(r) == number(text::views(row@), at),
{
    match optional_string(row, at) {
        Some(value) => {
            if numeric::is_float_literal(value.as_str()) {
                Some(value)
            } else {
                None
            }
        },
        None => None,
    }
}

/// Why a table is refused.
#[derive(Debug)]
pub enum TableError<T = String> {
    /// The file cannot be read as a table.
    Unreadable,
    /// A required column is missing.
    MissingColumn(T),
}

impl View for TableError {
    type V = TableError<Seq<char>>;

    open spec fn view(&self) -> Self::V {
        match self {
            TableError::Unreadable => TableError::Unreadable,
            TableError::MissingColumn(name) => TableError::MissingColumn(name@),
        }
    }
}

/// Finds a required column among the headers.
pub fn required_index(headers: &Vec<String>, name: &str) -> (r: Result<usize, TableError>)
    ensures
        match r {
            Ok(position) => column(text::views(headers@), name@) == Some(position),
            Err(error) => column(text::views(headers@), name@) is None && error@
                == TableError::MissingColumn(name@),
        },
{
    match optional_index(headers, name) {
        Some(position) => Ok(position),
        None => Err(TableError::MissingColumn(text::copy(name))),
    }
}

/// A column is found by the first header with its name.
pub proof fn a_column_is_found_by_the_first_header_with_its_name(
    headers: Seq<Seq<char>>,
    name: Seq<char>,
)
    requires
        headers.len() <= usize::MAX,
    ensures
        match column(headers, name) {
            Some(position) => {
                &&& position < headers.len()
                &&& headers[position as int] == name
                &&& forall|k: int| 0 <= k < position ==> #[trigger] headers[k] != name
            },
            None => forall|k: int| 0 <= k < headers.len() ==> #[trigger] headers[k] != name,
        },
    decreases headers.len(),
{
    if headers.len() > 0 {
        let init = headers.drop_last();
        a_column_is_found_by_the_first_header_with_its_name(init, name);
        assert forall|k: int| 0 <= k < init.len() implies init[k] == headers[k] by {}
    }
}

/// A field is what stands between the blanks at its position; a blank or missing one is none.
pub proof fn a_field_is_what_stands_at_its_position(
    row: Seq<Seq<char>>,
    position: usize,
    value: Seq<char>,
)
    ensures
        field(row, Some(position)) == Some(value) <==> {
            &&& position < row.len()
            &&& value.len() > 0
            &&& value == text::trim(Blank::Unicode, row[position as int])
        },
        field(row, None) is None,
        field_or_empty(row, Some(position)) == (if position < row.len() {
            text::trim(Blank::Unicode, row[position as int])
        } else {
            seq![]
        }),
        number(row, Some(position)) == Some(value) <==> {
            &&& position < row.len()
            &&& value.len() > 0
            &&& value == text::trim(Blank::Unicode, row[position as int])
            &&& numeric::float_literal(value)
        },
        number(row, None) is None,
{
    reveal_strlit("");
    assert(""@ =~= seq![]);
    if position < row.len() && text::trim(Blank::Unicode, row[position as int]).len() == 0 {
        assert(text::trim(Blank::Unicode, row[position as int]) =~= seq![]);
    }
}

} // verus!
