//! Tables in comma-separated values.

use crate::text::{
    ascii_uppercase, chars_eq, copy_string, to_ascii_uppercase, to_chars, trim, trim_slice, views,
};
use vstd::prelude::*;

verus! {

/// The error type of the csv crate.
#[verifier::external_type_specification]
#[verifier::external_body]
pub struct ExCsvError(csv::Error);

/// The model of a row: its fields, or nothing if it cannot be read.
pub type RowModel = Option<Seq<Seq<char>>>;

/// What the csv crate reads from bytes, one item for each record, without a
/// header, with any number of fields in each, each field trimmed or not.
pub uninterp spec fn csv_rows(data: Seq<u8>, trimmed: bool) -> Seq<Option<Seq<Seq<char>>>>;

/// A record as the csv crate's `StringRecord` writes itself for debugging.
pub uninterp spec fn record_debug(fields: Seq<Seq<char>>) -> Seq<char>;

/// `csv::StringRecord::from` and its `Debug`: the fields as a list, each in
/// quotes, under the name of the type.
#[verifier::external_body]
pub(crate) fn record_text(fields: &Vec<String>) -> (r: String)
    ensures
        r@ == record_debug(views(fields@)),
{
    format!("{:?}", csv::StringRecord::from(fields.as_slice()))
}

pub open spec fn read_view(r: Result<Vec<String>, csv::Error>) -> RowModel {
    match r {
        Ok(v) => Some(views(v@)),
        Err(_) => None,
    }
}

pub open spec fn read_views(v: Seq<Result<Vec<String>, csv::Error>>) -> Seq<RowModel> {
    Seq::new(v.len(), |i: int| read_view(v[i]))
}

/// `csv::ReaderBuilder` with `has_headers(false)`, `flexible(true)` and either
/// `Trim::All` or no trimming, and the records of the reader that it makes, in
/// order. A record that is not UTF-8 is an error in its place.
#[verifier::external_body]
fn csv_records(data: &[u8], trimmed: bool) -> (r: Vec<Result<Vec<String>, csv::Error>>)
    ensures
        read_views(r@) == csv_rows(data@, trimmed),
{
    let trim = match trimmed {
        true => csv::Trim::All,
        false => csv::Trim::None,
    };
    csv::ReaderBuilder::new()
        .has_headers(false)
        .flexible(true)
        .trim(trim)
        .from_reader(data)
        .into_records()
        .map(|record| record.map(|fields| fields.iter().map(String::from).collect()))
        .collect()
}

/// The models of rows.
pub open spec fn row_view(r: Option<Vec<String>>) -> RowModel {
    match r {
        Some(v) => Some(views(v@)),
        None => None,
    }
}

pub open spec fn row_views(v: Seq<Option<Vec<String>>>) -> Seq<RowModel> {
    Seq::new(v.len(), |i: int| row_view(v[i]))
}

/// The rows of a table; one that cannot be read is `None`.
pub fn read_rows(data: &[u8], trimmed: bool) -> (r: Vec<Option<Vec<String>>>)
    ensures
        row_views(r@) == csv_rows(data@, trimmed),
{
    let records = csv_records(data, trimmed);
    let ghost all = read_views(records@);
    let mut out: Vec<Option<Vec<String>>> = Vec::new();
    proof {
        assert(row_views(out@) =~= all.take(0));
    }
    for record in it: records
        invariant
            all == read_views(it.seq()),
            row_views(out@) == all.take(it.index() as int),
    {
        let ghost before = row_views(out@);
        proof {
            assert(all[it.index() as int] == read_view(record));
        }
        let row = match record {
            Ok(fields) => Some(fields),
            Err(_) => None,
        };
        let ghost rv = row_view(row);
        out.push(row);
        proof {
            assert(row_views(out@) =~= before.push(rv));
            assert(row_views(out@) =~= all.take(it.index() as int + 1));
        }
    }
    proof {
        assert(all.take(all.len() as int) =~= all);
    }
    out
}

// ── Columns ─────────────────────────────────────────────────────────

/// The texts of string slices.
pub open spec fn names_of(v: Seq<&str>) -> Seq<Seq<char>> {
    Seq::new(v.len(), |i: int| v[i]@)
}

/// Whether two texts are the same but for the case of ASCII letters.
pub open spec fn same_word(a: Seq<char>, b: Seq<char>) -> bool {
    ascii_uppercase(a) == ascii_uppercase(b)
}

/// Whether a header is one of the names.
pub open spec fn is_named(header: Seq<char>, names: Seq<Seq<char>>) -> bool {
    exists|k: int| 0 <= k < names.len() && same_word(header, #[trigger] names[k])
}

/// The first column from `i` on that has one of the names.
pub open spec fn column_from(headers: Seq<Seq<char>>, names: Seq<Seq<char>>, i: int) -> Option<int>
    decreases headers.len() - i,
{
    if i < 0 || i >= headers.len() {
        None
    } else if is_named(headers[i], names) {
        Some(i)
    } else {
        column_from(headers, names, i + 1)
    }
}

/// The first column that has one of the names.
pub open spec fn column(headers: Seq<Seq<char>>, names: Seq<Seq<char>>) -> Option<int> {
    column_from(headers, names, 0)
}

/// The column found is the first of its name.
pub proof fn law_column_is_first(headers: Seq<Seq<char>>, names: Seq<Seq<char>>)
    ensures
        column(headers, names) matches Some(i) ==> 0 <= i < headers.len() && is_named(headers[i], names)
            && forall|j: int| 0 <= j < i ==> !is_named(#[trigger] headers[j], names),
        column(headers, names) is None ==> forall|j: int|
            0 <= j < headers.len() ==> !is_named(#[trigger] headers[j], names),
{
    lemma_column_from(headers, names, 0);
}

proof fn lemma_column_from(headers: Seq<Seq<char>>, names: Seq<Seq<char>>, from: int)
    requires
        0 <= from,
    ensures
        column_from(headers, names, from) matches Some(i) ==> from <= i < headers.len() && is_named(
            headers[i],
            names,
        ) && forall|j: int| from <= j < i ==> !is_named(#[trigger] headers[j], names),
        column_from(headers, names, from) is None ==> forall|j: int|
            from <= j < headers.len() ==> !is_named(#[trigger] headers[j], names),
    decreases headers.len() - from,
{
    if from < headers.len() && !is_named(headers[from], names) {
        lemma_column_from(headers, names, from + 1);
    }
}

/// Whether two texts are the same but for the case of ASCII letters.
pub fn is_same_word(a: &[char], b: &str) -> (r: bool)
    ensures
        r == same_word(a@, b@),
{
    let x = to_ascii_uppercase(a);
    let y = to_ascii_uppercase(&to_chars(b));
    chars_eq(&x, &y)
}

fn has_name(header: &str, names: &[&str]) -> (r: bool)
    ensures
        r == is_named(header@, names_of(names@)),
{
    let h = to_chars(header);
    for k in 0..names.len()
        invariant
            h@ == header@,
            forall|j: int| 0 <= j < k ==> !same_word(header@, #[trigger] names_of(names@)[j]),
    {
        if is_same_word(&h, names[k]) {
            proof {
                assert(same_word(header@, names_of(names@)[k as int]));
            }
            return true;
        }
    }
    false
}

/// The first column that has one of the names.
pub fn find_column(headers: &Vec<String>, names: &[&str]) -> (r: Option<usize>)
    ensures
        r is Some <==> column(views(headers@), names_of(names@)) is Some,
        r matches Some(i) ==> column(views(headers@), names_of(names@)) == Some(i as int),
{
    let ghost hs = views(headers@);
    let ghost ns = names_of(names@);
    let mut i: usize = 0;
    while i < headers.len()
        invariant
            i <= headers@.len(),
            hs == views(headers@),
            ns == names_of(names@),
            column(hs, ns) == column_from(hs, ns, i as int),
        decreases headers@.len() - i,
    {
        if has_name(headers[i].as_str(), names) {
            return Some(i);
        }
        i = i + 1;
    }
    None
}

/// A field of a row, if the table has the column and the row is long enough.
pub open spec fn field(row: Seq<Seq<char>>, c: Option<int>) -> Option<Seq<char>> {
    match c {
        Some(i) => if 0 <= i < row.len() { Some(row[i]) } else { None },
        None => None,
    }
}

/// A field of a row, empty if there is none.
pub open spec fn field_or_empty(row: Seq<Seq<char>>, c: Option<int>) -> Seq<char> {
    match field(row, c) {
        Some(s) => s,
        None => Seq::empty(),
    }
}

/// A column number as a mathematical number.
pub open spec fn place(c: Option<usize>) -> Option<int> {
    match c {
        Some(i) => Some(i as int),
        None => None,
    }
}

/// A field of a row, if there is one.
pub fn get_field(row: &Vec<String>, c: Option<usize>) -> (r: Option<&str>)
    ensures
        r is Some <==> field(views(row@), place(c)) is Some,
        r matches Some(s) ==> field(views(row@), place(c)) == Some(s@),
{
    match c {
        Some(i) => if i < row.len() {
            Some(row[i].as_str())
        } else {
            None
        },
        None => None,
    }
}

/// A field of a row, empty if there is none.
pub fn get_text(row: &Vec<String>, c: Option<usize>) -> (r: String)
    ensures
        r@ == field_or_empty(views(row@), place(c)),
{
    match get_field(row, c) {
        Some(s) => copy_string(s),
        None => String::new(),
    }
}

/// A field of a row without the space around it, empty if there is none.
pub fn get_trimmed(row: &Vec<String>, c: Option<usize>) -> (r: Vec<char>)
    ensures
        r@ == trim(field_or_empty(views(row@), place(c))),
{
    let s = get_text(row, c);
    crate::text::copy_chars(trim_slice(&to_chars(s.as_str())))
}

/// The header of a table: its first row, empty if it has none, nothing if it
/// cannot be read.
pub open spec fn header_of(rows: Seq<RowModel>) -> RowModel {
    if rows.len() == 0 {
        Some(Seq::empty())
    } else {
        rows[0]
    }
}

/// Whether every row behind the header can be read.
pub open spec fn all_readable(rows: Seq<RowModel>) -> bool {
    forall|k: int| 1 <= k < rows.len() ==> (#[trigger] rows[k]) is Some
}

/// The header of a table.
pub fn find_header(rows: &Vec<Option<Vec<String>>>) -> (r: Option<Vec<String>>)
    ensures
        row_view(r) == header_of(row_views(rows@)),
{
    if rows.len() == 0 {
        let r: Vec<String> = Vec::new();
        proof {
            assert(views(r@) =~= Seq::empty());
        }
        return Some(r);
    }
    proof {
        assert(row_views(rows@)[0] == row_view(rows@[0]));
    }
    match &rows[0] {
        Some(v) => Some(copy_strings(v)),
        None => None,
    }
}

/// A copy of strings.
pub fn copy_strings(v: &Vec<String>) -> (r: Vec<String>)
    ensures
        views(r@) == views(v@),
{
    let mut out: Vec<String> = Vec::new();
    for i in 0..v.len()
        invariant
            out@.len() == i,
            forall|k: int| 0 <= k < i ==> (#[trigger] out@[k])@ == v@[k]@,
    {
        out.push(copy_string(v[i].as_str()));
    }
    proof {
        assert(views(out@) =~= views(v@));
    }
    out
}

/// Whether every row behind the header can be read.
pub fn can_read_all(rows: &Vec<Option<Vec<String>>>) -> (r: bool)
    ensures
        r == all_readable(row_views(rows@)),
{
    let ghost all = row_views(rows@);
    let mut i: usize = 1;
    while i < rows.len()
        invariant
            1 <= i,
            all == row_views(rows@),
            forall|k: int| 1 <= k < i && k < all.len() ==> (#[trigger] all[k]) is Some,
        decreases rows@.len() - i,
    {
        if rows[i].is_none() {
            proof {
                assert(all[i as int] is None);
            }
            return false;
        }
        proof {
            assert(all[i as int] is Some);
        }
        i = i + 1;
    }
    true
}

} // verus!
