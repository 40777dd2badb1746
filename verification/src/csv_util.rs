//! The shape of a CSV file: its separator and the row that holds its header.
use vstd::prelude::*;
use crate::model::texts;
use crate::text::str_eq;

verus! {

/// The rows of a CSV file with the given separator, read without a header
/// and with rows of any length; a row that cannot be read is `None`.
pub uninterp spec fn csv_rows(bytes: Seq<u8>, delimiter: u8) -> Seq<Option<Seq<Seq<char>>>>;

/// The characters of a row that may have failed.
pub open spec fn row_view(row: Option<Vec<String>>) -> Option<Seq<Seq<char>>> {
    match row {
        Some(r) => Some(texts(r@)),
        None => None,
    }
}

/// The characters of a list of rows.
pub open spec fn rows_view(rows: Seq<Option<Vec<String>>>) -> Seq<Option<Seq<Seq<char>>>> {
    rows.map_values(|r: Option<Vec<String>>| row_view(r))
}

/// `csv::Reader` built with the given delimiter, without headers and
/// flexible, reads all the records of the bytes. A record that fails is `None`.
#[verifier::external_body]
fn read_csv_rows(bytes: &[u8], delimiter: u8) -> (r: Vec<Option<Vec<String>>>)
    ensures
        rows_view(r@) == csv_rows(bytes@, delimiter),
{
    csv::ReaderBuilder::new()
        .delimiter(delimiter)
        .has_headers(false)
        .flexible(true)
        .from_reader(bytes)
        .into_records()
        .map(|record| record.ok().map(|r| r.iter().map(|s| s.to_string()).collect()))
        .collect()
}

/// How often the byte `b` occurs in the first `n` bytes.
pub open spec fn count_of(bytes: Seq<u8>, b: u8, n: nat) -> nat
    decreases n,
{
    if n == 0 {
        0
    } else {
        count_of(bytes, b, (n - 1) as nat) + if bytes[n - 1] == b {
            1nat
        } else {
            0nat
        }
    }
}

/// The separator of a file: the most frequent of comma, tab and
/// semicolon. Where two are as frequent, the semicolon goes before the tab,
/// and the tab before the comma.
pub open spec fn separator_of(bytes: Seq<u8>) -> u8 {
    let commas = count_of(bytes, 0x2c, bytes.len());
    let tabs = count_of(bytes, 0x09, bytes.len());
    let semicolons = count_of(bytes, 0x3b, bytes.len());
    if semicolons >= tabs && semicolons >= commas {
        0x3b
    } else if tabs >= commas {
        0x09
    } else {
        0x2c
    }
}

/// Determines the separator of a file by counting.
pub fn determine_separator(bytes: &[u8]) -> (r: u8)
    ensures
        r == separator_of(bytes@),
{
    let mut commas: usize = 0;
    let mut tabs: usize = 0;
    let mut semicolons: usize = 0;
    let mut i: usize = 0;
    while i < bytes.len()
        invariant
            i <= bytes@.len(),
            commas == count_of(bytes@, 0x2c, i as nat),
            tabs == count_of(bytes@, 0x09, i as nat),
            semicolons == count_of(bytes@, 0x3b, i as nat),
            commas <= i,
            tabs <= i,
            semicolons <= i,
        decreases bytes@.len() - i,
    {
        let b = bytes[i];
        if b == 0x2c {
            commas = commas + 1;
        } else if b == 0x09 {
            tabs = tabs + 1;
        } else if b == 0x3b {
            semicolons = semicolons + 1;
        }
        i = i + 1;
    }
    if semicolons >= tabs && semicolons >= commas {
        0x3b
    } else if tabs >= commas {
        0x09
    } else {
        0x2c
    }
}

/// `name` is one of `names`.
pub open spec fn is_one_of(names: Seq<&str>, name: Seq<char>) -> bool {
    exists|k: int| 0 <= k < names.len() && (#[trigger] names[k])@ == name
}

/// Whether `name` is one of `names`.
pub fn one_of(names: &[&str], name: &str) -> (r: bool)
    ensures
        r == is_one_of(names@, name@),
{
    let mut k: usize = 0;
    while k < names.len()
        invariant
            k <= names@.len(),
            forall|j: int| 0 <= j < k ==> (#[trigger] names@[j])@ != name@,
        decreases names@.len() - k,
    {
        if str_eq(names[k], name) {
            return true;
        }
        k = k + 1;
    }
    false
}

/// How many of the first `n` cells of a row are among `names`.
pub open spec fn known_cells(row: Seq<Seq<char>>, names: Seq<&str>, n: nat) -> nat
    decreases n,
{
    if n == 0 {
        0
    } else {
        known_cells(row, names, (n - 1) as nat) + if is_one_of(names, row[n - 1]) {
            1nat
        } else {
            0nat
        }
    }
}

/// The row at position `i` is the header: it is the first with `threshold`
/// or more cells among `names`, and no row before it failed.
pub open spec fn is_header_row(
    rows: Seq<Option<Seq<Seq<char>>>>,
    threshold: nat,
    names: Seq<&str>,
    i: int,
) -> bool {
    &&& 0 <= i < rows.len()
    &&& rows[i] is Some
    &&& known_cells(rows[i]->0, names, rows[i]->0.len()) >= threshold
    &&& forall|j: int|
        0 <= j < i ==> (#[trigger] rows[j]) is Some && known_cells(
            rows[j]->0,
            names,
            rows[j]->0.len(),
        ) < threshold
}

/// How many cells of the row are among `names`.
fn count_known(row: &Vec<String>, names: &[&str]) -> (r: usize)
    ensures
        r == known_cells(texts(row@), names@, row@.len()),
{
    let mut count: usize = 0;
    let mut i: usize = 0;
    while i < row.len()
        invariant
            i <= row@.len(),
            count <= i,
            count == known_cells(texts(row@), names@, i as nat),
        decreases row@.len() - i,
    {
        assert(texts(row@)[i as int] == row@[i as int]@);
        if one_of(names, row[i].as_str()) {
            count = count + 1;
        }
        i = i + 1;
    }
    count
}

/// Finds the first row that holds `threshold` or more of the names in
/// `possible_columns`. A row that failed before such a row is found ends the search.
pub fn find_header_in_rows(
    threshold: usize,
    possible_columns: &[&str],
    rows: &Vec<Option<Vec<String>>>,
) -> (r: Option<(usize, Vec<String>)>)
    ensures
        match r {
            Some(found) => is_header_row(
                rows_view(rows@),
                threshold as nat,
                possible_columns@,
                found.0 as int,
            ) && Some(texts(found.1@)) == rows_view(rows@)[found.0 as int],
            None => forall|i: int|
                !is_header_row(rows_view(rows@), threshold as nat, possible_columns@, i),
        },
{
    let mut i: usize = 0;
    while i < rows.len()
        invariant
            i <= rows@.len(),
            forall|j: int|
                0 <= j < i ==> (#[trigger] rows_view(rows@)[j]) is Some && known_cells(
                    rows_view(rows@)[j]->0,
                    possible_columns@,
                    rows_view(rows@)[j]->0.len(),
                ) < threshold,
        decreases rows@.len() - i,
    {
        assert(rows_view(rows@)[i as int] == row_view(rows@[i as int]));
        match &rows[i] {
            None => {
                return None;
            },
            Some(row) => {
                if count_known(row, possible_columns) >= threshold {
                    return Some((i, row.clone()));
                }
            },
        }
        i = i + 1;
    }
    None
}

/// Finds the index of the first row of a CSV file that holds `threshold`
/// or more of the names in `possible_columns`, and that row. The separator
/// is determined by counting.
pub fn find_header_row(threshold: usize, possible_columns: &[&str], bytes: &[u8]) -> (r: Option<
    (usize, Vec<String>),
>)
    ensures
        match r {
            Some(found) => is_header_row(
                csv_rows(bytes@, separator_of(bytes@)),
                threshold as nat,
                possible_columns@,
                found.0 as int,
            ) && Some(texts(found.1@)) == csv_rows(bytes@, separator_of(bytes@))[found.0 as int],
            None => forall|i: int|
                !is_header_row(
                    csv_rows(bytes@, separator_of(bytes@)),
                    threshold as nat,
                    possible_columns@,
                    i,
                ),
        },
{
    let separator = determine_separator(bytes);
    let rows = read_csv_rows(bytes, separator);
    find_header_in_rows(threshold, possible_columns, &rows)
}

/// The rows of a CSV file, with the separator determined by counting.
pub fn read_rows(bytes: &[u8]) -> (r: Vec<Option<Vec<String>>>)
    ensures
        rows_view(r@) == csv_rows(bytes@, separator_of(bytes@)),
{
    let separator = determine_separator(bytes);
    read_csv_rows(bytes, separator)
}

/// The column at position `i` is the first whose name is among `synonyms`.
pub open spec fn first_column(columns: Seq<Seq<char>>, synonyms: Seq<&str>, i: int) -> bool {
    &&& 0 <= i < columns.len()
    &&& is_one_of(synonyms, columns[i])
    &&& forall|j: int| 0 <= j < i ==> !is_one_of(synonyms, #[trigger] columns[j])
}

/// Finds the first column whose name is among `synonyms`.
pub fn find_column_idx(columns: &[String], synonyms: &[&str]) -> (r: Option<usize>)
    ensures
        match r {
            Some(i) => first_column(texts(columns@), synonyms@, i as int),
            None => forall|i: int| !first_column(texts(columns@), synonyms@, i),
        },
{
    let mut i: usize = 0;
    while i < columns.len()
        invariant
            i <= columns@.len(),
            forall|j: int| 0 <= j < i ==> !is_one_of(synonyms@, #[trigger] texts(columns@)[j]),
        decreases columns@.len() - i,
    {
        assert(texts(columns@)[i as int] == columns@[i as int]@);
        if one_of(synonyms, columns[i].as_str()) {
            return Some(i);
        }
        i = i + 1;
    }
    None
}

} // verus!
