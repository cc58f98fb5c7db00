//! The credit history of a form: rows of date, credit id and the actions or
//! emotions that the credit covers.
//!
//! A row has five columns: date, credit id, obsolete flag, license, items.
//! An earlier form of the file has four: it lacks the license. The oldest
//! form has only the date and the credit id.

use vstd::prelude::*;
use crate::credit_row::{clean_id, parse_credit_id};
use crate::error::{CsvError, DataReadError};
use crate::ordered::{key_index, lemma_key_index, upserted};
use crate::records::{
    char_views,
    delimited_records,
    field_texts,
    parse_time,
    read_records,
    split_chars,
    split_on,
    time_of,
};
use crate::text::{chars_of, same_text, string_of};
use crate::tracker::{Timestamp, name_texts};

verus! {

/// One row of a credit history.
#[derive(Clone, Debug)]
pub struct LocalCreditRow {
    pub date: Timestamp,
    pub credit_id: String,
    pub obsolete: bool,
    pub license: String,
    pub items: Vec<String>,
}

/// What a row holds, as plain values.
pub struct RowModel {
    pub date: Timestamp,
    pub credit_id: Seq<char>,
    pub obsolete: bool,
    pub license: Seq<char>,
    pub items: Seq<Seq<char>>,
}

impl LocalCreditRow {
    /// The row as plain values.
    pub open spec fn model(&self) -> RowModel {
        RowModel {
            date: self.date,
            credit_id: self.credit_id@,
            obsolete: self.obsolete,
            license: self.license@,
            items: name_texts(self.items@),
        }
    }
}

/// The row that a record stands for; `None` where the record has fewer than
/// four fields or its date cannot be read.
pub open spec fn credit_row(rec: Seq<Seq<char>>) -> Option<RowModel> {
    if rec.len() < 4 {
        None
    } else {
        match time_of(rec[0]) {
            None => None,
            Some(t) => Some(
                RowModel {
                    date: t,
                    credit_id: clean_id(rec[1]),
                    obsolete: rec[2] == "OLD"@,
                    license: if rec.len() >= 5 {
                        rec[3]
                    } else {
                        "Unknown"@
                    },
                    items: split_on(
                        if rec.len() >= 5 {
                            rec[4]
                        } else {
                            rec[3]
                        },
                        ',',
                    ),
                },
            ),
        }
    }
}

/// The credit id of a record of the oldest form; `None` where the record has
/// fewer than two fields or its date cannot be read.
pub open spec fn old_row_id(rec: Seq<Seq<char>>) -> Option<Seq<char>> {
    if rec.len() < 2 || time_of(rec[0]) is None {
        None
    } else {
        Some(clean_id(rec[1]))
    }
}

/// The rows of the records from `at` on, in order: up to the first row after
/// `until`, if a bound is given, else all of them. A record that is no row
/// is an error that names its place; so is the reader's error `err` when
/// the records run out before a row ends the reading.
pub open spec fn rows_until(
    recs: Seq<Seq<Seq<char>>>,
    err: Option<Seq<char>>,
    until: Option<Timestamp>,
    at: int,
) -> Result<Seq<RowModel>, (bool, int, Seq<char>)>
    decreases recs.len() - at,
{
    if at < 0 || at >= recs.len() {
        match err {
            Some(m) => Err((false, 0, m)),
            None => Ok(Seq::empty()),
        }
    } else {
        match credit_row(recs[at]) {
            None => Err((true, at, Seq::empty())),
            Some(row) => if until matches Some(u) && u.before(&row.date) {
                Ok(Seq::empty())
            } else {
                match rows_until(recs, err, until, at + 1) {
                    Ok(rest) => Ok(seq![row] + rest),
                    Err(e) => Err(e),
                }
            },
        }
    }
}

/// The error that the reading of rows reports.
pub open spec fn is_row_error(e: DataReadError, m: (bool, int, Seq<char>)) -> bool {
    if m.0 {
        e == DataReadError::SerdeCsv(CsvError::Deserialize(m.1 as usize))
    } else {
        e matches DataReadError::SerdeCsv(CsvError::Read(text)) && text@ == m.2
    }
}

/// The models of a list of rows.
pub open spec fn row_models(rows: Seq<LocalCreditRow>) -> Seq<RowModel> {
    Seq::new(rows.len(), |i: int| rows[i].model())
}

/// `r` is what the reading of rows gave.
pub open spec fn rows_result(
    r: Result<Vec<LocalCreditRow>, DataReadError>,
    m: Result<Seq<RowModel>, (bool, int, Seq<char>)>,
) -> bool {
    match (r, m) {
        (Ok(rows), Ok(models)) => row_models(rows@) == models,
        (Err(e), Err(x)) => is_row_error(e, x),
        _ => false,
    }
}

/// The strings of a list of character vectors.
fn strings_of(parts: &Vec<Vec<char>>) -> (r: Vec<String>)
    ensures
        name_texts(r@) == char_views(parts@),
{
    let mut out: Vec<String> = Vec::new();
    let mut i: usize = 0;
    while i < parts.len()
        invariant
            i <= parts.len(),
            out@.len() == i,
            forall|j: int| 0 <= j < i ==> (#[trigger] out@[j])@ == parts@[j]@,
        decreases parts.len() - i,
    {
        out.push(string_of(&parts[i]));
        i += 1;
    }
    assert(name_texts(out@) =~= char_views(parts@));
    out
}

/// Splits a list of items at its commas.
pub fn parse_items(text: &str) -> (r: Vec<String>)
    ensures
        name_texts(r@) == split_on(text@, ','),
{
    let chars = chars_of(text);
    let parts = split_chars(&chars, ',');
    strings_of(&parts)
}

/// Whether the obsolete flag of a row is set: the field reads `OLD`.
pub fn parse_obsolete(text: &str) -> (r: bool)
    ensures
        r == (text@ == "OLD"@),
{
    same_text(text, "OLD")
}

/// The fields of a record as texts.
pub open spec fn rec_texts(rec: Seq<String>) -> Seq<Seq<char>> {
    Seq::new(rec.len(), |j: int| rec[j]@)
}

/// Reads one record as a row.
pub fn parse_row(rec: &Vec<String>) -> (r: Option<LocalCreditRow>)
    ensures
        match r {
            Some(row) => credit_row(rec_texts(rec@)) == Some(row.model()),
            None => credit_row(rec_texts(rec@)) is None,
        },
{
    if rec.len() < 4 {
        return None;
    }
    let date = match parse_time(rec[0].as_str()) {
        Some(t) => t,
        None => {
            return None;
        },
    };
    let credit_id = parse_credit_id(rec[1].as_str());
    let obsolete = parse_obsolete(rec[2].as_str());
    let (license, items) = if rec.len() >= 5 {
        (rec[3].clone(), parse_items(rec[4].as_str()))
    } else {
        (String::from_str("Unknown"), parse_items(rec[3].as_str()))
    };
    Some(LocalCreditRow { date, credit_id, obsolete, license, items })
}

/// Reads the rows of the records from `at` on.
fn read_rows(
    recs: &Vec<Vec<String>>,
    err: &Option<String>,
    until: Option<Timestamp>,
) -> (r: Result<Vec<LocalCreditRow>, DataReadError>)
    ensures
        rows_result(
            r,
            rows_until(
                field_texts(recs@),
                match err {
                    Some(m) => Some(m@),
                    None => None,
                },
                until,
                0,
            ),
        ),
{
    let ghost texts = field_texts(recs@);
    let ghost err_text: Option<Seq<char>> = match err {
        Some(m) => Some(m@),
        None => None,
    };
    let mut out: Vec<LocalCreditRow> = Vec::new();
    let mut i: usize = 0;
    let mut stopped = false;
    while i < recs.len() && !stopped
        invariant
            i <= recs.len(),
            texts == field_texts(recs@),
            err_text == (match err {
                Some(m) => Some(m@),
                None => None,
            }),
            !stopped ==> (match rows_until(texts, err_text, until, i as int) {
                Ok(rest) => rows_until(texts, err_text, until, 0) == Ok::<
                    Seq<RowModel>,
                    (bool, int, Seq<char>),
                >(row_models(out@) + rest),
                Err(e) => rows_until(texts, err_text, until, 0) == Err::<
                    Seq<RowModel>,
                    (bool, int, Seq<char>),
                >(e),
            }),
            stopped ==> rows_until(texts, err_text, until, 0) == Ok::<
                Seq<RowModel>,
                (bool, int, Seq<char>),
            >(row_models(out@)),
        decreases recs.len() - i, (if stopped { 0int } else { 1int }),
    {
        assert(texts[i as int] =~= rec_texts(recs@[i as int]@));
        match parse_row(&recs[i]) {
            None => {
                return Err(DataReadError::SerdeCsv(CsvError::Deserialize(i)));
            },
            Some(row) => {
                let after = match until {
                    Some(u) => u.is_before(&row.date),
                    None => false,
                };
                if after {
                    stopped = true;
                    assert(row_models(out@) + Seq::<RowModel>::empty() =~= row_models(out@));
                } else {
                    let ghost before = row_models(out@);
                    let ghost m = row.model();
                    out.push(row);
                    proof {
                        assert(row_models(out@) =~= before.push(m));
                        if let Ok(rest) = rows_until(texts, err_text, until, i as int + 1) {
                            assert(before + (seq![m] + rest) =~= before.push(m) + rest);
                        }
                    }
                    i += 1;
                }
            },
        }
    }
    if stopped {
        return Ok(out);
    }
    match err {
        Some(m) => Err(DataReadError::SerdeCsv(CsvError::Read(m.clone()))),
        None => {
            assert(row_models(out@) + Seq::<RowModel>::empty() =~= row_models(out@));
            Ok(out)
        },
    }
}

/// The records of a credit history and the reader's error, if any.
pub open spec fn history_records(input: Seq<u8>) -> (Seq<Seq<Seq<char>>>, Option<Seq<char>>) {
    delimited_records(input, 9u8, false)
}

/// Reads all rows of a credit history.
pub fn get_credits(input: &[u8]) -> (r: Result<Vec<LocalCreditRow>, DataReadError>)
    ensures
        rows_result(r, rows_until(history_records(input@).0, history_records(input@).1, None, 0)),
{
    let (recs, err) = read_records(input, 9u8, false);
    read_rows(&recs, &err, None)
}

/// The credit of every item after the rows were applied in order: a later
/// row overwrites an earlier one.
pub open spec fn latest_by_item(rows: Seq<RowModel>) -> Seq<(Seq<char>, Seq<char>)>
    decreases rows.len(),
{
    if rows.len() == 0 {
        Seq::empty()
    } else {
        with_items(latest_by_item(rows.drop_last()), rows.last().items, rows.last().credit_id)
    }
}

/// The credits after every one of `items` was given to `credit_id`.
pub open spec fn with_items(
    credits: Seq<(Seq<char>, Seq<char>)>,
    items: Seq<Seq<char>>,
    credit_id: Seq<char>,
) -> Seq<(Seq<char>, Seq<char>)>
    decreases items.len(),
{
    if items.len() == 0 {
        credits
    } else {
        upserted(with_items(credits, items.drop_last(), credit_id), items.last(), credit_id)
    }
}

/// The credit id that the credits give for `name`.
pub open spec fn credit_of(credits: Seq<(Seq<char>, Seq<char>)>, name: Seq<char>) -> Option<Seq<char>> {
    match key_index(credits, name) {
        Some(i) => Some(credits[i].1),
        None => None,
    }
}

/// The texts of a list of pairs of strings.
pub open spec fn credit_texts(pairs: Seq<(String, String)>) -> Seq<(Seq<char>, Seq<char>)> {
    Seq::new(pairs.len(), |i: int| (pairs[i].0@, pairs[i].1@))
}

/// The first place among `pairs` whose name is `name`.
pub fn find_credit(pairs: &Vec<(String, String)>, name: &str) -> (r: Option<usize>)
    ensures
        match r {
            Some(i) => key_index(credit_texts(pairs@), name@) == Some(i as int) && i < pairs.len(),
            None => key_index(credit_texts(pairs@), name@) is None,
        },
{
    let mut i: usize = 0;
    proof {
        lemma_key_index(credit_texts(pairs@), name@);
    }
    while i < pairs.len()
        invariant
            i <= pairs.len(),
            forall|j: int| 0 <= j < i ==> credit_texts(pairs@)[j].0 != name@,
        decreases pairs.len() - i,
    {
        if same_text(pairs[i].0.as_str(), name) {
            proof {
                lemma_key_index(credit_texts(pairs@), name@);
                assert(credit_texts(pairs@)[i as int].0 == name@);
            }
            return Some(i);
        }
        i += 1;
    }
    proof {
        lemma_key_index(credit_texts(pairs@), name@);
    }
    None
}

/// The credits that a list of rows gives, item by item.
pub fn latest_credits_of(rows: &Vec<LocalCreditRow>) -> (r: Vec<(String, String)>)
    ensures
        credit_texts(r@) == latest_by_item(row_models(rows@)),
{
    let mut out: Vec<(String, String)> = Vec::new();
    let mut i: usize = 0;
    assert(row_models(rows@).subrange(0, 0) =~= Seq::<RowModel>::empty());
    while i < rows.len()
        invariant
            i <= rows.len(),
            credit_texts(out@) == latest_by_item(row_models(rows@).subrange(0, i as int)),
        decreases rows.len() - i,
    {
        let row = &rows[i];
        let ghost base = credit_texts(out@);
        proof {
            let next = row_models(rows@).subrange(0, i as int + 1);
            assert(next.drop_last() =~= row_models(rows@).subrange(0, i as int));
            assert(next.last() == row.model());
        }
        let mut k: usize = 0;
        assert(name_texts(row.items@).subrange(0, 0) =~= Seq::<Seq<char>>::empty());
        while k < row.items.len()
            invariant
                k <= row.items.len(),
                credit_texts(out@) == with_items(
                    base,
                    name_texts(row.items@).subrange(0, k as int),
                    row.credit_id@,
                ),
            decreases row.items.len() - k,
        {
            proof {
                let next = name_texts(row.items@).subrange(0, k as int + 1);
                assert(next.drop_last() =~= name_texts(row.items@).subrange(0, k as int));
                assert(next.last() == row.items@[k as int]@);
            }
            let ghost before = credit_texts(out@);
            match find_credit(&out, row.items[k].as_str()) {
                Some(p) => {
                    out[p] = (row.items[k].clone(), row.credit_id.clone());
                    assert(credit_texts(out@) =~= before.update(
                        p as int,
                        (row.items@[k as int]@, row.credit_id@),
                    ));
                },
                None => {
                    out.push((row.items[k].clone(), row.credit_id.clone()));
                    assert(credit_texts(out@) =~= before.push(
                        (row.items@[k as int]@, row.credit_id@),
                    ));
                },
            }
            k += 1;
        }
        assert(name_texts(row.items@).subrange(0, row.items@.len() as int) =~= name_texts(
            row.items@,
        ));
        i += 1;
    }
    assert(row_models(rows@).subrange(0, rows@.len() as int) =~= row_models(rows@));
    out
}

/// `r` is the credits of the rows that reading gave, or the error of that
/// reading.
pub open spec fn credits_result(
    r: Result<Vec<(String, String)>, DataReadError>,
    m: Result<Seq<RowModel>, (bool, int, Seq<char>)>,
) -> bool {
    match (r, m) {
        (Ok(pairs), Ok(models)) => credit_texts(pairs@) == latest_by_item(models),
        (Err(e), Err(x)) => is_row_error(e, x),
        _ => false,
    }
}

/// Reads a credit history and gives, for each item, the credit id of the last
/// row that names the item.
pub fn get_latest_credits(input: &[u8]) -> (r: Result<Vec<(String, String)>, DataReadError>)
    ensures
        credits_result(
            r,
            rows_until(history_records(input@).0, history_records(input@).1, None, 0),
        ),
{
    let (recs, err) = read_records(input, 9u8, false);
    match read_rows(&recs, &err, None) {
        Ok(rows) => Ok(latest_credits_of(&rows)),
        Err(e) => Err(e),
    }
}

/// Reads a credit history up to the first row that is later than `until`, and
/// gives, for each item, the credit id of the last row read that names it.
pub fn get_credits_until(input: &[u8], until: Timestamp) -> (r: Result<
    Vec<(String, String)>,
    DataReadError,
>)
    ensures
        credits_result(
            r,
            rows_until(history_records(input@).0, history_records(input@).1, Some(until), 0),
        ),
{
    let (recs, err) = read_records(input, 9u8, false);
    match read_rows(&recs, &err, Some(until)) {
        Ok(rows) => Ok(latest_credits_of(&rows)),
        Err(e) => Err(e),
    }
}

/// What reading the last row of a history of the oldest form gives: the
/// reader's error; nothing for a history without rows; else the credit id of
/// the last row, or the place of that row where it cannot be read.
pub open spec fn last_old_credit(recs: Seq<Seq<Seq<char>>>, err: Option<Seq<char>>) -> Result<
    Option<Seq<char>>,
    (bool, int, Seq<char>),
> {
    match err {
        Some(m) => Err((false, 0, m)),
        None => if recs.len() == 0 {
            Ok(None)
        } else {
            match old_row_id(recs.last()) {
                Some(id) => Ok(Some(id)),
                None => Err((true, recs.len() - 1, Seq::empty())),
            }
        },
    }
}

/// Gets the credit id of the last row of a history of the oldest form.
pub fn get_last_credits_old_format(input: &[u8]) -> (r: Result<Option<String>, DataReadError>)
    ensures
        match (r, last_old_credit(history_records(input@).0, history_records(input@).1)) {
            (Ok(Some(id)), Ok(Some(m))) => id@ == m,
            (Ok(None), Ok(None)) => true,
            (Err(e), Err(x)) => is_row_error(e, x),
            _ => false,
        },
{
    let (recs, err) = read_records(input, 9u8, false);
    match err {
        Some(m) => {
            return Err(DataReadError::SerdeCsv(CsvError::Read(m)));
        },
        None => {},
    }
    if recs.len() == 0 {
        return Ok(None);
    }
    let last = &recs[recs.len() - 1];
    assert(field_texts(recs@).last() =~= rec_texts(last@));
    if last.len() < 2 {
        return Err(DataReadError::SerdeCsv(CsvError::Deserialize(recs.len() - 1)));
    }
    match parse_time(last[0].as_str()) {
        None => Err(DataReadError::SerdeCsv(CsvError::Deserialize(recs.len() - 1))),
        Some(_) => Ok(Some(parse_credit_id(last[1].as_str()))),
    }
}

} // verus!
