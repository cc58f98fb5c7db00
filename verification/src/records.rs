//! Reading of delimited text into records of fields, of time stamps, and
//! splitting of text at a separator.

use vstd::prelude::*;
use crate::tracker::Timestamp;

verus! {

/// What a `csv::Reader` over the bytes gives, built with the given delimiter
/// and header setting and otherwise as `csv::ReaderBuilder::new` makes it:
/// the records that `records` yields before the first error, each as the
/// list of its fields, and the message of that error if there was one.
pub uninterp spec fn delimited_records(bytes: Seq<u8>, delimiter: u8, has_headers: bool) -> (
    Seq<Seq<Seq<char>>>,
    Option<Seq<char>>,
);

/// What `chrono::NaiveDateTime::parse_from_str` gives for the text and the
/// format, taken as UTC: the seconds since the start of 1970 and the
/// nanoseconds within the second, as `timestamp` and
/// `timestamp_subsec_nanos` give them; `None` where the text does not parse.
pub uninterp spec fn naive_time(text: Seq<char>, format: Seq<char>) -> Option<(i64, u32)>;

/// Reads the records of delimited text with `csv::Reader::records`, up to the
/// first record that the reader cannot give. The contract only names the
/// result.
#[verifier::external_body]
pub(crate) fn read_records(input: &[u8], delimiter: u8, has_headers: bool) -> (r: (
    Vec<Vec<String>>,
    Option<String>,
))
    ensures
        field_texts(r.0@) == delimited_records(input@, delimiter, has_headers).0,
        match r.1 {
            Some(m) => delimited_records(input@, delimiter, has_headers).1 == Some(m@),
            None => delimited_records(input@, delimiter, has_headers).1 is None,
        },
{
    let mut rdr = csv::ReaderBuilder::new().delimiter(delimiter).has_headers(
        has_headers,
    ).from_reader(input);
    let mut rows: Vec<Vec<String>> = Vec::new();
    for rec in rdr.records() {
        match rec {
            Ok(r) => rows.push(r.iter().map(String::from).collect()),
            Err(e) => return (rows, Some(e.to_string())),
        }
    }
    (rows, None)
}

/// Parses a date and time with `chrono::NaiveDateTime::parse_from_str` and
/// reads it as UTC. The contract only names the result.
#[verifier::external_body]
pub(crate) fn read_naive_time(text: &str, format: &str) -> (r: Option<(i64, u32)>)
    ensures
        r == naive_time(text@, format@),
{
    match chrono::NaiveDateTime::parse_from_str(text, format) {
        Ok(t) => Some((t.and_utc().timestamp(), t.and_utc().timestamp_subsec_nanos())),
        Err(_) => None,
    }
}

/// The texts of the fields of a list of records.
pub open spec fn field_texts(rows: Seq<Vec<String>>) -> Seq<Seq<Seq<char>>> {
    Seq::new(rows.len(), |i: int| Seq::new(rows[i]@.len(), |j: int| rows[i]@[j]@))
}

/// The format of the dates in credit files: date, time, and an optional
/// fraction of a second.
pub open spec fn time_format() -> Seq<char> {
    "%Y-%m-%d %H:%M:%S%.f"@
}

/// The point in time that a date text names, taken as UTC.
pub open spec fn time_of(text: Seq<char>) -> Option<Timestamp> {
    match naive_time(text, time_format()) {
        Some(t) => Some(Timestamp { secs: t.0, nanos: t.1 }),
        None => None,
    }
}

/// Reads the date of a credit row.
pub fn parse_time(text: &str) -> (r: Option<Timestamp>)
    ensures
        r == time_of(text@),
{
    match read_naive_time(text, "%Y-%m-%d %H:%M:%S%.f") {
        Some(t) => Some(Timestamp { secs: t.0, nanos: t.1 }),
        None => None,
    }
}

/// The date of an entry of the tracker: none for an empty text, else the
/// point in time that the text names; `Err` for a text that names none.
pub open spec fn entry_time(text: Seq<char>) -> Result<Option<Timestamp>, ()> {
    if text.len() == 0 {
        Ok(None)
    } else {
        match time_of(text) {
            Some(t) => Ok(Some(t)),
            None => Err(()),
        }
    }
}

/// Reads the date of an entry of the tracker.
pub fn parse_datetime(text: &str) -> (r: Result<Option<Timestamp>, ()>)
    ensures
        r == entry_time(text@),
{
    if text.unicode_len() == 0 {
        Ok(None)
    } else {
        match parse_time(text) {
            Some(t) => Ok(Some(t)),
            None => Err(()),
        }
    }
}

/// The parts of `s` between the separators; there is one part more than
/// there are separators, and parts may be empty.
pub open spec fn split_on(s: Seq<char>, sep: char) -> Seq<Seq<char>>
    decreases s.len(),
{
    if s.len() == 0 {
        seq![Seq::<char>::empty()]
    } else {
        let rest = split_on(s.drop_last(), sep);
        if s.last() == sep {
            rest.push(Seq::<char>::empty())
        } else {
            rest.update(rest.len() - 1, rest.last().push(s.last()))
        }
    }
}

/// Splitting gives at least one part.
pub proof fn lemma_split_nonempty(s: Seq<char>, sep: char)
    ensures
        split_on(s, sep).len() >= 1,
    decreases s.len(),
{
    if s.len() > 0 {
        lemma_split_nonempty(s.drop_last(), sep);
    }
}

/// The sequences that a list of character vectors holds.
pub open spec fn char_views(v: Seq<Vec<char>>) -> Seq<Seq<char>> {
    Seq::new(v.len(), |i: int| v[i]@)
}

/// Splits `s` at every `sep`.
pub fn split_chars(s: &Vec<char>, sep: char) -> (r: Vec<Vec<char>>)
    ensures
        char_views(r@) == split_on(s@, sep),
        r@.len() >= 1,
{
    let mut out: Vec<Vec<char>> = Vec::new();
    let mut cur: Vec<char> = Vec::new();
    let mut i: usize = 0;
    assert(s@.subrange(0, 0) =~= Seq::<char>::empty());
    assert(char_views(out@).push(cur@) =~= seq![Seq::<char>::empty()]);
    while i < s.len()
        invariant
            i <= s.len(),
            char_views(out@).push(cur@) == split_on(s@.subrange(0, i as int), sep),
        decreases s.len() - i,
    {
        let ghost before = char_views(out@).push(cur@);
        proof {
            let next = s@.subrange(0, i as int + 1);
            assert(next.drop_last() =~= s@.subrange(0, i as int));
            assert(next.last() == s@[i as int]);
        }
        if s[i] == sep {
            out.push(cur);
            cur = Vec::new();
            assert(char_views(out@).push(cur@) =~= before.push(Seq::<char>::empty()));
        } else {
            cur.push(s[i]);
            assert(char_views(out@).push(cur@) =~= before.update(
                before.len() - 1,
                before.last().push(s@[i as int]),
            ));
        }
        i += 1;
    }
    assert(s@.subrange(0, s@.len() as int) =~= s@);
    let ghost done = char_views(out@).push(cur@);
    out.push(cur);
    assert(char_views(out@) =~= done);
    out
}

} // verus!
