//! The list of credit names: for every credit id, a display name and a
//! contact, read from tab-separated text with a header row.

use vstd::prelude::*;
use crate::credit_row::{clean_id, parse_credit_id};
use crate::error::{CsvError, DataReadError};
use crate::records::{delimited_records, field_texts, read_records};
use crate::search::{IndexEntry, fuzzy_find, index_view, search_result};
use crate::text::same_text;

verus! {

/// One row of the list: a credit id with its name and contact, where given.
#[derive(Clone, Debug)]
pub struct CreditNamesRow {
    pub credit_id: String,
    pub name: Option<String>,
    pub contact: Option<String>,
}

/// What a row holds, as plain values.
pub struct NameModel {
    pub credit_id: Seq<char>,
    pub name: Option<Seq<char>>,
    pub contact: Option<Seq<char>>,
}

/// The text of an optional string.
pub open spec fn opt_text(s: Option<String>) -> Option<Seq<char>> {
    match s {
        Some(t) => Some(t@),
        None => None,
    }
}

impl CreditNamesRow {
    /// The row as plain values.
    pub open spec fn model(&self) -> NameModel {
        NameModel {
            credit_id: self.credit_id@,
            name: opt_text(self.name),
            contact: opt_text(self.contact),
        }
    }
}

/// The list of credit names. No credit id occurs twice.
#[derive(Clone, Debug)]
pub struct CreditNames {
    pub data: Vec<CreditNamesRow>,
}

/// The models of a list of rows.
pub open spec fn name_models(rows: Seq<CreditNamesRow>) -> Seq<NameModel> {
    Seq::new(rows.len(), |i: int| rows[i].model())
}

/// How often `name` occurs in a header.
pub open spec fn count_of(header: Seq<Seq<char>>, name: Seq<char>) -> nat
    decreases header.len(),
{
    if header.len() == 0 {
        0
    } else {
        count_of(header.drop_last(), name) + (if header.last() == name {
            1nat
        } else {
            0nat
        })
    }
}

/// The last place of `name` in a header; -1 where it does not occur.
pub open spec fn column_of(header: Seq<Seq<char>>, name: Seq<char>) -> int
    decreases header.len(),
{
    if header.len() == 0 {
        -1
    } else if header.last() == name {
        header.len() - 1
    } else {
        column_of(header.drop_last(), name)
    }
}

/// A header can be used where it has the column `Discord` once and the
/// columns `Name` and `Contact` at most once each.
pub open spec fn header_ok(header: Seq<Seq<char>>) -> bool {
    count_of(header, "Discord"@) == 1 && count_of(header, "Name"@) <= 1 && count_of(
        header,
        "Contact"@,
    ) <= 1
}

/// The value of an optional column in a record: none where the header lacks
/// the column or the field is empty.
pub open spec fn optional_field(rec: Seq<Seq<char>>, column: int) -> Option<Seq<char>> {
    if 0 <= column < rec.len() && rec[column].len() > 0 {
        Some(rec[column])
    } else {
        None
    }
}

/// The row that a record stands for under a header; `None` where the header
/// cannot be used or the record lacks the column of the credit id.
pub open spec fn name_row(header: Seq<Seq<char>>, rec: Seq<Seq<char>>) -> Option<NameModel> {
    let id_col = column_of(header, "Discord"@);
    if !header_ok(header) || !(0 <= id_col < rec.len()) {
        None
    } else {
        Some(
            NameModel {
                credit_id: clean_id(rec[id_col]),
                name: optional_field(rec, column_of(header, "Name"@)),
                contact: optional_field(rec, column_of(header, "Contact"@)),
            },
        )
    }
}

/// Why a list of credit names cannot be read.
pub enum NamesFault {
    /// The reader's error.
    Read(Seq<char>),
    /// The row at this place is no row.
    Deserialize(int),
    /// This credit id occurs a second time.
    Duplicate(Seq<char>),
}

/// One of the rows has the credit id.
pub open spec fn has_id(rows: Seq<NameModel>, id: Seq<char>) -> bool {
    exists|i: int| 0 <= i < rows.len() && (#[trigger] rows[i]).credit_id == id
}

/// The rows of the records from `at` on, read in order after the rows `seen`:
/// all of them, or the first fault. The first record is the header.
pub open spec fn names_from(
    recs: Seq<Seq<Seq<char>>>,
    err: Option<Seq<char>>,
    at: int,
    seen: Seq<NameModel>,
) -> Result<Seq<NameModel>, NamesFault>
    decreases recs.len() - at,
{
    if at < 1 || at >= recs.len() {
        match err {
            Some(m) => Err(NamesFault::Read(m)),
            None => Ok(seen),
        }
    } else {
        match name_row(recs[0], recs[at]) {
            None => Err(NamesFault::Deserialize(at - 1)),
            Some(row) => if has_id(seen, row.credit_id) {
                Err(NamesFault::Duplicate(row.credit_id))
            } else {
                names_from(recs, err, at + 1, seen.push(row))
            },
        }
    }
}

/// The error that stands for a fault.
pub open spec fn is_names_error(e: DataReadError, f: NamesFault) -> bool {
    match f {
        NamesFault::Read(m) => e matches DataReadError::SerdeCsv(CsvError::Read(t)) && t@ == m,
        NamesFault::Deserialize(i) => e == DataReadError::SerdeCsv(
            CsvError::Deserialize(i as usize),
        ),
        NamesFault::Duplicate(id) => e matches DataReadError::CreditsDuplicateCreditId(t) && t@
            == id,
    }
}

/// No credit id occurs twice among the rows.
pub open spec fn unique_credit_ids(rows: Seq<NameModel>) -> bool {
    forall|i: int, j: int| 0 <= i < j < rows.len() ==> rows[i].credit_id != rows[j].credit_id
}

/// The place of a name in a header.
fn find_column(header: &Vec<String>, name: &str) -> (r: (Option<usize>, usize))
    ensures
        r.1 == count_of(rec_texts(header@), name@),
        match r.0 {
            Some(i) => column_of(rec_texts(header@), name@) == i as int && i < header.len(),
            None => column_of(rec_texts(header@), name@) == -1,
        },
{
    let mut found: Option<usize> = None;
    let mut count: usize = 0;
    let mut i: usize = 0;
    assert(rec_texts(header@).subrange(0, 0) =~= Seq::<Seq<char>>::empty());
    while i < header.len()
        invariant
            i <= header.len(),
            count <= i,
            count == count_of(rec_texts(header@).subrange(0, i as int), name@),
            match found {
                Some(k) => column_of(rec_texts(header@).subrange(0, i as int), name@) == k as int
                    && k < i,
                None => column_of(rec_texts(header@).subrange(0, i as int), name@) == -1,
            },
        decreases header.len() - i,
    {
        proof {
            let next = rec_texts(header@).subrange(0, i as int + 1);
            assert(next.drop_last() =~= rec_texts(header@).subrange(0, i as int));
            assert(next.last() == header@[i as int]@);
        }
        if same_text(header[i].as_str(), name) {
            found = Some(i);
            count += 1;
        }
        i += 1;
    }
    assert(rec_texts(header@).subrange(0, header@.len() as int) =~= rec_texts(header@));
    (found, count)
}

/// The fields of a record as texts.
pub open spec fn rec_texts(rec: Seq<String>) -> Seq<Seq<char>> {
    Seq::new(rec.len(), |j: int| rec[j]@)
}

fn optional_value(rec: &Vec<String>, column: Option<usize>) -> (r: Option<String>)
    ensures
        opt_text(r) == optional_field(
            rec_texts(rec@),
            match column {
                Some(c) => c as int,
                None => -1,
            },
        ),
{
    match column {
        Some(c) => if c < rec.len() && rec[c].as_str().unicode_len() > 0 {
            Some(rec[c].clone())
        } else {
            None
        },
        None => None,
    }
}

/// The place of a credit id among rows.
fn find_id(data: &Vec<CreditNamesRow>, credit_id: &str) -> (r: Option<usize>)
    ensures
        match r {
            Some(i) => i < data.len() && data@[i as int].credit_id@ == credit_id@ && forall|j: int|
                0 <= j < i ==> data@[j].credit_id@ != credit_id@,
            None => !has_id(name_models(data@), credit_id@),
        },
{
    let mut i: usize = 0;
    while i < data.len()
        invariant
            i <= data.len(),
            forall|j: int| 0 <= j < i ==> data@[j].credit_id@ != credit_id@,
        decreases data.len() - i,
    {
        if same_text(data[i].credit_id.as_str(), credit_id) {
            return Some(i);
        }
        i += 1;
    }
    proof {
        assert forall|j: int| 0 <= j < data@.len() implies (#[trigger] name_models(
            data@,
        )[j]).credit_id != credit_id@ by {}
    }
    None
}

/// The records of a list of credit names and the reader's error, if any. The
/// first record is the header row.
pub open spec fn names_records(input: Seq<u8>) -> (Seq<Seq<Seq<char>>>, Option<Seq<char>>) {
    delimited_records(input, 9u8, false)
}

/// Reads the list of credit names. The columns are found by the names in the
/// header row. A record that is no row, a credit id that occurs twice and a
/// fault of the reader are errors; the first one in the order of the rows is
/// reported.
pub fn read_credit_names(input: &[u8]) -> (r: Result<CreditNames, DataReadError>)
    ensures
        match (r, names_from(names_records(input@).0, names_records(input@).1, 1, Seq::empty())) {
            (Ok(names), Ok(models)) => name_models(names.data@) == models && names.wf(),
            (Err(e), Err(f)) => is_names_error(e, f),
            _ => false,
        },
{
    let (recs, err) = read_records(input, 9u8, false);
    let ghost texts = field_texts(recs@);
    let ghost err_text: Option<Seq<char>> = opt_text(err);
    let mut data: Vec<CreditNamesRow> = Vec::new();
    if recs.len() > 0 {
        let header = &recs[0];
        assert(texts[0] =~= rec_texts(header@));
        let (id_col, id_count) = find_column(header, "Discord");
        let (name_col, name_count) = find_column(header, "Name");
        let (contact_col, contact_count) = find_column(header, "Contact");
        let usable = id_count == 1 && name_count <= 1 && contact_count <= 1;
        let mut i: usize = 1;
        assert(name_models(data@) =~= Seq::<NameModel>::empty());
        while i < recs.len()
            invariant
                1 <= i <= recs.len(),
                texts == field_texts(recs@),
                texts == names_records(input@).0,
                err_text == names_records(input@).1,
                texts[0] == rec_texts(header@),
                header == &recs@[0],
                usable == header_ok(texts[0]),
                match id_col {
                    Some(c) => column_of(texts[0], "Discord"@) == c as int,
                    None => column_of(texts[0], "Discord"@) == -1,
                },
                match name_col {
                    Some(c) => column_of(texts[0], "Name"@) == c as int,
                    None => column_of(texts[0], "Name"@) == -1,
                },
                match contact_col {
                    Some(c) => column_of(texts[0], "Contact"@) == c as int,
                    None => column_of(texts[0], "Contact"@) == -1,
                },
                err_text == opt_text(err),
                unique_credit_ids(name_models(data@)),
                names_from(texts, err_text, 1, Seq::empty()) == names_from(
                    texts,
                    err_text,
                    i as int,
                    name_models(data@),
                ),
            decreases recs.len() - i,
        {
            let rec = &recs[i];
            assert(texts[i as int] =~= rec_texts(rec@));
            let id_at: usize = match id_col {
                Some(c) => c,
                None => {
                    return Err(DataReadError::SerdeCsv(CsvError::Deserialize(i - 1)));
                },
            };
            if !usable || id_at >= rec.len() {
                return Err(DataReadError::SerdeCsv(CsvError::Deserialize(i - 1)));
            }
            let credit_id = parse_credit_id(rec[id_at].as_str());
            let name = optional_value(rec, name_col);
            let contact = optional_value(rec, contact_col);
            match find_id(&data, credit_id.as_str()) {
                Some(_) => {
                    proof {
                        let k = find_id_witness(data@, credit_id@);
                    }
                    return Err(DataReadError::CreditsDuplicateCreditId(credit_id));
                },
                None => {},
            }
            let ghost before = name_models(data@);
            let row = CreditNamesRow { credit_id, name, contact };
            let ghost m = row.model();
            data.push(row);
            proof {
                assert(name_models(data@) =~= before.push(m));
                assert forall|a: int, b: int| 0 <= a < b < data@.len() implies name_models(
                    data@,
                )[a].credit_id != name_models(data@)[b].credit_id by {
                    if b == data@.len() - 1 {
                        assert(before[a].credit_id != m.credit_id);
                    } else {
                        assert(before[a].credit_id != before[b].credit_id);
                    }
                }
            }
            i += 1;
        }
    }
    match err {
        Some(m) => Err(DataReadError::SerdeCsv(CsvError::Read(m))),
        None => {
            assert(name_models(data@) =~= name_models(data@));
            Ok(CreditNames { data })
        },
    }
}

/// A row with the credit id shows that the id is among the rows.
proof fn find_id_witness(data: Seq<CreditNamesRow>, id: Seq<char>) -> (k: int)
    requires
        exists|i: int| 0 <= i < data.len() && (#[trigger] data[i]).credit_id@ == id,
    ensures
        has_id(name_models(data), id),
{
    let k = choose|i: int| 0 <= i < data.len() && (#[trigger] data[i]).credit_id@ == id;
    assert(name_models(data)[k].credit_id == id);
    k
}

/// The rows that a search can name: all of them, as far as their places can
/// be counted with 64-bit signed numbers.
pub open spec fn searchable(rows: Seq<NameModel>) -> Seq<NameModel> {
    if rows.len() > i64::MAX {
        rows.subrange(0, i64::MAX as int)
    } else {
        rows
    }
}

/// The places of the rows from `from` on that carry the name.
pub open spec fn places_named(rows: Seq<NameModel>, name: Seq<char>, n: int) -> Seq<i64>
    decreases n,
{
    if n <= 0 || n > rows.len() {
        Seq::empty()
    } else if rows[n - 1].name == Some(name) {
        places_named(rows, name, n - 1).push((n - 1) as i64)
    } else {
        places_named(rows, name, n - 1)
    }
}

/// One entry per row: the credit id, standing for the row's place.
pub open spec fn id_entries(rows: Seq<NameModel>) -> Seq<IndexEntry> {
    Seq::new(rows.len(), |i: int| IndexEntry { key: rows[i].credit_id, ids: seq![i as i64] })
}

/// A row is the first to carry its name.
pub open spec fn first_named(rows: Seq<NameModel>, i: int) -> bool {
    rows[i].name is Some && forall|j: int| 0 <= j < i ==> rows[j].name != rows[i].name
}

/// One entry per name, in the order in which the names first occur: the
/// name, standing for the places of all rows that carry it.
pub open spec fn name_entries(rows: Seq<NameModel>, n: int) -> Seq<IndexEntry>
    decreases n,
{
    if n <= 0 || n > rows.len() {
        Seq::empty()
    } else if first_named(rows, n - 1) {
        name_entries(rows, n - 1).push(
            IndexEntry {
                key: rows[n - 1].name->0,
                ids: places_named(rows, rows[n - 1].name->0, rows.len() as int),
            },
        )
    } else {
        name_entries(rows, n - 1)
    }
}

/// The index that a search of the credit names runs over: the credit ids,
/// then the names.
pub open spec fn names_index(rows: Seq<NameModel>) -> Seq<IndexEntry> {
    id_entries(searchable(rows)) + name_entries(searchable(rows), searchable(rows).len() as int)
}

impl CreditNames {
    /// No credit id occurs twice.
    pub open spec fn wf(&self) -> bool {
        unique_credit_ids(name_models(self.data@))
    }

    /// The rows, in the order of the file.
    pub fn iter(&self) -> (r: &Vec<CreditNamesRow>)
        ensures
            r@ == self.data@,
    {
        &self.data
    }

    /// The row of a credit id.
    pub fn get(&self, credit_id: &str) -> (r: Option<&CreditNamesRow>)
        ensures
            match r {
                Some(row) => row.credit_id@ == credit_id@ && exists|i: int|
                    0 <= i < self.data@.len() && #[trigger] self.data@[i] == *row && forall|j: int|
                        0 <= j < i ==> self.data@[j].credit_id@ != credit_id@,
                None => !has_id(name_models(self.data@), credit_id@),
            },
    {
        match find_id(&self.data, credit_id) {
            Some(i) => {
                assert(self.data@[i as int] == self.data@[i as int]);
                Some(&self.data[i])
            },
            None => None,
        }
    }

    /// The index of the credit names.
    pub fn search_index(&self) -> (r: Vec<(String, Vec<i64>)>)
        ensures
            index_view(r@) == names_index(name_models(self.data@)),
    {
        let ghost rows = searchable(name_models(self.data@));
        let limit: u64 = 0x7fff_ffff_ffff_ffff;
        let n: usize = if self.data.len() as u64 > limit {
            limit as usize
        } else {
            self.data.len()
        };
        assert(rows.len() == n);
        assert forall|i: int| 0 <= i < n implies rows[i] == self.data@[i].model() by {}
        let mut out: Vec<(String, Vec<i64>)> = Vec::new();
        let mut i: usize = 0;
        while i < n
            invariant
                i <= n,
                n <= self.data@.len(),
                n <= 0x7fff_ffff_ffff_ffff,
                rows.len() == n,
                forall|k: int| 0 <= k < n ==> rows[k] == (#[trigger] self.data@[k]).model(),
                out@.len() == i,
                forall|k: int| 0 <= k < i ==> #[trigger] index_view(out@)[k] == id_entries(rows)[k],
            decreases n - i,
        {
            let mut ids: Vec<i64> = Vec::new();
            ids.push(i as i64);
            assert(ids@ =~= seq![i as i64]);
            let ghost before = out@;
            out.push((self.data[i].credit_id.clone(), ids));
            proof {
                assert forall|k: int| 0 <= k < i + 1 implies #[trigger] index_view(out@)[k]
                    == id_entries(rows)[k] by {
                    if k < i {
                        assert(out@[k] == before[k]);
                        assert(index_view(before)[k] == id_entries(rows)[k]);
                    }
                }
            }
            i += 1;
        }
        assert(index_view(out@) =~= id_entries(rows));
        let mut i: usize = 0;
        while i < n
            invariant
                i <= n,
                n <= self.data@.len(),
                n <= 0x7fff_ffff_ffff_ffff,
                rows.len() == n,
                rows == searchable(name_models(self.data@)),
                forall|k: int| 0 <= k < n ==> rows[k] == (#[trigger] self.data@[k]).model(),
                index_view(out@) == id_entries(rows) + name_entries(rows, i as int),
            decreases n - i,
        {
            match &self.data[i].name {
                None => {
                    assert(!first_named(rows, i as int));
                },
                Some(name) => {
                    let first = self.first_with_name(i, name.as_str());
                    assert(first == first_named(rows, i as int)) by {
                        if first {
                            assert forall|j: int| 0 <= j < i implies rows[j].name
                                != rows[i as int].name by {
                                assert(opt_text(self.data@[j].name) != Some(name@));
                            }
                        } else {
                            let j = choose|j: int|
                                0 <= j < i && opt_text((#[trigger] self.data@[j]).name) == Some(
                                    name@,
                                );
                            assert(rows[j].name == rows[i as int].name);
                        }
                    }
                    if first {
                        let ids = self.places_with_name(n, name.as_str());
                        let ghost before = index_view(out@);
                        out.push((name.clone(), ids));
                        assert(index_view(out@) =~= before.push(
                            IndexEntry {
                                key: name@,
                                ids: places_named(rows, name@, rows.len() as int),
                            },
                        ));
                    }
                },
            }
            i += 1;
        }
        out
    }

    /// Whether no row before `i` carries the name.
    fn first_with_name(&self, i: usize, name: &str) -> (r: bool)
        requires
            i <= self.data@.len(),
        ensures
            r == (forall|j: int| 0 <= j < i ==> opt_text((#[trigger] self.data@[j]).name) != Some(name@)),
    {
        let mut j: usize = 0;
        while j < i
            invariant
                j <= i,
                i <= self.data@.len(),
                forall|k: int| 0 <= k < j ==> opt_text((#[trigger] self.data@[k]).name) != Some(name@),
            decreases i - j,
        {
            match &self.data[j].name {
                Some(other) => if same_text(other.as_str(), name) {
                    assert(opt_text(self.data@[j as int].name) == Some(name@));
                    return false;
                },
                None => {},
            }
            j += 1;
        }
        true
    }

    /// The places of the first `n` rows that carry the name.
    fn places_with_name(&self, n: usize, name: &str) -> (r: Vec<i64>)
        requires
            n <= self.data@.len(),
            n <= 0x7fff_ffff_ffff_ffff,
        ensures
            r@ == places_named(searchable(name_models(self.data@)), name@, n as int),
    {
        let ghost rows = searchable(name_models(self.data@));
        let mut out: Vec<i64> = Vec::new();
        let mut j: usize = 0;
        while j < n
            invariant
                j <= n,
                n <= self.data@.len(),
                n <= 0x7fff_ffff_ffff_ffff,
                rows == searchable(name_models(self.data@)),
                n <= rows.len(),
                out@ == places_named(rows, name@, j as int),
            decreases n - j,
        {
            assert(rows[j as int] == self.data@[j as int].model());
            let same = match &self.data[j].name {
                Some(other) => same_text(other.as_str(), name),
                None => false,
            };
            if same {
                out.push(j as i64);
            }
            j += 1;
        }
        out
    }

    /// The rows whose credit id or name matches the query, best match first,
    /// each row once.
    pub fn fuzzy_find(&self, query: &str) -> (r: Vec<&CreditNamesRow>)
        ensures
            row_values(r@) == rows_at(
                self.data@,
                search_result(names_index(name_models(self.data@)), query@),
            ),
    {
        let index = self.search_index();
        let ids = fuzzy_find(&index, query);
        let mut out: Vec<&CreditNamesRow> = Vec::new();
        let mut k: usize = 0;
        assert(ids@.subrange(0, 0) =~= Seq::<i64>::empty());
        assert(row_values(out@) =~= Seq::<CreditNamesRow>::empty());
        while k < ids.len()
            invariant
                k <= ids.len(),
                row_values(out@) == rows_at(self.data@, ids@.subrange(0, k as int)),
            decreases ids.len() - k,
        {
            proof {
                let next = ids@.subrange(0, k as int + 1);
                assert(next.drop_last() =~= ids@.subrange(0, k as int));
                assert(next.last() == ids@[k as int]);
            }
            let id = ids[k];
            if id >= 0 && (id as u64) < self.data.len() as u64 {
                let ghost before = row_values(out@);
                out.push(&self.data[id as usize]);
                assert(row_values(out@) =~= before.push(self.data@[id as int]));
            }
            k += 1;
        }
        assert(ids@.subrange(0, ids@.len() as int) =~= ids@);
        out
    }
}

/// The rows that a list of references names.
pub open spec fn row_values(refs: Seq<&CreditNamesRow>) -> Seq<CreditNamesRow> {
    Seq::new(refs.len(), |i: int| *refs[i])
}

/// The rows at the given places, in the order of the places; a place outside
/// the list names no row.
pub open spec fn rows_at(data: Seq<CreditNamesRow>, ids: Seq<i64>) -> Seq<CreditNamesRow>
    decreases ids.len(),
{
    if ids.len() == 0 {
        Seq::empty()
    } else {
        let rest = rows_at(data, ids.drop_last());
        if 0 <= ids.last() < data.len() {
            rest.push(data[ids.last() as int])
        } else {
            rest
        }
    }
}

} // verus!
