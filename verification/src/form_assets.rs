//! What is shown of the portraits and of the sprites of one form: where they
//! are served, who is credited, and which of the listed files are there.

use vstd::prelude::*;
use crate::anim_data::find_pair;
use crate::credit_names::{CreditNames, CreditNamesRow, NameModel, has_id, name_models, opt_text};
use crate::credit_row::{clean_id, parse_credit_id};
use crate::file_order::{
    lemma_text_le_refl,
    lemma_text_le_total,
    lemma_text_le_trans,
    text_le,
    text_not_after,
};
use crate::fs_check::{
    FileLookupCache,
    existing_pairs,
    get_existing_portrait_file,
    get_existing_sprite_file,
    get_local_credits_file,
    iter_existing_portrait_files,
    portrait_name,
    texts_of,
};
use crate::local_credits_file::{
    LocalCreditRow,
    RowModel,
    history_records,
    is_row_error,
    row_models,
    rows_until,
};
use crate::monster::QueryError;
use crate::ordered::{file_entries, files_get, files_get_index, files_len, key_index, lemma_key_index};
use crate::schema::{
    CopyOf,
    Credit,
    KnownLicenseType,
    License,
    MonsterBounty,
    Phase,
    Portrait,
    Sprite,
    cut,
    known_license,
};
use crate::tracker::{Group, Timestamp, name_texts};
use crate::url::{AssetType, get_url, up_text, url_text};
use crate::util::join_monster_and_form_text;

verus! {

/// A portrait as plain values.
pub struct PortraitModel {
    pub emotion: Seq<char>,
    pub locked: bool,
    pub url: Seq<char>,
}

impl Portrait {
    /// The portrait as plain values.
    pub open spec fn model(&self) -> PortraitModel {
        PortraitModel { emotion: self.emotion@, locked: self.locked, url: self.url@ }
    }
}

/// The portraits as plain values.
pub open spec fn portrait_models(v: Seq<Portrait>) -> Seq<PortraitModel> {
    Seq::new(v.len(), |i: int| v[i].model())
}

/// The address of an image of a form on the assets server: the directory of
/// the form, then the name with its first character in upper case, then the
/// ending.
pub open spec fn image_url(
    assets_srv_url: Seq<char>,
    dir: Seq<char>,
    monster_id: i32,
    path: Seq<i32>,
    name: Seq<char>,
    tail: Seq<char>,
) -> Seq<char> {
    assets_srv_url + dir + join_monster_and_form_text(monster_id, path, '/') + "/"@ + up_text(name)
        + tail
}

/// The portrait that is shown for a listed file.
pub open spec fn portrait_shown(
    assets_srv_url: Seq<char>,
    monster_id: i32,
    path: Seq<i32>,
    f: (Seq<char>, bool),
) -> PortraitModel {
    PortraitModel {
        emotion: f.0,
        locked: f.1,
        url: image_url(assets_srv_url, "/portrait/"@, monster_id, path, f.0, ".png"@),
    }
}

/// The portraits that are shown for a list of files.
pub open spec fn portraits_shown(
    assets_srv_url: Seq<char>,
    monster_id: i32,
    path: Seq<i32>,
    files: Seq<(Seq<char>, bool)>,
) -> Seq<PortraitModel> {
    Seq::new(files.len(), |i: int| portrait_shown(assets_srv_url, monster_id, path, files[i]))
}

/// The place of a name that no other name of the list comes before in the
/// order of text; the first such place.
pub open spec fn least_name(files: Seq<(Seq<char>, bool)>) -> int
    decreases files.len(),
{
    if files.len() <= 1 {
        0
    } else {
        let k = least_name(files.drop_last());
        if text_le(files[k].0, files.last().0) {
            k
        } else {
            files.len() - 1
        }
    }
}

/// No name of the list comes before the one at `least_name`.
pub proof fn lemma_least_name(files: Seq<(Seq<char>, bool)>)
    requires
        files.len() > 0,
    ensures
        0 <= least_name(files) < files.len(),
        forall|j: int| 0 <= j < files.len() ==> text_le(files[least_name(files)].0, #[trigger] files[j].0),
    decreases files.len(),
{
    if files.len() == 1 {
        lemma_text_le_refl(files[0].0);
    } else {
        let front = files.drop_last();
        lemma_least_name(front);
        let k = least_name(front);
        let last = files.last().0;
        assert(front[k] == files[k]);
        lemma_text_le_total(files[k].0, last);
        lemma_text_le_refl(last);
        if !text_le(files[k].0, last) {
            assert forall|j: int| 0 <= j < files.len() implies text_le(last, #[trigger] files[j].0) by {
                if j < files.len() - 1 {
                    assert(front[j] == files[j]);
                    lemma_text_le_trans(last, files[k].0, files[j].0);
                }
            }
        } else {
            assert forall|j: int| 0 <= j < files.len() implies text_le(
                files[k].0,
                #[trigger] files[j].0,
            ) by {
                if j < files.len() - 1 {
                    assert(front[j] == files[j]);
                }
            }
        }
    }
}

/// The file whose portrait stands for the form: `Normal` where the form has
/// it, else the one whose name is first in the order of text.
pub open spec fn preview_of(files: Seq<(Seq<char>, bool)>) -> Option<(Seq<char>, bool)> {
    match key_index(files, "Normal"@) {
        Some(i) => Some(files[i]),
        None => if files.len() == 0 {
            None
        } else {
            Some(files[least_name(files)])
        },
    }
}

/// A credit as plain values.
pub open spec fn credit_model(c: Credit) -> NameModel {
    NameModel { credit_id: c.id@, name: opt_text(c.name), contact: opt_text(c.contact) }
}

/// `c` is the credit of `id`: it shows the first row of the credit names
/// with that id.
pub open spec fn is_credit_for(data: Seq<CreditNamesRow>, id: Seq<char>, c: Credit) -> bool {
    exists|i: int|
        0 <= i < data.len() && (#[trigger] data[i]).credit_id@ == id && credit_model(c)
            == data[i].model() && forall|j: int| 0 <= j < i ==> data[j].credit_id@ != id
}

/// `r` is what looking for the credit of `id` gives: the credit, or the
/// error that names the id where the credit names have no row for it.
pub open spec fn credit_answer(data: Seq<CreditNamesRow>, id: Seq<char>, r: Result<Credit, QueryError>) -> bool {
    match r {
        Ok(c) => has_id(name_models(data), id) && is_credit_for(data, id, c),
        Err(e) => !has_id(name_models(data), id) && (e matches QueryError::UnknownCredit(t) && t@
            == id),
    }
}

/// The credit of a raw credit id.
pub fn resolve_credit(names: &CreditNames, raw: &str) -> (r: Result<Credit, QueryError>)
    ensures
        credit_answer(names.data@, clean_id(raw@), r),
{
    let id = parse_credit_id(raw);
    match names.get(id.as_str()) {
        Some(row) => {
            let c = Credit::from(row);
            proof {
                let i = choose|i: int|
                    0 <= i < names.data@.len() && #[trigger] names.data@[i] == *row && forall|j: int|
                        0 <= j < i ==> names.data@[j].credit_id@ != id@;
                assert(name_models(names.data@)[i].credit_id == id@);
                assert(names.data@[i].credit_id@ == id@ && credit_model(c) == names.data@[i].model());
            }
            Ok(c)
        },
        None => Err(QueryError::UnknownCredit(id)),
    }
}

/// `r` is what looking for the primary credit of a set of assets gives:
/// nothing where the id is empty.
pub open spec fn primary_answer(
    data: Seq<CreditNamesRow>,
    raw: Seq<char>,
    r: Result<Option<Credit>, QueryError>,
) -> bool {
    if clean_id(raw).len() == 0 {
        r == Ok::<Option<Credit>, QueryError>(None)
    } else {
        match r {
            Ok(Some(c)) => credit_answer(data, clean_id(raw), Ok(c)),
            Ok(None) => false,
            Err(e) => credit_answer(data, clean_id(raw), Err(e)),
        }
    }
}

/// `r` is what looking for the credits of a list of raw ids gives: the
/// credits in the order of the list, or the error of the first id that the
/// credit names have no row for.
pub open spec fn secondary_answer(
    data: Seq<CreditNamesRow>,
    raws: Seq<String>,
    r: Result<Vec<Credit>, QueryError>,
) -> bool {
    match r {
        Ok(v) => v@.len() == raws.len() && forall|i: int|
            0 <= i < raws.len() ==> credit_answer(data, clean_id(raws[i]@), Ok(#[trigger] v@[i])),
        Err(e) => exists|i: int|
            0 <= i < raws.len() && credit_answer(data, clean_id((#[trigger] raws[i])@), Err(e))
                && forall|j: int|
                0 <= j < i ==> has_id(name_models(data), clean_id((#[trigger] raws[j])@)),
    }
}

fn primary_credit(names: &CreditNames, raw: &str) -> (r: Result<Option<Credit>, QueryError>)
    ensures
        primary_answer(names.data@, raw@, r),
{
    let id = parse_credit_id(raw);
    if id.unicode_len() == 0 {
        Ok(None)
    } else {
        match resolve_credit(names, raw) {
            Ok(c) => Ok(Some(c)),
            Err(e) => Err(e),
        }
    }
}

fn secondary_credits(names: &CreditNames, raws: &Vec<String>) -> (r: Result<Vec<Credit>, QueryError>)
    ensures
        secondary_answer(names.data@, raws@, r),
{
    let mut out: Vec<Credit> = Vec::new();
    let mut i: usize = 0;
    while i < raws.len()
        invariant
            i <= raws.len(),
            out@.len() == i,
            forall|k: int|
                0 <= k < i ==> credit_answer(names.data@, clean_id(raws@[k]@), Ok(#[trigger] out@[k])),
            forall|k: int|
                0 <= k < i ==> has_id(name_models(names.data@), clean_id((#[trigger] raws@[k])@)),
        decreases raws.len() - i,
    {
        match resolve_credit(names, raws[i].as_str()) {
            Ok(c) => {
                out.push(c);
            },
            Err(e) => {
                assert(credit_answer(names.data@, clean_id(raws@[i as int]@), Err(e)));
                return Err(e);
            },
        }
        i += 1;
    }
    Ok(out)
}

/// A license as plain values.
pub enum LicenseModel {
    Known(KnownLicenseType),
    Other(Seq<char>),
}

/// The license as plain values.
pub open spec fn license_model(l: License) -> LicenseModel {
    match l {
        License::KnownLicense(k) => LicenseModel::Known(k.license),
        License::Other(o) => LicenseModel::Other(o.name@),
    }
}

/// An entry in the history log for a monster sprite or portrait.
#[derive(Clone, Debug)]
pub struct MonsterHistory {
    pub credit: Option<Credit>,
    pub modified_date: Timestamp,
    pub modifications: Vec<String>,
    pub obsolete: bool,
    pub license: License,
}

/// The license that a name stands for: one of the known ones, or the name
/// itself.
pub open spec fn license_of(name: Seq<char>) -> LicenseModel {
    match known_license(name) {
        Some(k) => LicenseModel::Known(k),
        None => LicenseModel::Other(name),
    }
}

/// `r` is the entry of the history that a row of a credit history stands
/// for: the row's date, items, mark and license, and the credit of the
/// row's author, nobody where the row names none; or the error that names
/// the author where the credit names do not know them.
pub open spec fn entry_answer(
    data: Seq<CreditNamesRow>,
    row: RowModel,
    r: Result<MonsterHistory, QueryError>,
) -> bool {
    match r {
        Ok(h) => {
            &&& primary_answer(data, row.credit_id, Ok(h.credit))
            &&& h.modified_date == row.date
            &&& name_texts(h.modifications@) == row.items
            &&& h.obsolete == row.obsolete
            &&& license_model(h.license) == license_of(row.license)
        },
        Err(e) => primary_answer(data, row.credit_id, Err(e)),
    }
}

/// The author of a row is nobody or known to the credit names.
pub open spec fn author_known(data: Seq<CreditNamesRow>, row: RowModel) -> bool {
    clean_id(row.credit_id).len() == 0 || has_id(name_models(data), clean_id(row.credit_id))
}

/// `r` is the history that a list of rows stands for: one entry for each
/// row, or the error of the first row whose author the credit names do not
/// know.
pub open spec fn history_answer(
    data: Seq<CreditNamesRow>,
    rows: Seq<RowModel>,
    r: Result<Vec<MonsterHistory>, QueryError>,
) -> bool {
    match r {
        Ok(v) => v@.len() == rows.len() && forall|i: int|
            0 <= i < rows.len() ==> entry_answer(data, rows[i], Ok(#[trigger] v@[i])),
        Err(e) => exists|i: int|
            0 <= i < rows.len() && entry_answer(data, #[trigger] rows[i], Err(e)) && forall|j: int|
                0 <= j < i ==> author_known(data, #[trigger] rows[j]),
    }
}

/// `r` is the history that the text of a credit history stands for; the
/// text is `None` where the form has no history, which gives an empty one.
/// A text that cannot be read gives the reader's error.
pub open spec fn history_result(
    data: Seq<CreditNamesRow>,
    content: Option<Seq<u8>>,
    r: Result<Vec<MonsterHistory>, QueryError>,
) -> bool {
    match content {
        None => r matches Ok(v) && v@.len() == 0,
        Some(c) => match rows_until(history_records(c).0, history_records(c).1, None, 0) {
            Ok(rows) => history_answer(data, rows, r),
            Err(x) => r matches Err(QueryError::DataRead(e)) && is_row_error(e, x),
        },
    }
}

/// The bytes of an optional text.
pub open spec fn opt_bytes(content: Option<&Vec<u8>>) -> Option<Seq<u8>> {
    match content {
        Some(c) => Some(c@),
        None => None,
    }
}

impl MonsterHistory {
    /// The history entry of a row of a credit history.
    pub fn try_from_credit_row(names: &CreditNames, value: LocalCreditRow) -> (r: Result<
        MonsterHistory,
        QueryError,
    >)
        ensures
            entry_answer(names.data@, value.model(), r),
    {
        match primary_credit(names, value.credit_id.as_str()) {
            Ok(credit) => Ok(
                MonsterHistory {
                    credit,
                    modified_date: value.date,
                    modifications: value.items,
                    obsolete: value.obsolete,
                    license: License::from(value.license),
                },
            ),
            Err(e) => Err(e),
        }
    }

    /// The author that contributed for this history entry.
    pub fn credit(&self) -> (r: Option<&Credit>)
        ensures
            match (r, self.credit) {
                (Some(c), Some(d)) => *c == d,
                (None, None) => true,
                _ => false,
            },
    {
        self.credit.as_ref()
    }

    /// The date of the history entry submission.
    pub fn modified_date(&self) -> (r: Timestamp)
        ensures
            r == self.modified_date,
    {
        self.modified_date
    }

    /// The emotions or actions that were changed in this history entry.
    pub fn modifications(&self) -> (r: &[String])
        ensures
            r@ == self.modifications@,
    {
        self.modifications.as_slice()
    }

    /// Whether the credit for this history entry was marked as no longer
    /// relevant for the current portraits or sprites.
    pub fn obsolete(&self) -> (r: bool)
        ensures
            r == self.obsolete,
    {
        self.obsolete
    }

    /// The license applying to this modification.
    pub fn license(&self) -> (r: &License)
        ensures
            *r == self.license,
    {
        &self.license
    }
}

/// The history of a set of assets, read from the text of its credit
/// history.
pub fn history_of(names: &CreditNames, content: Option<&Vec<u8>>) -> (r: Result<
    Vec<MonsterHistory>,
    QueryError,
>)
    ensures
        history_result(names.data@, opt_bytes(content), r),
{
    match get_local_credits_file(content) {
        Ok(rows) => {
            let mut rows = rows;
            let ghost all = row_models(rows@);
            let n = rows.len();
            let mut out: Vec<MonsterHistory> = Vec::new();
            let mut i: usize = 0;
            assert(row_models(rows@) =~= all.subrange(0, n as int));
            while rows.len() > 0
                invariant
                    i + rows@.len() == n,
                    all.len() == n,
                    row_models(rows@) == all.subrange(i as int, n as int),
                    out@.len() == i,
                    forall|k: int|
                        0 <= k < i ==> entry_answer(names.data@, all[k], Ok(#[trigger] out@[k])),
                    forall|k: int| 0 <= k < i ==> author_known(names.data@, #[trigger] all[k]),
                    content is None ==> n == 0,
                    content matches Some(c) ==> rows_until(
                        history_records(c@).0,
                        history_records(c@).1,
                        None,
                        0,
                    ) == Ok::<Seq<RowModel>, (bool, int, Seq<char>)>(all),
                decreases rows@.len(),
            {
                let ghost before = rows@;
                let row = rows.remove(0);
                proof {
                    assert(row_models(before)[0] == all[i as int]);
                    assert forall|j: int| 0 <= j < rows@.len() implies row_models(rows@)[j] == all[i
                        + 1 + j] by {
                        assert(rows@[j] == before[j + 1]);
                        assert(row_models(before)[j + 1] == all[i + j + 1]);
                    }
                    assert(row_models(rows@) =~= all.subrange(i as int + 1, n as int));
                }
                match MonsterHistory::try_from_credit_row(names, row) {
                    Ok(entry) => {
                        out.push(entry);
                    },
                    Err(e) => {
                        assert(entry_answer(names.data@, all[i as int], Err(e)));
                        return Err(e);
                    },
                }
                i += 1;
            }
            Ok(out)
        },
        Err(e) => Err(QueryError::DataRead(e)),
    }
}

/// The phase that a number stands for.
pub open spec fn phase_of(phase: i64) -> Phase {
    if phase == 0 {
        Phase::Incomplete
    } else if phase == 1 {
        Phase::Exists
    } else if phase == 2 {
        Phase::Full
    } else {
        Phase::Unknown
    }
}

/// The portraits of one form: the group, the monster and the path of the
/// form.
pub struct MonsterFormPortraits<'a>(pub &'a Group, pub i32, pub &'a [i32]);

impl<'a> MonsterFormPortraits<'a> {
    /// Whether or not this form should have portraits.
    pub fn required(&self) -> (r: bool)
        ensures
            r == self.0.portrait_required,
    {
        self.0.portrait_required
    }

    /// The bounty for this portrait set.
    pub fn bounty(&self) -> (r: MonsterBounty)
        ensures
            r.modreward == self.0.modreward,
            r.incomplete == crate::schema::reward(self.0.portrait_bounty@, 0),
            r.exists == crate::schema::reward(self.0.portrait_bounty@, 1),
            r.full == crate::schema::reward(self.0.portrait_bounty@, 2),
            exists|keys: Seq<i64>| #[trigger]
                crate::schema::other_bounties(self.0.portrait_bounty@, keys, r.other@),
    {
        MonsterBounty::new(self.0.modreward, &self.0.portrait_bounty)
    }

    /// The completion phase of the portraits.
    pub fn phase(&self) -> (r: Phase)
        ensures
            r == phase_of(self.0.portrait_complete),
    {
        Phase::from(self.0.portrait_complete)
    }

    /// The completion phase of the portraits as a number, cut to 32 bits.
    pub fn phase_raw(&self) -> (r: i32)
        ensures
            r == self.0.portrait_complete as i32,
    {
        cut(self.0.portrait_complete)
    }

    /// The primary artist; nobody where the id is empty.
    pub fn credit_primary(&self, names: &CreditNames) -> (r: Result<Option<Credit>, QueryError>)
        ensures
            primary_answer(names.data@, self.0.portrait_credit.primary@, r),
    {
        primary_credit(names, self.0.portrait_credit.primary.as_str())
    }

    /// All other artists credited.
    pub fn credit_secondary(&self, names: &CreditNames) -> (r: Result<Vec<Credit>, QueryError>)
        ensures
            secondary_answer(names.data@, self.0.portrait_credit.secondary@, r),
    {
        secondary_credits(names, &self.0.portrait_credit.secondary)
    }

    /// The address of the sheet of all portraits.
    pub fn sheet_url(&self, this_srv_url: &str) -> (r: String)
        ensures
            r@ == url_text(AssetType::PortraitSheet, this_srv_url@, Seq::empty(), self.1, self.2@),
    {
        let r = get_url(AssetType::PortraitSheet, this_srv_url, "", self.1, self.2);
        proof {
            reveal_strlit("");
            assert(""@ =~= Seq::<char>::empty());
        }
        r
    }

    /// The address of the recolor sheet.
    pub fn recolor_sheet_url(&self, this_srv_url: &str) -> (r: String)
        ensures
            r@ == url_text(
                AssetType::PortraitRecolorSheet,
                this_srv_url@,
                Seq::empty(),
                self.1,
                self.2@,
            ),
    {
        let r = get_url(AssetType::PortraitRecolorSheet, this_srv_url, "", self.1, self.2);
        proof {
            reveal_strlit("");
            assert(""@ =~= Seq::<char>::empty());
        }
        r
    }

    /// The address of the text of the credits of the portraits.
    pub fn history_url(&self, this_srv_url: &str) -> (r: Option<String>)
        ensures
            r matches Some(u) && u@ == url_text(
                AssetType::PortraitCreditsTxt,
                this_srv_url@,
                Seq::empty(),
                self.1,
                self.2@,
            ),
    {
        let r = get_url(AssetType::PortraitCreditsTxt, this_srv_url, "", self.1, self.2);
        proof {
            reveal_strlit("");
            assert(""@ =~= Seq::<char>::empty());
        }
        Some(r)
    }

    fn list(&self, existing: &FileLookupCache, flipped: bool, assets_srv_url: &str) -> (r: Vec<Portrait>)
        ensures
            portrait_models(r@) == portraits_shown(
                assets_srv_url@,
                self.1,
                self.2@,
                existing_pairs(file_entries(self.0.portrait_files), texts_of(existing.0@), Some(flipped)),
            ),
    {
        let found = iter_existing_portrait_files(&self.0.portrait_files, existing, flipped);
        let ghost all = crate::fs_check::pair_texts(found@);
        let mut out: Vec<Portrait> = Vec::new();
        let mut i: usize = 0;
        while i < found.len()
            invariant
                i <= found.len(),
                all == crate::fs_check::pair_texts(found@),
                out@.len() == i,
                forall|k: int|
                    0 <= k < i ==> (#[trigger] out@[k]).model() == portrait_shown(
                        assets_srv_url@,
                        self.1,
                        self.2@,
                        all[k],
                    ),
            decreases found.len() - i,
        {
            let emotion = found[i].0.clone();
            let locked = found[i].1;
            let url = if flipped {
                get_url(AssetType::PortraitFlipped(emotion.as_str()), "", assets_srv_url, self.1, self.2)
            } else {
                get_url(AssetType::Portrait(emotion.as_str()), "", assets_srv_url, self.1, self.2)
            };
            out.push(Portrait { emotion, locked, url });
            i += 1;
        }
        assert(portrait_models(out@) =~= portraits_shown(assets_srv_url@, self.1, self.2@, all));
        out
    }

    /// The portraits that the tracker lists and that are there, in the
    /// tracker's order; the flipped ones are left out.
    pub fn emotions(&self, existing: &FileLookupCache, assets_srv_url: &str) -> (r: Vec<Portrait>)
        ensures
            portrait_models(r@) == portraits_shown(
                assets_srv_url@,
                self.1,
                self.2@,
                existing_pairs(file_entries(self.0.portrait_files), texts_of(existing.0@), Some(false)),
            ),
    {
        self.list(existing, false, assets_srv_url)
    }

    /// The flipped portraits that the tracker lists and that are there, in
    /// the tracker's order.
    pub fn emotions_flipped(&self, existing: &FileLookupCache, assets_srv_url: &str) -> (r: Vec<Portrait>)
        ensures
            portrait_models(r@) == portraits_shown(
                assets_srv_url@,
                self.1,
                self.2@,
                existing_pairs(file_entries(self.0.portrait_files), texts_of(existing.0@), Some(true)),
            ),
    {
        self.list(existing, true, assets_srv_url)
    }

    fn single(&self, existing: &FileLookupCache, emotion: &str, flipped: bool, assets_srv_url: &str) -> (r:
        Option<Portrait>)
        ensures
            match key_index(file_entries(self.0.portrait_files), portrait_name(emotion@, flipped)) {
                Some(i) if texts_of(existing.0@).contains(portrait_name(emotion@, flipped)) => r matches Some(
                    p,
                ) && p.model() == portrait_shown(
                    assets_srv_url@,
                    self.1,
                    self.2@,
                    (emotion@, file_entries(self.0.portrait_files)[i].1),
                ),
                _ => r is None,
            },
    {
        match get_existing_portrait_file(&self.0.portrait_files, existing, emotion, flipped) {
            Some(locked) => {
                let url = if flipped {
                    get_url(AssetType::PortraitFlipped(emotion), "", assets_srv_url, self.1, self.2)
                } else {
                    get_url(AssetType::Portrait(emotion), "", assets_srv_url, self.1, self.2)
                };
                Some(Portrait { emotion: String::from_str(emotion), locked, url })
            },
            None => None,
        }
    }

    /// The portrait of an emotion, if the tracker lists it and it is there.
    pub fn emotion(&self, existing: &FileLookupCache, emotion: &str, assets_srv_url: &str) -> (r: Option<
        Portrait,
    >)
        ensures
            match key_index(file_entries(self.0.portrait_files), emotion@) {
                Some(i) if texts_of(existing.0@).contains(emotion@) => r matches Some(p) && p.model()
                    == portrait_shown(
                    assets_srv_url@,
                    self.1,
                    self.2@,
                    (emotion@, file_entries(self.0.portrait_files)[i].1),
                ),
                _ => r is None,
            },
    {
        self.single(existing, emotion, false, assets_srv_url)
    }

    /// The flipped portrait of an emotion, if the tracker lists it and it is
    /// there. It is listed and kept under the name of the emotion with `^`
    /// at its end; what is shown names the emotion without it.
    pub fn emotion_flipped(&self, existing: &FileLookupCache, emotion: &str, assets_srv_url: &str) -> (r:
        Option<Portrait>)
        ensures
            match key_index(file_entries(self.0.portrait_files), emotion@.push('^')) {
                Some(i) if texts_of(existing.0@).contains(emotion@.push('^')) => r matches Some(p)
                    && p.model() == portrait_shown(
                    assets_srv_url@,
                    self.1,
                    self.2@,
                    (emotion@, file_entries(self.0.portrait_files)[i].1),
                ),
                _ => r is None,
            },
    {
        self.single(existing, emotion, true, assets_srv_url)
    }

    /// The portrait that stands for the form: `Normal` where the tracker
    /// lists it, else the listed one whose name is first in the order of
    /// text; none where the tracker lists none.
    pub fn preview_emotion(&self, assets_srv_url: &str) -> (r: Option<Portrait>)
        ensures
            match preview_of(file_entries(self.0.portrait_files)) {
                Some(f) => r matches Some(p) && p.model() == portrait_shown(
                    assets_srv_url@,
                    self.1,
                    self.2@,
                    f,
                ),
                None => r is None,
            },
    {
        let files = &self.0.portrait_files;
        let ghost entries = file_entries(*files);
        match files_get(files, "Normal") {
            Some(locked) => {
                proof {
                    lemma_key_index(entries, "Normal"@);
                }
                let url = get_url(AssetType::Portrait("Normal"), "", assets_srv_url, self.1, self.2);
                Some(Portrait { emotion: String::from_str("Normal"), locked, url })
            },
            None => {
                let n = files_len(files);
                if n == 0 {
                    return None;
                }
                let mut best = files_get_index(files, 0);
                let ghost mut k: int = 0;
                let mut i: usize = 1;
                assert(entries.subrange(0, 1).len() == 1);
                while i < n
                    invariant
                        1 <= i <= n,
                        n == entries.len(),
                        entries == file_entries(*files),
                        k == least_name(entries.subrange(0, i as int)),
                        0 <= k < i,
                        best.0@ == entries[k].0,
                        best.1 == entries[k].1,
                    decreases n - i,
                {
                    let next = files_get_index(files, i);
                    proof {
                        let now = entries.subrange(0, i as int + 1);
                        assert(now.drop_last() =~= entries.subrange(0, i as int));
                        assert(now.last() == entries[i as int]);
                        assert(now[k] == entries[k]);
                    }
                    if !text_not_after(best.0.as_str(), next.0.as_str()) {
                        best = next;
                        proof {
                            k = i as int;
                        }
                    }
                    i += 1;
                }
                assert(entries.subrange(0, n as int) =~= entries);
                let (emotion, locked) = best;
                let url = get_url(AssetType::Portrait(emotion.as_str()), "", assets_srv_url, self.1, self.2);
                Some(Portrait { emotion, locked, url })
            },
        }
    }

    /// All changes made to the portraits, read from the text of their
    /// credit history.
    pub fn history(&self, names: &CreditNames, content: Option<&Vec<u8>>) -> (r: Result<
        Vec<MonsterHistory>,
        QueryError,
    >)
        ensures
            history_result(names.data@, opt_bytes(content), r),
    {
        history_of(names, content)
    }

    /// When the portraits were last changed.
    pub fn modified_date(&self) -> (r: Option<Timestamp>)
        ensures
            r == self.0.portrait_modified,
    {
        self.0.portrait_modified
    }
}

/// A sprite as plain values: one with images of its own, or a copy of
/// another.
pub enum SpriteModel {
    Sprite {
        action: Seq<char>,
        locked: bool,
        anim_url: Seq<char>,
        offsets_url: Seq<char>,
        shadows_url: Seq<char>,
    },
    CopyOf { action: Seq<char>, locked: bool, copy_of: Seq<char> },
}

/// A sprite of an action: one with images of its own, or a copy of another.
#[derive(Clone, Debug)]
pub enum SpriteUnion {
    Sprite(Sprite),
    CopyOf(CopyOf),
}

impl SpriteUnion {
    /// The sprite as plain values.
    pub open spec fn model(&self) -> SpriteModel {
        match self {
            SpriteUnion::Sprite(s) => sprite_model(*s),
            SpriteUnion::CopyOf(c) => SpriteModel::CopyOf {
                action: c.action@,
                locked: c.locked,
                copy_of: c.copy_of@,
            },
        }
    }
}

/// A sprite with images of its own as plain values.
pub open spec fn sprite_model(s: Sprite) -> SpriteModel {
    SpriteModel::Sprite {
        action: s.action@,
        locked: s.locked,
        anim_url: s.anim_url@,
        offsets_url: s.offsets_url@,
        shadows_url: s.shadows_url@,
    }
}

/// The sprites as plain values.
pub open spec fn sprite_models(v: Seq<SpriteUnion>) -> Seq<SpriteModel> {
    Seq::new(v.len(), |i: int| v[i].model())
}

/// The sprite that is shown for an action with images of its own.
pub open spec fn sprite_shown(
    assets_srv_url: Seq<char>,
    monster_id: i32,
    path: Seq<i32>,
    action: Seq<char>,
    locked: bool,
) -> SpriteModel {
    SpriteModel::Sprite {
        action,
        locked,
        anim_url: image_url(assets_srv_url, "/sprite/"@, monster_id, path, action, "-Anim.png"@),
        offsets_url: image_url(
            assets_srv_url,
            "/sprite/"@,
            monster_id,
            path,
            action,
            "-Offsets.png"@,
        ),
        shadows_url: image_url(
            assets_srv_url,
            "/sprite/"@,
            monster_id,
            path,
            action,
            "-Shadow.png"@,
        ),
    }
}

/// What is shown for a listed action: the copy where the animation data
/// names the action as one, else the sprite where its file is there, else
/// nothing.
pub open spec fn action_shown(
    copies: Seq<(Seq<char>, Seq<char>)>,
    existing: Seq<Seq<char>>,
    assets_srv_url: Seq<char>,
    monster_id: i32,
    path: Seq<i32>,
    f: (Seq<char>, bool),
) -> Option<SpriteModel> {
    match key_index(copies, f.0) {
        Some(i) => Some(SpriteModel::CopyOf { action: f.0, locked: f.1, copy_of: copies[i].1 }),
        None => if existing.contains(f.0) {
            Some(sprite_shown(assets_srv_url, monster_id, path, f.0, f.1))
        } else {
            None
        },
    }
}

/// What is shown for the listed actions, in their order.
pub open spec fn actions_shown(
    files: Seq<(Seq<char>, bool)>,
    copies: Seq<(Seq<char>, Seq<char>)>,
    existing: Seq<Seq<char>>,
    assets_srv_url: Seq<char>,
    monster_id: i32,
    path: Seq<i32>,
) -> Seq<SpriteModel>
    decreases files.len(),
{
    if files.len() == 0 {
        Seq::empty()
    } else {
        let rest = actions_shown(
            files.drop_last(),
            copies,
            existing,
            assets_srv_url,
            monster_id,
            path,
        );
        match action_shown(copies, existing, assets_srv_url, monster_id, path, files.last()) {
            Some(m) => rest.push(m),
            None => rest,
        }
    }
}

/// What is shown for one action that is asked for by name: nothing for a
/// form without sprites; the copy where the animation data names the action
/// as one, locked as the tracker says where it lists the action; else the
/// sprite where the tracker lists the action and its file is there.
pub open spec fn action_asked(
    files: Seq<(Seq<char>, bool)>,
    copies: Seq<(Seq<char>, Seq<char>)>,
    existing: Seq<Seq<char>>,
    assets_srv_url: Seq<char>,
    monster_id: i32,
    path: Seq<i32>,
    action: Seq<char>,
) -> Option<SpriteModel> {
    if files.len() == 0 {
        None
    } else {
        match key_index(copies, action) {
            Some(i) => Some(
                SpriteModel::CopyOf {
                    action,
                    locked: match key_index(files, action) {
                        Some(k) => files[k].1,
                        None => false,
                    },
                    copy_of: copies[i].1,
                },
            ),
            None => match key_index(files, action) {
                Some(k) => if existing.contains(action) {
                    Some(sprite_shown(assets_srv_url, monster_id, path, action, files[k].1))
                } else {
                    None
                },
                None => None,
            },
        }
    }
}

/// The sprites of one form: the group, the monster and the path of the form.
pub struct MonsterFormSprites<'a>(pub &'a Group, pub i32, pub &'a [i32]);

impl<'a> MonsterFormSprites<'a> {
    /// The sprite of an action with images of its own.
    pub fn process_sprite_action(&self, action: &str, locked: bool, assets_srv_url: &str) -> (r: Sprite)
        ensures
            sprite_model(r) == sprite_shown(assets_srv_url@, self.1, self.2@, action@, locked),
    {
        Sprite {
            anim_url: get_url(AssetType::SpriteAnim(action), "", assets_srv_url, self.1, self.2),
            offsets_url: get_url(AssetType::SpriteOffsets(action), "", assets_srv_url, self.1, self.2),
            shadows_url: get_url(AssetType::SpriteShadows(action), "", assets_srv_url, self.1, self.2),
            action: String::from_str(action),
            locked,
        }
    }

    /// Whether the tracker lists any sprite for the form.
    pub fn sprites_available(&self) -> (r: bool)
        ensures
            r == (file_entries(self.0.sprite_files).len() > 0),
    {
        files_len(&self.0.sprite_files) > 0
    }

    /// Whether or not this form should have sprites.
    pub fn required(&self) -> (r: bool)
        ensures
            r == self.0.sprite_required,
    {
        self.0.sprite_required
    }

    /// The bounty for this sprite set.
    pub fn bounty(&self) -> (r: MonsterBounty)
        ensures
            r.modreward == self.0.modreward,
            r.incomplete == crate::schema::reward(self.0.sprite_bounty@, 0),
            r.exists == crate::schema::reward(self.0.sprite_bounty@, 1),
            r.full == crate::schema::reward(self.0.sprite_bounty@, 2),
            exists|keys: Seq<i64>| #[trigger]
                crate::schema::other_bounties(self.0.sprite_bounty@, keys, r.other@),
    {
        MonsterBounty::new(self.0.modreward, &self.0.sprite_bounty)
    }

    /// The completion phase of the sprites.
    pub fn phase(&self) -> (r: Phase)
        ensures
            r == phase_of(self.0.sprite_complete),
    {
        Phase::from(self.0.sprite_complete)
    }

    /// The completion phase of the sprites as a number, cut to 32 bits.
    pub fn phase_raw(&self) -> (r: i32)
        ensures
            r == self.0.sprite_complete as i32,
    {
        cut(self.0.sprite_complete)
    }

    /// The primary artist; nobody where the id is empty.
    pub fn credit_primary(&self, names: &CreditNames) -> (r: Result<Option<Credit>, QueryError>)
        ensures
            primary_answer(names.data@, self.0.sprite_credit.primary@, r),
    {
        primary_credit(names, self.0.sprite_credit.primary.as_str())
    }

    /// All other artists credited.
    pub fn credit_secondary(&self, names: &CreditNames) -> (r: Result<Vec<Credit>, QueryError>)
        ensures
            secondary_answer(names.data@, self.0.sprite_credit.secondary@, r),
    {
        secondary_credits(names, &self.0.sprite_credit.secondary)
    }

    fn url_if_available(&self, kind: AssetType<'static>, this_srv_url: &str, assets_srv_url: &str) -> (r:
        Option<String>)
        ensures
            match r {
                Some(u) => file_entries(self.0.sprite_files).len() > 0 && u@ == url_text(
                    kind,
                    this_srv_url@,
                    assets_srv_url@,
                    self.1,
                    self.2@,
                ),
                None => file_entries(self.0.sprite_files).len() == 0,
            },
    {
        if self.sprites_available() {
            Some(get_url(kind, this_srv_url, assets_srv_url, self.1, self.2))
        } else {
            None
        }
    }

    /// The address of the animation data of the form; none for a form
    /// without sprites.
    pub fn anim_data_xml(&self, assets_srv_url: &str) -> (r: Option<String>)
        ensures
            match r {
                Some(u) => file_entries(self.0.sprite_files).len() > 0 && u@ == url_text(
                    AssetType::SpriteAnimDataXml,
                    Seq::empty(),
                    assets_srv_url@,
                    self.1,
                    self.2@,
                ),
                None => file_entries(self.0.sprite_files).len() == 0,
            },
    {
        proof {
            reveal_strlit("");
            assert(""@ =~= Seq::<char>::empty());
        }
        self.url_if_available(AssetType::SpriteAnimDataXml, "", assets_srv_url)
    }

    /// The address of the archive of all sprites of the form; none for a
    /// form without sprites.
    pub fn zip_url(&self, this_srv_url: &str) -> (r: Option<String>)
        ensures
            match r {
                Some(u) => file_entries(self.0.sprite_files).len() > 0 && u@ == url_text(
                    AssetType::SpriteZip,
                    this_srv_url@,
                    Seq::empty(),
                    self.1,
                    self.2@,
                ),
                None => file_entries(self.0.sprite_files).len() == 0,
            },
    {
        proof {
            reveal_strlit("");
            assert(""@ =~= Seq::<char>::empty());
        }
        self.url_if_available(AssetType::SpriteZip, this_srv_url, "")
    }

    /// The address of the recolor sheet of the form; none for a form
    /// without sprites.
    pub fn recolor_sheet_url(&self, this_srv_url: &str) -> (r: Option<String>)
        ensures
            match r {
                Some(u) => file_entries(self.0.sprite_files).len() > 0 && u@ == url_text(
                    AssetType::SpriteRecolorSheet,
                    this_srv_url@,
                    Seq::empty(),
                    self.1,
                    self.2@,
                ),
                None => file_entries(self.0.sprite_files).len() == 0,
            },
    {
        proof {
            reveal_strlit("");
            assert(""@ =~= Seq::<char>::empty());
        }
        self.url_if_available(AssetType::SpriteRecolorSheet, this_srv_url, "")
    }

    /// The sprites of the actions that the tracker lists, in the tracker's
    /// order. `copies` names the actions that are copies, each with the
    /// action it copies; `existing` names the files that are there.
    pub fn actions(&self, existing: &FileLookupCache, copies: &Vec<(String, String)>, assets_srv_url: &str) -> (r:
        Vec<SpriteUnion>)
        ensures
            sprite_models(r@) == actions_shown(
                file_entries(self.0.sprite_files),
                crate::anim_data::pair_texts(copies@),
                texts_of(existing.0@),
                assets_srv_url@,
                self.1,
                self.2@,
            ),
    {
        let files = &self.0.sprite_files;
        let ghost entries = file_entries(*files);
        let ghost named = crate::anim_data::pair_texts(copies@);
        let ghost there = texts_of(existing.0@);
        let n = files_len(files);
        let mut out: Vec<SpriteUnion> = Vec::new();
        let mut i: usize = 0;
        assert(entries.subrange(0, 0) =~= Seq::<(Seq<char>, bool)>::empty());
        assert(sprite_models(out@) =~= Seq::<SpriteModel>::empty());
        while i < n
            invariant
                i <= n,
                n == entries.len(),
                entries == file_entries(*files),
                named == crate::anim_data::pair_texts(copies@),
                there == texts_of(existing.0@),
                sprite_models(out@) == actions_shown(
                    entries.subrange(0, i as int),
                    named,
                    there,
                    assets_srv_url@,
                    self.1,
                    self.2@,
                ),
            decreases n - i,
        {
            proof {
                let next = entries.subrange(0, i as int + 1);
                assert(next.drop_last() =~= entries.subrange(0, i as int));
                assert(next.last() == entries[i as int]);
            }
            let ghost before = sprite_models(out@);
            let (action, locked) = files_get_index(files, i);
            match find_pair(copies, action.as_str()) {
                Some(c) => {
                    let copy_of = copies[c].1.clone();
                    assert(named[c as int].1 == copies@[c as int].1@);
                    out.push(SpriteUnion::CopyOf(CopyOf { action, locked, copy_of }));
                    assert(sprite_models(out@) =~= before.push(out@[out@.len() - 1].model()));
                },
                None => match existing.if_has(action.as_str(), locked) {
                    Some(l) => {
                        let sprite = self.process_sprite_action(action.as_str(), l, assets_srv_url);
                        out.push(SpriteUnion::Sprite(sprite));
                        assert(sprite_models(out@) =~= before.push(out@[out@.len() - 1].model()));
                    },
                    None => {},
                },
            }
            i += 1;
        }
        assert(entries.subrange(0, n as int) =~= entries);
        out
    }

    /// The sprite of one action.
    pub fn action(
        &self,
        existing: &FileLookupCache,
        copies: &Vec<(String, String)>,
        action: &str,
        assets_srv_url: &str,
    ) -> (r: Option<SpriteUnion>)
        ensures
            match action_asked(
                file_entries(self.0.sprite_files),
                crate::anim_data::pair_texts(copies@),
                texts_of(existing.0@),
                assets_srv_url@,
                self.1,
                self.2@,
                action@,
            ) {
                Some(m) => r matches Some(u) && u.model() == m,
                None => r is None,
            },
    {
        if !self.sprites_available() {
            return None;
        }
        match find_pair(copies, action) {
            Some(c) => {
                let copy_of = copies[c].1.clone();
                assert(crate::anim_data::pair_texts(copies@)[c as int].1 == copies@[c as int].1@);
                let locked = match files_get(&self.0.sprite_files, action) {
                    Some(l) => l,
                    None => false,
                };
                Some(SpriteUnion::CopyOf(CopyOf { action: String::from_str(action), locked, copy_of }))
            },
            None => match get_existing_sprite_file(&self.0.sprite_files, existing, action) {
                Some(locked) => Some(
                    SpriteUnion::Sprite(self.process_sprite_action(action, locked, assets_srv_url)),
                ),
                None => None,
            },
        }
    }

    /// All changes made to the sprites, read from the text of their credit
    /// history.
    pub fn history(&self, names: &CreditNames, content: Option<&Vec<u8>>) -> (r: Result<
        Vec<MonsterHistory>,
        QueryError,
    >)
        ensures
            history_result(names.data@, opt_bytes(content), r),
    {
        history_of(names, content)
    }

    /// When the sprites were last changed.
    pub fn modified_date(&self) -> (r: Option<Timestamp>)
        ensures
            r == self.0.sprite_modified,
    {
        self.0.sprite_modified
    }

    /// The address of the text of the credits of the sprites.
    pub fn history_url(&self, this_srv_url: &str) -> (r: Option<String>)
        ensures
            r matches Some(u) && u@ == url_text(
                AssetType::SpriteCreditsTxt,
                this_srv_url@,
                Seq::empty(),
                self.1,
                self.2@,
            ),
    {
        let r = get_url(AssetType::SpriteCreditsTxt, this_srv_url, "", self.1, self.2);
        proof {
            reveal_strlit("");
            assert(""@ =~= Seq::<char>::empty());
        }
        Some(r)
    }
}

} // verus!
