//! Who is credited for an asset that a commit touched.
//!
//! From a fixed point in time on, the credit history of a form names the
//! author of every action and emotion, and the history is read as the newest
//! commit has it. Before that, the history is read as the commit itself has
//! it, and the author may be uncertain.

use vstd::prelude::*;
use crate::activity::{InfoModel, SpritePathInfo, joined};
use crate::error::DataReadError;
use crate::local_credits_file::{
    credit_of,
    credit_texts,
    find_credit,
    get_credits_until,
    get_last_credits_old_format,
    get_latest_credits,
    history_records,
    is_row_error,
    last_old_credit,
    latest_by_item,
    rows_until,
};
use crate::repo_tree::Tree;
use crate::text::{append_str, chars_of, same_text, string_of};
use crate::tracker::Timestamp;

verus! {

/// The point in time, in seconds since the start of 1970, after which the
/// credit histories name the author of every item: 2022-05-07 19:29:49 UTC.
pub const CREDIT_CONSISTENCY_TIME: i64 = 1651951789;

/// A credit id, and whether it is certain that its owner is the author.
#[derive(Debug, Clone)]
pub enum CreditCertainty {
    Certain(String),
    Maybe(String),
}

/// A credit as plain values.
pub struct CreditModel {
    pub certain: bool,
    pub id: Seq<char>,
}

impl CreditCertainty {
    /// The credit as plain values.
    pub open spec fn model(&self) -> CreditModel {
        match self {
            CreditCertainty::Certain(v) => CreditModel { certain: true, id: v@ },
            CreditCertainty::Maybe(v) => CreditModel { certain: false, id: v@ },
        }
    }

    /// The credit id.
    pub fn into_id(self) -> (r: String)
        ensures
            r@ == self.model().id,
    {
        match self {
            CreditCertainty::Certain(v) => v,
            CreditCertainty::Maybe(v) => v,
        }
    }

    /// Whether the credit is certain.
    pub fn certain(&self) -> (r: bool)
        ensures
            r == self.model().certain,
    {
        match self {
            CreditCertainty::Certain(_) => true,
            CreditCertainty::Maybe(_) => false,
        }
    }
}

/// Why a record of activity could not be made.
#[derive(Debug, Clone)]
pub enum ActivityRecError {
    /// The repository lacks a file that is needed. Holds the file's path.
    GitError(String),
    /// A data file has a fault.
    DataReadError(DataReadError),
    /// A change lacks a path. Holds the commit and which path is missing.
    MissingDeltaMetadata(String, String),
    /// A change of a kind that gives no activity. Holds the commit and the
    /// path.
    UnprocessableDelta(String, String),
    /// An asset was moved to a place that holds no asset of its kind. Holds
    /// the old and the new path.
    InvalidMove(String, String),
    /// A path of an asset holds a monster or form that is no number. Holds
    /// the path.
    InvalidNumberInPath(String),
    /// No credit was found for an asset. Holds the commit and the asset.
    MissingCredits(String, Box<SpritePathInfo>),
}

/// Why no credit was found.
pub enum LookupFault {
    /// The credit history is missing where it is needed.
    Git,
    /// The history names no author for the asset.
    Missing,
    /// The history cannot be read.
    Data((bool, int, Seq<char>)),
}

/// The two assets that are credited by hand: portraits that were committed
/// one commit too early.
pub open spec fn exception_credit(commit_id: Seq<char>, monster_idx: i32, form: Seq<i32>) -> Option<
    Seq<char>,
> {
    if commit_id == "99a41c3c379300aefa42f95568b658c3b9986057"@ && monster_idx == 222 && form
        == seq![1i32] {
        Some("356635814668664832"@)
    } else if commit_id == "366d2dbceb2736bd5316c9e492ddfa6c7cdc8fab"@ && monster_idx == 150
        && form == seq![2i32, 1i32] {
        Some("593113130213572610"@)
    } else {
        None
    }
}

/// The credit that the credits give for an asset: certain where they name the
/// asset, uncertain where they only have an entry for `?`.
pub open spec fn pick(credits: Seq<(Seq<char>, Seq<char>)>, name: Seq<char>) -> Option<CreditModel> {
    match credit_of(credits, name) {
        Some(id) => Some(CreditModel { certain: true, id }),
        None => match credit_of(credits, "?"@) {
            Some(id) => Some(CreditModel { certain: false, id }),
            None => None,
        },
    }
}

/// The credit by the history as the commit has it (`file`): the exceptions
/// first; then the history's last author of the asset, certain, or of `?`,
/// uncertain; for a history that lacks columns or has a date that cannot be
/// read, the author of the last row in the oldest form, uncertain.
pub open spec fn old_lookup(
    commit_id: Seq<char>,
    info: InfoModel,
    file: Option<Seq<u8>>,
) -> Result<CreditModel, LookupFault> {
    match exception_credit(commit_id, info.monster_idx, info.path_to_form) {
        Some(id) => Ok(CreditModel { certain: true, id }),
        None => match file {
            None => Err(LookupFault::Git),
            Some(bytes) => {
                let recs = history_records(bytes);
                match rows_until(recs.0, recs.1, None, 0) {
                    Ok(rows) => match pick(latest_by_item(rows), info.asset.name) {
                        Some(c) => Ok(c),
                        None => Err(LookupFault::Missing),
                    },
                    Err(x) => if x.0 {
                        match last_old_credit(recs.0, recs.1) {
                            Ok(Some(id)) => Ok(CreditModel { certain: false, id }),
                            Ok(None) => Err(LookupFault::Missing),
                            Err(y) => Err(LookupFault::Data(y)),
                        }
                    } else {
                        Err(LookupFault::Data(x))
                    },
                }
            },
        },
    }
}

/// The credit by the history as the newest commit has it (`head_file`): the
/// author at the time of the commit, certain for the asset, uncertain for
/// `?`; else the credit by the commit's own history; else the newest author
/// of the asset or of `?`, uncertain. Without the newest history, the
/// commit's own history decides.
pub open spec fn new_lookup(
    commit_id: Seq<char>,
    info: InfoModel,
    time: i64,
    head_file: Option<Seq<u8>>,
    file: Option<Seq<u8>>,
) -> Result<CreditModel, LookupFault> {
    match head_file {
        None => old_lookup(commit_id, info, file),
        Some(head) => {
            let recs = history_records(head);
            match rows_until(recs.0, recs.1, Some(Timestamp { secs: time, nanos: 0 }), 0) {
                Err(_) => Err(LookupFault::Missing),
                Ok(rows) => match pick(latest_by_item(rows), info.asset.name) {
                    Some(c) => Ok(c),
                    None => match old_lookup(commit_id, info, file) {
                        Ok(v) => Ok(v),
                        Err(_) => match rows_until(recs.0, recs.1, None, 0) {
                            Ok(all) => match pick(latest_by_item(all), info.asset.name) {
                                Some(c) => Ok(CreditModel { certain: false, id: c.id }),
                                None => Err(LookupFault::Missing),
                            },
                            Err(_) => Err(LookupFault::Missing),
                        },
                    },
                },
            }
        },
    }
}

/// The credit of an asset that a commit touched: by the newest history for a
/// commit after the fixed point in time, else by the commit's own.
pub open spec fn credit_lookup(
    commit_id: Seq<char>,
    info: InfoModel,
    time: i64,
    head_file: Option<Seq<u8>>,
    file: Option<Seq<u8>>,
) -> Result<CreditModel, LookupFault> {
    if time > CREDIT_CONSISTENCY_TIME {
        new_lookup(commit_id, info, time, head_file, file)
    } else {
        old_lookup(commit_id, info, file)
    }
}

/// `r` is what a lookup gave.
pub open spec fn lookup_result(
    r: Result<CreditCertainty, ActivityRecError>,
    m: Result<CreditModel, LookupFault>,
    commit_id: Seq<char>,
    info: InfoModel,
) -> bool {
    match (r, m) {
        (Ok(c), Ok(x)) => c.model() == x,
        (Err(ActivityRecError::GitError(_)), Err(LookupFault::Git)) => true,
        (Err(ActivityRecError::MissingCredits(id, boxed)), Err(LookupFault::Missing)) => id@
            == commit_id && boxed.model() == info,
        (Err(ActivityRecError::DataReadError(e)), Err(LookupFault::Data(x))) => is_row_error(e, x),
        _ => false,
    }
}

/// The path of the credit history of an asset's form.
pub open spec fn credits_path(info: InfoModel) -> Seq<char> {
    joined(info.base_path, "credits.txt"@)
}

/// The path of the credit history of an asset's form.
pub fn path_to_credits(info: &SpritePathInfo) -> (r: String)
    ensures
        r@ == credits_path(info.model()),
{
    let mut out = chars_of(info.base_path.as_str());
    out.push('/');
    append_str(&mut out, "credits.txt");
    assert(out@ =~= credits_path(info.model()));
    string_of(&out)
}

/// Picks the credit of an asset from a list of credits.
pub fn pick_credit(credits: &Vec<(String, String)>, name: &str) -> (r: Option<CreditCertainty>)
    ensures
        match (r, pick(credit_texts(credits@), name@)) {
            (Some(c), Some(m)) => c.model() == m,
            (None, None) => true,
            _ => false,
        },
{
    match find_credit(credits, name) {
        Some(i) => Some(CreditCertainty::Certain(credits[i].1.clone())),
        None => match find_credit(credits, "?") {
            Some(i) => Some(CreditCertainty::Maybe(credits[i].1.clone())),
            None => None,
        },
    }
}

fn missing(commit_id: &str, info: &SpritePathInfo) -> (e: ActivityRecError)
    ensures
        e matches ActivityRecError::MissingCredits(id, boxed) && id@ == commit_id@ && boxed.model()
            == info.model(),
{
    ActivityRecError::MissingCredits(String::from_str(commit_id), Box::new(info.duplicate()))
}

/// Looks the credit of an asset up in the credit history as the commit has
/// it.
pub fn old_credit_lookup(commit_id: &str, info: &SpritePathInfo, commit_tree: &Tree) -> (r: Result<
    CreditCertainty,
    ActivityRecError,
>)
    ensures
        lookup_result(
            r,
            old_lookup(
                commit_id@,
                info.model(),
                commit_tree.content_at(credits_path(info.model())),
            ),
            commit_id@,
            info.model(),
        ),
{
    proof {
        reveal_strlit("99a41c3c379300aefa42f95568b658c3b9986057");
        reveal_strlit("366d2dbceb2736bd5316c9e492ddfa6c7cdc8fab");
    }
    if same_text(commit_id, "99a41c3c379300aefa42f95568b658c3b9986057") && info.monster_idx == 222
        && info.path_to_form.len() == 1 && info.path_to_form[0] == 1 {
        assert(info.path_to_form@ =~= seq![1i32]);
        return Ok(CreditCertainty::Certain(String::from_str("356635814668664832")));
    }
    if same_text(commit_id, "366d2dbceb2736bd5316c9e492ddfa6c7cdc8fab") && info.monster_idx == 150
        && info.path_to_form.len() == 2 && info.path_to_form[0] == 2 && info.path_to_form[1] == 1 {
        assert(info.path_to_form@ =~= seq![2i32, 1i32]);
        return Ok(CreditCertainty::Certain(String::from_str("593113130213572610")));
    }
    assert(exception_credit(commit_id@, info.monster_idx, info.path_to_form@) is None) by {
        if info.path_to_form@ == seq![1i32] {
            assert(info.path_to_form@.len() == 1 && info.path_to_form@[0] == 1);
        }
        if info.path_to_form@ == seq![2i32, 1i32] {
            assert(info.path_to_form@.len() == 2 && info.path_to_form@[0] == 2
                && info.path_to_form@[1] == 1);
        }
    }
    let path = path_to_credits(info);
    let bytes = match commit_tree.content_of(path.as_str()) {
        Some(b) => b,
        None => {
            return Err(ActivityRecError::GitError(path));
        },
    };
    match get_latest_credits(bytes.as_slice()) {
        Ok(current_credits) => match pick_credit(&current_credits, info.asset.name()) {
            Some(c) => Ok(c),
            None => Err(missing(commit_id, info)),
        },
        Err(DataReadError::SerdeCsv(crate::error::CsvError::Deserialize(row))) => {
            match get_last_credits_old_format(bytes.as_slice()) {
                Ok(Some(credit_id)) => Ok(CreditCertainty::Maybe(credit_id)),
                Ok(None) => Err(missing(commit_id, info)),
                Err(e) => Err(ActivityRecError::DataReadError(e)),
            }
        },
        Err(err) => Err(ActivityRecError::DataReadError(err)),
    }
}

/// Looks the credit of an asset up in the credit history as the newest
/// commit has it, at the time of the commit.
pub fn new_credit_lookup(
    commit_id: &str,
    info: &SpritePathInfo,
    commit_tree: &Tree,
    time: i64,
    head_tree: &Tree,
) -> (r: Result<CreditCertainty, ActivityRecError>)
    ensures
        lookup_result(
            r,
            new_lookup(
                commit_id@,
                info.model(),
                time,
                head_tree.content_at(credits_path(info.model())),
                commit_tree.content_at(credits_path(info.model())),
            ),
            commit_id@,
            info.model(),
        ),
{
    let path = path_to_credits(info);
    let head = match head_tree.content_of(path.as_str()) {
        Some(b) => b,
        None => {
            return old_credit_lookup(commit_id, info, commit_tree);
        },
    };
    let current_credits = match get_credits_until(
        head.as_slice(),
        Timestamp { secs: time, nanos: 0 },
    ) {
        Ok(c) => c,
        Err(_) => {
            return Err(missing(commit_id, info));
        },
    };
    match pick_credit(&current_credits, info.asset.name()) {
        Some(c) => Ok(c),
        None => match old_credit_lookup(commit_id, info, commit_tree) {
            Ok(v) => Ok(v),
            Err(_) => match get_latest_credits(head.as_slice()) {
                Ok(all) => match pick_credit(&all, info.asset.name()) {
                    Some(c) => Ok(CreditCertainty::Maybe(c.into_id())),
                    None => Err(missing(commit_id, info)),
                },
                Err(_) => Err(missing(commit_id, info)),
            },
        },
    }
}

/// Finds the credit of an asset that the commit with the given id and time
/// touched.
pub fn get_credit_id(
    commit_id: &str,
    commit_time: i64,
    info: &SpritePathInfo,
    commit_tree: &Tree,
    head_tree: &Tree,
) -> (r: Result<CreditCertainty, ActivityRecError>)
    ensures
        lookup_result(
            r,
            credit_lookup(
                commit_id@,
                info.model(),
                commit_time,
                head_tree.content_at(credits_path(info.model())),
                commit_tree.content_at(credits_path(info.model())),
            ),
            commit_id@,
            info.model(),
        ),
{
    if commit_time > CREDIT_CONSISTENCY_TIME {
        new_credit_lookup(commit_id, info, commit_tree, commit_time, head_tree)
    } else {
        old_credit_lookup(commit_id, info, commit_tree)
    }
}

} // verus!
