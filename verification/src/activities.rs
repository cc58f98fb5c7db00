//! The activities of one commit: for every change to an asset, what was done
//! and who is credited.

use vstd::prelude::*;
use crate::activity::{Action, Asset, AssetModel, InfoModel, SpritePathInfo, opt_view, path_info};
use crate::credit_lookup::{
    ActivityRecError,
    CreditCertainty,
    CreditModel,
    LookupFault,
    credit_lookup,
    credits_path,
    get_credit_id,
    lookup_result,
};
use crate::credit_names::{
    CreditNames,
    NameModel,
    NamesFault,
    is_names_error,
    name_models,
    names_from,
    names_records,
    read_credit_names,
};
use crate::repo_tree::Tree;
use crate::util::copy_path;

verus! {

/// The kind of a change of a file between a commit and its parent.
#[derive(Clone, Copy, Debug, PartialEq, Eq, Structural)]
pub enum DeltaStatus {
    Unmodified,
    Added,
    Deleted,
    Modified,
    Renamed,
    Copied,
    Ignored,
    Untracked,
    Typechange,
    Unreadable,
    Conflicted,
}

/// One change of a file: its kind, and the path before and after.
#[derive(Clone, Debug)]
pub struct Delta {
    pub status: DeltaStatus,
    pub old_path: Option<String>,
    pub new_path: Option<String>,
}

/// A commit: its id in hexadecimal, its time in seconds since the start of
/// 1970, its message.
#[derive(Clone, Debug)]
pub struct CommitData {
    pub id: String,
    pub time: i64,
    pub msg: String,
}

/// One change to an asset.
#[derive(Debug, Clone)]
pub struct Activity {
    monster_idx: i32,
    path_to_form: Vec<i32>,
    asset: Asset,
    action: Action,
    /// None for removals.
    credit_id: Option<String>,
    /// True where the history does not tell for certain who made the asset:
    /// the credit is then the latest author known for the form.
    author_uncertain: bool,
}

/// An activity with its commit.
#[derive(Clone, Debug)]
pub struct ExportedActivity {
    pub commit: CommitData,
    pub activity: Activity,
}

/// An action as plain values: its mark, and for a move the new place.
pub struct ActionModel {
    pub kind: int,
    pub new_monster_idx: i32,
    pub new_path_to_form: Seq<i32>,
}

/// An activity as plain values.
pub struct ActivityModel {
    pub monster_idx: i32,
    pub path_to_form: Seq<i32>,
    pub asset: AssetModel,
    pub action: ActionModel,
    pub credit_id: Option<Seq<char>>,
    pub author_uncertain: bool,
}

/// The action as plain values: an addition is marked 0, a removal 1, an
/// update 2, a move 3.
pub open spec fn action_model(a: Action) -> ActionModel {
    match a {
        Action::Add => ActionModel { kind: 0, new_monster_idx: 0, new_path_to_form: Seq::empty() },
        Action::Remove => ActionModel {
            kind: 1,
            new_monster_idx: 0,
            new_path_to_form: Seq::empty(),
        },
        Action::Update => ActionModel {
            kind: 2,
            new_monster_idx: 0,
            new_path_to_form: Seq::empty(),
        },
        Action::MoveAndUpdate { new_monster_idx, new_path_to_form } => ActionModel {
            kind: 3,
            new_monster_idx,
            new_path_to_form: new_path_to_form@,
        },
    }
}

impl Activity {
    /// The activity as plain values.
    pub closed spec fn model(&self) -> ActivityModel {
        ActivityModel {
            monster_idx: self.monster_idx,
            path_to_form: self.path_to_form@,
            asset: self.asset.model(),
            action: action_model(self.action),
            credit_id: opt_view(self.credit_id),
            author_uncertain: self.author_uncertain,
        }
    }

    pub fn monster_idx(&self) -> (r: i32)
        ensures
            r == self.model().monster_idx,
    {
        self.monster_idx
    }

    pub fn path_to_form(&self) -> (r: &Vec<i32>)
        ensures
            r@ == self.model().path_to_form,
    {
        &self.path_to_form
    }

    pub fn asset(&self) -> (r: &Asset)
        ensures
            r.model() == self.model().asset,
    {
        &self.asset
    }

    pub fn action(&self) -> (r: &Action)
        ensures
            action_model(*r) == self.model().action,
    {
        &self.action
    }

    pub fn credit_id(&self) -> (r: Option<&String>)
        ensures
            match r {
                Some(id) => self.model().credit_id == Some(id@),
                None => self.model().credit_id is None,
            },
    {
        match &self.credit_id {
            Some(id) => Some(id),
            None => None,
        }
    }

    pub fn author_uncertain(&self) -> (r: bool)
        ensures
            r == self.model().author_uncertain,
    {
        self.author_uncertain
    }

    /// A copy of the activity.
    pub fn duplicate(&self) -> (r: Activity)
        ensures
            r.model() == self.model(),
    {
        Activity {
            monster_idx: self.monster_idx,
            path_to_form: copy_path(self.path_to_form.as_slice()),
            asset: self.asset.duplicate(),
            action: match &self.action {
                Action::Add => Action::Add,
                Action::Remove => Action::Remove,
                Action::Update => Action::Update,
                Action::MoveAndUpdate { new_monster_idx, new_path_to_form } => Action::MoveAndUpdate {
                    new_monster_idx: *new_monster_idx,
                    new_path_to_form: copy_path(new_path_to_form.as_slice()),
                },
            },
            credit_id: match &self.credit_id {
                Some(id) => Some(id.clone()),
                None => None,
            },
            author_uncertain: self.author_uncertain,
        }
    }
}

/// The activity of an asset with an action and a credit: the author is
/// uncertain exactly where there is a credit and it is not certain.
pub open spec fn recorded(action: ActionModel, credit: Option<CreditModel>, info: InfoModel) -> ActivityModel {
    ActivityModel {
        monster_idx: info.monster_idx,
        path_to_form: info.path_to_form,
        asset: info.asset,
        action,
        credit_id: match credit {
            Some(c) => Some(c.id),
            None => None,
        },
        author_uncertain: match credit {
            Some(c) => !c.certain,
            None => false,
        },
    }
}

/// Why the activities of a commit could not be listed.
pub enum LoadFault {
    /// The list of credit names is missing in the commit.
    NoNames,
    /// The list of credit names has a fault.
    Names(NamesFault),
    /// A change has no old path.
    NoOldPath,
    /// A renaming has no new path.
    NoNewPath,
    /// The path holds a monster or form that is no number.
    BadNumber(Seq<char>),
    /// An asset was renamed to what is no asset of its kind.
    InvalidMove(Seq<char>, Seq<char>),
    /// A change of a kind that gives no activity.
    Unprocessable(Seq<char>),
    /// No credit could be had for the asset.
    Lookup(LookupFault, InfoModel),
}

/// The commit and the two trees that a list of activities is made from.
pub struct LoadInput {
    pub commit_id: Seq<char>,
    pub commit_time: i64,
    pub commit_tree: Tree,
    pub head_tree: Tree,
}

/// The credit of an asset in the given setting.
pub open spec fn credit_in(input: LoadInput, info: InfoModel) -> Result<CreditModel, LookupFault> {
    credit_lookup(
        input.commit_id,
        info,
        input.commit_time,
        input.head_tree.content_at(credits_path(info)),
        input.commit_tree.content_at(credits_path(info)),
    )
}

/// The activity with a credit, or the fault of the lookup.
pub open spec fn credited(input: LoadInput, action: ActionModel, info: InfoModel) -> Result<
    Option<ActivityModel>,
    LoadFault,
> {
    match credit_in(input, info) {
        Ok(c) => Ok(Some(recorded(action, Some(c), info))),
        Err(f) => Err(LoadFault::Lookup(f, info)),
    }
}

/// The activity of one change: none for a path that is no asset; an
/// addition for a file that was added or copied, a removal for one that was
/// deleted, an update for one that was modified, a move for one that was
/// renamed to an asset of the same kind. All but removals carry the credit
/// of the asset at its old path.
pub open spec fn delta_activity(input: LoadInput, d: Delta) -> Result<Option<ActivityModel>, LoadFault> {
    match d.old_path {
        None => Err(LoadFault::NoOldPath),
        Some(old) => match path_info(&input.commit_tree, old@) {
            Err(()) => Err(LoadFault::BadNumber(old@)),
            Ok(None) => Ok(None),
            Ok(Some(info)) => match d.status {
                DeltaStatus::Added | DeltaStatus::Copied => credited(
                    input,
                    action_model(Action::Add),
                    info,
                ),
                DeltaStatus::Deleted => Ok(Some(recorded(action_model(Action::Remove), None, info))),
                DeltaStatus::Modified => credited(input, action_model(Action::Update), info),
                DeltaStatus::Renamed => match d.new_path {
                    None => Err(LoadFault::NoNewPath),
                    Some(new) => match path_info(&input.commit_tree, new@) {
                        Err(()) => Err(LoadFault::BadNumber(new@)),
                        Ok(None) => Err(LoadFault::InvalidMove(old@, new@)),
                        Ok(Some(new_info)) => if new_info.asset.portrait != info.asset.portrait {
                            Err(LoadFault::InvalidMove(old@, new@))
                        } else {
                            credited(
                                input,
                                ActionModel {
                                    kind: 3,
                                    new_monster_idx: new_info.monster_idx,
                                    new_path_to_form: new_info.path_to_form,
                                },
                                info,
                            )
                        },
                    },
                },
                _ => Err(LoadFault::Unprocessable(old@)),
            },
        },
    }
}

/// The activities of the changes from `at` on, in order after `done`; the
/// first fault ends the list.
pub open spec fn activities_from(
    input: LoadInput,
    deltas: Seq<Delta>,
    at: int,
    done: Seq<ActivityModel>,
) -> Result<Seq<ActivityModel>, LoadFault>
    decreases deltas.len() - at,
{
    if at < 0 || at >= deltas.len() {
        Ok(done)
    } else {
        match delta_activity(input, deltas[at]) {
            Err(f) => Err(f),
            Ok(None) => activities_from(input, deltas, at + 1, done),
            Ok(Some(a)) => activities_from(input, deltas, at + 1, done.push(a)),
        }
    }
}

/// The error that stands for a fault.
pub open spec fn is_load_error(e: ActivityRecError, f: LoadFault, commit_id: Seq<char>) -> bool {
    match f {
        LoadFault::NoNames => e is GitError,
        LoadFault::Names(x) => e matches ActivityRecError::DataReadError(d) && is_names_error(d, x),
        LoadFault::NoOldPath => e matches ActivityRecError::MissingDeltaMetadata(id, what) && id@
            == commit_id && what@ == "old_file().path()"@,
        LoadFault::NoNewPath => e matches ActivityRecError::MissingDeltaMetadata(id, what) && id@
            == commit_id && what@ == "new_file().path()"@,
        LoadFault::BadNumber(p) => e matches ActivityRecError::InvalidNumberInPath(t) && t@ == p,
        LoadFault::InvalidMove(a, b) => e matches ActivityRecError::InvalidMove(x, y) && x@ == a
            && y@ == b,
        LoadFault::Unprocessable(p) => e matches ActivityRecError::UnprocessableDelta(id, t) && id@
            == commit_id && t@ == p,
        LoadFault::Lookup(x, info) => lookup_result(
            Err::<CreditCertainty, ActivityRecError>(e),
            Err::<CreditModel, LookupFault>(x),
            commit_id,
            info,
        ),
    }
}

/// The models of a list of activities.
pub open spec fn activity_models(acts: Seq<Activity>) -> Seq<ActivityModel> {
    Seq::new(acts.len(), |i: int| acts[i].model())
}

/// The activities of a commit, with the credit names as the commit has them.
pub struct Activities {
    c_oid: String,
    c_time: i64,
    c_msg: String,
    credit_names: CreditNames,
    acts: Vec<Activity>,
}

/// What the listing of a commit's activities gives: the credit names of the
/// commit and the activities of its changes, or the first fault.
pub open spec fn load_outcome(input: LoadInput, deltas: Seq<Delta>) -> Result<
    (Seq<NameModel>, Seq<ActivityModel>),
    LoadFault,
> {
    match input.commit_tree.content_at("credit_names.txt"@) {
        None => Err(LoadFault::NoNames),
        Some(bytes) => match names_from(
            names_records(bytes).0,
            names_records(bytes).1,
            1,
            Seq::empty(),
        ) {
            Err(f) => Err(LoadFault::Names(f)),
            Ok(names) => match activities_from(input, deltas, 0, Seq::empty()) {
                Err(f) => Err(f),
                Ok(acts) => Ok((names, acts)),
            },
        },
    }
}

impl Activities {
    /// The id of the commit.
    pub closed spec fn oid_view(&self) -> Seq<char> {
        self.c_oid@
    }

    /// The time of the commit.
    pub closed spec fn time_view(&self) -> i64 {
        self.c_time
    }

    /// The message of the commit.
    pub closed spec fn msg_view(&self) -> Seq<char> {
        self.c_msg@
    }

    /// The credit names of the commit.
    pub closed spec fn names_view(&self) -> Seq<NameModel> {
        name_models(self.credit_names.data@)
    }

    /// The activities.
    pub closed spec fn acts_view(&self) -> Seq<ActivityModel> {
        activity_models(self.acts@)
    }

    /// Makes the activity of an asset.
    pub fn record_activity(action: Action, credit_id: Option<CreditCertainty>, info: SpritePathInfo) -> (r:
        Activity)
        ensures
            r.model() == recorded(
                action_model(action),
                match credit_id {
                    Some(c) => Some(c.model()),
                    None => None,
                },
                info.model(),
            ),
    {
        let author_uncertain = match &credit_id {
            Some(cid) => !cid.certain(),
            None => false,
        };
        Activity {
            monster_idx: info.monster_idx,
            path_to_form: info.path_to_form,
            asset: info.asset,
            action,
            author_uncertain,
            credit_id: match credit_id {
                Some(cid) => Some(cid.into_id()),
                None => None,
            },
        }
    }

    /// The activity of one change.
    pub fn delta_to_activity(commit: &CommitData, commit_tree: &Tree, head_tree: &Tree, delta: &Delta) -> (r:
        Result<Option<Activity>, ActivityRecError>)
        ensures
            match (
                r,
                delta_activity(
                    LoadInput {
                        commit_id: commit.id@,
                        commit_time: commit.time,
                        commit_tree: *commit_tree,
                        head_tree: *head_tree,
                    },
                    *delta,
                ),
            ) {
                (Ok(Some(a)), Ok(Some(m))) => a.model() == m,
                (Ok(None), Ok(None)) => true,
                (Err(e), Err(f)) => is_load_error(e, f, commit.id@),
                _ => false,
            },
    {
        let old_file_path = match &delta.old_path {
            Some(p) => p,
            None => {
                return Err(
                    ActivityRecError::MissingDeltaMetadata(
                        commit.id.clone(),
                        String::from_str("old_file().path()"),
                    ),
                );
            },
        };
        let old_info = match SpritePathInfo::try_from_path(commit_tree, old_file_path.as_str()) {
            Err(p) => {
                return Err(ActivityRecError::InvalidNumberInPath(p));
            },
            Ok(None) => {
                return Ok(None);
            },
            Ok(Some(info)) => info,
        };
        match delta.status {
            DeltaStatus::Added | DeltaStatus::Copied => {
                match get_credit_id(
                    commit.id.as_str(),
                    commit.time,
                    &old_info,
                    commit_tree,
                    head_tree,
                ) {
                    Ok(c) => Ok(Some(Self::record_activity(Action::Add, Some(c), old_info))),
                    Err(e) => Err(e),
                }
            },
            DeltaStatus::Deleted => Ok(Some(Self::record_activity(Action::Remove, None, old_info))),
            DeltaStatus::Modified => {
                match get_credit_id(
                    commit.id.as_str(),
                    commit.time,
                    &old_info,
                    commit_tree,
                    head_tree,
                ) {
                    Ok(c) => Ok(Some(Self::record_activity(Action::Update, Some(c), old_info))),
                    Err(e) => Err(e),
                }
            },
            DeltaStatus::Renamed => {
                let new_file_path = match &delta.new_path {
                    Some(p) => p,
                    None => {
                        return Err(
                            ActivityRecError::MissingDeltaMetadata(
                                commit.id.clone(),
                                String::from_str("new_file().path()"),
                            ),
                        );
                    },
                };
                let new_info = match SpritePathInfo::try_from_path(
                    commit_tree,
                    new_file_path.as_str(),
                ) {
                    Err(p) => {
                        return Err(ActivityRecError::InvalidNumberInPath(p));
                    },
                    Ok(None) => {
                        return Err(
                            ActivityRecError::InvalidMove(
                                old_file_path.clone(),
                                new_file_path.clone(),
                            ),
                        );
                    },
                    Ok(Some(info)) => info,
                };
                if old_info.asset.is_portrait() != new_info.asset.is_portrait() {
                    return Err(
                        ActivityRecError::InvalidMove(old_file_path.clone(), new_file_path.clone()),
                    );
                }
                match get_credit_id(
                    commit.id.as_str(),
                    commit.time,
                    &old_info,
                    commit_tree,
                    head_tree,
                ) {
                    Ok(c) => Ok(
                        Some(
                            Self::record_activity(
                                Action::MoveAndUpdate {
                                    new_monster_idx: new_info.monster_idx,
                                    new_path_to_form: new_info.path_to_form,
                                },
                                Some(c),
                                old_info,
                            ),
                        ),
                    ),
                    Err(e) => Err(e),
                }
            },
            _ => Err(
                ActivityRecError::UnprocessableDelta(commit.id.clone(), old_file_path.clone()),
            ),
        }
    }

    /// Lists the activities of a commit. `head_tree` is the tree of the
    /// newest commit of the repository; it decides the credits of commits
    /// after the fixed point in time.
    pub fn load(commit: CommitData, commit_tree: &Tree, head_tree: &Tree, deltas: &Vec<Delta>) -> (r:
        Result<Activities, ActivityRecError>)
        ensures
            match (
                r,
                load_outcome(
                    LoadInput {
                        commit_id: commit.id@,
                        commit_time: commit.time,
                        commit_tree: *commit_tree,
                        head_tree: *head_tree,
                    },
                    deltas@,
                ),
            ) {
                (Ok(a), Ok(m)) => a.oid_view() == commit.id@ && a.time_view() == commit.time
                    && a.msg_view() == commit.msg@ && a.names_view() == m.0 && a.acts_view()
                    == m.1,
                (Err(e), Err(f)) => is_load_error(e, f, commit.id@),
                _ => false,
            },
    {
        let ghost input = LoadInput {
            commit_id: commit.id@,
            commit_time: commit.time,
            commit_tree: *commit_tree,
            head_tree: *head_tree,
        };
        let credits_file = match commit_tree.content_of("credit_names.txt") {
            Some(b) => b,
            None => {
                return Err(ActivityRecError::GitError(String::from_str("credit_names.txt")));
            },
        };
        let credit_names = match read_credit_names(credits_file.as_slice()) {
            Ok(n) => n,
            Err(e) => {
                return Err(ActivityRecError::DataReadError(e));
            },
        };
        let mut acts: Vec<Activity> = Vec::new();
        let mut i: usize = 0;
        assert(activity_models(acts@) =~= Seq::<ActivityModel>::empty());
        while i < deltas.len()
            invariant
                i <= deltas.len(),
                commit_tree.content_at("credit_names.txt"@) == Some(credits_file@),
                names_from(
                    names_records(credits_file@).0,
                    names_records(credits_file@).1,
                    1,
                    Seq::empty(),
                ) == Ok::<Seq<NameModel>, NamesFault>(name_models(credit_names.data@)),
                input == (LoadInput {
                    commit_id: commit.id@,
                    commit_time: commit.time,
                    commit_tree: *commit_tree,
                    head_tree: *head_tree,
                }),
                activities_from(input, deltas@, 0, Seq::empty()) == activities_from(
                    input,
                    deltas@,
                    i as int,
                    activity_models(acts@),
                ),
            decreases deltas.len() - i,
        {
            match Self::delta_to_activity(&commit, commit_tree, head_tree, &deltas[i]) {
                Err(e) => {
                    return Err(e);
                },
                Ok(None) => {},
                Ok(Some(activity)) => {
                    let ghost before = activity_models(acts@);
                    let ghost m = activity.model();
                    acts.push(activity);
                    assert(activity_models(acts@) =~= before.push(m));
                },
            }
            i += 1;
        }
        Ok(Activities { c_oid: commit.id, c_time: commit.time, c_msg: commit.msg, credit_names, acts })
    }

    /// The activities, each with the commit.
    pub fn export(&self) -> (r: Vec<ExportedActivity>)
        ensures
            r@.len() == self.acts_view().len(),
            forall|i: int|
                0 <= i < r@.len() ==> (#[trigger] r@[i]).activity.model() == self.acts_view()[i]
                    && r@[i].commit.id@ == self.oid_view() && r@[i].commit.time
                    == self.time_view() && r@[i].commit.msg@ == self.msg_view(),
    {
        let mut out: Vec<ExportedActivity> = Vec::new();
        let mut i: usize = 0;
        while i < self.acts.len()
            invariant
                i <= self.acts.len(),
                out@.len() == i,
                forall|k: int|
                    0 <= k < i ==> (#[trigger] out@[k]).activity.model() == self.acts@[k].model()
                        && out@[k].commit.id@ == self.c_oid@ && out@[k].commit.time == self.c_time
                        && out@[k].commit.msg@ == self.c_msg@,
            decreases self.acts.len() - i,
        {
            out.push(
                ExportedActivity {
                    commit: CommitData {
                        id: self.c_oid.clone(),
                        time: self.c_time,
                        msg: self.c_msg.clone(),
                    },
                    activity: self.acts[i].duplicate(),
                },
            );
            i += 1;
        }
        out
    }

    /// The id of the commit.
    pub fn c_oid(&self) -> (r: &str)
        ensures
            r@ == self.oid_view(),
    {
        self.c_oid.as_str()
    }

    /// The time of the commit.
    pub fn c_time(&self) -> (r: i64)
        ensures
            r == self.time_view(),
    {
        self.c_time
    }

    /// The message of the commit.
    pub fn c_msg(&self) -> (r: &str)
        ensures
            r@ == self.msg_view(),
    {
        self.c_msg.as_str()
    }

    /// The activities.
    pub fn acts(&self) -> (r: &Vec<Activity>)
        ensures
            activity_models(r@) == self.acts_view(),
    {
        &self.acts
    }

    /// The credit names of the commit.
    pub fn credit_names(&self) -> (r: &CreditNames)
        ensures
            name_models(r.data@) == self.names_view(),
    {
        &self.credit_names
    }
}

} // verus!
