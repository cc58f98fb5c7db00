//! The snapshot that is served, and how it is refreshed: one writer takes the
//! repository forward, loads it, and publishes the result; a repository that
//! cannot be loaded is taken back commit by commit until it can.

use vstd::prelude::*;
use crate::credit_names::{CreditNames, name_models};
use crate::snapshot_eq::{configs_equal, names_equal, same_config, same_tree, trees_equal};
use crate::sorting::{sort_tracker_by_sprite_config, sorted_tree};
use crate::sprite_config::SpriteConfig;
use crate::tracker::Tracker;

verus! {

/// Whether a refresh is under way.
#[derive(Clone, Copy, Debug, PartialEq, Eq, Structural)]
pub enum State {
    Refreshing,
    Ready,
}

/// The content of a snapshot.
#[derive(Debug)]
pub struct SpriteCollabData {
    pub sprite_config: SpriteConfig,
    pub tracker: Tracker,
    pub credit_names: CreditNames,
}

impl SpriteCollabData {
    /// Makes the content of a snapshot: the files of every group of the
    /// tracker are put in the order of the configuration.
    pub fn new(sprite_config: SpriteConfig, tracker: Tracker, credit_names: CreditNames) -> (r:
        SpriteCollabData)
        ensures
            r.sprite_config == sprite_config,
            r.credit_names == credit_names,
            sorted_tree(&sprite_config, tracker@, r.tracker@),
    {
        let mut tracker = tracker;
        sort_tracker_by_sprite_config(&mut tracker, &sprite_config);
        SpriteCollabData { sprite_config, tracker, credit_names }
    }

    /// Two snapshots hold the same content.
    pub open spec fn same_as(&self, other: &SpriteCollabData) -> bool {
        &&& same_config(&self.sprite_config, &other.sprite_config)
        &&& same_tree(self.tracker@, other.tracker@)
        &&& name_models(self.credit_names.data@) == name_models(other.credit_names.data@)
    }

    /// Whether two snapshots hold the same content.
    pub fn equals(&self, other: &SpriteCollabData) -> (r: bool)
        ensures
            r == self.same_as(other),
    {
        configs_equal(&self.sprite_config, &other.sprite_config) && trees_equal(
            &self.tracker,
            &other.tracker,
        ) && names_equal(&self.credit_names, &other.credit_names)
    }
}

/// What is known of the repository: the commit that is served, the time of
/// that commit, and the time of the last look for updates, both in seconds
/// since the start of 1970.
#[derive(Debug, Clone)]
pub struct Meta {
    pub assets_commit: String,
    pub assets_update_date: i64,
    pub update_checked_date: i64,
}

impl Meta {
    /// The meta data before the first load.
    pub fn new(now: i64) -> (r: Meta)
        ensures
            r.assets_commit@.len() == 0,
            r.assets_update_date == now,
            r.update_checked_date == now,
    {
        Meta { assets_commit: String::new(), assets_update_date: now, update_checked_date: now }
    }
}

/// Where a refresh stands.
#[derive(Clone, Copy, Debug, PartialEq, Eq, Structural)]
pub enum Phase {
    /// No refresh is under way.
    Idle,
    /// The repository is taken forward to the newest commit.
    Updating,
    /// The repository is cloned anew.
    Recloning,
    /// The data files are read. `rewound` tells whether the repository was
    /// taken back for this.
    Loading { rewound: bool },
    /// The repository is taken back by one commit.
    Rewinding,
}

/// What the one who runs the refresh is to do next.
#[derive(Clone, Copy, Debug, PartialEq, Eq, Structural)]
pub enum RefreshAction {
    /// Nothing: the refresh is over, or did not start.
    Nothing,
    /// Fetch the newest commit and check it out.
    FastForward,
    /// Throw the repository away and clone it anew.
    Reclone,
    /// Read and check the data files.
    Load,
    /// Reset the repository to the parent of its commit.
    Rewind,
    /// Wipe the cache: a new snapshot was published.
    ClearCache,
}

/// What the last action gave.
pub enum StepOutcome {
    /// The action succeeded. (Not used for `Load`.)
    Done,
    /// The action failed.
    Failed,
    /// The data files were read: the content, and the id and time of the
    /// commit that they belong to.
    Loaded(SpriteCollabData, String, i64),
}

/// The snapshot that is served, with the state of its refresh.
#[derive(Debug)]
pub struct SpriteCollab {
    pub state: State,
    pub phase: Phase,
    pub meta: Meta,
    pub current_data: SpriteCollabData,
    /// True where the snapshot comes from a commit that the repository had to
    /// be taken back to.
    pub stale: bool,
}

/// The content of the cache after an action: empty after `ClearCache`, else
/// as it was.
pub open spec fn cache_after(action: RefreshAction, cache: Map<Seq<char>, Seq<char>>) -> Map<
    Seq<char>,
    Seq<char>,
> {
    if action == RefreshAction::ClearCache {
        Map::empty()
    } else {
        cache
    }
}

impl SpriteCollab {
    /// The state and the phase fit: a phase other than `Idle` goes with
    /// `Refreshing`, `Idle` with `Ready`.
    pub open spec fn wf(&self) -> bool {
        (self.state == State::Ready) == (self.phase == Phase::Idle)
    }

    /// The holder of a first snapshot.
    pub fn new(data: SpriteCollabData, meta: Meta, stale: bool) -> (r: SpriteCollab)
        ensures
            r.wf(),
            r.state == State::Ready,
            r.current_data == data,
            r.meta == meta,
            r.stale == stale,
    {
        SpriteCollab { state: State::Ready, phase: Phase::Idle, meta, current_data: data, stale }
    }

    /// Starts a refresh. Nothing happens where the lock could not be had in
    /// time or a refresh is under way; else the repository is to be taken
    /// forward.
    pub fn refresh(&mut self, lock_acquired: bool) -> (r: RefreshAction)
        requires
            old(self).wf(),
        ensures
            final(self).wf(),
            final(self).current_data == old(self).current_data,
            final(self).meta == old(self).meta,
            final(self).stale == old(self).stale,
            if lock_acquired && old(self).state == State::Ready {
                r == RefreshAction::FastForward && final(self).state == State::Refreshing
                    && final(self).phase == Phase::Updating
            } else {
                r == RefreshAction::Nothing && final(self).state == old(self).state && final(self).phase == old(self).phase
            },
    {
        if !lock_acquired {
            return RefreshAction::Nothing;
        }
        match self.state {
            State::Refreshing => RefreshAction::Nothing,
            State::Ready => {
                self.state = State::Refreshing;
                self.phase = Phase::Updating;
                RefreshAction::FastForward
            },
        }
    }

    /// The phase that follows an outcome, where the refresh goes on.
    pub open spec fn next_phase(phase: Phase, outcome: &StepOutcome) -> Option<Phase> {
        match phase {
            Phase::Idle => None,
            Phase::Updating => if outcome is Done {
                Some(Phase::Loading { rewound: false })
            } else {
                Some(Phase::Recloning)
            },
            Phase::Recloning => if outcome is Done {
                Some(Phase::Loading { rewound: false })
            } else {
                None
            },
            Phase::Loading { rewound } => if outcome is Loaded {
                None
            } else {
                Some(Phase::Rewinding)
            },
            Phase::Rewinding => if outcome is Done {
                Some(Phase::Loading { rewound: true })
            } else {
                None
            },
        }
    }

    /// The action that a phase asks for.
    pub open spec fn action_of(phase: Phase) -> RefreshAction {
        match phase {
            Phase::Idle => RefreshAction::Nothing,
            Phase::Updating => RefreshAction::FastForward,
            Phase::Recloning => RefreshAction::Reclone,
            Phase::Loading { .. } => RefreshAction::Load,
            Phase::Rewinding => RefreshAction::Rewind,
        }
    }

    /// A snapshot is published by this outcome in this phase.
    pub open spec fn publishes(phase: Phase, outcome: &StepOutcome) -> bool {
        phase is Loading && outcome is Loaded
    }

    /// Takes the refresh one step further with what the last action gave.
    ///
    /// A failed update leads to a fresh clone; data files that cannot be read
    /// lead to the parent commit, again and again; a failed clone or a commit
    /// without parent ends the refresh with the snapshot as it was. Data that
    /// was read is published: where it differs from the snapshot it takes
    /// its place and the cache is to be wiped; where it is the same the
    /// snapshot stays. Whenever the refresh ends, the time of the last look
    /// is set to `now`.
    pub fn step(&mut self, outcome: StepOutcome, now: i64) -> (r: RefreshAction)
        requires
            old(self).wf(),
        ensures
            final(self).wf(),
            old(self).phase == Phase::Idle ==> r == RefreshAction::Nothing && *final(self) == *old(self),
            old(self).phase != Phase::Idle ==> match Self::next_phase(old(self).phase, &outcome) {
                Some(p) => final(self).phase == p && r == Self::action_of(p) && final(self).state
                    == State::Refreshing && final(self).current_data == old(self).current_data
                    && final(self).meta == old(self).meta && final(self).stale == old(self).stale,
                None => final(self).phase == Phase::Idle && final(self).state == State::Ready
                    && final(self).meta.update_checked_date == now,
            },
            old(self).phase != Phase::Idle && !Self::publishes(old(self).phase, &outcome)
                && Self::next_phase(old(self).phase, &outcome) is None ==> r
                == RefreshAction::Nothing && final(self).current_data == old(self).current_data
                && final(self).stale == old(self).stale && final(self).meta.assets_commit == old(self).meta.assets_commit && final(self).meta.assets_update_date == old(self).meta.assets_update_date,
            Self::publishes(old(self).phase, &outcome) ==> match outcome {
                StepOutcome::Loaded(data, commit, time) => {
                    &&& final(self).meta.assets_commit == commit
                    &&& final(self).meta.assets_update_date == time
                    &&& final(self).stale == (old(self).phase matches Phase::Loading { rewound }
                        && rewound)
                    &&& final(self).current_data.same_as(&data)
                    &&& if data.same_as(&old(self).current_data) {
                        r == RefreshAction::Nothing && final(self).current_data == old(
                            self).current_data && final(self).current_data.same_as(
                            &old(self).current_data,
                        )
                    } else {
                        r == RefreshAction::ClearCache && final(self).current_data == data
                            && forall|cache: Map<Seq<char>, Seq<char>>| #[trigger]
                            cache_after(r, cache) == Map::<Seq<char>, Seq<char>>::empty()
                    }
                },
                _ => true,
            },
    {
        match self.phase {
            Phase::Idle => RefreshAction::Nothing,
            Phase::Updating => {
                match outcome {
                    StepOutcome::Done => {
                        self.phase = Phase::Loading { rewound: false };
                        RefreshAction::Load
                    },
                    _ => {
                        self.phase = Phase::Recloning;
                        RefreshAction::Reclone
                    },
                }
            },
            Phase::Recloning => {
                match outcome {
                    StepOutcome::Done => {
                        self.phase = Phase::Loading { rewound: false };
                        RefreshAction::Load
                    },
                    _ => {
                        self.give_up(now);
                        RefreshAction::Nothing
                    },
                }
            },
            Phase::Loading { rewound } => {
                match outcome {
                    StepOutcome::Loaded(data, commit, time) => {
                        let same = data.equals(&self.current_data);
                        self.meta.assets_commit = commit;
                        self.meta.assets_update_date = time;
                        self.meta.update_checked_date = now;
                        self.stale = rewound;
                        self.phase = Phase::Idle;
                        self.state = State::Ready;
                        if same {
                            proof {
                                lemma_same_symmetric(&data, &old(self).current_data);
                                lemma_same_reflexive(&old(self).current_data);
                            }
                            RefreshAction::Nothing
                        } else {
                            proof {
                                lemma_same_reflexive(&data);
                            }
                            self.current_data = data;
                            RefreshAction::ClearCache
                        }
                    },
                    _ => {
                        self.phase = Phase::Rewinding;
                        RefreshAction::Rewind
                    },
                }
            },
            Phase::Rewinding => {
                match outcome {
                    StepOutcome::Done => {
                        self.phase = Phase::Loading { rewound: true };
                        RefreshAction::Load
                    },
                    _ => {
                        self.give_up(now);
                        RefreshAction::Nothing
                    },
                }
            },
        }
    }

    fn give_up(&mut self, now: i64)
        ensures
            final(self).phase == Phase::Idle,
            final(self).state == State::Ready,
            final(self).meta.update_checked_date == now,
            final(self).meta.assets_commit == old(self).meta.assets_commit,
            final(self).meta.assets_update_date == old(self).meta.assets_update_date,
            final(self).current_data == old(self).current_data,
            final(self).stale == old(self).stale,
    {
        self.meta.update_checked_date = now;
        self.phase = Phase::Idle;
        self.state = State::Ready;
    }

    /// The snapshot that is served.
    pub fn data(&self) -> (r: &SpriteCollabData)
        ensures
            *r == self.current_data,
    {
        &self.current_data
    }

    /// What is known of the repository.
    pub fn with_meta(&self) -> (r: &Meta)
        ensures
            *r == self.meta,
    {
        &self.meta
    }
}

/// Every snapshot holds the same content as itself.
pub proof fn lemma_same_reflexive(a: &SpriteCollabData)
    ensures
        a.same_as(a),
{
    assert forall|p: Seq<i64>| #[trigger] crate::snapshot_eq::agree_at(a.tracker@, a.tracker@, p) by {}
}

/// Where one snapshot holds the same content as another, the other holds
/// the same content as the first.
pub proof fn lemma_same_symmetric(a: &SpriteCollabData, b: &SpriteCollabData)
    requires
        a.same_as(b),
    ensures
        b.same_as(a),
{
    assert forall|p: Seq<i64>| #[trigger] crate::snapshot_eq::agree_at(b.tracker@, a.tracker@, p) by {
        assert(crate::snapshot_eq::agree_at(a.tracker@, b.tracker@, p));
    }
}

} // verus!
