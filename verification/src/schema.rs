//! The values that the interface hands out: licenses, phases, bounties and
//! credits.

use vstd::prelude::*;
use vstd::string::StringSliceAdditionalSpecFns;
use std::collections::HashMap;
use crate::credit_names::{CreditNamesRow, opt_text};
use crate::forms::{copy_names, key_done};
use crate::maps::{keys_i32, keys_i64};
use crate::snapshot_eq::number_lists;
use crate::tracker::name_texts;
use crate::sprite_config::SpriteConfig;
use crate::text::same_text;

verus! {

/// A known license from a common list of options.
#[derive(Clone, Copy, Debug, PartialEq, Eq, Structural)]
pub enum KnownLicenseType {
    /// The license could not be determined.
    Unknown,
    /// The license is not specified / the work is unlicensed.
    Unspecified,
    /// The first license: when using, you must credit the contributors.
    PMDCollab1,
    /// The license for works between May 2023 and March 2024.
    PMDCollab2,
    /// Creative Commons Attribution-NonCommercial 4.0 International.
    CcByNc4,
}

/// A known license from a common list of options.
#[derive(Clone, Copy, Debug)]
pub struct KnownLicense {
    pub license: KnownLicenseType,
}

/// An unknown license. The name is the identifier for the license.
#[derive(Clone, Debug)]
pub struct OtherLicense {
    pub name: String,
}

/// The license that applies to the image of a sprite action or portrait
/// emotion.
#[derive(Clone, Debug)]
pub enum License {
    KnownLicense(KnownLicense),
    Other(OtherLicense),
}

/// The known license that a name stands for.
pub open spec fn known_license(name: Seq<char>) -> Option<KnownLicenseType> {
    if name == "Unknown"@ {
        Some(KnownLicenseType::Unknown)
    } else if name == "Unspecified"@ {
        Some(KnownLicenseType::Unspecified)
    } else if name == "PMDCollab_1"@ {
        Some(KnownLicenseType::PMDCollab1)
    } else if name == "PMDCollab_2"@ {
        Some(KnownLicenseType::PMDCollab2)
    } else if name == "CC_BY-NC_4"@ {
        Some(KnownLicenseType::CcByNc4)
    } else {
        None
    }
}

impl License {
    /// The license that a name stands for: one of the known ones, or the
    /// name itself.
    pub fn from(value: String) -> (r: License)
        ensures
            match known_license(value@) {
                Some(l) => r matches License::KnownLicense(k) && k.license == l,
                None => r matches License::Other(o) && o.name == value,
            },
    {
        if same_text(value.as_str(), "Unknown") {
            License::KnownLicense(KnownLicense { license: KnownLicenseType::Unknown })
        } else if same_text(value.as_str(), "Unspecified") {
            License::KnownLicense(KnownLicense { license: KnownLicenseType::Unspecified })
        } else if same_text(value.as_str(), "PMDCollab_1") {
            License::KnownLicense(KnownLicense { license: KnownLicenseType::PMDCollab1 })
        } else if same_text(value.as_str(), "PMDCollab_2") {
            License::KnownLicense(KnownLicense { license: KnownLicenseType::PMDCollab2 })
        } else if same_text(value.as_str(), "CC_BY-NC_4") {
            License::KnownLicense(KnownLicense { license: KnownLicenseType::CcByNc4 })
        } else {
            License::Other(OtherLicense { name: value })
        }
    }
}

/// The current phase of the sprite or portrait.
#[derive(Clone, Copy, Debug, PartialEq, Eq, Structural)]
pub enum Phase {
    Incomplete,
    Exists,
    Full,
    /// Returned if the phase value is non-standard.
    Unknown,
}

impl Phase {
    /// The phase that a number stands for.
    pub fn from(phase: i64) -> (r: Phase)
        ensures
            r == (if phase == 0 {
                Phase::Incomplete
            } else if phase == 1 {
                Phase::Exists
            } else if phase == 2 {
                Phase::Full
            } else {
                Phase::Unknown
            }),
    {
        if phase == 0 {
            Phase::Incomplete
        } else if phase == 1 {
            Phase::Exists
        } else if phase == 2 {
            Phase::Full
        } else {
            Phase::Unknown
        }
    }

    /// The number of a standard phase; -1 for `Unknown`.
    pub fn raw(&self) -> (r: i64)
        ensures
            r == (match self {
                Phase::Incomplete => 0i64,
                Phase::Exists => 1i64,
                Phase::Full => 2i64,
                Phase::Unknown => -1i64,
            }),
    {
        match self {
            Phase::Incomplete => 0,
            Phase::Exists => 1,
            Phase::Full => 2,
            Phase::Unknown => -1,
        }
    }
}

/// A single sprite for a single action.
#[derive(Clone, Debug)]
pub struct Sprite {
    pub action: String,
    pub locked: bool,
    pub anim_url: String,
    pub offsets_url: String,
    pub shadows_url: String,
}

/// A sprite, which is a copy of another sprite.
#[derive(Clone, Debug)]
pub struct CopyOf {
    pub action: String,
    pub locked: bool,
    pub copy_of: String,
}

/// A single portrait for a single emotion.
#[derive(Clone, Debug)]
pub struct Portrait {
    pub emotion: String,
    pub locked: bool,
    pub url: String,
}

/// A bounty for a non-standard phase.
#[derive(Clone, Copy, Debug, PartialEq, Eq, Structural)]
pub struct OtherBounty {
    pub phase: i32,
    pub bounty: i32,
}

/// The points that are rewarded when the portrait or sprite moves into a
/// phase.
#[derive(Clone, Debug)]
pub struct MonsterBounty {
    /// If true, the points are not handed out automatically.
    pub modreward: bool,
    pub incomplete: Option<i32>,
    pub exists: Option<i32>,
    pub full: Option<i32>,
    pub other: Vec<OtherBounty>,
}

/// The reward of a phase, cut to 32 bits.
pub open spec fn reward(spec: Map<i64, i64>, phase: i64) -> Option<i32> {
    if spec.contains_key(phase) {
        Some(spec[phase] as i32)
    } else {
        None
    }
}

/// A phase is one of the three standard ones.
pub open spec fn standard_phase(k: i64) -> bool {
    k == 0 || k == 1 || k == 2
}

/// `other` holds one bounty for every non-standard phase of the rewards, the
/// phases being `keys`.
pub open spec fn other_bounties(spec: Map<i64, i64>, keys: Seq<i64>, other: Seq<OtherBounty>) -> bool {
    &&& keys.no_duplicates()
    &&& keys.len() == other.len()
    &&& forall|k: i64|
        keys.contains(k) <==> #[trigger] spec.contains_key(k) && !standard_phase(k)
    &&& forall|i: int|
        0 <= i < keys.len() ==> #[trigger] other[i] == (OtherBounty {
            phase: keys[i] as i32,
            bounty: spec[keys[i]] as i32,
        })
}

/// The number cut to 32 bits.
pub(crate) fn cut(v: i64) -> (r: i32)
    ensures
        r == v as i32,
{
    #[verifier::truncate]
    (v as i32)
}

impl MonsterBounty {
    /// The bounty of a group: the rewards of the three standard phases, and
    /// one entry for every other phase that has a reward.
    pub fn new(modreward: bool, bounty_spec: &HashMap<i64, i64>) -> (r: MonsterBounty)
        ensures
            r.modreward == modreward,
            r.incomplete == reward(bounty_spec@, 0),
            r.exists == reward(bounty_spec@, 1),
            r.full == reward(bounty_spec@, 2),
            exists|keys: Seq<i64>| #[trigger] other_bounties(bounty_spec@, keys, r.other@),
    {
        broadcast use vstd::std_specs::hash::group_hash_axioms;
        let k0: i64 = 0;
        let k1: i64 = 1;
        let k2: i64 = 2;
        let incomplete = match bounty_spec.get(&k0) {
            Some(x) => Some(cut(*x)),
            None => None,
        };
        let exists = match bounty_spec.get(&k1) {
            Some(x) => Some(cut(*x)),
            None => None,
        };
        let full = match bounty_spec.get(&k2) {
            Some(x) => Some(cut(*x)),
            None => None,
        };
        let keys = keys_i64(bounty_spec);
        let mut other: Vec<OtherBounty> = Vec::new();
        let ghost mut used: Seq<i64> = Seq::empty();
        let mut i: usize = 0;
        while i < keys.len()
            invariant
                i <= keys.len(),
                keys@.no_duplicates(),
                keys@.to_set() == bounty_spec@.dom(),
                used.len() == other@.len(),
                used.no_duplicates(),
                forall|k: i64| #[trigger]
                    used.contains(k) ==> key_done(keys@, i as int, k) && !standard_phase(k),
                forall|k: i64| #[trigger]
                    key_done(keys@, i as int, k) && !standard_phase(k) ==> used.contains(k),
                forall|j: int|
                    0 <= j < used.len() ==> bounty_spec@.contains_key(#[trigger] used[j])
                        && other@[j] == (OtherBounty {
                        phase: used[j] as i32,
                        bounty: bounty_spec@[used[j]] as i32,
                    }),
            decreases keys.len() - i,
        {
            let k = keys[i];
            assert(keys@.to_set().contains(k));
            let ghost before = used;
            if k != 0 && k != 1 && k != 2 {
                match bounty_spec.get(&k) {
                    Some(v) => {
                        proof {
                            if before.contains(k) {
                                assert(key_done(keys@, i as int, k));
                                let j = choose|j: int| 0 <= j < i && #[trigger] keys@[j] == k;
                                assert(keys@[j] == keys@[i as int]);
                            }
                        }
                        other.push(OtherBounty { phase: cut(k), bounty: cut(*v) });
                        proof {
                            used = used.push(k);
                        }
                    },
                    None => {},
                }
            }
            proof {
                assert(keys@[i as int] == k);
                assert forall|x: i64| #[trigger] used.contains(x) implies key_done(
                    keys@,
                    i as int + 1,
                    x,
                ) && !standard_phase(x) by {
                    let w = choose|w: int| 0 <= w < used.len() && used[w] == x;
                    if w < before.len() {
                        assert(before[w] == x);
                        assert(before.contains(x));
                        assert(key_done(keys@, i as int, x));
                        let j = choose|j: int| 0 <= j < i && #[trigger] keys@[j] == x;
                        assert(0 <= j < i + 1 && keys@[j] == x);
                    } else {
                        assert(x == k);
                    }
                }
                assert forall|x: i64| #[trigger]
                    key_done(keys@, i as int + 1, x) && !standard_phase(x) implies used.contains(
                    x,
                ) by {
                    let j = choose|j: int| 0 <= j < i + 1 && #[trigger] keys@[j] == x;
                    if j < i {
                        assert(key_done(keys@, i as int, x));
                        assert(before.contains(x));
                        let w = choose|w: int| 0 <= w < before.len() && before[w] == x;
                        assert(used[w] == x);
                    } else {
                        assert(x == k);
                        assert(bounty_spec@.dom().contains(k));
                        assert(used[used.len() - 1] == x);
                    }
                }
            }
            i += 1;
        }
        proof {
            assert forall|k: i64|
                used.contains(k) <==> #[trigger] bounty_spec@.contains_key(k) && !standard_phase(
                    k,
                ) by {
                if bounty_spec@.contains_key(k) && !standard_phase(k) {
                    assert(keys@.to_set().contains(k));
                    let j = choose|j: int| 0 <= j < keys@.len() && keys@[j] == k;
                    assert(key_done(keys@, i as int, k));
                }
                if used.contains(k) {
                    assert(key_done(keys@, i as int, k));
                    let j = choose|j: int| 0 <= j < i && #[trigger] keys@[j] == k;
                    assert(keys@.to_set().contains(keys@[j]));
                }
            }
            assert(other_bounties(bounty_spec@, used, other@));
        }
        let r = MonsterBounty { modreward, incomplete, exists, full, other };
        assert(other_bounties(bounty_spec@, used, r.other@));
        assert(exists|keys: Seq<i64>| #[trigger] other_bounties(bounty_spec@, keys, r.other@));
        r
    }
}

/// A monster, by its id.
#[derive(Clone, Copy, Debug, PartialEq, Eq, Structural)]
pub struct Monster {
    pub id: i32,
}

/// An action mapped uniquely to an ID.
#[derive(Clone, Debug)]
pub struct ActionId {
    pub id: i32,
    pub name: String,
}

/// Configuration for this instance of the collection.
#[derive(Clone, Debug)]
pub struct Config {
    pub portrait_size: i32,
    pub portrait_tile_x: i32,
    pub portrait_tile_y: i32,
    pub emotions: Vec<String>,
    pub actions: Vec<String>,
    pub completion_emotions: Vec<Vec<i32>>,
    pub completion_actions: Vec<Vec<i32>>,
    pub action_map: Vec<ActionId>,
}

/// One of `map` under the id of the action, for every action of the
/// configuration's map, the ids being `keys`.
pub open spec fn action_entries(map: Map<i32, String>, keys: Seq<i32>, entries: Seq<ActionId>) -> bool {
    &&& keys.no_duplicates()
    &&& keys.to_set() == map.dom()
    &&& keys.len() == entries.len()
    &&& forall|i: int|
        0 <= i < keys.len() ==> (#[trigger] entries[i]).id == keys[i] && entries[i].name@
            == map[keys[i]]@
}

/// `r` is the configuration `c` as the interface hands it out: the same
/// sizes and lists, and the map of actions as a list with one entry for
/// each id.
pub open spec fn shows(c: &SpriteConfig, r: Config) -> bool {
    &&& r.portrait_size == c.portrait_size
    &&& r.portrait_tile_x == c.portrait_tile_x
    &&& r.portrait_tile_y == c.portrait_tile_y
    &&& name_texts(r.emotions@) == name_texts(c.emotions@)
    &&& name_texts(r.actions@) == name_texts(c.actions@)
    &&& number_lists(r.completion_emotions@) == number_lists(c.completion_emotions@)
    &&& number_lists(r.completion_actions@) == number_lists(c.completion_actions@)
    &&& exists|keys: Seq<i32>| #[trigger] action_entries(c.action_map@, keys, r.action_map@)
}

impl Config {
    /// The configuration as the interface hands it out: the map of actions
    /// becomes a list, in no particular order.
    pub fn from(c: &SpriteConfig) -> (r: Config)
        ensures
            shows(c, r),
    {
        broadcast use vstd::std_specs::hash::group_hash_axioms;
        let keys = keys_i32(&c.action_map);
        let mut action_map: Vec<ActionId> = Vec::new();
        let mut i: usize = 0;
        while i < keys.len()
            invariant
                i <= keys.len(),
                keys@.to_set() == c.action_map@.dom(),
                action_map@.len() == i,
                forall|k: int|
                    0 <= k < i ==> (#[trigger] action_map@[k]).id == keys@[k] && action_map@[k].name@
                        == c.action_map@[keys@[k]]@,
            decreases keys.len() - i,
        {
            let id = keys[i];
            assert(keys@.to_set().contains(id));
            match c.action_map.get(&id) {
                Some(name) => {
                    action_map.push(ActionId { id, name: name.clone() });
                },
                None => {
                    assert(false);
                },
            }
            i += 1;
        }
        let r = Config {
            portrait_size: c.portrait_size,
            portrait_tile_x: c.portrait_tile_x,
            portrait_tile_y: c.portrait_tile_y,
            emotions: copy_names(&c.emotions),
            actions: copy_names(&c.actions),
            completion_emotions: copy_lists(&c.completion_emotions),
            completion_actions: copy_lists(&c.completion_actions),
            action_map,
        };
        assert(action_entries(c.action_map@, keys@, r.action_map@));
        r
    }
}

fn copy_lists(v: &Vec<Vec<i32>>) -> (r: Vec<Vec<i32>>)
    ensures
        number_lists(r@) == number_lists(v@),
{
    let mut out: Vec<Vec<i32>> = Vec::new();
    let mut i: usize = 0;
    while i < v.len()
        invariant
            i <= v.len(),
            out@.len() == i,
            forall|k: int| 0 <= k < i ==> (#[trigger] out@[k])@ == v@[k]@,
        decreases v.len() - i,
    {
        out.push(crate::util::copy_path(v[i].as_slice()));
        i += 1;
    }
    assert(number_lists(out@) =~= number_lists(v@));
    out
}

/// An author: the credit id, and the name and contact where known.
#[derive(Clone, Debug)]
pub struct Credit {
    pub id: String,
    pub name: Option<String>,
    pub contact: Option<String>,
}

impl Credit {
    /// The credit that a row of the credit names stands for.
    pub fn from(c: &CreditNamesRow) -> (r: Credit)
        ensures
            r.id@ == c.credit_id@,
            opt_text(r.name) == opt_text(c.name),
            opt_text(r.contact) == opt_text(c.contact),
    {
        Credit {
            id: c.credit_id.clone(),
            name: match &c.name {
                Some(n) => Some(n.clone()),
                None => None,
            },
            contact: match &c.contact {
                Some(n) => Some(n.clone()),
                None => None,
            },
        }
    }

    /// The credit of a credit id: that of its row, or `None` where the credit
    /// names have no row for the id.
    pub fn new(credit_entry: Option<&CreditNamesRow>) -> (r: Option<Credit>)
        ensures
            match (r, credit_entry) {
                (Some(c), Some(row)) => c.id@ == row.credit_id@ && opt_text(c.name) == opt_text(
                    row.name,
                ) && opt_text(c.contact) == opt_text(row.contact),
                (None, None) => true,
                _ => false,
            },
    {
        match credit_entry {
            Some(row) => Some(Credit::from(row)),
            None => None,
        }
    }

    /// Discord ID or absentee ID.
    pub fn id(&self) -> (r: String)
        ensures
            r@ == self.id@,
    {
        self.id.clone()
    }

    /// The human-readable name of the author.
    pub fn name(&self) -> (r: Option<String>)
        ensures
            opt_text(r) == opt_text(self.name),
    {
        match &self.name {
            Some(n) => Some(n.clone()),
            None => None,
        }
    }

    /// Contact information for this author.
    pub fn contact(&self) -> (r: Option<String>)
        ensures
            opt_text(r) == opt_text(self.contact),
    {
        match &self.contact {
            Some(n) => Some(n.clone()),
            None => None,
        }
    }
}

/// The entry point of the queries.
#[derive(Clone, Copy, Debug)]
pub struct Query;

/// The longest query text that a search takes.
pub const MAX_QUERY_LEN: usize = 75;

impl Query {
    /// The configuration of this instance.
    pub fn config(c: &SpriteConfig) -> (r: Config)
        ensures
            shows(c, r),
    {
        Config::from(c)
    }

    /// Whether a search takes the query: it is at most 75 bytes long.
    pub fn accepts(query: &str) -> (r: bool)
        ensures
            r == (query.spec_bytes().len() <= MAX_QUERY_LEN),
    {
        query.as_bytes().len() <= MAX_QUERY_LEN
    }
}

} // verus!
