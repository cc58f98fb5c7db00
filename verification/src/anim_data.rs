//! Animation metadata of a form: the shadow size and the list of animations.

use vstd::prelude::*;
use crate::util::{join_monster_and_form_text, push_monster_and_form};
use crate::text::{append_str, string_of};

verus! {

/// The frame durations of an animation.
#[derive(Clone, Debug)]
pub struct Durations {
    pub duration: Option<Vec<i64>>,
}

/// One animation. One with `copy_of` has no frames of its own: it stands for
/// the animation named there.
#[derive(Clone, Debug)]
pub struct Anim {
    pub name: String,
    pub index: Option<i64>,
    pub frame_width: Option<i64>,
    pub frame_height: Option<i64>,
    pub durations: Option<Durations>,
    pub rush_frame: Option<i64>,
    pub hit_frame: Option<i64>,
    pub return_frame: Option<i64>,
    pub copy_of: Option<String>,
}

/// The animations of a form, in the file's order.
#[derive(Clone, Debug)]
pub struct Anims {
    pub anim: Vec<Anim>,
}

/// The animation metadata of a form.
#[derive(Clone, Debug)]
pub struct AnimDataXml {
    pub shadow_size: i64,
    pub anims: Anims,
}

/// The first place among `pairs` whose name is `name`.
pub open spec fn copy_index(pairs: Seq<(String, String)>, name: Seq<char>) -> Option<int>
    decreases pairs.len(),
{
    if pairs.len() == 0 {
        None
    } else {
        match copy_index(pairs.drop_last(), name) {
            Some(i) => Some(i),
            None => if pairs.last().0@ == name {
                Some(pairs.len() - 1)
            } else {
                None
            },
        }
    }
}

/// The copies among the first `n` animations as pairs of texts: each name
/// once, at the place where it first occurred, with the target that was
/// named last.
pub open spec fn action_copies(anims: Seq<Anim>) -> Seq<(Seq<char>, Seq<char>)>
    decreases anims.len(),
{
    if anims.len() == 0 {
        Seq::empty()
    } else {
        let rest = action_copies(anims.drop_last());
        let a = anims.last();
        match a.copy_of {
            None => rest,
            Some(target) => crate::ordered::upserted(rest, a.name@, target@),
        }
    }
}

/// The texts of a list of pairs of strings.
pub open spec fn pair_texts(pairs: Seq<(String, String)>) -> Seq<(Seq<char>, Seq<char>)> {
    Seq::new(pairs.len(), |i: int| (pairs[i].0@, pairs[i].1@))
}

/// The text of the place where the animation metadata of a form lies, below
/// the working directory.
pub open spec fn anim_data_path(monster_idx: i32, path_to_form: Seq<i32>) -> Seq<char> {
    "spritecollab/sprite/"@ + join_monster_and_form_text(monster_idx, path_to_form, '/')
        + "/AnimData.xml"@
}

impl AnimDataXml {
    /// Where the animation metadata of a form lies, below the working
    /// directory.
    pub fn path_for_form(monster_idx: i32, path_to_form: &[i32]) -> (r: String)
        ensures
            r@ == anim_data_path(monster_idx, path_to_form@),
    {
        let mut out: Vec<char> = Vec::new();
        append_str(&mut out, "spritecollab/sprite/");
        push_monster_and_form(&mut out, monster_idx, path_to_form, '/');
        append_str(&mut out, "/AnimData.xml");
        assert(out@ =~= anim_data_path(monster_idx, path_to_form@));
        string_of(&out)
    }

    /// The animations that are copies, each with the name of the animation it
    /// copies.
    pub fn get_action_copies(&self) -> (r: Vec<(String, String)>)
        ensures
            pair_texts(r@) == action_copies(self.anims.anim@),
    {
        let mut out: Vec<(String, String)> = Vec::new();
        let mut i: usize = 0;
        while i < self.anims.anim.len()
            invariant
                i <= self.anims.anim.len(),
                pair_texts(out@) == action_copies(self.anims.anim@.subrange(0, i as int)),
            decreases self.anims.anim.len() - i,
        {
            let anim = &self.anims.anim[i];
            proof {
                let next = self.anims.anim@.subrange(0, i as int + 1);
                assert(next.drop_last() =~= self.anims.anim@.subrange(0, i as int));
                assert(next.last() == *anim);
            }
            match &anim.copy_of {
                None => {},
                Some(target) => {
                    let ghost before = pair_texts(out@);
                    let found = find_pair(&out, anim.name.as_str());
                    match found {
                        Some(k) => {
                            out[k] = (anim.name.clone(), target.clone());
                            assert(pair_texts(out@) =~= before.update(
                                k as int,
                                (anim.name@, target@),
                            ));
                        },
                        None => {
                            out.push((anim.name.clone(), target.clone()));
                            assert(pair_texts(out@) =~= before.push((anim.name@, target@)));
                        },
                    }
                },
            }
            i += 1;
        }
        assert(self.anims.anim@.subrange(0, self.anims.anim.len() as int) =~= self.anims.anim@);
        out
    }
}

/// The first place among `pairs` whose name is `name`.
pub(crate) fn find_pair(pairs: &Vec<(String, String)>, name: &str) -> (r: Option<usize>)
    ensures
        match r {
            Some(i) => crate::ordered::key_index(pair_texts(pairs@), name@) == Some(i as int) && i
                < pairs.len(),
            None => crate::ordered::key_index(pair_texts(pairs@), name@) is None,
        },
{
    let mut i: usize = 0;
    proof {
        crate::ordered::lemma_key_index(pair_texts(pairs@), name@);
    }
    while i < pairs.len()
        invariant
            i <= pairs.len(),
            forall|j: int| 0 <= j < i ==> pair_texts(pairs@)[j].0 != name@,
        decreases pairs.len() - i,
    {
        if crate::text::same_text(pairs[i].0.as_str(), name) {
            proof {
                crate::ordered::lemma_key_index(pair_texts(pairs@), name@);
                assert(pair_texts(pairs@)[i as int].0 == name@);
            }
            return Some(i);
        }
        i += 1;
    }
    proof {
        crate::ordered::lemma_key_index(pair_texts(pairs@), name@);
    }
    None
}

} // verus!
