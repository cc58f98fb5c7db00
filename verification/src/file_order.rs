//! The order of action and emotion names: names that the configuration lists
//! come first, in the configuration's order; all others follow, ordered as
//! text.

use vstd::prelude::*;
use std::cmp::Ordering;
use crate::text::same_text;

verus! {

/// The place of `name` in `order`; the last one where it occurs more than
/// once.
pub open spec fn rank_of(order: Seq<Seq<char>>, name: Seq<char>) -> Option<int>
    decreases order.len(),
{
    if order.len() == 0 {
        None
    } else if order.last() == name {
        Some(order.len() - 1)
    } else {
        rank_of(order.drop_last(), name)
    }
}

/// `a` is not behind `b` in the order of text: character by character, a
/// proper prefix first.
pub open spec fn text_le(a: Seq<char>, b: Seq<char>) -> bool
    decreases a.len(),
{
    if a.len() == 0 {
        true
    } else if b.len() == 0 {
        false
    } else if a[0] != b[0] {
        (a[0] as int) < (b[0] as int)
    } else {
        text_le(a.drop_first(), b.drop_first())
    }
}

/// `a` is not behind `b` in the order of names.
pub open spec fn name_le(order: Seq<Seq<char>>, a: Seq<char>, b: Seq<char>) -> bool {
    match (rank_of(order, a), rank_of(order, b)) {
        (Some(i), Some(j)) => i <= j,
        (Some(_), None) => true,
        (None, Some(_)) => false,
        (None, None) => text_le(a, b),
    }
}

/// The texts of a list of strings.
pub open spec fn texts(v: Seq<String>) -> Seq<Seq<char>> {
    Seq::new(v.len(), |i: int| v[i]@)
}

/// A name's rank, where it has one, is a place of `order` that holds the name.
pub proof fn lemma_rank_holds_name(order: Seq<Seq<char>>, name: Seq<char>)
    ensures
        rank_of(order, name) matches Some(i) ==> 0 <= i < order.len() && order[i] == name,
        rank_of(order, name) is None ==> forall|i: int| 0 <= i < order.len() ==> order[i] != name,
    decreases order.len(),
{
    if order.len() > 0 && order.last() != name {
        lemma_rank_holds_name(order.drop_last(), name);
        if rank_of(order, name) is None {
            assert forall|i: int| 0 <= i < order.len() implies order[i] != name by {
                if i < order.len() - 1 {
                    assert(order.drop_last()[i] == order[i]);
                }
            }
        }
    }
}

/// The order of text is reflexive.
pub proof fn lemma_text_le_refl(a: Seq<char>)
    ensures
        text_le(a, a),
    decreases a.len(),
{
    if a.len() > 0 {
        lemma_text_le_refl(a.drop_first());
    }
}

/// The order of text is total.
pub proof fn lemma_text_le_total(a: Seq<char>, b: Seq<char>)
    ensures
        text_le(a, b) || text_le(b, a),
    decreases a.len(),
{
    if a.len() > 0 && b.len() > 0 {
        if a[0] == b[0] {
            lemma_text_le_total(a.drop_first(), b.drop_first());
        }
    }
}

/// The order of text is transitive.
pub proof fn lemma_text_le_trans(a: Seq<char>, b: Seq<char>, c: Seq<char>)
    requires
        text_le(a, b),
        text_le(b, c),
    ensures
        text_le(a, c),
    decreases a.len(),
{
    if a.len() > 0 && b.len() > 0 && c.len() > 0 {
        if a[0] == b[0] && b[0] == c[0] {
            lemma_text_le_trans(a.drop_first(), b.drop_first(), c.drop_first());
        }
    }
}

/// Two texts that are each not behind the other are the same text.
pub proof fn lemma_text_le_antisym(a: Seq<char>, b: Seq<char>)
    requires
        text_le(a, b),
        text_le(b, a),
    ensures
        a == b,
    decreases a.len(),
{
    if a.len() > 0 && b.len() > 0 {
        assert(a[0] == b[0]);
        lemma_text_le_antisym(a.drop_first(), b.drop_first());
        assert(a =~= seq![a[0]] + a.drop_first());
        assert(b =~= seq![b[0]] + b.drop_first());
    } else {
        assert(a =~= b);
    }
}

/// The order of names is total and transitive, and only equal names are each
/// not behind the other: it is a total order, as a sort asks for.
pub proof fn lemma_name_le_total_order(order: Seq<Seq<char>>, a: Seq<char>, b: Seq<char>, c: Seq<char>)
    ensures
        name_le(order, a, a),
        name_le(order, a, b) || name_le(order, b, a),
        name_le(order, a, b) && name_le(order, b, c) ==> name_le(order, a, c),
        name_le(order, a, b) && name_le(order, b, a) ==> a == b,
{
    lemma_text_le_refl(a);
    lemma_text_le_total(a, b);
    lemma_rank_holds_name(order, a);
    lemma_rank_holds_name(order, b);
    lemma_rank_holds_name(order, c);
    if name_le(order, a, b) && name_le(order, b, c) {
        if rank_of(order, a) is None && rank_of(order, b) is None && rank_of(order, c) is None {
            lemma_text_le_trans(a, b, c);
        }
    }
    if name_le(order, a, b) && name_le(order, b, a) {
        if rank_of(order, a) is None && rank_of(order, b) is None {
            lemma_text_le_antisym(a, b);
        }
    }
}

/// The place of `name` in `order`, the last one where it occurs more than once.
pub fn find_rank(order: &Vec<String>, name: &str) -> (r: Option<usize>)
    ensures
        match r {
            Some(i) => rank_of(texts(order@), name@) == Some(i as int),
            None => rank_of(texts(order@), name@) is None,
        },
{
    let mut i: usize = order.len();
    assert(texts(order@).subrange(0, i as int) =~= texts(order@));
    while i > 0
        invariant
            i <= order.len(),
            rank_of(texts(order@), name@) == rank_of(texts(order@).subrange(0, i as int), name@),
        decreases i,
    {
        let ghost cur = texts(order@).subrange(0, i as int);
        assert(cur.last() == order@[i - 1]@);
        assert(cur.drop_last() =~= texts(order@).subrange(0, i - 1));
        if same_text(order[i - 1].as_str(), name) {
            return Some(i - 1);
        }
        i -= 1;
    }
    assert(texts(order@).subrange(0, 0) =~= Seq::<Seq<char>>::empty());
    None
}

/// Whether `a` is not behind `b` in the order of text.
pub fn text_not_after(a: &str, b: &str) -> (r: bool)
    ensures
        r == text_le(a@, b@),
{
    let la = a.unicode_len();
    let lb = b.unicode_len();
    let mut i: usize = 0;
    assert(a@.subrange(0, la as int) =~= a@);
    assert(b@.subrange(0, lb as int) =~= b@);
    while i < la
        invariant
            i <= la,
            i <= lb,
            la == a@.len(),
            lb == b@.len(),
            text_le(a@, b@) == text_le(
                a@.subrange(i as int, la as int),
                b@.subrange(i as int, lb as int),
            ),
        decreases la - i,
    {
        let ghost ra = a@.subrange(i as int, la as int);
        let ghost rb = b@.subrange(i as int, lb as int);
        if i >= lb {
            return false;
        }
        let ca = a.get_char(i);
        let cb = b.get_char(i);
        assert(ra[0] == ca && rb[0] == cb);
        if ca != cb {
            return (ca as u32) < (cb as u32);
        }
        assert(ra.drop_first() =~= a@.subrange(i + 1, la as int));
        assert(rb.drop_first() =~= b@.subrange(i + 1, lb as int));
        i += 1;
    }
    true
}

/// Whether `a` is not behind `b` in the order of names.
pub fn name_not_after(order: &Vec<String>, a: &str, b: &str) -> (r: bool)
    ensures
        r == name_le(texts(order@), a@, b@),
{
    match (find_rank(order, a), find_rank(order, b)) {
        (Some(i), Some(j)) => i <= j,
        (Some(_), None) => true,
        (None, Some(_)) => false,
        (None, None) => text_not_after(a, b),
    }
}

/// Compares two names: `Less` or `Equal` where the first is not behind the
/// second, `Equal` only where neither is behind the other.
pub fn name_order(order: &Vec<String>, a: &str, b: &str) -> (r: Ordering)
    ensures
        (r == Ordering::Less) == (name_le(texts(order@), a@, b@) && !name_le(texts(order@), b@, a@)),
        (r == Ordering::Equal) == (name_le(texts(order@), a@, b@) && name_le(texts(order@), b@, a@)),
{
    let forth = name_not_after(order, a, b);
    let back = name_not_after(order, b, a);
    proof {
        lemma_name_le_total_order(texts(order@), a@, b@, a@);
    }
    if forth && back {
        Ordering::Equal
    } else if forth {
        Ordering::Less
    } else {
        Ordering::Greater
    }
}

} // verus!
