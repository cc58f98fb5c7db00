//! Monsters and their forms as the interface shows them: how a form is asked
//! for, and what is told of it.

use vstd::prelude::*;
use vstd::string::StringSliceAdditionalSpecFns;
use crate::activity::all_numbers;
use crate::cache::CacheBehaviour;
use crate::credit_names::{
    CreditNames,
    CreditNamesRow,
    name_models,
    names_index,
    opt_text,
    row_values,
    rows_at,
};
use crate::error::DataReadError;
use crate::decimal::{padded, push_padded, read_i32};
use crate::form_assets::{MonsterFormPortraits, MonsterFormSprites};
use crate::forms::{FormEntry, below, distinct_paths, has_path, wanted};
use crate::maps::keys_i64;
use crate::records::{char_views, split_chars, split_on};
use crate::schema::{Credit, MAX_QUERY_LEN, Monster, Query, cut};
use crate::search::{IndexEntry, search_result};
use crate::text::{append_str, chars_of, string_of};
use crate::tracker::{
    FormMatch,
    FoundForm,
    Group,
    MonsterFormCollector,
    Tracker,
    exact,
    name_texts,
    resolve,
};
use crate::tracker_search::{fuzzy_find_tracker, is_name_index};
use crate::util::{join_form, join_form_text, join_monster_and_form, join_monster_and_form_text};

verus! {

/// Why a question about a monster has no answer.
#[derive(Clone, Debug, PartialEq, Eq)]
pub enum QueryError {
    /// The tracker has no monster with this id.
    MonsterNotFound(i32),
    /// The path of a form is no list of numbers.
    InvalidPath,
    /// The text of a search is longer than a search takes.
    QueryTooLong,
    /// The credit names have no row for this credit id.
    UnknownCredit(String),
    /// A credit history cannot be read.
    DataRead(DataReadError),
}

/// A form of a monster: the monster, the path of the form, the names of the
/// named groups on that path, and the group.
pub struct MonsterForm<'a> {
    pub id: i32,
    pub form_id: Vec<i32>,
    pub name_path: Vec<String>,
    pub data: &'a Group,
}

/// The names with `sep` between them.
pub open spec fn joined_names(names: Seq<Seq<char>>, sep: char) -> Seq<char>
    decreases names.len(),
{
    if names.len() == 0 {
        Seq::empty()
    } else if names.len() == 1 {
        names[0]
    } else {
        joined_names(names.drop_last(), sep) + seq![sep] + names.last()
    }
}

impl<'a> MonsterForm<'a> {
    /// The id of the monster that the form belongs to.
    pub fn monster_id(&self) -> (r: i32)
        ensures
            r == self.id,
    {
        self.id
    }

    /// The path of the form without the monster, four digits per element
    /// with `/` between them.
    pub fn path(&self) -> (r: String)
        ensures
            r@ == join_form_text(self.form_id@, false, '/'),
    {
        join_form(self.form_id.as_slice(), false, '/')
    }

    /// The path of the form with the monster in front.
    pub fn full_path(&self) -> (r: String)
        ensures
            r@ == join_monster_and_form_text(self.id, self.form_id@, '/'),
    {
        join_monster_and_form(self.id, self.form_id.as_slice(), '/')
    }

    /// The name of the form.
    pub fn name(&self) -> (r: String)
        ensures
            r@ == self.data.name@,
    {
        self.data.name.clone()
    }

    /// The names on the path of the form, with blanks between them.
    pub fn full_name(&self) -> (r: String)
        ensures
            r@ == joined_names(name_texts(self.name_path@), ' '),
    {
        let mut out: Vec<char> = Vec::new();
        let mut i: usize = 0;
        assert(name_texts(self.name_path@).subrange(0, 0) =~= Seq::<Seq<char>>::empty());
        while i < self.name_path.len()
            invariant
                i <= self.name_path.len(),
                out@ == joined_names(name_texts(self.name_path@).subrange(0, i as int), ' '),
            decreases self.name_path.len() - i,
        {
            proof {
                let next = name_texts(self.name_path@).subrange(0, i as int + 1);
                assert(next.drop_last() =~= name_texts(self.name_path@).subrange(0, i as int));
                assert(next.last() == self.name_path@[i as int]@);
                if i == 0 {
                    assert(next[0] == self.name_path@[0]@);
                }
            }
            let ghost before = out@;
            if i > 0 {
                out.push(' ');
            }
            append_str(&mut out, self.name_path[i].as_str());
            proof {
                if i == 0 {
                    assert(out@ =~= self.name_path@[0]@);
                } else {
                    assert(out@ =~= before + seq![' '] + self.name_path@[i as int]@);
                }
            }
            i += 1;
        }
        assert(name_texts(self.name_path@).subrange(0, self.name_path@.len() as int) =~= name_texts(
            self.name_path@,
        ));
        string_of(&out)
    }

    /// Whether the form is a shiny one.
    pub fn is_shiny(&self) -> (r: bool)
        ensures
            r == (self.form_id@.len() > 1 && self.form_id@[1] == 1),
    {
        MonsterFormCollector::is_shiny(self.form_id.as_slice())
    }

    /// Whether the form is that of a female monster.
    pub fn is_female(&self) -> (r: bool)
        ensures
            r == (self.form_id@.len() > 2 && self.form_id@[2] == 2),
    {
        MonsterFormCollector::is_female(self.form_id.as_slice())
    }

    /// Whether the form is canon.
    pub fn canon(&self) -> (r: bool)
        ensures
            r == self.data.canon,
    {
        self.data.canon
    }

    /// The portraits of the form.
    pub fn portraits(&self) -> (r: MonsterFormPortraits<'_>)
        ensures
            *r.0 == *self.data,
            r.1 == self.id,
            r.2@ == self.form_id@,
    {
        MonsterFormPortraits(self.data, self.id, self.form_id.as_slice())
    }

    /// The sprites of the form.
    pub fn sprites(&self) -> (r: MonsterFormSprites<'_>)
        ensures
            *r.0 == *self.data,
            r.1 == self.id,
            r.2@ == self.form_id@,
    {
        MonsterFormSprites(self.data, self.id, self.form_id.as_slice())
    }
}

/// The needle of a form that is asked for by its number, its shininess and
/// its gender: the number and the shiny flag exactly; the female form
/// exactly, the male one with the form without gender as fallback.
pub open spec fn needle_for(form_id: i32, shiny: bool, female: bool) -> Seq<FormMatch> {
    seq![
        FormMatch::Exact(form_id),
        FormMatch::Exact(
            if shiny {
                1i32
            } else {
                0i32
            },
        ),
        if female {
            FormMatch::Exact(2)
        } else {
            FormMatch::Fallback(1)
        },
    ]
}

/// The parts of a text between slashes that are not empty.
pub open spec fn path_parts(parts: Seq<Seq<char>>) -> Seq<Seq<char>>
    decreases parts.len(),
{
    if parts.len() == 0 {
        Seq::empty()
    } else if parts.last().len() == 0 {
        path_parts(parts.drop_last())
    } else {
        path_parts(parts.drop_last()).push(parts.last())
    }
}

/// The form path that a text names: its numbers, with `/` between them;
/// slashes without a number between them count once.
pub open spec fn manual_path(text: Seq<char>) -> Option<Seq<i32>> {
    all_numbers(path_parts(split_on(text, '/')))
}

/// `form` is the found form `f` of the monster `id`.
pub open spec fn is_form(form: MonsterForm, id: i32, f: FoundForm) -> bool {
    form.id == id && form.form_id@ == f.path && name_texts(form.name_path@) == f.names && *form.data
        == f.group
}

/// `r` is what asking for a form of a monster gave.
pub open spec fn form_answer(
    r: Result<Option<MonsterForm>, QueryError>,
    tracker: Map<i64, Group>,
    id: i32,
    needle: Seq<FormMatch>,
) -> bool {
    if !tracker.contains_key(id as i64) {
        r == Err::<Option<MonsterForm>, QueryError>(QueryError::MonsterNotFound(id))
    } else {
        match (r, resolve(tracker[id as i64], needle)) {
            (Ok(Some(form)), Some(f)) => is_form(form, id, f),
            (Ok(None), None) => true,
            _ => false,
        }
    }
}

fn find<'a>(tracker: &'a Tracker, id: i32, needle: &Vec<FormMatch>) -> (r: Result<
    Option<MonsterForm<'a>>,
    QueryError,
>)
    ensures
        form_answer(r, tracker@, id, needle@),
{
    match MonsterFormCollector::collect(tracker, id) {
        None => Err(QueryError::MonsterNotFound(id)),
        Some(collector) => match collector.find_form(needle.as_slice()) {
            Some((path, name_path, v)) => Ok(
                Some(MonsterForm { id, form_id: path, name_path, data: v }),
            ),
            None => Ok(None),
        },
    }
}

impl Monster {
    /// The id of the monster as text of four digits.
    pub fn raw_id(&self) -> (r: String)
        ensures
            r@ == padded(self.id as int, 4),
    {
        let mut out: Vec<char> = Vec::new();
        push_padded(&mut out, self.id as i64, 4);
        string_of(&out)
    }

    /// The name of the monster.
    pub fn name(&self, tracker: &Tracker) -> (r: Result<String, QueryError>)
        ensures
            match r {
                Ok(name) => tracker@.contains_key(self.id as i64) && name@ == tracker@[self.id as i64].name@,
                Err(e) => !tracker@.contains_key(self.id as i64) && e == QueryError::MonsterNotFound(
                    self.id,
                ),
            },
    {
        match MonsterFormCollector::collect(tracker, self.id) {
            Some(c) => Ok(c.0.name.clone()),
            None => Err(QueryError::MonsterNotFound(self.id)),
        }
    }

    /// All forms of the monster: the monster itself first, then every group
    /// below it whose path does not end in 0, each once.
    pub fn forms<'a>(&self, tracker: &'a Tracker) -> (r: Result<Vec<MonsterForm<'a>>, QueryError>)
        ensures
            match r {
                Err(e) => !tracker@.contains_key(self.id as i64) && e == QueryError::MonsterNotFound(
                    self.id,
                ),
                Ok(forms) => {
                    let root = tracker@[self.id as i64];
                    &&& tracker@.contains_key(self.id as i64)
                    &&& forms@.len() > 0
                    &&& forms@[0].form_id@.len() == 0 && *forms@[0].data == root && name_texts(
                        forms@[0].name_path@,
                    ) == seq![root.name@]
                    &&& forall|i: int|
                        1 <= i < forms@.len() ==> below(
                            root,
                            Seq::empty(),
                            Seq::empty(),
                            form_entry(#[trigger] forms@[i]),
                        )
                    &&& forall|q: Seq<i32>| #[trigger]
                        wanted(root, q) ==> exists|i: int|
                            1 <= i < forms@.len() && (#[trigger] forms@[i]).form_id@ == q
                    &&& forall|i: int| 0 <= i < forms@.len() ==> (#[trigger] forms@[i]).id == self.id
                    &&& forall|i: int, j: int|
                        0 <= i < j < forms@.len() ==> (#[trigger] forms@[i]).form_id@ != (
                        #[trigger] forms@[j]).form_id@
                },
            },
    {
        match MonsterFormCollector::collect(tracker, self.id) {
            None => Err(QueryError::MonsterNotFound(self.id)),
            Some(collector) => {
                let mut entries = collector.forms();
                let ghost all = entries@;
                let ghost root = *collector.0;
                let mut out: Vec<MonsterForm<'a>> = Vec::new();
                let mut i: usize = 0;
                let n = entries.len();
                while entries.len() > 0
                    invariant
                        i + entries@.len() == all.len(),
                        all.len() == n,
                        entries@ == all.subrange(i as int, all.len() as int),
                        out@.len() == i,
                        forall|k: int|
                            0 <= k < i ==> form_entry(#[trigger] out@[k]) == all[k] && out@[k].id
                                == self.id,
                    decreases entries@.len(),
                {
                    let (form_id, name_path, data) = entries.remove(0);
                    proof {
                        assert(all.subrange(i as int, all.len() as int)[0] == all[i as int]);
                        assert(entries@ =~= all.subrange(i as int + 1, all.len() as int));
                    }
                    out.push(MonsterForm { id: self.id, form_id, name_path, data });
                    i += 1;
                }
                proof {
                    assert(distinct_paths(all, 0));
                    assert forall|i: int, j: int| 0 <= i < j < out@.len() implies (#[trigger] out@[i]).form_id@
                        != (#[trigger] out@[j]).form_id@ by {
                        assert(form_entry(out@[i]) == all[i]);
                        assert(form_entry(out@[j]) == all[j]);
                    }
                    assert forall|q: Seq<i32>| #[trigger] wanted(root, q) implies exists|i: int|
                        1 <= i < out@.len() && (#[trigger] out@[i]).form_id@ == q by {
                        assert(has_path(all, 1, q));
                        let k = choose|k: int| 1 <= k < all.len() && (#[trigger] all[k]).0@ == q;
                        assert(form_entry(out@[k]) == all[k]);
                    }
                }
                Ok(out)
            },
        }
    }

    /// A specific form of the monster.
    pub fn get<'a>(&self, tracker: &'a Tracker, form_id: i32, shiny: bool, female: bool) -> (r: Result<
        Option<MonsterForm<'a>>,
        QueryError,
    >)
        ensures
            form_answer(r, tracker@, self.id, needle_for(form_id, shiny, female)),
    {
        let mut needle: Vec<FormMatch> = Vec::new();
        needle.push(FormMatch::Exact(form_id));
        needle.push(FormMatch::Exact(if shiny { 1 } else { 0 }));
        needle.push(if female { FormMatch::Exact(2) } else { FormMatch::Fallback(1) });
        assert(needle@ =~= needle_for(form_id, shiny, female));
        find(tracker, self.id, &needle)
    }

    /// The form at a path that is given as text, the numbers of the path
    /// with `/` between them.
    pub fn manual<'a>(&self, tracker: &'a Tracker, path: &str) -> (r: Result<
        Option<MonsterForm<'a>>,
        QueryError,
    >)
        ensures
            match manual_path(path@) {
                None => r == Err::<Option<MonsterForm>, QueryError>(QueryError::InvalidPath),
                Some(p) => form_answer(r, tracker@, self.id, exact(p)),
            },
    {
        let chars = chars_of(path);
        let parts = split_chars(&chars, '/');
        let ghost texts = char_views(parts@);
        let mut needle: Vec<FormMatch> = Vec::new();
        let mut numbers: Vec<i32> = Vec::new();
        let mut i: usize = 0;
        assert(texts.subrange(0, 0) =~= Seq::<Seq<char>>::empty());
        while i < parts.len()
            invariant
                i <= parts.len(),
                texts == char_views(parts@),
                texts == split_on(path@, '/'),
                all_numbers(path_parts(texts.subrange(0, i as int))) == Some(numbers@),
                needle@ == exact(numbers@),
            decreases parts.len() - i,
        {
            proof {
                let next = texts.subrange(0, i as int + 1);
                let seen = path_parts(texts.subrange(0, i as int));
                assert(next.drop_last() =~= texts.subrange(0, i as int));
                assert(next.last() == parts@[i as int]@);
                assert(seen.push(next.last()).drop_last() =~= seen);
            }
            if parts[i].len() > 0 {
                match read_i32(&parts[i]) {
                    Some(v) => {
                        let ghost before = numbers@;
                        numbers.push(v);
                        needle.push(FormMatch::Exact(v));
                        assert(needle@ =~= exact(numbers@));
                    },
                    None => {
                        proof {
                            lemma_parts_stay_bad(texts, i as int + 1);
                        }
                        return Err(QueryError::InvalidPath);
                    },
                }
            }
            i += 1;
        }
        assert(texts.subrange(0, texts.len() as int) =~= texts);
        find(tracker, self.id, &needle)
    }
}

/// Once the parts of a beginning of a text hold a part that is no number,
/// those of the whole text do.
pub proof fn lemma_parts_stay_bad(parts: Seq<Seq<char>>, n: int)
    requires
        0 <= n <= parts.len(),
        all_numbers(path_parts(parts.subrange(0, n))) is None,
    ensures
        all_numbers(path_parts(parts)) is None,
    decreases parts.len() - n,
{
    if n < parts.len() {
        let next = parts.subrange(0, n + 1);
        let seen = path_parts(parts.subrange(0, n));
        assert(next.drop_last() =~= parts.subrange(0, n));
        assert(seen.push(next.last()).drop_last() =~= seen);
        lemma_parts_stay_bad(parts, n + 1);
    } else {
        assert(parts.subrange(0, n) =~= parts);
    }
}

/// The form as an entry of a list of forms.
pub open spec fn form_entry<'a>(form: MonsterForm<'a>) -> FormEntry<'a> {
    (form.form_id, form.name_path, form.data)
}

/// The ids as monsters.
pub open spec fn as_monsters(ids: Seq<i64>) -> Seq<Monster> {
    Seq::new(ids.len(), |i: int| Monster { id: ids[i] as i32 })
}

fn monsters_of(ids: &Vec<i64>) -> (r: Vec<Monster>)
    ensures
        r@ == as_monsters(ids@),
{
    let mut out: Vec<Monster> = Vec::new();
    let mut i: usize = 0;
    while i < ids.len()
        invariant
            i <= ids.len(),
            out@.len() == i,
            forall|k: int| 0 <= k < i ==> out@[k] == (Monster { id: ids@[k] as i32 }),
        decreases ids.len() - i,
    {
        out.push(Monster { id: cut(ids[i]) });
        i += 1;
    }
    assert(out@ =~= as_monsters(ids@));
    out
}

/// The monsters of `keys` that the filter lets through, in the order of
/// `keys`.
pub open spec fn filtered(keys: Seq<i64>, filter: Option<Seq<i32>>) -> Seq<Monster>
    decreases keys.len(),
{
    if keys.len() == 0 {
        Seq::empty()
    } else {
        let rest = filtered(keys.drop_last(), filter);
        let id = keys.last() as i32;
        let wanted = match filter {
            Some(f) => f.contains(id),
            None => true,
        };
        if wanted {
            rest.push(Monster { id })
        } else {
            rest
        }
    }
}

fn has_number(v: &Vec<i32>, x: i32) -> (r: bool)
    ensures
        r == v@.contains(x),
{
    let mut i: usize = 0;
    while i < v.len()
        invariant
            i <= v.len(),
            forall|k: int| 0 <= k < i ==> v@[k] != x,
        decreases v.len() - i,
    {
        if v[i] == x {
            return true;
        }
        i += 1;
    }
    false
}

/// The sequence that an optional list holds.
pub open spec fn opt_numbers(filter: Option<&Vec<i32>>) -> Option<Seq<i32>> {
    match filter {
        Some(f) => Some(f@),
        None => None,
    }
}

/// A search gave results that are worth keeping: there is at least one.
pub open spec fn worth_caching<T>(r: CacheBehaviour<Vec<T>>) -> bool {
    match r {
        CacheBehaviour::Cache(v) => v@.len() > 0,
        CacheBehaviour::NoCache(v) => v@.len() == 0,
    }
}

impl Query {
    /// The monsters of the tracker, all of them or those that the filter
    /// names; in the order of some list of the tracker's ids.
    pub fn monster(tracker: &Tracker, filter: Option<&Vec<i32>>) -> (r: Vec<Monster>)
        ensures
            exists|keys: Seq<i64>|
                keys.no_duplicates() && keys.to_set() == tracker@.dom() && r@ == #[trigger] filtered(
                    keys,
                    opt_numbers(filter),
                ),
    {
        let keys = keys_i64(tracker);
        let mut out: Vec<Monster> = Vec::new();
        let mut i: usize = 0;
        assert(keys@.subrange(0, 0) =~= Seq::<i64>::empty());
        while i < keys.len()
            invariant
                i <= keys.len(),
                out@ == filtered(keys@.subrange(0, i as int), opt_numbers(filter)),
            decreases keys.len() - i,
        {
            proof {
                let next = keys@.subrange(0, i as int + 1);
                assert(next.drop_last() =~= keys@.subrange(0, i as int));
                assert(next.last() == keys@[i as int]);
            }
            let id = cut(keys[i]);
            let wanted = match filter {
                Some(f) => has_number(f, id),
                None => true,
            };
            if wanted {
                out.push(Monster { id });
            }
            i += 1;
        }
        assert(keys@.subrange(0, keys@.len() as int) =~= keys@);
        assert(out@ == filtered(keys@, opt_numbers(filter)));
        out
    }

    /// Searches the monsters by name. A text of more than 75 bytes is not
    /// searched for. Results are to be cached unless there are none.
    pub fn search_monster(tracker: &Tracker, monster_name: &str) -> (r: Result<
        CacheBehaviour<Vec<Monster>>,
        QueryError,
    >)
        ensures
            match r {
                Err(e) => e == QueryError::QueryTooLong && monster_name.spec_bytes().len()
                    > MAX_QUERY_LEN,
                Ok(found) => monster_name.spec_bytes().len() <= MAX_QUERY_LEN && worth_caching(found)
                    && exists|index: Seq<IndexEntry>| #[trigger]
                    is_name_index(tracker@, index) && found.value()@ == as_monsters(
                        search_result(index, monster_name@),
                    ),
            },
    {
        if !Query::accepts(monster_name) {
            return Err(QueryError::QueryTooLong);
        }
        let ids = fuzzy_find_tracker(tracker, monster_name);
        let found = monsters_of(&ids);
        if found.len() > 0 {
            Ok(CacheBehaviour::Cache(found))
        } else {
            Ok(CacheBehaviour::NoCache(found))
        }
    }

    /// The credits of a list of rows.
    pub open spec fn credits_of(rows: Seq<CreditNamesRow>, out: Seq<Credit>) -> bool {
        out.len() == rows.len() && forall|i: int|
            0 <= i < rows.len() ==> (#[trigger] out[i]).id@ == rows[i].credit_id@
                && opt_text(out[i].name) == opt_text(
                rows[i].name,
            ) && opt_text(out[i].contact) == opt_text(
                rows[i].contact,
            )
    }

    /// Searches the credit names by id and name. A text of more than 75
    /// bytes is not searched for. Results are to be cached unless there are
    /// none.
    pub fn search_credit(names: &CreditNames, query: &str) -> (r: Result<
        CacheBehaviour<Vec<Credit>>,
        QueryError,
    >)
        ensures
            match r {
                Err(e) => e == QueryError::QueryTooLong && query.spec_bytes().len() > MAX_QUERY_LEN,
                Ok(found) => query.spec_bytes().len() <= MAX_QUERY_LEN && worth_caching(found)
                    && Self::credits_of(
                    rows_at(
                        names.data@,
                        search_result(names_index(name_models(names.data@)), query@),
                    ),
                    found.value()@,
                ),
            },
    {
        if !Query::accepts(query) {
            return Err(QueryError::QueryTooLong);
        }
        let rows = names.fuzzy_find(query);
        let mut found: Vec<Credit> = Vec::new();
        let mut i: usize = 0;
        while i < rows.len()
            invariant
                i <= rows.len(),
                found@.len() == i,
                forall|k: int|
                    0 <= k < i ==> (#[trigger] found@[k]).id@ == row_values(rows@)[k].credit_id@
                        && opt_text(found@[k].name)
                        == opt_text(row_values(rows@)[k].name)
                        && opt_text(found@[k].contact)
                        == opt_text(row_values(rows@)[k].contact),
            decreases rows.len() - i,
        {
            assert(row_values(rows@)[i as int] == *rows@[i as int]);
            found.push(Credit::from(rows[i]));
            i += 1;
        }
        if found.len() > 0 {
            Ok(CacheBehaviour::Cache(found))
        } else {
            Ok(CacheBehaviour::NoCache(found))
        }
    }

    /// The credits of all rows of the credit names.
    pub fn credit(names: &CreditNames) -> (r: Vec<Credit>)
        ensures
            Self::credits_of(names.data@, r@),
    {
        let mut out: Vec<Credit> = Vec::new();
        let mut i: usize = 0;
        while i < names.data.len()
            invariant
                i <= names.data.len(),
                out@.len() == i,
                forall|k: int|
                    0 <= k < i ==> (#[trigger] out@[k]).id@ == names.data@[k].credit_id@
                        && opt_text(out@[k].name)
                        == opt_text(names.data@[k].name)
                        && opt_text(out@[k].contact)
                        == opt_text(names.data@[k].contact),
            decreases names.data.len() - i,
        {
            out.push(Credit::from(&names.data[i]));
            i += 1;
        }
        out
    }
}

} // verus!
