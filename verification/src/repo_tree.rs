//! The files of one commit as plain values: for every file its path, the id
//! of its content, and the content itself where it was loaded.

use vstd::prelude::*;
use crate::text::{chars_of, ends_with_at, has_suffix, same_text};

verus! {

/// One file of a commit.
#[derive(Clone, Debug)]
pub struct TreeEntry {
    /// The path from the root of the repository, with `/` between its parts.
    pub path: String,
    /// The id of the content, in hexadecimal.
    pub oid: String,
    /// The content, where it was loaded.
    pub content: Option<Vec<u8>>,
}

/// The files of a commit.
#[derive(Clone, Debug)]
pub struct Tree {
    pub entries: Vec<TreeEntry>,
}

/// Whether the content of a file is needed to tell who is credited: it is
/// for the list of credit names and for every credit history.
pub fn holds_credits(path: &str) -> (r: bool)
    ensures
        r == (path@ == "credit_names.txt"@ || has_suffix(path@, "/credits.txt"@)),
{
    if same_text(path, "credit_names.txt") {
        return true;
    }
    let chars = chars_of(path);
    assert(chars@.subrange(0, chars@.len() as int) =~= chars@);
    ends_with_at(&chars, chars.len(), "/credits.txt")
}

/// The first place of a path among the entries; -1 where it is missing.
pub open spec fn entry_index(entries: Seq<TreeEntry>, path: Seq<char>) -> int
    decreases entries.len(),
{
    if entries.len() == 0 {
        -1
    } else {
        let before = entry_index(entries.drop_last(), path);
        if before >= 0 {
            before
        } else if entries.last().path@ == path {
            entries.len() - 1
        } else {
            -1
        }
    }
}

/// The index is a place of the entries that holds the path.
pub proof fn lemma_entry_index(entries: Seq<TreeEntry>, path: Seq<char>)
    ensures
        -1 <= entry_index(entries, path) < entries.len(),
        entry_index(entries, path) >= 0 ==> entries[entry_index(entries, path)].path@ == path,
        entry_index(entries, path) >= 0 ==> forall|j: int|
            0 <= j < entry_index(entries, path) ==> entries[j].path@ != path,
        entry_index(entries, path) < 0 ==> forall|j: int|
            0 <= j < entries.len() ==> entries[j].path@ != path,
    decreases entries.len(),
{
    if entries.len() > 0 {
        lemma_entry_index(entries.drop_last(), path);
        assert forall|j: int| 0 <= j < entries.len() - 1 implies entries.drop_last()[j]
            == entries[j] by {}
        if entry_index(entries.drop_last(), path) >= 0 {
            let i = entry_index(entries.drop_last(), path);
            assert(entries.drop_last()[i] == entries[i]);
            assert forall|j: int| 0 <= j < i implies entries[j].path@ != path by {
                assert(entries.drop_last()[j] == entries[j]);
            }
        } else {
            assert forall|j: int| 0 <= j < entries.len() - 1 implies entries[j].path@ != path by {
                assert(entries.drop_last()[j] == entries[j]);
            }
        }
    }
}

impl Tree {
    /// The id of the file at a path.
    pub open spec fn oid_at(&self, path: Seq<char>) -> Option<Seq<char>> {
        if entry_index(self.entries@, path) >= 0 {
            Some(self.entries@[entry_index(self.entries@, path)].oid@)
        } else {
            None
        }
    }

    /// The content of the file at a path, where the file is there and its
    /// content was loaded.
    pub open spec fn content_at(&self, path: Seq<char>) -> Option<Seq<u8>> {
        if entry_index(self.entries@, path) >= 0 {
            match self.entries@[entry_index(self.entries@, path)].content {
                Some(c) => Some(c@),
                None => None,
            }
        } else {
            None
        }
    }

    /// The place of a path among the entries.
    pub fn find(&self, path: &str) -> (r: Option<usize>)
        ensures
            match r {
                Some(i) => entry_index(self.entries@, path@) == i as int && i < self.entries@.len(),
                None => entry_index(self.entries@, path@) == -1,
            },
    {
        let mut i: usize = 0;
        proof {
            lemma_entry_index(self.entries@, path@);
        }
        while i < self.entries.len()
            invariant
                i <= self.entries.len(),
                forall|j: int| 0 <= j < i ==> self.entries@[j].path@ != path@,
            decreases self.entries.len() - i,
        {
            if same_text(self.entries[i].path.as_str(), path) {
                proof {
                    lemma_entry_index(self.entries@, path@);
                }
                return Some(i);
            }
            i += 1;
        }
        proof {
            lemma_entry_index(self.entries@, path@);
        }
        None
    }

    /// The id of the file at a path.
    pub fn oid_of(&self, path: &str) -> (r: Option<String>)
        ensures
            match r {
                Some(id) => self.oid_at(path@) == Some(id@),
                None => self.oid_at(path@) is None,
            },
    {
        match self.find(path) {
            Some(i) => Some(self.entries[i].oid.clone()),
            None => None,
        }
    }

    /// The content of the file at a path.
    pub fn content_of(&self, path: &str) -> (r: Option<&Vec<u8>>)
        ensures
            match r {
                Some(c) => self.content_at(path@) == Some(c@),
                None => self.content_at(path@) is None,
            },
    {
        match self.find(path) {
            Some(i) => match &self.entries[i].content {
                Some(c) => Some(c),
                None => None,
            },
            None => None,
        }
    }
}

} // verus!
