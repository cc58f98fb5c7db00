//! Credit ids. An id may be written as a Discord mention, `<@!123>` or
//! `<@123>`; the id is then the number alone.

use vstd::prelude::*;

verus! {

/// What `regex::Regex::captures` gives for the pattern and the text: the text
/// of the first capture group of the first match, or `None` where the
/// pattern is no regular expression, nothing matches, or the group took no
/// part in the match.
pub uninterp spec fn first_group(pattern: Seq<char>, text: Seq<char>) -> Option<Seq<char>>;

/// Compiles the pattern with `regex::Regex::new` and looks for its first
/// match with `captures`. The contract only names the result.
#[verifier::external_body]
fn find_first_group(pattern: &str, text: &str) -> (r: Option<String>)
    ensures
        match r {
            Some(g) => first_group(pattern@, text@) == Some(g@),
            None => first_group(pattern@, text@) is None,
        },
{
    let regex = regex::Regex::new(pattern).ok()?;
    let found = regex.captures(text)?;
    found.get(1).map(|m| m.as_str().to_string())
}

/// The pattern of a Discord mention: `<@`, perhaps `!`, digits, `>`. The
/// digits are the first group.
pub open spec fn mention_pattern() -> Seq<char> {
    "<@!?(\\d+)>"@
}

/// The credit id that a raw text stands for: the digits of the first Discord
/// mention in it, or the text itself where it holds no mention.
pub open spec fn clean_id(raw: Seq<char>) -> Seq<char> {
    match first_group(mention_pattern(), raw) {
        Some(id) => id,
        None => raw,
    }
}

/// Reduces a raw credit id to the bare id.
pub fn parse_credit_id(credit_id_raw: &str) -> (r: String)
    ensures
        r@ == clean_id(credit_id_raw@),
{
    match find_first_group("<@!?(\\d+)>", credit_id_raw) {
        Some(id) => id,
        None => String::from_str(credit_id_raw),
    }
}

/// One row of the list of credit names.
#[derive(Clone, Debug)]
pub struct CreditRow {
    pub credit_id: String,
    pub name: Option<String>,
    pub contact: Option<String>,
}

/// Marks the crate's record of changes to assets.
pub struct AssetActivity {}

} // verus!
