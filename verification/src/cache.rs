//! The read-through cache in front of the derived assets: what is decided on
//! a hit, on a miss, and after the producer has run.

use vstd::prelude::*;

verus! {

/// What a producer hands back: the value, and whether it is to be stored.
#[derive(Clone, Debug)]
pub enum CacheBehaviour<T> {
    /// Cache this value.
    Cache(T),
    /// Do not cache this value.
    NoCache(T),
}

impl<T> CacheBehaviour<T> {
    /// The value.
    pub open spec fn value(self) -> T {
        match self {
            CacheBehaviour::Cache(v) => v,
            CacheBehaviour::NoCache(v) => v,
        }
    }

    /// The value, whether it is to be stored or not.
    pub fn into_inner(self) -> (r: T)
        ensures
            r == self.value(),
    {
        match self {
            CacheBehaviour::Cache(v) => v,
            CacheBehaviour::NoCache(v) => v,
        }
    }

    /// Whether the value is to be stored.
    pub fn should_cache(&self) -> (r: bool)
        ensures
            r == (self is Cache),
    {
        match self {
            CacheBehaviour::Cache(_) => true,
            CacheBehaviour::NoCache(_) => false,
        }
    }
}

/// What is to be done after the store was asked for a key.
#[derive(Clone, Debug)]
pub enum AfterLookup {
    /// The store had the key: its text is decoded and returned; the producer
    /// does not run.
    Decode(String),
    /// The store did not have the key: the producer runs.
    Produce,
}

/// Decides what follows a lookup.
pub fn after_lookup(found: Option<String>) -> (r: AfterLookup)
    ensures
        match found {
            Some(text) => r == AfterLookup::Decode(text),
            None => r is Produce,
        },
{
    match found {
        Some(text) => AfterLookup::Decode(text),
        None => AfterLookup::Produce,
    }
}

/// What the producer gave, and whether the store is to keep it.
pub struct Produced<T, E> {
    /// What the caller gets.
    pub result: Result<T, E>,
    /// Whether the value is to be written to the store under the key.
    pub store: bool,
}

/// Decides what follows the producer: its value or error goes to the caller;
/// the value is stored only where the producer asked for it.
pub fn after_produce<T, E>(produced: Result<CacheBehaviour<T>, E>) -> (r: Produced<T, E>)
    ensures
        match produced {
            Ok(b) => r.result == Ok::<T, E>(b.value()) && r.store == (b is Cache),
            Err(e) => r.result == Err::<T, E>(e) && !r.store,
        },
{
    match produced {
        Ok(CacheBehaviour::Cache(v)) => Produced { result: Ok(v), store: true },
        Ok(CacheBehaviour::NoCache(v)) => Produced { result: Ok(v), store: false },
        Err(e) => Produced { result: Err(e), store: false },
    }
}

/// The text to write to the store, if any: the encoded value where the value
/// is to be stored and could be encoded.
pub fn text_to_store(store: bool, encoded: Option<String>) -> (r: Option<String>)
    ensures
        r == (if store {
            encoded
        } else {
            None
        }),
{
    if store {
        encoded
    } else {
        None
    }
}

/// Joins the error of the store with the error of the producer, where both
/// are of one type.
pub fn cached_may_fail_chain<T, E>(r: Result<Result<T, E>, E>) -> (out: Result<T, E>)
    ensures
        out == (match r {
            Ok(Ok(v)) => Ok::<T, E>(v),
            Ok(Err(e)) => Err::<T, E>(e),
            Err(e) => Err::<T, E>(e),
        }),
{
    match r {
        Ok(Ok(v)) => Ok(v),
        Ok(Err(e)) => Err(e),
        Err(e) => Err(e),
    }
}

} // verus!
