//! Durable rooms, as they are first stored.
use crate::user::{is_hyphenated_uuid, random_lookup_id};
use vstd::prelude::*;

verus! {

/// A room about to be stored, under a fresh random public id.
pub struct NewBreakout {
    pub lookup_id: String,
}

impl Default for NewBreakout {
    fn default() -> (r: NewBreakout)
        ensures
            is_hyphenated_uuid(r.lookup_id@),
    {
        NewBreakout { lookup_id: random_lookup_id() }
    }
}

} // verus!
