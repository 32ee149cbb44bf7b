//! The single persisted job-identifier record. The store keeps at most one
//! identifier: a save overwrites the previous record. The caller mirrors
//! the record to disk; the store itself carries the record's content and
//! its overwrite semantics.

use vstd::prelude::*;

verus! {

/// The one job-identifier record: the last saved identifier, or nothing.
pub struct JobStore {
    record: Option<String>,
}

/// What the record holds after a save, whatever it held before: exactly
/// the new identifier.
pub open spec fn saved_record(prev: Option<Seq<char>>, id: Seq<char>) -> Option<Seq<char>> {
    Some(id)
}

impl JobStore {
    /// The record's content: the saved identifier's characters, if any.
    pub closed spec fn record_spec(&self) -> Option<Seq<char>> {
        match self.record {
            Some(ref s) => Some(s@),
            None => None,
        }
    }

    /// An empty store: nothing saved yet.
    pub fn new() -> (s: JobStore)
        ensures
            s.record_spec() is None,
    {
        JobStore { record: None }
    }

    /// A store restored from an already-persisted record, as read back
    /// from disk by the caller.
    pub fn restore(record: Option<String>) -> (s: JobStore)
        ensures
            s.record_spec() == (match record {
                Some(id) => Some(id@),
                None => None::<Seq<char>>,
            }),
    {
        JobStore { record }
    }

    /// Overwrites the record with `id`; whatever was saved before is gone.
    pub fn save(&mut self, id: String)
        ensures
            final(self).record_spec() == saved_record(old(self).record_spec(), id@),
    {
        self.record = Some(id);
    }

    /// The last saved identifier, or nothing when no record exists.
    pub fn load(&self) -> (r: Option<&String>)
        ensures
            match r {
                Some(id) => self.record_spec() == Some(id@),
                None => self.record_spec() is None,
            },
    {
        self.record.as_ref()
    }

    /// Deletes the record, as cancellation does after removing the job.
    pub fn clear(&mut self)
        ensures
            final(self).record_spec() is None,
    {
        self.record = None;
    }
}

/// Store idempotence: after saving `x` the record reads back exactly `x`,
/// and saving `x` then `y` leaves exactly `y` — an overwrite, never an
/// append, whatever the store held before.
pub proof fn lemma_store_overwrite(prev: Option<Seq<char>>, x: Seq<char>, y: Seq<char>)
    ensures
        saved_record(prev, x) == Some(x),
        saved_record(saved_record(prev, x), y) == Some(y),
{
}

} // verus!
