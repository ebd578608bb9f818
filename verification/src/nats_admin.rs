//! Deleting a session.
use vstd::prelude::*;

verus! {

/// What a deletion took away.
#[derive(Clone, Copy, Debug, PartialEq, Eq, Structural)]
pub struct SessionDeleteResult {
    pub stream_deleted: bool,
    pub lease_deleted: bool,
}

impl SessionDeleteResult {
    pub fn removed_anything(&self) -> (r: bool)
        ensures
            r == (self.stream_deleted || self.lease_deleted),
    {
        self.stream_deleted || self.lease_deleted
    }
}

/// What stands under a key of a bucket.
#[derive(Clone, Copy, Debug, PartialEq, Eq, Structural)]
pub enum KeyState {
    /// The bucket does not exist.
    NoBucket,
    /// Nothing was ever put under the key.
    Absent,
    /// What was put under the key has been deleted.
    Deleted,
    /// A value.
    Put,
}

/// Whether there is a lease to delete. Only a value counts: a marker of an earlier deletion is
/// nothing that could be taken away.
pub fn lease_to_delete(state: KeyState) -> (r: bool)
    ensures
        r == (state == KeyState::Put),
{
    match state {
        KeyState::Put => true,
        _ => false,
    }
}

} // verus!
