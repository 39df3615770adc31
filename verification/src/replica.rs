//! The unit of wire replication: a message together with the fresh
//! identifier and the monotone order the master assigned to it.

use vstd::prelude::*;

verus! {

/// A replica as the contracts see it: its identifier, order and payload.
pub ghost struct ReplicaModel {
    pub id: Seq<char>,
    pub order: u32,
    pub content: Seq<char>,
}

/// The unit of wire replication.  `id` dedupes; `order` defines the total
/// order the master assigned.
pub struct Replica {
    pub id: String,
    pub order: u32,
    pub content: String,
}

impl Replica {
    pub open spec fn view(self) -> ReplicaModel {
        ReplicaModel { id: self.id@, order: self.order, content: self.content@ }
    }

    /// Whether the two replicas carry the same identifier, order and
    /// payload.
    pub fn same_as(&self, other: &Replica) -> (r: bool)
        ensures
            r == (self@ == other@),
    {
        self.order == other.order && self.id == other.id && self.content == other.content
    }
}

impl Clone for Replica {
    fn clone(&self) -> (r: Self)
        ensures
            r == *self,
    {
        Replica { id: self.id.clone(), order: self.order, content: self.content.clone() }
    }
}

/// Relies on uuid's `Uuid::new_v4`, rendered through its hyphenated
/// `Display` form: a fresh random identifier of 36 characters.
#[verifier::external_body]
pub(crate) fn fresh_replica_id() -> (r: String)
    ensures
        r@.len() == 36,
{
    uuid::Uuid::new_v4().to_string()
}

} // verus!
