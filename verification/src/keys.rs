//! Identities of the parties a deployment provisions keys for. Where the
//! keys are stored, and how they are read back, is the surrounding process's
//! concern; the pipeline itself only names parties.

use vstd::prelude::*;

verus! {

/// Which kind of party an identity belongs to.
#[derive(Clone, Copy, Debug, PartialEq, Eq, Structural)]
pub enum PartyType {
    Client,
    Server,
}

/// One provisioned identity: a party kind and its number.
#[derive(Clone, Copy, Debug, PartialEq, Eq, Structural)]
pub struct Party {
    pub party_type: PartyType,
    pub id: usize,
}

impl PartyType {
    /// The identity of the `id`-th party of this kind.
    pub fn with_id(self, id: usize) -> (r: Party)
        ensures
            r.party_type == self,
            r.id == id,
    {
        Party { party_type: self, id }
    }
}

} // verus!
