//! The engine that owns the contact store and the dialogue state, and
//! answers each inbound message with reply text.

use vstd::prelude::*;
use crate::store::ContactStore;
use crate::workflow::Workflows;

verus! {

pub struct Engine {
    pub store: ContactStore,
    pub flows: Workflows,
}

impl Engine {
    pub open spec fn wf(&self) -> bool {
        self.store.wf() && self.flows.wf()
    }

    pub fn new() -> (r: Engine)
        ensures
            r.wf(),
            r.store.users@.len() == 0,
            r.store.contacts@.len() == 0,
            r.store.next_id == 1,
            r.flows.deferred@.len() == 0,
            r.flows.pending@.len() == 0,
    {
        Engine { store: ContactStore::new(), flows: Workflows::new() }
    }
}

} // verus!
