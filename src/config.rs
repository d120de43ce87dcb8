use vstd::prelude::*;

use crate::model::Ledger;

verus! {

/// The one store of the process, with the flag the service keeps beside it.
/// All access to the store goes through `load` and `load_immutable`.
#[derive(Debug)]
pub struct Config {
    pub updated: bool,
    pub ledger: Ledger,
}

impl Config {
    /// A fresh configuration over an empty store.
    pub fn new() -> (r: Config)
        ensures
            !r.updated,
            r.ledger.packages@.len() == 0,
            r.ledger.components@.len() == 0,
            r.ledger.resources@.len() == 0,
    {
        Config {
            updated: false,
            ledger: Ledger { packages: Vec::new(), components: Vec::new(), resources: Vec::new() },
        }
    }

    /// Epochs are not tracked by this store: the configuration is unchanged.
    pub fn increment_epoch(&mut self)
        ensures
            *final(self) == *old(self),
    {
    }

    /// Exclusive access to the store.
    pub fn load(&mut self) -> (r: &mut Ledger)
        ensures
            *r == old(self).ledger,
            final(self).ledger == *final(r),
            final(self).updated == old(self).updated,
    {
        &mut self.ledger
    }

    /// Shared, read-only access to the store.
    pub fn load_immutable(&self) -> (r: &Ledger)
        ensures
            *r == self.ledger,
    {
        &self.ledger
    }
}

} // verus!
