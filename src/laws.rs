use vstd::prelude::*;

use crate::model::{Component, Ledger};
use crate::show::{snapshot_of, Snapshot};
use crate::walk::{discovered, walk_spec, Walk};

verus! {

/// However the collections of a component reference one another, cycles and
/// shared collections included, a walk decodes each existing collection that
/// it finds exactly once: one position of `order` and one dump holds it.
pub proof fn lemma_walk_decodes_each_once(
    comp: Component,
    seed_maps: Seq<usize>,
    seed_vaults: Seq<usize>,
    w: Walk,
    x: usize,
)
    requires
        walk_spec(comp, seed_maps, seed_vaults, w),
        discovered(comp, seed_maps, w.order@, x),
        x < comp.collections@.len(),
    ensures
        exists|k: int|
            0 <= k < w.order@.len() && w.order@[k] == x && w.dumps@[k].id == x && forall|j: int|
                0 <= j < w.order@.len() && #[trigger] w.order@[j] == x ==> j == k,
{
    assert(w.order@.contains(x));
    let k = choose|k: int| 0 <= k < w.order@.len() && w.order@[k] == x;
    assert(w.dumps@[k].id == x);
}

/// A component whose decoded state references no collection and no vault
/// yields a snapshot with its direct state alone: no collection, no vault,
/// no holding, and no error.
pub proof fn lemma_no_references_direct_state_only(l: Ledger, c: Component, s: Snapshot)
    requires
        snapshot_of(l, c, s),
        c.state.is_some(),
        c.state.unwrap().collections@.len() == 0,
        c.state.unwrap().vaults@.len() == 0,
    ensures
        s.state.is_some(),
        s.walk.order@.len() == 0,
        s.walk.dumps@.len() == 0,
        s.walk.vaults@.len() == 0,
        s.holdings@.len() == 0,
        !s.internal_error,
{
    if s.walk.vaults@.len() > 0 {
        let v = s.walk.vaults@[0];
        assert(s.walk.vaults@.contains(v));
    }
}

} // verus!
