use vstd::prelude::*;

use crate::errors::RpcError;
use crate::ledger::{component_index, dump_package, get_component, code_size};
use crate::model::{Address, Component, Ledger};
use crate::resources::{dump_resources, holding_of, vault_failed, vault_resolves, Holding};
use crate::walk::{walk_collections, walk_spec, Walk};

verus! {

/// The state of one component, as far as it could be decoded.
#[derive(Debug)]
pub struct Snapshot {
    pub package_address: String,
    pub blueprint_name: String,
    /// The decoded top-level state; `None` where it failed validation, and
    /// then nothing further was walked.
    pub state: Option<String>,
    pub walk: Walk,
    /// One entry per discovered vault, in the order of `walk.vaults`.
    pub holdings: Vec<Option<Holding>>,
    /// Some decode or lookup failed during the walk.
    pub internal_error: bool,
}

/// `r` is the snapshot of `c`.
pub open spec fn snapshot_of(l: Ledger, c: Component, r: Snapshot) -> bool {
    &&& r.package_address@ == c.package_address@
    &&& r.blueprint_name@ == c.blueprint_name@
    &&& match c.state {
        None => {
            &&& r.state.is_none()
            &&& r.walk.order@.len() == 0
            &&& r.walk.vaults@.len() == 0
            &&& r.holdings@.len() == 0
            &&& r.internal_error
        },
        Some(s) => {
            &&& r.state.is_some() && r.state.unwrap()@ == s.text@
            &&& walk_spec(c, s.collections@, s.vaults@, r.walk)
            &&& r.holdings@.len() == r.walk.vaults@.len()
            &&& forall|k: int| 0 <= k < r.holdings@.len() ==> (#[trigger] r.holdings@[k]).is_some()
                == vault_resolves(c, l, r.walk.vaults@[k])
            &&& forall|k: int| 0 <= k < r.holdings@.len() && (#[trigger] r.holdings@[k]).is_some()
                ==> holding_of(c, l, r.walk.vaults@[k], r.holdings@[k].unwrap())
            &&& r.internal_error == (r.walk.failed || exists|k: int|
                0 <= k < r.walk.vaults@.len() && vault_failed(c, l, #[trigger] r.walk.vaults@[k]))
        },
    }
}

/// Builds the snapshot of the component under `a`: its metadata, its decoded
/// state, every collection reachable from that state and every vault found on
/// the way. `None` where no component is stored under `a`.
pub fn dump_component(l: &Ledger, a: u64) -> (r: Option<Snapshot>)
    ensures
        r.is_none() == component_index(*l, a).is_none(),
        r.is_some() ==> snapshot_of(*l, l.components@[component_index(*l, a).unwrap()], r.unwrap()),
{
    let c = match get_component(l, a) {
        Some(c) => c,
        None => return None,
    };
    match &c.state {
        None => Some(Snapshot {
            package_address: c.package_address.clone(),
            blueprint_name: c.blueprint_name.clone(),
            state: None,
            walk: Walk { order: Vec::new(), dumps: Vec::new(), vaults: Vec::new(), failed: false },
            holdings: Vec::new(),
            internal_error: true,
        }),
        Some(s) => {
            let walk = walk_collections(c, &s.collections, &s.vaults);
            let (holdings, bad) = dump_resources(c, l, &walk.vaults);
            let internal_error = walk.failed || bad;
            Some(Snapshot {
                package_address: c.package_address.clone(),
                blueprint_name: c.blueprint_name.clone(),
                state: Some(s.text.clone()),
                walk,
                holdings,
                internal_error,
            })
        },
    }
}

/// What `show` returns for each kind of address.
#[derive(Debug)]
pub enum Shown {
    Package { bytes: usize },
    Component(Snapshot),
}

/// Inspects the entity under `addr`. A resource definition address is
/// refused as a parse error; a package with no code counts as absent; a
/// component whose walk hit a decode failure is an internal error.
pub fn show(l: &Ledger, addr: Address) -> (r: Result<Shown, RpcError>)
    ensures
        addr matches Address::ResourceDef(_) ==> (r matches Err(e) && e == RpcError::Parse),
        addr matches Address::Package(p) ==> if code_size(*l, p) == 0 {
            r matches Err(e) && e == RpcError::NotFound
        } else {
            r matches Ok(Shown::Package { bytes }) && bytes == code_size(*l, p)
        },
        addr matches Address::Component(p) ==> (component_index(*l, p).is_none() ==> (r matches Err(
            e,
        ) && e == RpcError::NotFound)),
        addr matches Address::Component(p) ==> (component_index(*l, p).is_some() ==> match r {
            Err(e) => e == RpcError::Internal && exists|s: Snapshot|
                snapshot_of(*l, l.components@[component_index(*l, p).unwrap()], s) && s.internal_error,
            Ok(Shown::Component(s)) => snapshot_of(*l, l.components@[component_index(*l, p).unwrap()], s)
                && !s.internal_error,
            Ok(_) => false,
        }),
{
    match addr {
        Address::ResourceDef(_) => Err(RpcError::Parse),
        Address::Package(p) => match dump_package(l, p) {
            Some(bytes) => Ok(Shown::Package { bytes }),
            None => Err(RpcError::NotFound),
        },
        Address::Component(p) => match dump_component(l, p) {
            None => Err(RpcError::NotFound),
            Some(s) => {
                if s.internal_error {
                    assert(snapshot_of(*l, l.components@[component_index(*l, p).unwrap()], s));
                    Err(RpcError::Internal)
                } else {
                    Ok(Shown::Component(s))
                }
            },
        },
    }
}

} // verus!
