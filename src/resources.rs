use vstd::prelude::*;

use crate::model::{Asset, Component, Ledger, ResourceDef, Vault};

verus! {

/// One held non-fungible asset with both payloads decoded.
#[derive(Debug)]
pub struct AssetDump {
    pub id: Vec<u8>,
    pub immutable_data: String,
    pub mutable_data: String,
}

/// What one vault holds, with the display metadata of its resource.
#[derive(Debug)]
pub struct Holding {
    pub vault: usize,
    pub amount: String,
    pub resource_def: String,
    pub name: Option<String>,
    pub symbol: Option<String>,
    /// One entry per held asset whose payloads both decoded; empty for a
    /// fungible holding.
    pub assets: Vec<AssetDump>,
}

pub open spec fn opt_view(o: Option<String>) -> Option<Seq<char>> {
    match o {
        Some(s) => Some(s@),
        None => None,
    }
}

/// The assets whose two payloads decoded, as (key, immutable, mutable).
pub open spec fn assets_of(s: Seq<Asset>) -> Seq<(Seq<u8>, Seq<char>, Seq<char>)>
    decreases s.len(),
{
    if s.len() == 0 {
        Seq::empty()
    } else {
        let a = s.last();
        let rest = assets_of(s.drop_last());
        if a.immutable_data.is_some() && a.mutable_data.is_some() {
            rest.push((a.key@, a.immutable_data.unwrap()@, a.mutable_data.unwrap()@))
        } else {
            rest
        }
    }
}

pub open spec fn asset_views(s: Seq<AssetDump>) -> Seq<(Seq<u8>, Seq<char>, Seq<char>)> {
    s.map_values(|a: AssetDump| (a.id@, a.immutable_data@, a.mutable_data@))
}

pub open spec fn bad_asset(s: Seq<Asset>) -> bool {
    exists|k: int|
        0 <= k < s.len() && (#[trigger] s[k].immutable_data.is_none() || s[k].mutable_data.is_none())
}

/// Vault `v` of `comp` exists and holds a resource that `l` defines.
pub open spec fn vault_resolves(comp: Component, l: Ledger, v: usize) -> bool {
    v < comp.vaults@.len() && comp.vaults@[v as int].resource < l.resources@.len()
}

/// `h` is exactly what vault `v` of `comp` resolves to.
pub open spec fn holding_of(comp: Component, l: Ledger, v: usize, h: Holding) -> bool {
    let vault = comp.vaults@[v as int];
    let def = l.resources@[vault.resource as int];
    &&& h.vault == v
    &&& h.amount@ == vault.amount@
    &&& h.resource_def@ == def.address@
    &&& opt_view(h.name) == opt_view(def.name)
    &&& opt_view(h.symbol) == opt_view(def.symbol)
    &&& asset_views(h.assets@) == match vault.assets {
        Some(a) => assets_of(a@),
        None => Seq::empty(),
    }
}

/// Whether vault `v` fails to resolve or holds an asset whose payload failed
/// validation.
pub open spec fn vault_failed(comp: Component, l: Ledger, v: usize) -> bool {
    !vault_resolves(comp, l, v) || match comp.vaults@[v as int].assets {
        Some(a) => bad_asset(a@),
        None => false,
    }
}

fn copy_text(o: &Option<String>) -> (r: Option<String>)
    ensures
        opt_view(r) == opt_view(*o),
{
    match o {
        Some(s) => Some(s.clone()),
        None => None,
    }
}

fn dump_assets(assets: &Vec<Asset>) -> (r: (Vec<AssetDump>, bool))
    ensures
        asset_views(r.0@) == assets_of(assets@),
        r.1 == bad_asset(assets@),
{
    let mut out: Vec<AssetDump> = Vec::new();
    let mut failed = false;
    let mut i: usize = 0;
    while i < assets.len()
        invariant
            i <= assets@.len(),
            asset_views(out@) == assets_of(assets@.subrange(0, i as int)),
            failed == bad_asset(assets@.subrange(0, i as int)),
        decreases assets@.len() - i,
    {
        let a = &assets[i];
        let ghost old_out = out@;
        let ghost old_failed = failed;
        match (&a.immutable_data, &a.mutable_data) {
            (Some(im), Some(mu)) => {
                out.push(AssetDump { id: a.key.clone(), immutable_data: im.clone(), mutable_data: mu.clone() });
            },
            _ => {
                failed = true;
            },
        }
        proof {
            let pre = assets@.subrange(0, i as int);
            let post = assets@.subrange(0, i + 1);
            assert(post.drop_last() == pre);
            if a.immutable_data.is_some() && a.mutable_data.is_some() {
                assert(asset_views(out@) == asset_views(old_out).push(
                    (a.key@, a.immutable_data.unwrap()@, a.mutable_data.unwrap()@),
                ));
            }
            assert(failed == bad_asset(post)) by {
                if bad_asset(post) {
                    let k = choose|k: int|
                        0 <= k < post.len() && (#[trigger] post[k].immutable_data.is_none()
                            || post[k].mutable_data.is_none());
                    if k < i {
                        assert(pre[k] == post[k]);
                    }
                }
                if old_failed {
                    let k = choose|k: int|
                        0 <= k < pre.len() && (#[trigger] pre[k].immutable_data.is_none()
                            || pre[k].mutable_data.is_none());
                    assert(pre[k] == post[k]);
                }
                if !(a.immutable_data.is_some() && a.mutable_data.is_some()) {
                    assert(post[i as int] == *a);
                }
            }
        }
        i = i + 1;
    }
    assert(assets@.subrange(0, assets@.len() as int) == assets@);
    (out, failed)
}

/// Resolves each vault of `vaults` in turn: one holding per vault that
/// exists and whose resource is defined, in order. A vault that does not
/// resolve, or an asset whose payload failed validation, sets the flag and
/// the others are still resolved.
pub fn dump_resources(comp: &Component, l: &Ledger, vaults: &Vec<usize>) -> (r: (Vec<Option<Holding>>, bool))
    ensures
        r.0@.len() == vaults@.len(),
        forall|k: int| 0 <= k < vaults@.len() ==> (#[trigger] r.0@[k]).is_some() == vault_resolves(*comp, *l, vaults@[k]),
        forall|k: int| 0 <= k < vaults@.len() && (#[trigger] r.0@[k]).is_some()
            ==> holding_of(*comp, *l, vaults@[k], r.0@[k].unwrap()),
        r.1 == exists|k: int| 0 <= k < vaults@.len() && vault_failed(*comp, *l, #[trigger] vaults@[k]),
{
    let mut out: Vec<Option<Holding>> = Vec::new();
    let mut failed = false;
    let mut i: usize = 0;
    while i < vaults.len()
        invariant
            i <= vaults@.len(),
            out@.len() == i,
            forall|k: int| 0 <= k < i ==> (#[trigger] out@[k]).is_some() == vault_resolves(*comp, *l, vaults@[k]),
            forall|k: int| 0 <= k < i && (#[trigger] out@[k]).is_some()
                ==> holding_of(*comp, *l, vaults@[k], out@[k].unwrap()),
            failed == exists|k: int| 0 <= k < i && vault_failed(*comp, *l, #[trigger] vaults@[k]),
        decreases vaults@.len() - i,
    {
        let v = vaults[i];
        let ghost old_failed = failed;
        let ghost old_out = out@;
        let mut this_failed = false;
        if v < comp.vaults.len() && comp.vaults[v].resource < l.resources.len() {
            let vault: &Vault = &comp.vaults[v];
            let def: &ResourceDef = &l.resources[vault.resource];
            let assets = match &vault.assets {
                Some(a) => {
                    let (dumped, bad) = dump_assets(a);
                    this_failed = bad;
                    dumped
                },
                None => {
                    let e: Vec<AssetDump> = Vec::new();
                    assert(asset_views(e@) =~= Seq::empty());
                    e
                },
            };
            out.push(Some(Holding {
                vault: v,
                amount: vault.amount.clone(),
                resource_def: def.address.clone(),
                name: copy_text(&def.name),
                symbol: copy_text(&def.symbol),
                assets,
            }));
        } else {
            this_failed = true;
            out.push(None);
        }
        if this_failed {
            failed = true;
        }
        proof {
            assert(this_failed == vault_failed(*comp, *l, v));
            assert forall|k: int| 0 <= k < i implies out@[k] == old_out[k] by {}
            let now = exists|k: int| 0 <= k < i + 1 && vault_failed(*comp, *l, #[trigger] vaults@[k]);
            assert(now == (old_failed || this_failed)) by {
                if now {
                    let k = choose|k: int| 0 <= k < i + 1 && vault_failed(*comp, *l, #[trigger] vaults@[k]);
                }
                if this_failed {
                    assert(vault_failed(*comp, *l, vaults@[i as int]));
                }
            }
        }
        i = i + 1;
    }
    (out, failed)
}

} // verus!
