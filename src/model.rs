use vstd::prelude::*;

verus! {

/// A value after the decoder has validated a raw blob: its display text and
/// the collections and vaults it references at the top level.
#[derive(Debug, Clone)]
pub struct DecodedValue {
    pub text: String,
    pub collections: Vec<usize>,
    pub vaults: Vec<usize>,
}

/// One key/value pair of a collection. `None` stands for a blob that failed
/// validation.
#[derive(Debug, Clone)]
pub struct Entry {
    pub key: Option<DecodedValue>,
    pub value: Option<DecodedValue>,
}

/// One held non-fungible asset: its key and its two decoded payloads.
#[derive(Debug, Clone)]
pub struct Asset {
    pub key: Vec<u8>,
    pub immutable_data: Option<String>,
    pub mutable_data: Option<String>,
}

/// An asset holder owned by a component.
#[derive(Debug, Clone)]
pub struct Vault {
    pub amount: String,
    pub resource: usize,
    /// `Some` for a non-fungible holding, with one asset per held key.
    pub assets: Option<Vec<Asset>>,
}

/// Display metadata of a resource type.
#[derive(Debug, Clone)]
pub struct ResourceDef {
    pub address: String,
    pub name: Option<String>,
    pub symbol: Option<String>,
}

/// A deployed component. Its collections and vaults are addressed by their
/// index in the two arenas, scoped to this component.
#[derive(Debug, Clone)]
pub struct Component {
    pub address: u64,
    pub package_address: String,
    pub blueprint_name: String,
    /// The decoded state blob, `None` where it failed validation.
    pub state: Option<DecodedValue>,
    pub collections: Vec<Vec<Entry>>,
    pub vaults: Vec<Vault>,
}

/// A deployed package and its code.
#[derive(Debug, Clone)]
pub struct Package {
    pub address: u64,
    pub code: Vec<u8>,
}

/// The store: the entities that point lookups can reach.
#[derive(Debug, Clone)]
pub struct Ledger {
    pub packages: Vec<Package>,
    pub components: Vec<Component>,
    pub resources: Vec<ResourceDef>,
}

/// A typed address: the three variants are disjoint.
#[derive(Debug, Clone, Copy, PartialEq, Eq, Structural)]
pub enum Address {
    Package(u64),
    Component(u64),
    ResourceDef(u64),
}

/// Whether collection `c` of `comp` holds an entry whose decoded key or value
/// references collection `x`.
pub open spec fn refers(comp: Component, c: int, x: usize) -> bool {
    exists|e: int, j: int|
        0 <= e < comp.collections@[c]@.len() && #[trigger] entry_refers(
            comp.collections@[c]@[e],
            j,
            x,
        )
}

pub open spec fn entry_refers(en: Entry, j: int, x: usize) -> bool {
    (en.key.is_some() && 0 <= j < en.key.unwrap().collections@.len()
        && en.key.unwrap().collections@[j] == x) || (en.value.is_some() && 0 <= j
        < en.value.unwrap().collections@.len() && en.value.unwrap().collections@[j] == x)
}

/// Whether collection `c` of `comp` holds an entry whose decoded key or value
/// references vault `v`.
pub open spec fn refers_vault(comp: Component, c: int, v: usize) -> bool {
    exists|e: int, j: int|
        0 <= e < comp.collections@[c]@.len() && #[trigger] entry_refers_vault(
            comp.collections@[c]@[e],
            j,
            v,
        )
}

pub open spec fn entry_refers_vault(en: Entry, j: int, v: usize) -> bool {
    (en.key.is_some() && 0 <= j < en.key.unwrap().vaults@.len() && en.key.unwrap().vaults@[j]
        == v) || (en.value.is_some() && 0 <= j < en.value.unwrap().vaults@.len()
        && en.value.unwrap().vaults@[j] == v)
}

/// Whether some key or value of collection `c` failed validation.
pub open spec fn has_bad_entry(comp: Component, c: int) -> bool {
    exists|e: int|
        0 <= e < comp.collections@[c]@.len() && (#[trigger] comp.collections@[c]@[e].key.is_none()
            || comp.collections@[c]@[e].value.is_none())
}

/// The key/value text pairs of the entries whose key and value both decoded,
/// in stored order.
pub open spec fn pairs_of(es: Seq<Entry>) -> Seq<(Seq<char>, Seq<char>)>
    decreases es.len(),
{
    if es.len() == 0 {
        Seq::empty()
    } else {
        let en = es.last();
        let rest = pairs_of(es.drop_last());
        if en.key.is_some() && en.value.is_some() {
            rest.push((en.key.unwrap().text@, en.value.unwrap().text@))
        } else {
            rest
        }
    }
}

} // verus!
