use ledger_rpc::config::Config;
use ledger_rpc::errors::RpcError;
use ledger_rpc::model::{
    Address, Asset, Component, DecodedValue, Entry, Ledger, Package, ResourceDef, Vault,
};
use ledger_rpc::show::{dump_component, show, Shown};
use ledger_rpc::walk::{dump_lazy_map, walk_collections};

fn value(text: &str, collections: Vec<usize>, vaults: Vec<usize>) -> DecodedValue {
    DecodedValue { text: text.to_string(), collections, vaults }
}

fn entry(k: &str, v: DecodedValue) -> Entry {
    Entry { key: Some(value(k, vec![], vec![])), value: Some(v) }
}

fn component(address: u64, state: Option<DecodedValue>, collections: Vec<Vec<Entry>>, vaults: Vec<Vault>) -> Component {
    Component {
        address,
        package_address: "package_1".to_string(),
        blueprint_name: "Hello".to_string(),
        state,
        collections,
        vaults,
    }
}

fn ledger_with(c: Component) -> Ledger {
    Ledger {
        packages: vec![],
        components: vec![c],
        resources: vec![ResourceDef {
            address: "resource_1".to_string(),
            name: Some("Token".to_string()),
            symbol: None,
        }],
    }
}

#[test]
fn absent_component_is_not_found() {
    let l = Config::new().ledger;
    let r = show(&l, Address::Component(1));
    assert!(matches!(r, Err(RpcError::NotFound)));
    assert_eq!(RpcError::NotFound.code(), 1);
    assert_ne!(RpcError::NotFound.code(), RpcError::Internal.code());
}

#[test]
fn self_cycle_is_decoded_once() {
    // collection 0 holds an entry whose value references collection 0 again
    let c = component(
        7,
        Some(value("state", vec![0], vec![])),
        vec![vec![entry("a", value("self", vec![0], vec![]))]],
        vec![],
    );
    let l = ledger_with(c);
    let s = dump_component(&l, 7).unwrap();
    assert_eq!(s.walk.order, vec![0]);
    assert_eq!(s.walk.dumps.len(), 1);
    assert_eq!(s.walk.dumps[0].entries, vec![("a".to_string(), "self".to_string())]);
    assert!(!s.internal_error);
    assert!(matches!(show(&l, Address::Component(7)), Ok(Shown::Component(_))));
}

#[test]
fn shared_and_cyclic_collections_are_decoded_once() {
    // 0 -> 1, 0 -> 2, 1 -> 2, 2 -> 0
    let c = component(
        3,
        Some(value("s", vec![0, 0, 1], vec![])),
        vec![
            vec![entry("x", value("1", vec![1], vec![])), entry("y", value("2", vec![2], vec![]))],
            vec![entry("z", value("to2", vec![2], vec![]))],
            vec![entry("w", value("to0", vec![0], vec![]))],
        ],
        vec![],
    );
    let l = ledger_with(c);
    let s = dump_component(&l, 3).unwrap();
    assert_eq!(s.walk.order, vec![0, 1, 2]);
    assert_eq!(s.walk.dumps.len(), 3);
    assert!(!s.walk.failed);
}

#[test]
fn unreferenced_collections_are_not_walked() {
    let c = component(
        3,
        Some(value("s", vec![1], vec![])),
        vec![vec![entry("x", value("1", vec![], vec![]))], vec![]],
        vec![],
    );
    let w = walk_collections(&c, &vec![1], &vec![]);
    assert_eq!(w.order, vec![1]);
}

#[test]
fn no_references_gives_direct_state_only() {
    let c = component(9, Some(value("plain", vec![], vec![])), vec![], vec![]);
    let l = ledger_with(c);
    let s = dump_component(&l, 9).unwrap();
    assert_eq!(s.state, Some("plain".to_string()));
    assert_eq!(s.package_address, "package_1");
    assert_eq!(s.blueprint_name, "Hello");
    assert!(s.walk.dumps.is_empty());
    assert!(s.holdings.is_empty());
    assert!(!s.internal_error);
}

#[test]
fn bad_entry_flags_error_and_walk_continues() {
    let c = component(
        4,
        Some(value("s", vec![0, 1], vec![])),
        vec![
            vec![Entry { key: Some(value("k", vec![], vec![])), value: None }],
            vec![entry("ok", value("fine", vec![], vec![0]))],
        ],
        vec![Vault { amount: "5".to_string(), resource: 0, assets: None }],
    );
    let l = ledger_with(c);
    let s = dump_component(&l, 4).unwrap();
    assert_eq!(s.walk.order, vec![0, 1]);
    assert!(s.walk.dumps[0].failed);
    assert!(s.walk.dumps[0].entries.is_empty());
    assert_eq!(s.walk.dumps[1].entries, vec![("ok".to_string(), "fine".to_string())]);
    assert_eq!(s.walk.vaults, vec![0]);
    assert!(s.internal_error);
    assert!(matches!(show(&l, Address::Component(4)), Err(RpcError::Internal)));
    assert_eq!(RpcError::Internal.code(), 555);
}

#[test]
fn absent_collection_flags_error() {
    let c = component(4, Some(value("s", vec![5], vec![])), vec![], vec![]);
    let w = walk_collections(&c, &vec![5], &vec![]);
    assert!(w.order.is_empty());
    assert!(w.failed);
}

#[test]
fn state_that_fails_validation_keeps_metadata() {
    let c = component(2, None, vec![], vec![]);
    let l = ledger_with(c);
    let s = dump_component(&l, 2).unwrap();
    assert_eq!(s.package_address, "package_1");
    assert_eq!(s.state, None);
    assert!(s.internal_error);
}

#[test]
fn dump_lazy_map_collects_references() {
    let c = component(
        1,
        None,
        vec![vec![
            Entry { key: Some(value("k1", vec![3], vec![])), value: Some(value("v1", vec![4], vec![2])) },
            Entry { key: None, value: Some(value("v2", vec![6], vec![])) },
        ]],
        vec![],
    );
    let d = dump_lazy_map(&c, 0);
    assert_eq!(d.entries, vec![("k1".to_string(), "v1".to_string())]);
    assert_eq!(d.collections, vec![3, 4, 6]);
    assert_eq!(d.vaults, vec![2]);
    assert!(d.failed);
}

#[test]
fn holdings_resolve_resources_and_assets() {
    let c = component(
        5,
        Some(value("s", vec![], vec![0, 0, 1])),
        vec![],
        vec![
            Vault { amount: "10".to_string(), resource: 0, assets: None },
            Vault {
                amount: "2".to_string(),
                resource: 0,
                assets: Some(vec![
                    Asset { key: vec![1], immutable_data: Some("i".to_string()), mutable_data: Some("m".to_string()) },
                    Asset { key: vec![2], immutable_data: None, mutable_data: Some("m2".to_string()) },
                ]),
            },
        ],
    );
    let l = ledger_with(c);
    let s = dump_component(&l, 5).unwrap();
    assert_eq!(s.walk.vaults, vec![0, 1]);
    let h0 = s.holdings[0].as_ref().unwrap();
    assert_eq!(h0.amount, "10");
    assert_eq!(h0.resource_def, "resource_1");
    assert_eq!(h0.name, Some("Token".to_string()));
    assert_eq!(h0.symbol, None);
    let h1 = s.holdings[1].as_ref().unwrap();
    assert_eq!(h1.assets.len(), 1);
    assert_eq!(h1.assets[0].id, vec![1]);
    assert_eq!(h1.assets[0].immutable_data, "i");
    assert_eq!(h1.assets[0].mutable_data, "m");
    assert!(s.internal_error);
}

#[test]
fn empty_and_absent_packages_are_not_found() {
    let mut cfg = Config::new();
    cfg.load().packages.push(Package { address: 1, code: vec![] });
    cfg.load().packages.push(Package { address: 2, code: vec![0, 1, 2] });
    let l = cfg.load_immutable();
    assert!(matches!(show(l, Address::Package(1)), Err(RpcError::NotFound)));
    assert!(matches!(show(l, Address::Package(3)), Err(RpcError::NotFound)));
    assert!(matches!(show(l, Address::Package(2)), Ok(Shown::Package { bytes: 3 })));
}

#[test]
fn resource_def_address_is_a_parse_error() {
    let l = Config::new().ledger;
    assert!(matches!(show(&l, Address::ResourceDef(1)), Err(RpcError::Parse)));
    assert_eq!(RpcError::Parse.code(), -32700);
}

#[test]
fn config_starts_empty_and_epoch_changes_nothing() {
    let mut cfg = Config::new();
    assert!(!cfg.updated);
    cfg.increment_epoch();
    assert!(!cfg.updated);
    assert!(cfg.load_immutable().components.is_empty());
    cfg.load().components.push(component(1, None, vec![], vec![]));
    assert_eq!(cfg.load_immutable().components.len(), 1);
}
