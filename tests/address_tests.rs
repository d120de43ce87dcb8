use ledger_rpc::address::parse_address;
use ledger_rpc::config::Config;
use ledger_rpc::errors::RpcError;
use ledger_rpc::model::Address;
use ledger_rpc::show::show;

#[test]
fn component_1_absent_is_not_found() {
    let l = Config::new().ledger;
    let a = parse_address("component_1".as_bytes()).unwrap();
    assert_eq!(a, Address::Component(1));
    let r = show(&l, a);
    assert!(matches!(r, Err(RpcError::NotFound)));
}

#[test]
fn addresses_parse_by_variant() {
    assert_eq!(parse_address("package_42".as_bytes()), Some(Address::Package(42)));
    assert_eq!(parse_address("resource_def_0".as_bytes()), Some(Address::ResourceDef(0)));
    assert_eq!(
        parse_address("component_18446744073709551615".as_bytes()),
        Some(Address::Component(u64::MAX))
    );
}

#[test]
fn malformed_addresses_are_refused() {
    assert_eq!(parse_address("component_".as_bytes()), None);
    assert_eq!(parse_address("component_1x".as_bytes()), None);
    assert_eq!(parse_address("vault_1".as_bytes()), None);
    assert_eq!(parse_address("".as_bytes()), None);
    assert_eq!(parse_address("component_18446744073709551616".as_bytes()), None);
}
