use ledger_rpc::errors::RpcError;
use ledger_rpc::submit::{collect_signers, run_result, summarize, EntityKind, NewEntity, Receipt};

fn entity(kind: EntityKind, a: &str) -> NewEntity {
    NewEntity { kind, address: a.to_string() }
}

fn receipt(success: bool) -> Receipt {
    Receipt {
        success,
        outputs: vec!["()".to_string(), "5u32".to_string()],
        new_entities: vec![
            entity(EntityKind::Component, "c1"),
            entity(EntityKind::Package, "p1"),
            entity(EntityKind::ResourceDef, "r1"),
            entity(EntityKind::Component, "c2"),
        ],
    }
}

#[test]
fn bad_signer_refuses_the_whole_list() {
    let r = collect_signers(&vec![Some(vec![2, 3]), None, Some(vec![4])]);
    assert!(matches!(r, Err(RpcError::KeyParse)));
    assert_ne!(RpcError::KeyParse.code(), RpcError::Parse.code());
}

#[test]
fn good_signers_are_kept_in_order() {
    let r = collect_signers(&vec![Some(vec![2, 3]), Some(vec![4])]).unwrap();
    assert_eq!(r, vec![vec![2, 3], vec![4]]);
    assert!(collect_signers(&vec![]).unwrap().is_empty());
}

#[test]
fn compile_failure_is_reported_as_such() {
    let r = run_result(false, &Some(receipt(true)));
    assert!(matches!(r, Err(RpcError::Compile)));
    assert_eq!(RpcError::Compile.code(), -32600);
}

#[test]
fn engine_failure_and_rejected_outcome_differ() {
    assert!(matches!(run_result(true, &None), Err(RpcError::EngineFailed)));
    assert!(matches!(run_result(true, &Some(receipt(false))), Err(RpcError::OutcomeRejected)));
    assert_eq!(RpcError::EngineFailed.code(), 666);
    assert_eq!(RpcError::OutcomeRejected.code(), 33);
}

#[test]
fn success_partitions_entities_in_order() {
    let s = run_result(true, &Some(receipt(true))).unwrap();
    assert_eq!(s.packages, vec!["p1".to_string()]);
    assert_eq!(s.components, vec!["c1".to_string(), "c2".to_string()]);
    assert_eq!(s.resource_defs, vec!["r1".to_string()]);
    assert_eq!(s.outputs, vec!["()".to_string(), "5u32".to_string()]);
    let t = summarize(&receipt(true));
    assert_eq!(t.components.len(), 2);
}
