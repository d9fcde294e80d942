use std::sync::Arc;
use subgraph_core::asc_abi::{AbiValue, GuestMemory, Trap};
use subgraph_core::mapping::{
    charge_fuel, check_abi_version, commit_invocation, export_result, AbiVersion, EntityField,
    EntityOperation, EthereumBlock, MappingContext, MappingHost,
};

fn block() -> Arc<EthereumBlock> {
    Arc::new(EthereumBlock { number: 42, hash: vec![0xab; 32] })
}

fn stage_three(ctx: &mut MappingContext) {
    ctx.entity_set(
        "User".to_string(),
        "1".to_string(),
        vec![EntityField { name: "age".to_string(), value: AbiValue::U32(30) }],
    );
    ctx.entity_set("User".to_string(), "2".to_string(), vec![]);
    ctx.entity_remove("User".to_string(), "3".to_string());
}

#[test]
fn fresh_context_starts_empty_on_same_block() {
    let mut ctx = MappingContext::new(block());
    stage_three(&mut ctx);
    assert_eq!(ctx.staged().len(), 3);
    let next = ctx.fresh();
    assert!(next.staged().is_empty());
    assert!(Arc::ptr_eq(next.block_ref(), ctx.block_ref()));
    assert_eq!(next.block_ref().number, 42);
}

#[test]
fn trapped_invocation_commits_nothing() {
    let mut ctx = MappingContext::new(block());
    stage_three(&mut ctx);
    let mut batch: Vec<EntityOperation> = Vec::new();
    let r = commit_invocation(&mut batch, ctx, Err(Trap::OutOfResource));
    assert!(matches!(r, Err(Trap::OutOfResource)));
    assert!(batch.is_empty());
}

#[test]
fn successful_invocation_commits_in_order() {
    let mut batch: Vec<EntityOperation> = Vec::new();
    batch.push(EntityOperation::RemoveEntity { entity_type: "T".to_string(), entity_id: "0".to_string() });
    let mut ctx = MappingContext::new(block());
    stage_three(&mut ctx);
    assert!(commit_invocation(&mut batch, ctx, Ok(())).is_ok());
    assert_eq!(batch.len(), 4);
    assert!(matches!(&batch[1], EntityOperation::SetEntity { entity_id, .. } if entity_id == "1"));
    assert!(matches!(&batch[3], EntityOperation::RemoveEntity { entity_id, .. } if entity_id == "3"));
}

#[test]
fn export_failure_becomes_trap() {
    let r: Result<u32, Trap> = export_result(Err("node unreachable".to_string()));
    assert_eq!(r, Err(Trap::HostExportFailure("node unreachable".to_string())));
    assert_eq!(export_result::<u32>(Ok(5)), Ok(5));
}

#[test]
fn fuel_is_charged_until_exhausted() {
    let mut fuel: u64 = 10;
    assert_eq!(charge_fuel(&mut fuel, 4), Ok(()));
    assert_eq!(fuel, 6);
    assert_eq!(charge_fuel(&mut fuel, 6), Ok(()));
    assert_eq!(fuel, 0);
    assert_eq!(charge_fuel(&mut fuel, 1), Err(Trap::OutOfResource));
    assert_eq!(fuel, 0);
}

fn v(major: u64, minor: u64, patch: u64) -> AbiVersion {
    AbiVersion { major, minor, patch }
}

#[test]
fn abi_versions_are_checked() {
    assert_eq!(check_abi_version(v(0, 0, 3), v(0, 0, 3)), Ok(()));
    assert_eq!(check_abi_version(v(0, 0, 3), v(0, 0, 5)), Err(Trap::AbiVersionMismatch));
    assert_eq!(check_abi_version(v(0, 1, 0), v(0, 1, 4)), Ok(()));
    assert_eq!(check_abi_version(v(0, 0, 4), v(0, 0, 3)), Err(Trap::AbiVersionMismatch));
    assert_eq!(check_abi_version(v(0, 1, 0), v(0, 2, 0)), Err(Trap::AbiVersionMismatch));
    assert_eq!(check_abi_version(v(1, 1, 0), v(1, 3, 0)), Ok(()));
    assert_eq!(check_abi_version(v(2, 0, 0), v(1, 3, 0)), Err(Trap::AbiVersionMismatch));
}

#[test]
fn instantiation_rejects_incompatible_modules() {
    let r = MappingHost::instantiate(v(0, 0, 2), v(0, 0, 3), GuestMemory::new());
    assert!(matches!(r, Err(Trap::AbiVersionMismatch)));
    let host = MappingHost::instantiate(v(0, 0, 3), v(0, 0, 3), GuestMemory::new()).unwrap();
    let ctx = host.begin_invocation(block());
    assert!(ctx.staged().is_empty());
    assert_eq!(host.memory().len(), 0);
    assert_eq!(host.into_memory().len(), 0);
}
