use std::sync::Arc;
use subgraph_core::asc_abi::{AbiValue, GuestMemory, Trap};
use subgraph_core::host_exports::{
    crypto_keccak_256, log_message, store_remove, store_set, LogLevel, LogRecord,
};
use subgraph_core::mapping::{EntityField, EntityOperation, EthereumBlock, MappingContext};

fn hex(b: &[u8]) -> String {
    b.iter().map(|x| format!("{:02x}", x)).collect()
}

fn context() -> MappingContext {
    MappingContext::new(Arc::new(EthereumBlock { number: 1, hash: vec![] }))
}

fn text(mem: &mut GuestMemory, s: &str) -> u32 {
    mem.encode(&AbiValue::Str(s.to_string())).unwrap()
}

#[test]
fn keccak_of_empty_input() {
    let mut mem = GuestMemory::new();
    let input = mem.encode(&AbiValue::Bytes(vec![])).unwrap();
    let out = crypto_keccak_256(&mut mem, input).unwrap();
    assert_eq!(out, 5);
    match mem.decode(out) {
        Ok(AbiValue::Bytes(d)) => assert_eq!(
            hex(&d),
            "c5d2460186f7233c927e7db2dcc703c0e500b653ca82273b7bfad8045d85a470"
        ),
        other => panic!("unexpected {:?}", other),
    }
}

#[test]
fn keccak_of_text_bytes() {
    let mut mem = GuestMemory::new();
    let input = mem.encode(&AbiValue::Bytes(b"hello".to_vec())).unwrap();
    let out = crypto_keccak_256(&mut mem, input).unwrap();
    match mem.decode(out) {
        Ok(AbiValue::Bytes(d)) => assert_eq!(
            hex(&d),
            "1c8aff950685c2ed4bc3174f3472287b56d9517b9c948127319a09a7a36deac8"
        ),
        other => panic!("unexpected {:?}", other),
    }
}

#[test]
fn keccak_rejects_non_bytes_and_bad_pointers() {
    let mut mem = GuestMemory::new();
    let p = mem.encode(&AbiValue::U32(1)).unwrap();
    let len = mem.len();
    assert_eq!(crypto_keccak_256(&mut mem, p), Err(Trap::GuestFault));
    assert_eq!(crypto_keccak_256(&mut mem, 1000), Err(Trap::MemoryOutOfBounds));
    assert_eq!(mem.len(), len);
}

#[test]
fn store_set_stages_decoded_entity() {
    let mut mem = GuestMemory::new();
    let ty = text(&mut mem, "User");
    let id = text(&mut mem, "0x1");
    let name = text(&mut mem, "age");
    let value = mem.encode(&AbiValue::U32(30)).unwrap();
    let data = mem.encode(&AbiValue::Array(vec![name, value])).unwrap();
    let mut ctx = context();
    assert_eq!(store_set(&mut ctx, &mem, ty, id, data), Ok(()));
    assert_eq!(ctx.staged().len(), 1);
    assert_eq!(
        ctx.staged()[0],
        EntityOperation::SetEntity {
            entity_type: "User".to_string(),
            entity_id: "0x1".to_string(),
            data: vec![EntityField { name: "age".to_string(), value: AbiValue::U32(30) }],
        }
    );
}

#[test]
fn store_set_rejects_malformed_data() {
    let mut mem = GuestMemory::new();
    let ty = text(&mut mem, "User");
    let id = text(&mut mem, "0x1");
    let odd = mem.encode(&AbiValue::Array(vec![ty])).unwrap();
    let not_text = mem.encode(&AbiValue::U32(3)).unwrap();
    let bad_name = mem.encode(&AbiValue::Array(vec![not_text, ty])).unwrap();
    let dangling = mem.encode(&AbiValue::Array(vec![ty, 9999])).unwrap();
    let mut ctx = context();
    assert_eq!(store_set(&mut ctx, &mem, ty, id, odd), Err(Trap::GuestFault));
    assert_eq!(store_set(&mut ctx, &mem, ty, id, bad_name), Err(Trap::GuestFault));
    assert_eq!(store_set(&mut ctx, &mem, ty, id, dangling), Err(Trap::MemoryOutOfBounds));
    assert_eq!(store_set(&mut ctx, &mem, not_text, id, odd), Err(Trap::GuestFault));
    assert!(ctx.staged().is_empty());
}

#[test]
fn store_remove_stages_removal() {
    let mut mem = GuestMemory::new();
    let ty = text(&mut mem, "User");
    let id = text(&mut mem, "0x2");
    let mut ctx = context();
    assert_eq!(store_remove(&mut ctx, &mem, ty, id), Ok(()));
    assert_eq!(store_remove(&mut ctx, &mem, ty, 5000), Err(Trap::MemoryOutOfBounds));
    assert_eq!(ctx.staged().len(), 1);
    assert_eq!(
        ctx.staged()[0],
        EntityOperation::RemoveEntity { entity_type: "User".to_string(), entity_id: "0x2".to_string() }
    );
}

#[test]
fn log_decodes_level_and_message() {
    let mut mem = GuestMemory::new();
    let msg = text(&mut mem, "block processed");
    assert_eq!(
        log_message(&mem, 3, msg),
        Ok(LogRecord { level: LogLevel::Info, message: "block processed".to_string() })
    );
    assert_eq!(log_message(&mem, 0, msg).unwrap().level, LogLevel::Critical);
    assert_eq!(log_message(&mem, 5, msg), Err(Trap::GuestFault));
    assert_eq!(log_message(&mem, 1, 9999), Err(Trap::MemoryOutOfBounds));
    let n = mem.encode(&AbiValue::U32(1)).unwrap();
    assert_eq!(log_message(&mem, 2, n), Err(Trap::GuestFault));
}
