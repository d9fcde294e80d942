use subgraph_core::asc_abi::{
    signed_wide_from_i64, signed_wide_to_i64, unsigned_wide_from_u64, unsigned_wide_to_u64, AbiValue, GuestMemory, Trap, WIDE_INT_BYTES,
};

fn round_trip(v: AbiValue) {
    let mut mem = GuestMemory::new();
    mem.encode(&AbiValue::U32(7)).unwrap();
    let before = mem.len();
    let ptr = mem.encode(&v).unwrap();
    assert_eq!(ptr as usize, before);
    let back = mem.decode(ptr).unwrap();
    assert!(same(&back, &v));
}

fn same(a: &AbiValue, b: &AbiValue) -> bool {
    match (a, b) {
        (AbiValue::Null, AbiValue::Null) => true,
        (AbiValue::Bool(x), AbiValue::Bool(y)) => x == y,
        (AbiValue::U32(x), AbiValue::U32(y)) => x == y,
        (AbiValue::I32(x), AbiValue::I32(y)) => x == y,
        (AbiValue::Bytes(x), AbiValue::Bytes(y)) => x == y,
        (AbiValue::Str(x), AbiValue::Str(y)) => x == y,
        (AbiValue::Array(x), AbiValue::Array(y)) => x == y,
        (AbiValue::UnsignedWide(x), AbiValue::UnsignedWide(y)) => x == y,
        (AbiValue::SignedWide(x), AbiValue::SignedWide(y)) => x == y,
        _ => false,
    }
}

#[test]
fn scalars_round_trip() {
    round_trip(AbiValue::Null);
    round_trip(AbiValue::Bool(true));
    round_trip(AbiValue::Bool(false));
    round_trip(AbiValue::U32(0));
    round_trip(AbiValue::U32(u32::MAX));
    round_trip(AbiValue::I32(i32::MIN));
    round_trip(AbiValue::I32(-1));
    round_trip(AbiValue::I32(i32::MAX));
}

#[test]
fn byte_arrays_round_trip() {
    round_trip(AbiValue::Bytes(vec![]));
    round_trip(AbiValue::Bytes(vec![1, 2, 3, 255]));
}

#[test]
fn wide_integer_extremes_round_trip() {
    round_trip(AbiValue::UnsignedWide(vec![0; WIDE_INT_BYTES]));
    round_trip(AbiValue::UnsignedWide(vec![0xff; WIDE_INT_BYTES]));
    let mut min_signed = vec![0u8; WIDE_INT_BYTES];
    min_signed[0] = 0x80;
    round_trip(AbiValue::SignedWide(min_signed));
    round_trip(AbiValue::SignedWide(vec![0; WIDE_INT_BYTES]));
}

#[test]
fn integer_layout_is_tagged_little_endian() {
    let mut mem = GuestMemory::new();
    let ptr = mem.encode(&AbiValue::U32(0x0403_0201)).unwrap();
    assert_eq!(ptr, 0);
    assert_eq!(mem.len(), 5);
    assert_eq!(mem.byte_at(0), Ok(2));
    assert_eq!(mem.byte_at(1), Ok(1));
    assert_eq!(mem.byte_at(4), Ok(4));
    assert_eq!(mem.byte_at(5), Err(Trap::MemoryOutOfBounds));
}

#[test]
fn bytes_layout_has_length_prefix() {
    let mut mem = GuestMemory::new();
    mem.encode(&AbiValue::Bytes(vec![9, 8])).unwrap();
    assert_eq!(mem.len(), 7);
    assert_eq!(mem.byte_at(1), Ok(2));
    assert_eq!(mem.byte_at(2), Ok(0));
    assert_eq!(mem.byte_at(5), Ok(9));
    assert_eq!(mem.byte_at(6), Ok(8));
}

#[test]
fn pointer_past_memory_is_out_of_bounds() {
    let mem = GuestMemory::from_bytes(vec![0, 0]).unwrap();
    assert!(matches!(mem.decode(2), Err(Trap::MemoryOutOfBounds)));
    assert!(matches!(mem.decode(u32::MAX), Err(Trap::MemoryOutOfBounds)));
    assert!(matches!(mem.decode(1), Ok(AbiValue::Null)));
}

#[test]
fn length_past_memory_is_out_of_bounds() {
    // A byte array that claims 3 bytes but has only 2.
    let mem = GuestMemory::from_bytes(vec![4, 3, 0, 0, 0, 1, 2]).unwrap();
    assert!(matches!(mem.decode(0), Err(Trap::MemoryOutOfBounds)));
    // A huge length is refused without any read.
    let mem = GuestMemory::from_bytes(vec![4, 0xff, 0xff, 0xff, 0xff]).unwrap();
    assert!(matches!(mem.decode(0), Err(Trap::MemoryOutOfBounds)));
    // A truncated integer and a truncated wide integer.
    let mem = GuestMemory::from_bytes(vec![2, 1, 2]).unwrap();
    assert!(matches!(mem.decode(0), Err(Trap::MemoryOutOfBounds)));
    let mem = GuestMemory::from_bytes(vec![5; 32]).unwrap();
    assert!(matches!(mem.decode(0), Err(Trap::MemoryOutOfBounds)));
}

#[test]
fn malformed_values_are_guest_faults() {
    let mem = GuestMemory::from_bytes(vec![1, 2, 9]).unwrap();
    assert!(matches!(mem.decode(0), Err(Trap::GuestFault)));
    assert!(matches!(mem.decode(2), Err(Trap::GuestFault)));
}

#[test]
fn exact_i32_value_is_decoded() {
    let mem = GuestMemory::from_bytes(vec![3, 0xfe, 0xff, 0xff, 0xff]).unwrap();
    assert!(matches!(mem.decode(0), Ok(AbiValue::I32(-2))));
    let mem = GuestMemory::from_bytes(vec![2, 0x10, 0x27, 0, 0]).unwrap();
    assert!(matches!(mem.decode(0), Ok(AbiValue::U32(10000))));
}

#[test]
fn strings_round_trip() {
    round_trip(AbiValue::Str(String::new()));
    round_trip(AbiValue::Str("transfer".to_string()));
    round_trip(AbiValue::Str("h\u{e9}llo \u{1f389}".to_string()));
}

#[test]
fn string_layout_is_length_prefixed_utf8() {
    let mut mem = GuestMemory::new();
    mem.encode(&AbiValue::Str("\u{e9}".to_string())).unwrap();
    assert_eq!(mem.len(), 7);
    assert_eq!(mem.byte_at(0), Ok(7));
    assert_eq!(mem.byte_at(1), Ok(2));
    assert_eq!(mem.byte_at(5), Ok(0xc3));
    assert_eq!(mem.byte_at(6), Ok(0xa9));
    assert_eq!(mem.decode(0), Ok(AbiValue::Str("\u{e9}".to_string())));
}

#[test]
fn invalid_utf8_is_guest_fault() {
    let mem = GuestMemory::from_bytes(vec![7, 2, 0, 0, 0, 0xc3, 0x28]).unwrap();
    assert_eq!(mem.decode(0), Err(Trap::GuestFault));
    let mem = GuestMemory::from_bytes(vec![7, 3, 0, 0, 0, b'a', b'b']).unwrap();
    assert_eq!(mem.decode(0), Err(Trap::MemoryOutOfBounds));
}

#[test]
fn arrays_hold_element_offsets() {
    let mut mem = GuestMemory::new();
    let a = mem.encode(&AbiValue::Str("x".to_string())).unwrap();
    let b = mem.encode(&AbiValue::U32(3)).unwrap();
    let arr = mem.encode(&AbiValue::Array(vec![a, b])).unwrap();
    assert_eq!(mem.decode(arr), Ok(AbiValue::Array(vec![a, b])));
    assert_eq!(mem.decode(a), Ok(AbiValue::Str("x".to_string())));
    assert_eq!(mem.decode(b), Ok(AbiValue::U32(3)));
    round_trip(AbiValue::Array(vec![]));
    round_trip(AbiValue::Array(vec![0, u32::MAX]));
}

#[test]
fn truncated_array_is_out_of_bounds() {
    let mem = GuestMemory::from_bytes(vec![8, 2, 0, 0, 0, 1, 0, 0, 0, 9]).unwrap();
    assert_eq!(mem.decode(0), Err(Trap::MemoryOutOfBounds));
}

#[test]
fn u64_widens_big_endian() {
    let w = unsigned_wide_from_u64(0x0102_0304_0506_0708);
    assert_eq!(w.len(), 32);
    assert!(w[..24].iter().all(|b| *b == 0));
    assert_eq!(&w[24..], &[1, 2, 3, 4, 5, 6, 7, 8]);
    assert_eq!(unsigned_wide_from_u64(0), vec![0u8; 32]);
    assert_eq!(unsigned_wide_to_u64(&unsigned_wide_from_u64(u64::MAX)), Some(u64::MAX));
    assert_eq!(unsigned_wide_to_u64(&unsigned_wide_from_u64(300)), Some(300));
}

#[test]
fn wide_narrowing_never_truncates() {
    let mut w = vec![0u8; 32];
    w[23] = 1;
    assert_eq!(unsigned_wide_to_u64(&w), None);
    assert_eq!(unsigned_wide_to_u64(&vec![0xff; 32]), None);
    let mut w = vec![0u8; 32];
    w[31] = 42;
    assert_eq!(unsigned_wide_to_u64(&w), Some(42));
}

#[test]
fn i64_widens_as_twos_complement() {
    assert_eq!(signed_wide_from_i64(0), vec![0u8; 32]);
    assert_eq!(signed_wide_from_i64(-1), vec![0xffu8; 32]);
    let w = signed_wide_from_i64(-2);
    assert_eq!(w[31], 0xfe);
    assert!(w[..31].iter().all(|b| *b == 0xff));
    let w = signed_wide_from_i64(i64::MIN);
    assert!(w[..24].iter().all(|b| *b == 0xff));
    assert_eq!(&w[24..], &[0x80, 0, 0, 0, 0, 0, 0, 0]);
    for x in [0, 1, -1, 255, -256, i64::MAX, i64::MIN] {
        assert_eq!(signed_wide_to_i64(&signed_wide_from_i64(x)), Some(x));
    }
}

#[test]
fn signed_narrowing_never_truncates() {
    let mut min256 = vec![0u8; 32];
    min256[0] = 0x80;
    assert_eq!(signed_wide_to_i64(&min256), None);
    let mut below = vec![0xffu8; 32];
    below[24] = 0x7f;
    assert_eq!(signed_wide_to_i64(&below), None);
    let mut above = vec![0u8; 32];
    above[24] = 0x80;
    assert_eq!(signed_wide_to_i64(&above), None);
    assert_eq!(signed_wide_to_i64(&vec![0x7f; 32]), None);
}
