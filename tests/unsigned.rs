use ulc::unsigned::{from_be_bytes, from_le_bytes, to_be_bytes, to_le_bytes};

#[test]
fn test_unsigned() {
    assert!(0 == from_le_bytes::<u64>(&to_le_bytes::<u64>(0)));
    assert!(15 == from_le_bytes::<u8>(&to_le_bytes::<u8>(15)));
    assert!(0xff == from_le_bytes::<u8>(&to_le_bytes::<u8>(0xff)));
    assert!(1312412354 == from_le_bytes::<u64>(&to_le_bytes::<u64>(1312412354)));
    assert!(1312412352352435324 == from_le_bytes::<u64>(&to_le_bytes::<u64>(1312412352352435324)));
    assert!(1244556 == from_le_bytes::<u32>(&to_le_bytes::<u32>(1244556)));
    assert!(12400 == from_le_bytes::<u16>(&to_le_bytes::<u16>(12400)));

    let bs = to_le_bytes(0x1ffu16);
    assert!(bs[0] == 0xff);
    assert!(bs[1] == 0x1);

    assert!(0 == from_le_bytes::<u64>(&to_le_bytes::<u64>(0)));
    assert!(1312412354 == from_le_bytes::<u64>(&to_le_bytes::<u64>(1312412354)));
    assert!(1312412352352435324 == from_le_bytes::<u64>(&to_le_bytes::<u64>(1312412352352435324)));
    assert!(1244556 == from_le_bytes::<u32>(&to_le_bytes::<u32>(1244556)));
    assert!(12400 == from_le_bytes::<u16>(&to_le_bytes::<u16>(12400)));

    let bs = to_be_bytes(0x1ffu16);
    assert!(bs[0] == 0x1);
    assert!(bs[1] == 0xff);
}

#[test]
fn le_bytes_exact_values() {
    assert_eq!(to_le_bytes(0x0102030405060708u64), vec![8, 7, 6, 5, 4, 3, 2, 1]);
    assert_eq!(to_le_bytes(0xabcdu16), vec![0xcd, 0xab]);
    assert_eq!(to_le_bytes(7u8), vec![7]);
    assert_eq!(from_le_bytes::<u32>(&[0x78, 0x56, 0x34, 0x12]), 0x12345678);
}

#[test]
fn be_bytes_exact_values() {
    assert_eq!(to_be_bytes(0x01020304u32), vec![1, 2, 3, 4]);
    assert_eq!(from_be_bytes::<u32>(&[1, 2, 3, 4]), 0x01020304);
    assert_eq!(from_be_bytes::<u16>(&to_be_bytes(0xbeefu16)), 0xbeef);
    assert_eq!(from_be_bytes::<u64>(&to_be_bytes(u64::MAX)), u64::MAX);
}
