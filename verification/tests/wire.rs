use osiris::wire::{
    get_bytes20, get_u16, get_u32, get_u64, i32_to_u32, put_bytes, put_u16, put_u32, put_u64,
    u32_to_i32,
};

#[test]
fn integers_are_written_most_significant_byte_first() {
    let mut out = vec![0xEE];
    put_u16(&mut out, 0x0102);
    put_u32(&mut out, 0x03040506);
    put_u64(&mut out, 0x0708090A0B0C0D0E);
    assert_eq!(out, vec![0xEE, 1, 2, 3, 4, 5, 6, 7, 8, 9, 10, 11, 12, 13, 14]);
    assert_eq!(get_u16(&out, 1), 0x0102);
    assert_eq!(get_u32(&out, 3), 0x03040506);
    assert_eq!(get_u64(&out, 7), 0x0708090A0B0C0D0E);
    assert_eq!(get_u16(&out, 0), 0xEE01);
}

#[test]
fn integers_agree_with_std() {
    for x in [0u64, 1, 0xFF, 0x100, 0x41727101980, u32::MAX as u64, u64::MAX] {
        let mut out = Vec::new();
        put_u64(&mut out, x);
        assert_eq!(out, x.to_be_bytes());
        assert_eq!(get_u64(&out, 0), x);
        let mut out = Vec::new();
        put_u32(&mut out, x as u32);
        assert_eq!(out, (x as u32).to_be_bytes());
        assert_eq!(get_u32(&out, 0), x as u32);
        let mut out = Vec::new();
        put_u16(&mut out, x as u16);
        assert_eq!(out, (x as u16).to_be_bytes());
        assert_eq!(get_u16(&out, 0), x as u16);
    }
}

#[test]
fn bytes_are_copied_in_order() {
    let mut out = vec![9];
    put_bytes(&mut out, &[1, 2, 3]);
    put_bytes(&mut out, &[]);
    assert_eq!(out, vec![9, 1, 2, 3]);
    let long: Vec<u8> = (0..40).collect();
    let mut expected = [0u8; 20];
    for (i, b) in expected.iter_mut().enumerate() {
        *b = 5 + i as u8;
    }
    assert_eq!(get_bytes20(&long, 5), expected);
    assert_eq!(get_bytes20(&long, 20)[19], 39);
}

#[test]
fn signed_and_unsigned_share_their_bits() {
    for x in [0i32, 1, -1, 50, i32::MAX, i32::MIN, -123456] {
        assert_eq!(i32_to_u32(x), x as u32);
        assert_eq!(u32_to_i32(x as u32), x);
    }
    assert_eq!(i32_to_u32(-1), 0xFFFF_FFFF);
    assert_eq!(u32_to_i32(0x8000_0000), i32::MIN);
    assert_eq!(u32_to_i32(0x7FFF_FFFF), i32::MAX);
}
