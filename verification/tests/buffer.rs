use bufferfish::Bufferfish;

#[test]
fn lib_test_peek_one() {
    let mut bf = Bufferfish::new();
    bf.write_u8(0).unwrap();

    assert_eq!(bf.peek().unwrap(), 0);
    assert_eq!(bf.peek().unwrap(), 0);
}

#[test]
fn lib_peek_n() {
    let mut bf = Bufferfish::new();
    bf.write_u8(0).unwrap();
    bf.write_u8(1).unwrap();
    bf.write_u8(2).unwrap();

    assert_eq!(bf.peek_n(2).unwrap(), &[0, 1]);
    assert_eq!(bf.peek_n(2).unwrap(), &[0, 1]);
}

#[test]
fn lib_peek_one_past_capacity() {
    let mut bf = Bufferfish::new();

    let result = bf.peek();

    assert!(result.is_err());
}

#[test]
fn lib_peek_n_past_capacity() {
    let mut bf = Bufferfish::new();
    bf.write_u8(0).unwrap();

    let result = bf.peek_n(2);

    assert!(result.is_err());
}

#[test]
fn lib_test_extends_bufferfish() {
    let mut bf = Bufferfish::new();
    bf.write_u8(0).unwrap();

    let mut buf2 = Bufferfish::new();
    buf2.write_u8(1).unwrap();

    bf.extend(buf2);

    assert_eq!(bf.as_ref(), &[0, 1]);
}

#[test]
fn lib_test_extends_impls() {
    let mut bf = Bufferfish::new();
    bf.write_u8(0).unwrap();

    let slice: &[u8] = &[1];
    let vec = Vec::from([2]);

    bf.extend(slice);
    bf.extend(vec);

    assert_eq!(bf.as_ref(), &[0, 1, 2]);
}

#[test]
fn lib_test_write_u8() {
    let mut bf = Bufferfish::new();
    bf.write_u8(0).unwrap();
    bf.write_u8(255).unwrap();

    assert_eq!(bf.as_ref(), &[0, 255]);
}

#[test]
fn lib_test_write_u16() {
    let mut bf = Bufferfish::new();
    bf.write_u16(0).unwrap();
    bf.write_u16(12345).unwrap();
    bf.write_u16(65535).unwrap();

    assert_eq!(bf.as_ref(), &[0, 0, 48, 57, 255, 255]);
}

#[test]
fn lib_test_write_u32() {
    let mut bf = Bufferfish::new();
    bf.write_u32(0).unwrap();
    bf.write_u32(1234567890).unwrap();
    bf.write_u32(u32::MAX).unwrap();

    assert_eq!(
        bf.as_ref(),
        &[0, 0, 0, 0, 73, 150, 2, 210, 255, 255, 255, 255]
    );
}

#[test]
fn test_write_u64() {
    let mut bf = Bufferfish::new();
    bf.write_u64(0).unwrap();
    bf.write_u64(4611686018427387904).unwrap();
    bf.write_u64(u64::MAX).unwrap();

    assert_eq!(
        bf.as_ref(),
        &[
            0, 0, 0, 0, 0, 0, 0, 0, 64, 0, 0, 0, 0, 0, 0, 0, 255, 255, 255, 255, 255, 255, 255,
            255
        ]
    );
}

#[test]
fn test_write_u128() {
    let mut bf = Bufferfish::new();
    bf.write_u128(0).unwrap();
    bf.write_u128(123456789012345678901234567890).unwrap();
    bf.write_u128(u128::MAX).unwrap();

    assert_eq!(
        bf.as_ref(),
        &[
            0, 0, 0, 0, 0, 0, 0, 0, 0, 0, 0, 0, 0, 0, 0, 0, 0, 0, 0, 1, 142, 233, 15, 246, 195,
            115, 224, 238, 78, 63, 10, 210, 255, 255, 255, 255, 255, 255, 255, 255, 255, 255,
            255, 255, 255, 255, 255, 255
        ]
    );
}

#[test]
fn lib_test_read_u8() {
    let mut bf = Bufferfish::new();
    bf.write_u8(0).unwrap();
    bf.write_u8(255).unwrap();

    assert_eq!(bf.read_u8().unwrap(), 0);
    assert_eq!(bf.read_u8().unwrap(), 255);
}

#[test]
fn lib_test_read_u16() {
    let mut bf = Bufferfish::new();
    bf.write_u16(0).unwrap();
    bf.write_u16(12345).unwrap();
    bf.write_u16(65535).unwrap();

    assert_eq!(bf.read_u16().unwrap(), 0);
    assert_eq!(bf.read_u16().unwrap(), 12345);
    assert_eq!(bf.read_u16().unwrap(), 65535);
}

#[test]
fn lib_test_read_u32() {
    let mut bf = Bufferfish::new();
    bf.write_u32(0).unwrap();
    bf.write_u32(1234567890).unwrap();
    bf.write_u32(u32::MAX).unwrap();

    assert_eq!(bf.read_u32().unwrap(), 0);
    assert_eq!(bf.read_u32().unwrap(), 1234567890);
    assert_eq!(bf.read_u32().unwrap(), u32::MAX);
}

#[test]
fn test_read_u64() {
    let mut bf = Bufferfish::new();
    bf.write_u64(0).unwrap();
    bf.write_u64(4611686018427387904).unwrap();
    bf.write_u64(u64::MAX).unwrap();

    assert_eq!(bf.read_u64().unwrap(), 0);
    assert_eq!(bf.read_u64().unwrap(), 4611686018427387904);
    assert_eq!(bf.read_u64().unwrap(), u64::MAX);
}

#[test]
fn test_read_u128() {
    let mut bf = Bufferfish::new();
    bf.write_u128(0).unwrap();
    bf.write_u128(123456789012345678901234567890).unwrap();
    bf.write_u128(u128::MAX).unwrap();

    assert_eq!(bf.read_u128().unwrap(), 0);
    assert_eq!(bf.read_u128().unwrap(), 123456789012345678901234567890);
    assert_eq!(bf.read_u128().unwrap(), u128::MAX);
}

#[test]
fn lib_test_write_i8() {
    let mut bf = Bufferfish::new();
    bf.write_i8(0).unwrap();
    bf.write_i8(127).unwrap();
    bf.write_i8(-128).unwrap();

    assert_eq!(bf.as_ref(), &[0, 127, 128]);
}

#[test]
fn lib_test_write_i16() {
    let mut bf = Bufferfish::new();
    bf.write_i16(0).unwrap();
    bf.write_i16(12345).unwrap();
    bf.write_i16(32767).unwrap();
    bf.write_i16(-32768).unwrap();

    assert_eq!(bf.as_ref(), &[0, 0, 48, 57, 127, 255, 128, 0]);
}

#[test]
fn lib_test_write_i32() {
    let mut bf = Bufferfish::new();
    bf.write_i32(0).unwrap();
    bf.write_i32(1234567890).unwrap();
    bf.write_i32(2147483647).unwrap();
    bf.write_i32(-2147483648).unwrap();

    assert_eq!(
        bf.as_ref(),
        &[
            0, 0, 0, 0, 73, 150, 2, 210, 127, 255, 255, 255, 128, 0, 0, 0
        ]
    );
}

#[test]
fn test_write_i64() {
    let mut bf = Bufferfish::new();
    bf.write_i64(0).unwrap();
    bf.write_i64(4611686018427387904).unwrap();
    bf.write_i64(i64::MAX).unwrap();
    bf.write_i64(i64::MIN).unwrap();

    assert_eq!(
        bf.as_ref(),
        &[
            0, 0, 0, 0, 0, 0, 0, 0, 64, 0, 0, 0, 0, 0, 0, 0, 127, 255, 255, 255, 255, 255, 255,
            255, 128, 0, 0, 0, 0, 0, 0, 0
        ]
    );
}

#[test]
fn test_write_i128() {
    let mut bf = Bufferfish::new();
    bf.write_i128(0).unwrap();
    bf.write_i128(123456789012345678901234567890).unwrap();
    bf.write_i128(i128::MAX).unwrap();
    bf.write_i128(i128::MIN).unwrap();

    assert_eq!(
        bf.as_ref(),
        &[
            0, 0, 0, 0, 0, 0, 0, 0, 0, 0, 0, 0, 0, 0, 0, 0, 0, 0, 0, 1, 142, 233, 15, 246, 195,
            115, 224, 238, 78, 63, 10, 210, 127, 255, 255, 255, 255, 255, 255, 255, 255, 255,
            255, 255, 255, 255, 255, 255, 128, 0, 0, 0, 0, 0, 0, 0, 0, 0, 0, 0, 0, 0, 0, 0,
        ]
    );
}

#[test]
fn lib_test_read_i8() {
    let mut bf = Bufferfish::new();
    bf.write_i8(0).unwrap();
    bf.write_i8(127).unwrap();
    bf.write_i8(-128).unwrap();

    assert_eq!(bf.read_i8().unwrap(), 0);
    assert_eq!(bf.read_i8().unwrap(), 127);
    assert_eq!(bf.read_i8().unwrap(), -128);
}

#[test]
fn lib_test_read_i16() {
    let mut bf = Bufferfish::new();
    bf.write_i16(0).unwrap();
    bf.write_i16(12345).unwrap();
    bf.write_i16(32767).unwrap();
    bf.write_i16(-32768).unwrap();

    assert_eq!(bf.read_i16().unwrap(), 0);
    assert_eq!(bf.read_i16().unwrap(), 12345);
    assert_eq!(bf.read_i16().unwrap(), 32767);
    assert_eq!(bf.read_i16().unwrap(), -32768);
}

#[test]
fn lib_test_read_i32() {
    let mut bf = Bufferfish::new();
    bf.write_i32(0).unwrap();
    bf.write_i32(1234567890).unwrap();
    bf.write_i32(2147483647).unwrap();
    bf.write_i32(-2147483648).unwrap();

    assert_eq!(bf.read_i32().unwrap(), 0);
    assert_eq!(bf.read_i32().unwrap(), 1234567890);
    assert_eq!(bf.read_i32().unwrap(), 2147483647);
    assert_eq!(bf.read_i32().unwrap(), -2147483648);
}

#[test]
fn test_read_i64() {
    let mut bf = Bufferfish::new();
    bf.write_i64(0).unwrap();
    bf.write_i64(4611686018427387904).unwrap();
    bf.write_i64(9223372036854775807).unwrap();
    bf.write_i64(-9223372036854775808).unwrap();

    assert_eq!(bf.read_i64().unwrap(), 0);
    assert_eq!(bf.read_i64().unwrap(), 4611686018427387904);
    assert_eq!(bf.read_i64().unwrap(), 9223372036854775807);
    assert_eq!(bf.read_i64().unwrap(), -9223372036854775808);
}

#[test]
fn test_read_i128() {
    let mut bf = Bufferfish::new();
    bf.write_i128(0).unwrap();
    bf.write_i128(123456789012345678901234567890).unwrap();
    bf.write_i128(i128::MAX).unwrap();
    bf.write_i128(i128::MIN).unwrap();

    assert_eq!(bf.read_i128().unwrap(), 0);
    assert_eq!(bf.read_i128().unwrap(), 123456789012345678901234567890);
    assert_eq!(bf.read_i128().unwrap(), i128::MAX);
    assert_eq!(bf.read_i128().unwrap(), i128::MIN);
}

#[test]
fn lib_test_read_reset() {
    let mut bf = Bufferfish::new();
    bf.write_u8(0).unwrap();
    bf.read_u8().unwrap();
    bf.write_u8(255).unwrap();

    assert_eq!(bf.read_u8().unwrap(), 0);
}

#[test]
fn lib_test_bufferfish_overflow() {
    let mut bf = Bufferfish::new();
    bf.write_raw_bytes(&[0u8; 1023]).unwrap();

    let result = bf.write_u8(0);
    assert!(result.is_ok());

    let result = bf.write_u8(0);
    assert!(result.is_err());
}

#[test]
fn lib_test_oversized_write_buffer() {
    let mut bf = Bufferfish::new();

    assert!(bf.write_raw_bytes(&[0u8; 1025]).is_err());
}

#[test]
fn lib_test_unbounded_capacity() {
    let mut bf = Bufferfish::with_capacity(0);

    assert!(bf.write_raw_bytes(&[0u8; 2000]).is_ok());
}

#[test]
fn lib_test_write_string() {
    let mut bf = Bufferfish::new();
    bf.write_string("Bufferfish").unwrap();

    assert_eq!(
        bf.as_ref(),
        &[0, 10, 66, 117, 102, 102, 101, 114, 102, 105, 115, 104]
    );
}

#[test]
fn lib_test_write_string_big_chars() {
    let mut bf = Bufferfish::new();
    bf.write_string("안녕하세요").unwrap();

    assert_eq!(
        bf.as_ref(),
        &[
            0, 15, 236, 149, 136, 235, 133, 149, 237, 149, 152, 236, 132, 184, 236, 154, 148
        ]
    )
}

#[test]
fn lib_test_write_multiple_strings() {
    let mut bf = Bufferfish::new();
    bf.write_string("Bufferfish").unwrap();
    bf.write_string("안녕하세요").unwrap();

    assert_eq!(
        bf.as_ref(),
        &[
            0, 10, 66, 117, 102, 102, 101, 114, 102, 105, 115, 104, 0, 15, 236, 149, 136, 235,
            133, 149, 237, 149, 152, 236, 132, 184, 236, 154, 148
        ]
    );
}

#[test]
fn lib_test_read_string() {
    let mut bf = Bufferfish::new();
    bf.write_string("Bufferfish").unwrap();

    assert_eq!(bf.read_string().unwrap(), "Bufferfish");
}

#[test]
fn lib_test_write_bool() {
    let mut bf = Bufferfish::new();
    bf.write_bool(true).unwrap();
    bf.write_bool(false).unwrap();

    assert_eq!(bf.as_ref(), &[1, 0]);
}

#[test]
fn lib_test_read_bool() {
    let mut bf = Bufferfish::new();
    bf.write_bool(true).unwrap();
    bf.write_bool(false).unwrap();

    assert!(bf.read_bool().unwrap());
    assert!(!bf.read_bool().unwrap());
}

#[test]
fn lib_test_write_raw_bytes() {
    let mut bf = Bufferfish::new();
    bf.write_string("Bufferfish").unwrap();

    let mut buf2 = Bufferfish::new();
    buf2.write_string("안녕하세요").unwrap();

    bf.write_raw_bytes(buf2.as_ref()).unwrap();

    assert!(bf.read_string().unwrap() == "Bufferfish");
    assert!(bf.read_string().unwrap() == "안녕하세요");
}

#[test]
fn lib_test_write_packed_bools() {
    let mut bf = Bufferfish::new();
    bf.write_packed_bools(&[true, false, true, false, true, false, true, false])
        .unwrap();

    assert_eq!(bf.as_ref(), &[0b10101010]);
}

#[test]
fn lib_test_read_packed_bools() {
    let mut bf = Bufferfish::new();
    bf.write_u8(0b10101010).unwrap();

    let bools = bf.read_packed_bools(8).unwrap();

    assert_eq!(
        bools,
        vec![true, false, true, false, true, false, true, false]
    );
}

#[test]
fn lib_test_write_simple_array() {
    let mut bf = Bufferfish::new();
    bf.write_array(&[0u8, 1, 2, 3, 4, 5, 6, 7, 8, 9]).unwrap();

    assert_eq!(bf.as_ref(), &[0, 10, 0, 1, 2, 3, 4, 5, 6, 7, 8, 9]);
}

#[test]
fn test_read_simple_array() {
    let mut bf = Bufferfish::new();
    bf.write_array(&[0u8, 1, 2, 3, 4, 5, 6, 7, 8, 9]).unwrap();

    let arr = bf.read_array::<u8>().unwrap();

    assert_eq!(arr, vec![0, 1, 2, 3, 4, 5, 6, 7, 8, 9]);
}

#[test]
fn test_reset() {
    let mut bf = Bufferfish::new();
    bf.write_u8(0).unwrap();
    bf.write_u8(255).unwrap();

    bf.reset();

    assert_eq!(bf.len(), 0);
    assert_eq!(bf.as_ref(), &[]);
}

#[test]
fn lib_test_write_fixed_string() {
    let mut buf = Bufferfish::new();
    buf.write_sized_string("Bufferfish").unwrap();

    assert_eq!(buf.as_ref(), &[66, 117, 102, 102, 101, 114, 102, 105, 115, 104]);
}

#[test]
fn lib_test_read_sized_string() {
    let mut buf = Bufferfish::new();
    buf.write_sized_string("Bufferfish").unwrap();

    assert_eq!(buf.read_sized_string(10).unwrap(), "Bufferfish");
}

#[test]
// This is just a visual test for ensuring pretty-formatting on output.
fn lib_test_display_trait() {
    let mut bf = Bufferfish::new();
    bf.write_u16(4).unwrap();
    bf.write_string("Bufferfish").unwrap();

    // Should look like this:
    //  Byte:  0  4  0  10  66  117  102  102  101  114  102  105  115  104
    // Index:  0  1  2   3   4    5    6    7    8    9   10   11   12   13
    println!("{}", bf.to_string());
}

#[test]
fn test_read_packed_bools() {
    let mut bf = Bufferfish::new();
    bf.write_u8(0b10100000).unwrap();

    let bools = bf.read_packed_bools(3).unwrap();

    assert_eq!(bools, vec![true, false, true]);
}
