use bufferfish::bounds::{
    check_admission, enum_max_bytes, enum_min_bytes, fields_max_bytes, fields_min_bytes,
    optional_max_bytes, saturating_product, saturating_sum, sequence_max_bytes,
    sequence_min_bytes, struct_max_bytes, struct_min_bytes,
};
use bufferfish::text::{decimal, pad_left};
use bufferfish::{decode_with_id, encode_with_id};
use bufferfish::{Bufferfish, BufferfishError, Decodable, Encodable, IoFailure};

fn round_trip<T: Encodable + Decodable + PartialEq + std::fmt::Debug>(value: T) {
    let mut bf = Bufferfish::with_capacity(0);
    value.encode(&mut bf).unwrap();
    let written = bf.len();
    let back = T::decode(&mut bf).unwrap();
    assert_eq!(back, value);
    assert_eq!(bf.position(), written);
}

#[test]
fn round_trip_of_unsigned_integers() {
    for value in [0u8, 1, 127, 128, 255] {
        round_trip(value);
    }
    for value in [0u16, 255, 256, 12345, u16::MAX] {
        round_trip(value);
    }
    for value in [0u32, 65536, 1234567890, u32::MAX] {
        round_trip(value);
    }
    for value in [0u64, 4611686018427387904, u64::MAX] {
        round_trip(value);
    }
    for value in [0u128, 123456789012345678901234567890, u128::MAX] {
        round_trip(value);
    }
}

#[test]
fn round_trip_of_signed_integers() {
    for value in [0i8, 1, -1, i8::MAX, i8::MIN] {
        round_trip(value);
    }
    for value in [0i16, -1, 12345, i16::MAX, i16::MIN] {
        round_trip(value);
    }
    for value in [0i32, -1, 1234567890, i32::MAX, i32::MIN] {
        round_trip(value);
    }
    for value in [0i64, -1, i64::MAX, i64::MIN] {
        round_trip(value);
    }
    for value in [0i128, -1, i128::MAX, i128::MIN] {
        round_trip(value);
    }
}

#[test]
fn round_trip_of_bools_and_strings() {
    round_trip(true);
    round_trip(false);
    round_trip(String::new());
    round_trip("Bufferfish".to_string());
    round_trip("안녕하세요".to_string());
    round_trip("a\u{e9}\u{20ac}\u{1f41f}".to_string());
    round_trip("x".repeat(65535));
}

#[test]
fn round_trip_of_sequences_and_optional_values() {
    round_trip(Vec::<u8>::new());
    round_trip(vec![1u32, 2, 3]);
    round_trip(Some(42u32));
    round_trip(None::<u32>);
    round_trip(vec![Some("a".to_string()), None, Some("안녕".to_string())]);
    round_trip(Some(vec![vec![1i16, -1], vec![], vec![i16::MIN]]));
    round_trip(vec![0u8; 65535]);
}

#[test]
fn signed_integers_are_written_in_twos_complement() {
    let mut bf = Bufferfish::new();
    bf.write_i8(-1).unwrap();
    bf.write_i16(-2).unwrap();
    bf.write_i32(-2147483648).unwrap();
    bf.write_i64(-1).unwrap();

    assert_eq!(
        bf.as_bytes(),
        &[255, 255, 254, 0x80, 0, 0, 0, 255, 255, 255, 255, 255, 255, 255, 255]
    );
}

#[test]
fn a_positive_capacity_is_never_passed() {
    let mut bf = Bufferfish::with_capacity(5);
    bf.write_u32(1).unwrap();

    let failed = bf.write_u16(2);
    assert_eq!(
        failed,
        Err(BufferfishError::FailedWrite(IoFailure::CapacityExceeded {
            attempted: 2,
            max_capacity: 5
        }))
    );
    assert_eq!(bf.len(), 4);

    bf.write_u8(3).unwrap();
    assert_eq!(bf.len(), 5);
    assert!(bf.write_u8(4).is_err());
    assert_eq!(bf.as_bytes(), &[0, 0, 0, 1, 3]);
}

#[test]
fn no_capacity_means_no_ceiling() {
    let mut bf = Bufferfish::with_capacity(0);
    for _ in 0..100 {
        bf.write_raw_bytes(&[7u8; 100]).unwrap();
    }

    assert_eq!(bf.len(), 10000);
    assert_eq!(bf.max_capacity(), 0);
}

#[test]
fn the_default_capacity_is_1024_bytes() {
    let bf = Bufferfish::new();

    assert_eq!(bf.max_capacity(), 1024);
    assert_eq!(bufferfish::DEFAULT_MAX_CAPACITY, 1024);
    assert_eq!(Bufferfish::default().max_capacity(), 0);
    assert!(Bufferfish::default().is_empty());
}

#[test]
fn an_empty_write_always_goes_through_write_raw_bytes() {
    let mut bf = Bufferfish::from(vec![1, 2, 3]);
    bf.set_max_capacity(2);

    assert!(bf.write_raw_bytes(&[]).is_ok());
    assert_eq!(
        bf.write(&[]),
        Err(BufferfishError::FailedWrite(IoFailure::CapacityExceeded {
            attempted: 0,
            max_capacity: 2
        }))
    );
    assert_eq!(bf.as_bytes(), &[1, 2, 3]);
}

#[test]
fn write_says_how_many_bytes_it_wrote() {
    let mut bf = Bufferfish::new();

    assert_eq!(bf.write(&[1, 2, 3]), Ok(3));
    assert_eq!(bf.write(&[]), Ok(0));
    assert_eq!(bf.as_bytes(), &[1, 2, 3]);
}

#[test]
fn a_buffer_made_from_bytes_is_full() {
    let mut bf = Bufferfish::from(vec![1, 2, 3]);

    assert_eq!(bf.max_capacity(), 3);
    assert!(bf.write_u8(4).is_err());

    bf.set_max_capacity(0);
    bf.write_u8(4).unwrap();
    assert_eq!(bf.as_bytes(), &[1, 2, 3, 4]);

    let slice: &[u8] = &[9, 8];
    let copy = Bufferfish::from(slice);
    assert_eq!(copy.as_bytes(), &[9, 8]);
    assert_eq!(copy.max_capacity(), 2);
    assert_eq!(Vec::<u8>::from(copy), vec![9, 8]);
}

#[test]
fn writes_append_wherever_the_cursor_is() {
    let mut bf = Bufferfish::new();
    bf.write_u8(1).unwrap();
    bf.write_u8(2).unwrap();
    bf.write_u8(3).unwrap();

    assert_eq!(bf.read_u8().unwrap(), 1);
    assert_eq!(bf.position(), 1);

    bf.write_u8(4).unwrap();
    assert_eq!(bf.as_bytes(), &[1, 2, 3, 4]);

    assert_eq!(bf.read_u8().unwrap(), 1);
    assert_eq!(bf.read_u8().unwrap(), 2);
    assert_eq!(bf.read_u8().unwrap(), 3);
    assert_eq!(bf.read_u8().unwrap(), 4);
}

#[test]
fn a_read_past_the_end_fails_and_leaves_nothing_unread() {
    let mut bf = Bufferfish::from(vec![1, 2, 3]);

    assert_eq!(bf.read_u8(), Ok(1));
    assert_eq!(bf.read_u32(), Err(BufferfishError::FailedWrite(IoFailure::UnexpectedEof)));
    assert_eq!(bf.position(), 3);
    assert_eq!(bf.read_u8(), Err(BufferfishError::FailedWrite(IoFailure::UnexpectedEof)));
    assert_eq!(bf.as_bytes(), &[1, 2, 3]);
}

#[test]
fn peeks_do_not_move_the_cursor() {
    let mut bf = Bufferfish::from(vec![1, 2, 3]);

    assert_eq!(bf.peek(), Ok(1));
    assert_eq!(bf.peek_n(3), Ok(vec![1, 2, 3]));
    assert_eq!(bf.peek_n(0), Ok(vec![]));
    assert_eq!(bf.position(), 0);
    assert_eq!(bf.read_u16(), Ok(0x0102));
    assert_eq!(bf.peek(), Ok(3));
    assert_eq!(
        bf.peek_n(2),
        Err(BufferfishError::FailedWrite(IoFailure::PeekOutOfBounds {
            requested: 2,
            max_capacity: 3
        }))
    );
    assert_eq!(bf.read_u8(), Ok(3));
    assert_eq!(
        bf.peek(),
        Err(BufferfishError::FailedWrite(IoFailure::PeekOutOfBounds {
            requested: 1,
            max_capacity: 3
        }))
    );
}

#[test]
fn truncate_clears_and_sets_the_capacity() {
    let mut bf = Bufferfish::new();
    bf.write_u32(7).unwrap();
    bf.read_u8().unwrap();

    bf.truncate(2);

    assert!(bf.is_empty());
    assert_eq!(bf.position(), 0);
    assert_eq!(bf.max_capacity(), 2);
    assert!(bf.write_u32(7).is_err());
    bf.write_u16(7).unwrap();
    assert_eq!(bf.into_vec(), vec![0, 7]);
}

#[test]
fn buffers_are_equal_if_their_bytes_are() {
    let mut written = Bufferfish::with_capacity(0);
    written.write_u16(0x0102).unwrap();
    written.read_u8().unwrap();
    let made = Bufferfish::from(vec![1, 2]);
    let other = Bufferfish::from(vec![1, 3]);
    let longer = Bufferfish::from(vec![1, 2, 3]);

    assert!(written == made);
    assert!(written != other);
    assert!(written != longer);
    assert!(Bufferfish::new() == Bufferfish::default());
}

#[test]
fn try_extend_reports_what_extend_cannot_take() {
    let mut bf = Bufferfish::with_capacity(3);
    bf.try_extend(vec![1, 2]).unwrap();

    let failed = bf.try_extend(Bufferfish::from(vec![3, 4]));
    assert_eq!(
        failed,
        Err(BufferfishError::FailedWrite(IoFailure::CapacityExceeded {
            attempted: 2,
            max_capacity: 3
        }))
    );
    assert_eq!(bf.as_bytes(), &[1, 2]);

    let one: &[u8] = &[3];
    bf.extend(one);
    assert_eq!(bf.to_vec(), vec![1, 2, 3]);
}

#[test]
fn packed_bools_fill_from_the_most_significant_bit() {
    let mut bf = Bufferfish::new();
    bf.write_packed_bools(&[]).unwrap();
    bf.write_packed_bools(&[true]).unwrap();
    bf.write_packed_bools(&[true, true]).unwrap();
    bf.write_packed_bools(&[false, false, false, false, false, false, false, true]).unwrap();
    bf.write_packed_bools(&[true; 8]).unwrap();

    assert_eq!(bf.as_bytes(), &[0, 0b10000000, 0b11000000, 1, 255]);

    assert_eq!(bf.read_packed_bools(0), Ok(vec![]));
    assert_eq!(bf.read_packed_bools(1), Ok(vec![true]));
    assert_eq!(bf.read_packed_bools(3), Ok(vec![true, true, false]));
    assert_eq!(
        bf.read_packed_bools(8),
        Ok(vec![false, false, false, false, false, false, false, true])
    );
    assert_eq!(bf.read_packed_bools(8), Ok(vec![true; 8]));
}

#[test]
fn more_than_eight_bools_are_refused() {
    let mut bf = Bufferfish::new();

    assert_eq!(
        bf.write_packed_bools(&[true; 9]),
        Err(BufferfishError::FailedWrite(IoFailure::TooManyBools))
    );
    assert!(bf.is_empty());

    bf.write_u8(255).unwrap();
    assert_eq!(
        bf.read_packed_bools(9),
        Err(BufferfishError::FailedWrite(IoFailure::TooManyBools))
    );
    assert_eq!(bf.read_packed_bools(8), Ok(vec![true; 8]));
}

#[test]
fn any_byte_but_zero_reads_as_true() {
    let mut bf = Bufferfish::from(vec![0, 1, 2, 255]);

    assert_eq!(bf.read_bool(), Ok(false));
    assert_eq!(bf.read_bool(), Ok(true));
    assert_eq!(bf.read_bool(), Ok(true));
    assert_eq!(bf.read_bool(), Ok(true));
}

#[test]
fn a_string_longer_than_its_prefix_can_say_is_refused() {
    let mut bf = Bufferfish::with_capacity(0);
    let long = "x".repeat(65536);

    assert_eq!(
        bf.write_string(&long),
        Err(BufferfishError::FailedWrite(IoFailure::StringTooLong))
    );
    assert!(bf.is_empty());
    assert_eq!(
        long.encode(&mut bf),
        Err(BufferfishError::FailedWrite(IoFailure::StringTooLong))
    );

    bf.write_sized_string(&long).unwrap();
    assert_eq!(bf.len(), 65536);
}

#[test]
fn a_string_that_does_not_fit_leaves_its_prefix_behind() {
    let mut bf = Bufferfish::with_capacity(4);

    assert_eq!(
        bf.write_string("abc"),
        Err(BufferfishError::FailedWrite(IoFailure::CapacityExceeded {
            attempted: 3,
            max_capacity: 4
        }))
    );
    assert_eq!(bf.as_bytes(), &[0, 3]);
}

#[test]
fn strings_must_be_whole_and_well_formed() {
    let mut invalid = Bufferfish::from(vec![0, 2, 0xc3, 0x28, 7]);
    assert_eq!(
        invalid.read_string(),
        Err(BufferfishError::FailedWrite(IoFailure::InvalidUtf8))
    );
    assert_eq!(invalid.position(), 4);
    assert_eq!(invalid.read_u8(), Ok(7));

    let mut short = Bufferfish::from(vec![0, 5, 104, 105]);
    assert_eq!(
        short.read_string(),
        Err(BufferfishError::FailedWrite(IoFailure::UnexpectedEof))
    );
    assert_eq!(short.position(), 4);

    let mut headless = Bufferfish::from(vec![0]);
    assert_eq!(
        headless.read_string(),
        Err(BufferfishError::FailedWrite(IoFailure::UnexpectedEof))
    );

    let mut sized = Bufferfish::from(vec![104, 105, 0xff]);
    assert_eq!(sized.read_sized_string(2).unwrap(), "hi");
    assert_eq!(
        sized.read_sized_string(1),
        Err(BufferfishError::FailedWrite(IoFailure::InvalidUtf8))
    );
    assert_eq!(
        sized.read_sized_string(1),
        Err(BufferfishError::FailedWrite(IoFailure::UnexpectedEof))
    );
}

#[test]
fn the_remaining_bytes_read_as_one_string() {
    let mut bf = Bufferfish::new();
    bf.write_u8(9).unwrap();
    bf.write_sized_string("안녕 fish").unwrap();

    assert_eq!(bf.read_u8(), Ok(9));
    assert_eq!(bf.read_string_remaining().unwrap(), "안녕 fish");
    assert_eq!(bf.position(), bf.len());
    assert_eq!(bf.read_string_remaining().unwrap(), "");
}

#[test]
fn sequences_are_framed_by_their_count() {
    let bytes: Vec<u8> = (0..10).collect();
    let bf = bytes.to_bufferfish().unwrap();
    assert_eq!(bf.as_bytes(), &[0, 10, 0, 1, 2, 3, 4, 5, 6, 7, 8, 9]);

    let words = vec![0x0102u16, 0x0304];
    assert_eq!(words.to_bufferfish().unwrap().as_bytes(), &[0, 2, 1, 2, 3, 4]);

    let empty: Vec<String> = Vec::new();
    assert_eq!(empty.to_bufferfish().unwrap().as_bytes(), &[0, 0]);
}

#[test]
fn a_sequence_that_does_not_fit_leaves_its_first_items_behind() {
    let mut bf = Bufferfish::with_capacity(3);

    assert_eq!(
        bf.write_array(&[7u8, 8, 9]),
        Err(BufferfishError::FailedWrite(IoFailure::CapacityExceeded {
            attempted: 1,
            max_capacity: 3
        }))
    );
    assert_eq!(bf.as_bytes(), &[0, 3, 7]);
}

#[test]
fn a_sequence_ends_where_its_first_bad_item_ends() {
    let mut bf = Bufferfish::from(vec![0, 3, 1, 5, 2, 9]);

    assert_eq!(bf.read_array::<Option<u8>>(), Err(BufferfishError::InvalidEnumVariant));
    assert_eq!(bf.position(), 5);

    let mut short = Bufferfish::from(vec![0, 2, 0, 7]);
    assert_eq!(
        short.read_array::<u16>(),
        Err(BufferfishError::FailedWrite(IoFailure::UnexpectedEof))
    );
    assert_eq!(short.position(), 4);
}

#[test]
fn optional_values_are_framed_by_a_presence_byte() {
    assert_eq!(Some(42u32).to_bufferfish().unwrap().as_bytes(), &[1, 0, 0, 0, 42]);
    assert_eq!(None::<u32>.to_bufferfish().unwrap().as_bytes(), &[0]);
    assert_eq!(Some(None::<u8>).to_bufferfish().unwrap().as_bytes(), &[1, 0]);

    let mut bf = Bufferfish::from(vec![2, 0, 0, 0, 42]);
    assert_eq!(Option::<u32>::decode(&mut bf), Err(BufferfishError::InvalidEnumVariant));
    assert_eq!(bf.position(), 1);

    let mut absent = Bufferfish::from(vec![0, 1]);
    assert_eq!(Option::<u32>::decode(&mut absent), Ok(None));
    assert_eq!(absent.position(), 1);

    let mut cut = Bufferfish::from(vec![1, 0]);
    assert_eq!(
        Option::<u32>::decode(&mut cut),
        Err(BufferfishError::FailedWrite(IoFailure::UnexpectedEof))
    );
}

#[test]
fn an_unknown_discriminant_is_refused() {
    let mut bf = Bufferfish::from(vec![0, 2, 3, 255]);

    assert_eq!(bf.read_variant_index(3), Ok(0));
    assert_eq!(bf.read_variant_index(3), Ok(2));
    assert_eq!(bf.read_variant_index(3), Err(BufferfishError::InvalidEnumVariant));
    assert_eq!(bf.read_variant_index(256), Ok(255));
    assert_eq!(
        bf.read_variant_index(3),
        Err(BufferfishError::FailedWrite(IoFailure::UnexpectedEof))
    );

    let mut none = Bufferfish::from(vec![0]);
    assert_eq!(none.read_variant_index(0), Err(BufferfishError::InvalidEnumVariant));
}

#[test]
fn a_discriminant_must_fit_in_one_byte() {
    let mut bf = Bufferfish::new();

    bf.write_variant_index(0).unwrap();
    bf.write_variant_index(255).unwrap();
    assert_eq!(bf.write_variant_index(256), Err(BufferfishError::InvalidEnumVariant));
    assert_eq!(bf.as_bytes(), &[0, 255]);
}

#[test]
fn a_wrong_message_identifier_ends_the_decoding() {
    let mut bf = Bufferfish::from(vec![0, 7, 42]);
    assert_eq!(decode_with_id::<u8>(&mut bf, 8), Err(BufferfishError::InvalidMessageId));
    assert_eq!(bf.position(), 2);

    let mut right = Bufferfish::from(vec![0, 7, 42]);
    assert_eq!(decode_with_id::<u8>(&mut right, 7), Ok(42));
    assert_eq!(right.position(), 3);

    let mut short = Bufferfish::from(vec![0]);
    assert_eq!(
        decode_with_id::<u8>(&mut short, 0),
        Err(BufferfishError::FailedWrite(IoFailure::UnexpectedEof))
    );

    let mut checked = Bufferfish::from(vec![1, 2]);
    assert_eq!(checked.read_message_id(0x0102), Ok(()));
    let mut refused = Bufferfish::from(vec![1, 2]);
    assert_eq!(refused.read_message_id(0x0201), Err(BufferfishError::InvalidMessageId));
}

#[test]
fn a_message_identifier_goes_before_the_fields() {
    let mut bf = Bufferfish::new();
    encode_with_id(&0x0304u16, 0x0102, &mut bf).unwrap();
    bf.write_message_id(0xfffe).unwrap();

    assert_eq!(bf.as_bytes(), &[1, 2, 3, 4, 255, 254]);

    let mut full = Bufferfish::with_capacity(3);
    assert!(encode_with_id(&0x0304u16, 0x0102, &mut full).is_err());
    assert_eq!(full.as_bytes(), &[1, 2]);
}

#[test]
fn the_bounds_of_the_leaf_types() {
    assert_eq!(u8::min_bytes_required(), Some(1));
    assert_eq!(i16::max_bytes_allowed(), Some(2));
    assert_eq!(u32::min_bytes_required(), Some(4));
    assert_eq!(i64::max_bytes_allowed(), Some(8));
    assert_eq!(u128::min_bytes_required(), Some(16));
    assert_eq!(bool::max_bytes_allowed(), Some(1));
    assert_eq!(String::min_bytes_required(), Some(2));
    assert_eq!(String::max_bytes_allowed(), Some(65537));
}

#[test]
fn the_bounds_of_sequences_and_optional_values() {
    assert_eq!(Vec::<u8>::min_bytes_required(), Some(2 + 65535));
    assert_eq!(Vec::<u32>::max_bytes_allowed(), Some(2 + 65535 * 4));
    assert_eq!(Vec::<String>::min_bytes_required(), Some(2 + 65535 * 2));
    assert_eq!(Option::<u32>::min_bytes_required(), Some(1));
    assert_eq!(Option::<u32>::max_bytes_allowed(), Some(5));
    assert_eq!(Option::<String>::max_bytes_allowed(), Some(65538));

    assert_eq!(sequence_min_bytes(None), None);
    assert_eq!(sequence_max_bytes(None), None);
    assert_eq!(sequence_max_bytes(Some(0)), Some(2));
    assert_eq!(sequence_max_bytes(Some(usize::MAX)), Some(usize::MAX));
    assert_eq!(sequence_max_bytes(Some(usize::MAX / 65535)), Some(usize::MAX));
    assert_eq!(optional_max_bytes(None), None);
    assert_eq!(optional_max_bytes(Some(usize::MAX)), Some(usize::MAX));
}

#[test]
fn the_bounds_of_structs_and_enums() {
    assert_eq!(struct_min_bytes(false, &[]), Some(0));
    assert_eq!(struct_min_bytes(true, &[]), Some(2));
    assert_eq!(struct_min_bytes(true, &[Some(4), None, Some(2)]), Some(8));
    assert_eq!(struct_max_bytes(true, &[Some(4), Some(65537)]), Some(65543));
    assert_eq!(struct_max_bytes(false, &[Some(4), None, Some(2)]), None);
    assert_eq!(struct_max_bytes(false, &[Some(usize::MAX), Some(2)]), Some(usize::MAX));

    assert_eq!(fields_min_bytes(&[Some(4), None]), 4);
    assert_eq!(fields_max_bytes(&[Some(4), Some(1)]), Some(5));
    assert_eq!(fields_max_bytes(&[Some(4), None]), None);

    assert_eq!(enum_min_bytes(false, &[]), Some(1));
    assert_eq!(enum_min_bytes(true, &[6, 5, 9]), Some(8));
    assert_eq!(enum_min_bytes(false, &[0, 5]), Some(1));
    assert_eq!(enum_max_bytes(false, &[]), Some(1));
    assert_eq!(enum_max_bytes(true, &[Some(6), Some(65541), Some(0)]), Some(65544));
    assert_eq!(enum_max_bytes(true, &[Some(6), None]), None);

    assert_eq!(saturating_sum(usize::MAX, 1), usize::MAX);
    assert_eq!(saturating_sum(2, 3), 5);
    assert_eq!(saturating_product(0, usize::MAX), 0);
    assert_eq!(saturating_product(usize::MAX, 2), usize::MAX);
    assert_eq!(saturating_product(6, 7), 42);
}

#[test]
fn admission_refuses_by_length_alone() {
    assert_eq!(check_admission(5, Some(6), Some(10)), Err(BufferfishError::InsufficientBytes {
        available: 5,
        required: 6
    }));
    assert_eq!(check_admission(11, Some(6), Some(10)), Err(BufferfishError::ExcessiveBytes {
        available: 11,
        max_allowed: 10
    }));
    assert_eq!(check_admission(6, Some(6), Some(10)), Ok(()));
    assert_eq!(check_admission(10, Some(6), Some(10)), Ok(()));
    assert_eq!(check_admission(0, None, None), Ok(()));
    assert_eq!(check_admission(7, None, Some(3)), Err(BufferfishError::ExcessiveBytes {
        available: 7,
        max_allowed: 3
    }));
    assert_eq!(check_admission(1, Some(6), Some(0)), Err(BufferfishError::InsufficientBytes {
        available: 1,
        required: 6
    }));
}

#[test]
fn a_refused_buffer_is_left_untouched() {
    let mut long = Bufferfish::from(vec![0, 0, 0, 0, 0]);
    assert_eq!(
        u32::from_bufferfish(&mut long),
        Err(BufferfishError::ExcessiveBytes { available: 5, max_allowed: 4 })
    );
    assert_eq!(long.position(), 0);
    assert_eq!(long.read_u8(), Ok(0));

    let mut short = Bufferfish::from(vec![0, 0, 7]);
    assert_eq!(
        u32::from_bufferfish(&mut short),
        Err(BufferfishError::InsufficientBytes { available: 3, required: 4 })
    );
    assert_eq!(short.read_u16(), Ok(0));
    assert_eq!(short.read_u8(), Ok(7));

    let mut right = Bufferfish::from(vec![0, 0, 1, 0]);
    assert_eq!(u32::from_bufferfish(&mut right), Ok(256));

    let mut invalid = Bufferfish::from(vec![0, 2, 0xc3, 0x28]);
    assert_eq!(
        String::from_bufferfish(&mut invalid),
        Err(BufferfishError::FailedWrite(IoFailure::InvalidUtf8))
    );
}

#[test]
fn a_buffer_shows_its_bytes_over_their_indexes() {
    let mut bf = Bufferfish::new();
    bf.write_u16(4).unwrap();
    bf.write_string("Buf").unwrap();

    assert_eq!(
        bf.to_string(),
        " Byte:  0  4  0  3  66  117  102 \nIndex:  0  1  2  3   4    5    6 "
    );
    assert_eq!(Bufferfish::new().to_string(), " Byte: \nIndex: ");

    let wide = Bufferfish::from(vec![1u8; 11]);
    assert!(wide.to_string().ends_with(" 9  10 "));
}

#[test]
fn numbers_are_shown_in_decimal() {
    assert_eq!(decimal(0), "0");
    assert_eq!(decimal(7), "7");
    assert_eq!(decimal(10), "10");
    assert_eq!(decimal(65535), "65535");
    assert_eq!(decimal(usize::MAX), usize::MAX.to_string());
    assert_eq!(pad_left("7", 3), "  7");
    assert_eq!(pad_left("777", 3), "777");
    assert_eq!(pad_left("7777", 3), "7777");
    assert_eq!(pad_left("", 0), "");
    assert_eq!(pad_left("안", 2), " 안");
}

#[test]
fn errors_say_what_went_wrong() {
    assert_eq!(BufferfishError::InvalidMessageId.to_string(), "invalid message id");
    assert_eq!(BufferfishError::InvalidEnumVariant.to_string(), "invalid enum variant");
    assert_eq!(
        BufferfishError::InsufficientBytes { available: 5, required: 6 }.to_string(),
        "insufficient bytes in buffer: available 5, required 6"
    );
    assert_eq!(
        BufferfishError::ExcessiveBytes { available: 11, max_allowed: 10 }.to_string(),
        "excessive bytes in buffer: available 11, maximum allowed 10"
    );
    assert_eq!(
        BufferfishError::FailedWrite(IoFailure::CapacityExceeded {
            attempted: 1025,
            max_capacity: 1024
        })
        .to_string(),
        "failed to write to buffer: write of 1025 bytes exceeds the max capacity of 1024 bytes on this Bufferfish"
    );
    assert_eq!(
        IoFailure::PeekOutOfBounds { requested: 2, max_capacity: 0 }.to_string(),
        "peek of 2 bytes exceeds the max capacity of 0 bytes on this Bufferfish"
    );
    assert_eq!(IoFailure::UnexpectedEof.to_string(), "failed to fill whole buffer");
    assert_eq!(IoFailure::InvalidUtf8.to_string(), "invalid utf-8 sequence");
    assert_eq!(
        IoFailure::TooManyBools.to_string(),
        "Cannot pack more than 8 booleans into a single byte."
    );
    assert_eq!(IoFailure::StringTooLong.to_string(), "String length exceeds u16 max value");
}

#[test]
fn buffers_convert_to_and_from_shared_bytes() {
    let shared = bytes::Bytes::from(vec![1u8, 2, 3]);
    let mut bf = Bufferfish::from(shared.clone());

    assert_eq!(bf.as_bytes(), &[1, 2, 3]);
    assert_eq!(bf.max_capacity(), 3);
    assert_eq!(bf.read_u8(), Ok(1));

    let copied = bytes::Bytes::from(&bf);
    assert_eq!(copied, shared);

    bf.set_max_capacity(0);
    bf.write_u8(4).unwrap();
    let moved = bytes::Bytes::from(bf);
    assert_eq!(&moved[..], &[1, 2, 3, 4]);
    assert_eq!(Bufferfish::from(bytes::Bytes::new()).len(), 0);
}

#[test]
fn the_bytes_of_a_buffer_can_be_changed_in_place() {
    let mut bf = Bufferfish::from(vec![1, 2, 3]);
    assert_eq!(bf.read_u8(), Ok(1));

    bf.as_mut()[1] = 9;
    bf.as_bytes_mut()[2] = 8;

    assert_eq!(bf.as_bytes(), &[1, 9, 8]);
    assert_eq!(bf.position(), 1);
    assert_eq!(bf.read_u16(), Ok(0x0908));
}
