//! The decoding of field values by their types.

use crate::buffer::Bufferfish;
use crate::decodable::{
    after_parse, decoded, end_of_data, fixed_parse, string_decoded_from, string_parse, Decodable,
    Parsed,
};
use crate::error::BufferfishError;
use crate::message::{FieldType, FieldValue};
use crate::wire::{be_value, lemma_pow256_values};
use vstd::prelude::*;

verus! {

/// How decoding the field data of a value of type `ty` at the head of
/// `input` goes.
pub open spec fn field_parse(ty: FieldType, input: Seq<u8>) -> Parsed
    decreases ty, 0nat, 0nat,
{
    match ty {
        FieldType::U8 => fixed_parse(input, 1),
        FieldType::U16 => fixed_parse(input, 2),
        FieldType::U32 => fixed_parse(input, 4),
        FieldType::U64 => fixed_parse(input, 8),
        FieldType::U128 => fixed_parse(input, 16),
        FieldType::I8 => fixed_parse(input, 1),
        FieldType::I16 => fixed_parse(input, 2),
        FieldType::I32 => fixed_parse(input, 4),
        FieldType::I64 => fixed_parse(input, 8),
        FieldType::I128 => fixed_parse(input, 16),
        FieldType::Bool => fixed_parse(input, 1),
        FieldType::Text => string_parse(input),
        FieldType::Sequence(item) => after_parse(
            fixed_parse(input, 2),
            repeat_parse(*item, input.skip(2), be_value(input.subrange(0, 2))),
        ),
        FieldType::Optional(inner) => if input.len() < 1 {
            Parsed { taken: 0, failure: Some(end_of_data()) }
        } else if input[0] == 0 {
            Parsed { taken: 1, failure: None }
        } else if input[0] == 1 {
            after_parse(Parsed { taken: 1, failure: None }, field_parse(*inner, input.skip(1)))
        } else {
            Parsed { taken: 1, failure: Some(BufferfishError::InvalidEnumVariant) }
        },
        FieldType::Struct(fields) => fields_parse(fields@, input, fields@.len()),
        FieldType::Enum(variants) => if input.len() < 1 {
            Parsed { taken: 0, failure: Some(end_of_data()) }
        } else if input[0] as nat >= variants@.len() {
            Parsed { taken: 1, failure: Some(BufferfishError::InvalidEnumVariant) }
        } else {
            after_parse(
                Parsed { taken: 1, failure: None },
                fields_parse(
                    variants@[input[0] as int]@,
                    input.skip(1),
                    variants@[input[0] as int]@.len(),
                ),
            )
        },
    }
}

/// How decoding the field data of `count` values of type `ty` in a row
/// goes: the first value that fails ends it.
pub open spec fn repeat_parse(ty: FieldType, input: Seq<u8>, count: nat) -> Parsed
    decreases ty, 1nat, count,
{
    if count == 0 {
        Parsed { taken: 0, failure: None }
    } else {
        let before = repeat_parse(ty, input, (count - 1) as nat);
        after_parse(before, field_parse(ty, input.skip(before.taken as int)))
    }
}

/// How decoding the field data of values of the first `upto` of the types
/// `tys` in a row goes: the first value that fails ends it.
pub open spec fn fields_parse(tys: Seq<FieldType>, input: Seq<u8>, upto: nat) -> Parsed
    decreases tys, 0nat, upto,
{
    if upto == 0 || upto > tys.len() {
        Parsed { taken: 0, failure: None }
    } else {
        let before = fields_parse(tys, input, (upto - 1) as nat);
        after_parse(before, field_parse(tys[upto - 1], input.skip(before.taken as int)))
    }
}

/// Whether `value` is the value of type `ty` that the field data at the
/// head of `input` stand for.
pub open spec fn field_decoded_from(value: FieldValue, ty: FieldType, input: Seq<u8>) -> bool
    decreases ty, 0nat, 0nat,
{
    match ty {
        FieldType::U8 => value matches FieldValue::U8(v) && v.decoded_from(input),
        FieldType::U16 => value matches FieldValue::U16(v) && v.decoded_from(input),
        FieldType::U32 => value matches FieldValue::U32(v) && v.decoded_from(input),
        FieldType::U64 => value matches FieldValue::U64(v) && v.decoded_from(input),
        FieldType::U128 => value matches FieldValue::U128(v) && v.decoded_from(input),
        FieldType::I8 => value matches FieldValue::I8(v) && v.decoded_from(input),
        FieldType::I16 => value matches FieldValue::I16(v) && v.decoded_from(input),
        FieldType::I32 => value matches FieldValue::I32(v) && v.decoded_from(input),
        FieldType::I64 => value matches FieldValue::I64(v) && v.decoded_from(input),
        FieldType::I128 => value matches FieldValue::I128(v) && v.decoded_from(input),
        FieldType::Bool => value matches FieldValue::Bool(v) && v.decoded_from(input),
        FieldType::Text => value matches FieldValue::Text(text) && string_decoded_from(
            text@,
            input,
        ),
        FieldType::Sequence(item) => value matches FieldValue::Sequence(items) && input.len() >= 2
            && items@.len() == be_value(input.subrange(0, 2)) && repeated_decoded_from(
            items@,
            *item,
            input.skip(2),
            items@.len(),
        ),
        FieldType::Optional(inner) => value matches FieldValue::Optional(found) && input.len()
            >= 1 && match found {
            Some(present) => input[0] == 1 && field_decoded_from(*present, *inner, input.skip(1)),
            None => input[0] == 0,
        },
        FieldType::Struct(fields) => value matches FieldValue::Struct(found) && found@.len()
            == fields@.len() && fields_decoded_from(found@, fields@, input, fields@.len()),
        FieldType::Enum(variants) => value matches FieldValue::Enum(variant, found) && input.len()
            >= 1 && input[0] == variant && (variant as nat) < variants@.len() && found@.len()
            == variants@[variant as int]@.len() && fields_decoded_from(
            found@,
            variants@[variant as int]@,
            input.skip(1),
            found@.len(),
        ),
    }
}

/// Whether the first `upto` of `values` are the values of type `ty` that
/// the field data at the head of `input` stand for, one after the other.
pub open spec fn repeated_decoded_from(
    values: Seq<FieldValue>,
    ty: FieldType,
    input: Seq<u8>,
    upto: nat,
) -> bool
    decreases ty, 1nat, upto,
{
    if upto == 0 || upto > values.len() {
        true
    } else {
        let before = repeat_parse(ty, input, (upto - 1) as nat);
        &&& repeated_decoded_from(values, ty, input, (upto - 1) as nat)
        &&& before.failure is None
        &&& field_decoded_from(values[upto - 1], ty, input.skip(before.taken as int))
    }
}

/// Whether the first `upto` of `values` are the values of the types `tys`
/// that the field data at the head of `input` stand for, one after the
/// other.
pub open spec fn fields_decoded_from(
    values: Seq<FieldValue>,
    tys: Seq<FieldType>,
    input: Seq<u8>,
    upto: nat,
) -> bool
    decreases tys, 0nat, upto,
{
    if upto == 0 || upto > values.len() || upto > tys.len() {
        true
    } else {
        let before = fields_parse(tys, input, (upto - 1) as nat);
        &&& fields_decoded_from(values, tys, input, (upto - 1) as nat)
        &&& before.failure is None
        &&& field_decoded_from(values[upto - 1], tys[upto - 1], input.skip(before.taken as int))
    }
}

/// Values that were decoded stay decoded when another value is put behind
/// them.
pub proof fn lemma_repeated_decoded_from_push(
    values: Seq<FieldValue>,
    more: FieldValue,
    ty: FieldType,
    input: Seq<u8>,
    upto: nat,
)
    requires
        upto <= values.len(),
        repeated_decoded_from(values, ty, input, upto),
    ensures
        repeated_decoded_from(values.push(more), ty, input, upto),
    decreases upto,
{
    if upto > 0 {
        lemma_repeated_decoded_from_push(values, more, ty, input, (upto - 1) as nat);
        assert(values.push(more)[upto - 1] == values[upto - 1]);
    }
}

/// Fields that were decoded stay decoded when another value is put behind
/// them.
pub proof fn lemma_fields_decoded_from_push(
    values: Seq<FieldValue>,
    more: FieldValue,
    tys: Seq<FieldType>,
    input: Seq<u8>,
    upto: nat,
)
    requires
        upto <= values.len(),
        fields_decoded_from(values, tys, input, upto),
    ensures
        fields_decoded_from(values.push(more), tys, input, upto),
    decreases upto,
{
    if upto > 0 && upto <= tys.len() {
        lemma_fields_decoded_from_push(values, more, tys, input, (upto - 1) as nat);
        assert(values.push(more)[upto - 1] == values[upto - 1]);
    }
}

/// Once a value fails to decode, so does every longer run of values, at
/// the same place and for the same reason.
pub proof fn lemma_repeat_parse_failure_stays(
    ty: FieldType,
    input: Seq<u8>,
    failed: nat,
    count: nat,
)
    requires
        failed <= count,
        repeat_parse(ty, input, failed).failure is Some,
    ensures
        repeat_parse(ty, input, count) == repeat_parse(ty, input, failed),
    decreases count,
{
    if failed < count {
        lemma_repeat_parse_failure_stays(ty, input, failed, (count - 1) as nat);
    }
}

/// Once a field fails to decode, so does every longer run of fields, at
/// the same place and for the same reason.
pub proof fn lemma_fields_parse_failure_stays(
    tys: Seq<FieldType>,
    input: Seq<u8>,
    failed: nat,
    upto: nat,
)
    requires
        failed <= upto <= tys.len(),
        fields_parse(tys, input, failed).failure is Some,
    ensures
        fields_parse(tys, input, upto) == fields_parse(tys, input, failed),
    decreases upto,
{
    if failed < upto {
        lemma_fields_parse_failure_stays(tys, input, failed, (upto - 1) as nat);
    }
}

/// Reads the field data of a value of type `ty`.
pub fn decode_field(ty: &FieldType, bf: &mut Bufferfish) -> (r: Result<FieldValue, BufferfishError>)
    ensures
        decoded(
            old(bf)@,
            final(bf)@,
            field_parse(*ty, old(bf)@.unread()),
            match r {
                Ok(value) => Ok(field_decoded_from(value, *ty, old(bf)@.unread())),
                Err(e) => Err(e),
            },
        ),
    decreases ty, 0nat,
{
    let ghost before = bf@;
    let ghost input = before.unread();
    match ty {
        FieldType::U8 => match u8::decode_value(bf) {
            Ok(v) => Ok(FieldValue::U8(v)),
            Err(e) => Err(e),
        },
        FieldType::U16 => match u16::decode_value(bf) {
            Ok(v) => Ok(FieldValue::U16(v)),
            Err(e) => Err(e),
        },
        FieldType::U32 => match u32::decode_value(bf) {
            Ok(v) => Ok(FieldValue::U32(v)),
            Err(e) => Err(e),
        },
        FieldType::U64 => match u64::decode_value(bf) {
            Ok(v) => Ok(FieldValue::U64(v)),
            Err(e) => Err(e),
        },
        FieldType::U128 => match u128::decode_value(bf) {
            Ok(v) => Ok(FieldValue::U128(v)),
            Err(e) => Err(e),
        },
        FieldType::I8 => match i8::decode_value(bf) {
            Ok(v) => Ok(FieldValue::I8(v)),
            Err(e) => Err(e),
        },
        FieldType::I16 => match i16::decode_value(bf) {
            Ok(v) => Ok(FieldValue::I16(v)),
            Err(e) => Err(e),
        },
        FieldType::I32 => match i32::decode_value(bf) {
            Ok(v) => Ok(FieldValue::I32(v)),
            Err(e) => Err(e),
        },
        FieldType::I64 => match i64::decode_value(bf) {
            Ok(v) => Ok(FieldValue::I64(v)),
            Err(e) => Err(e),
        },
        FieldType::I128 => match i128::decode_value(bf) {
            Ok(v) => Ok(FieldValue::I128(v)),
            Err(e) => Err(e),
        },
        FieldType::Bool => match bool::decode_value(bf) {
            Ok(v) => Ok(FieldValue::Bool(v)),
            Err(e) => Err(e),
        },
        FieldType::Text => match String::decode_value(bf) {
            Ok(text) => Ok(FieldValue::Text(text)),
            Err(e) => Err(e),
        },
        FieldType::Sequence(item) => {
            proof {
                before.lemma_read_number_bound(2);
                lemma_pow256_values();
                if input.len() >= 2 {
                    before.lemma_unread_after_consume(2);
                }
            }
            let count = match bf.read_u16() {
                Ok(count) => count as usize,
                Err(e) => {
                    return Err(e);
                },
            };
            match decode_repeated(item, count, bf) {
                Ok(items) => Ok(FieldValue::Sequence(items)),
                Err(e) => Err(e),
            }
        },
        FieldType::Optional(inner) => {
            proof {
                before.lemma_read_number_bound(1);
                lemma_pow256_values();
                if input.len() >= 1 {
                    reveal_with_fuel(be_value, 2);
                    assert(input.subrange(0, 1).drop_last() =~= Seq::<u8>::empty());
                    assert(be_value(input.subrange(0, 1)) == input[0]);
                    before.lemma_unread_after_consume(1);
                }
            }
            let flag = match bf.read_u8() {
                Ok(flag) => flag,
                Err(e) => {
                    return Err(e);
                },
            };
            if flag == 0 {
                Ok(FieldValue::Optional(None))
            } else if flag == 1 {
                match decode_field(inner, bf) {
                    Ok(present) => Ok(FieldValue::Optional(Some(Box::new(present)))),
                    Err(e) => Err(e),
                }
            } else {
                Err(BufferfishError::InvalidEnumVariant)
            }
        },
        FieldType::Struct(fields) => match decode_fields(fields, bf) {
            Ok(found) => Ok(FieldValue::Struct(found)),
            Err(e) => Err(e),
        },
        FieldType::Enum(variants) => {
            proof {
                before.lemma_read_number_bound(1);
                lemma_pow256_values();
                if input.len() >= 1 {
                    reveal_with_fuel(be_value, 2);
                    assert(input.subrange(0, 1).drop_last() =~= Seq::<u8>::empty());
                    assert(be_value(input.subrange(0, 1)) == input[0]);
                    before.lemma_unread_after_consume(1);
                }
            }
            let variant = match bf.read_variant_index(variants.len()) {
                Ok(variant) => variant,
                Err(e) => {
                    return Err(e);
                },
            };
            match decode_fields(&variants[variant as usize], bf) {
                Ok(found) => Ok(FieldValue::Enum(variant, found)),
                Err(e) => Err(e),
            }
        },
    }
}

/// Reads the field data of `count` values of type `ty`, one after the
/// other.
pub fn decode_repeated(ty: &FieldType, count: usize, bf: &mut Bufferfish) -> (r: Result<
    Vec<FieldValue>,
    BufferfishError,
>)
    ensures
        decoded(
            old(bf)@,
            final(bf)@,
            repeat_parse(*ty, old(bf)@.unread(), count as nat),
            match r {
                Ok(values) => Ok(
                    values@.len() == count && repeated_decoded_from(
                        values@,
                        *ty,
                        old(bf)@.unread(),
                        count as nat,
                    ),
                ),
                Err(e) => Err(e),
            },
        ),
    decreases ty, 1nat,
{
    let ghost start = bf@;
    let ghost body = start.unread();
    let mut values: Vec<FieldValue> = Vec::new();
    let ghost mut taken: nat = 0;
    let mut at: usize = 0;
    while at < count
        invariant
            at <= count,
            start == old(bf)@,
            body == start.unread(),
            values@.len() == at,
            repeat_parse(*ty, body, at as nat) == (Parsed { taken, failure: None }),
            taken <= body.len(),
            bf@ == start.consume(taken),
            repeated_decoded_from(values@, *ty, body, at as nat),
        decreases count - at,
    {
        let ghost parsed = field_parse(*ty, body.skip(taken as int));
        proof {
            start.lemma_unread_after_consume(taken);
        }
        match decode_field(ty, bf) {
            Ok(value) => {
                proof {
                    lemma_repeated_decoded_from_push(values@, value, *ty, body, at as nat);
                }
                values.push(value);
                proof {
                    taken = taken + parsed.taken;
                }
            },
            Err(e) => {
                proof {
                    lemma_repeat_parse_failure_stays(*ty, body, (at + 1) as nat, count as nat);
                }
                return Err(e);
            },
        }
        at = at + 1;
    }
    Ok(values)
}

/// Reads the field data of values of the types `tys`, one after the other.
pub fn decode_fields(tys: &Vec<FieldType>, bf: &mut Bufferfish) -> (r: Result<
    Vec<FieldValue>,
    BufferfishError,
>)
    ensures
        decoded(
            old(bf)@,
            final(bf)@,
            fields_parse(tys@, old(bf)@.unread(), tys@.len()),
            match r {
                Ok(values) => Ok(
                    values@.len() == tys@.len() && fields_decoded_from(
                        values@,
                        tys@,
                        old(bf)@.unread(),
                        tys@.len(),
                    ),
                ),
                Err(e) => Err(e),
            },
        ),
    decreases tys, 0nat,
{
    let ghost start = bf@;
    let ghost body = start.unread();
    let mut values: Vec<FieldValue> = Vec::new();
    let ghost mut taken: nat = 0;
    let mut at: usize = 0;
    while at < tys.len()
        invariant
            at <= tys@.len(),
            start == old(bf)@,
            body == start.unread(),
            values@.len() == at,
            fields_parse(tys@, body, at as nat) == (Parsed { taken, failure: None }),
            taken <= body.len(),
            bf@ == start.consume(taken),
            fields_decoded_from(values@, tys@, body, at as nat),
        decreases tys@.len() - at,
    {
        let ghost parsed = field_parse(tys@[at as int], body.skip(taken as int));
        proof {
            start.lemma_unread_after_consume(taken);
        }
        match decode_field(&tys[at], bf) {
            Ok(value) => {
                proof {
                    lemma_fields_decoded_from_push(values@, value, tys@, body, at as nat);
                }
                values.push(value);
                proof {
                    taken = taken + parsed.taken;
                }
            },
            Err(e) => {
                proof {
                    lemma_fields_parse_failure_stays(tys@, body, (at + 1) as nat, tys@.len());
                }
                return Err(e);
            },
        }
        at = at + 1;
    }
    Ok(values)
}

} // verus!
