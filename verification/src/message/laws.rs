//! What holds of field values and their types: decoding undoes encoding,
//! and the size bounds hold of the encodings.

use crate::bounds::{
    all_known, lemma_greatest_of_at, lemma_least_of_at, saturated, sum_of_known,
};
use crate::decodable::Parsed;
use crate::encodable::{lemma_wire_of_concat, wire_of, writable, Step};
use crate::laws::{lemma_wire_of_one_write, RoundTrip};
use crate::message::conform::{
    all_conform, conforms, fields_conform, lemma_all_conform_at, lemma_fields_conform_at,
};
use crate::message::decode::{
    field_decoded_from, field_parse, fields_decoded_from, fields_parse, repeat_parse,
    repeated_decoded_from,
};
use crate::message::encode::{
    lemma_values_steps_split, value_steps, values_steps, values_steps_from,
};
use crate::message::size::{
    max_bound, max_bounds, min_bound, min_bounds, variant_maxes, variant_mins,
};
use crate::message::{FieldType, FieldValue};
use crate::wire::{
    be_bytes, lemma_be_bytes_len, lemma_be_value_of_bytes, lemma_pow256_values, twos_complement,
};
use vstd::prelude::*;
use vstd::utf8::encode_utf8;

verus! {

/// Whether two values are equal: the same numbers, flags and texts in the
/// same places.
pub open spec fn same_value(a: FieldValue, b: FieldValue) -> bool
    decreases a, 0nat,
{
    match a {
        FieldValue::U8(x) => b matches FieldValue::U8(y) && x == y,
        FieldValue::U16(x) => b matches FieldValue::U16(y) && x == y,
        FieldValue::U32(x) => b matches FieldValue::U32(y) && x == y,
        FieldValue::U64(x) => b matches FieldValue::U64(y) && x == y,
        FieldValue::U128(x) => b matches FieldValue::U128(y) && x == y,
        FieldValue::I8(x) => b matches FieldValue::I8(y) && x == y,
        FieldValue::I16(x) => b matches FieldValue::I16(y) && x == y,
        FieldValue::I32(x) => b matches FieldValue::I32(y) && x == y,
        FieldValue::I64(x) => b matches FieldValue::I64(y) && x == y,
        FieldValue::I128(x) => b matches FieldValue::I128(y) && x == y,
        FieldValue::Bool(x) => b matches FieldValue::Bool(y) && x == y,
        FieldValue::Text(x) => b matches FieldValue::Text(y) && x@ == y@,
        FieldValue::Sequence(xs) => b matches FieldValue::Sequence(ys) && xs@.len() == ys@.len()
            && same_values(xs@, ys@, xs@.len()),
        FieldValue::Optional(Some(x)) => b matches FieldValue::Optional(Some(y)) && same_value(
            *x,
            *y,
        ),
        FieldValue::Optional(None) => b matches FieldValue::Optional(None),
        FieldValue::Struct(xs) => b matches FieldValue::Struct(ys) && xs@.len() == ys@.len()
            && same_values(xs@, ys@, xs@.len()),
        FieldValue::Enum(i, xs) => b matches FieldValue::Enum(j, ys) && i == j && xs@.len()
            == ys@.len() && same_values(xs@, ys@, xs@.len()),
    }
}

/// Whether the first `upto` values of two sequences are equal, index by
/// index.
pub open spec fn same_values(xs: Seq<FieldValue>, ys: Seq<FieldValue>, upto: nat) -> bool
    decreases xs, upto,
{
    if upto == 0 || upto > xs.len() {
        true
    } else {
        same_values(xs, ys, (upto - 1) as nat) && upto <= ys.len() && same_value(
            xs[upto - 1],
            ys[upto - 1],
        )
    }
}

/// The bytes of the field data of a value, as they stand on the wire where
/// the value can be written.
pub open spec fn value_wire(value: FieldValue) -> Seq<u8> {
    wire_of(value_steps(value))
}

/// The bytes of the field data of the first `upto` of some values.
pub open spec fn values_wire(values: Seq<FieldValue>, upto: nat) -> Seq<u8> {
    wire_of(values_steps(values, upto))
}

/// The bytes of the field data of the values from index `from` on.
pub open spec fn values_wire_from(values: Seq<FieldValue>, from: nat) -> Seq<u8> {
    wire_of(values_steps_from(values, from))
}

/// The bytes of some values are those of the first `k`, then those of the
/// value at index `k`, then those of the rest.
pub proof fn lemma_values_wire_split(values: Seq<FieldValue>, k: nat)
    requires
        k < values.len(),
    ensures
        values_wire(values, values.len()) == values_wire(values, k) + (value_wire(
            values[k as int],
        ) + values_wire_from(values, k + 1)),
        values_wire(values, k + 1) == values_wire(values, k) + value_wire(values[k as int]),
{
    lemma_values_steps_split(values, k);
    lemma_wire_of_concat(values_steps(values, k), values_steps_from(values, k));
    lemma_wire_of_concat(value_steps(values[k as int]), values_steps_from(values, k + 1));
    lemma_wire_of_concat(values_steps(values, k), value_steps(values[k as int]));
}

/// Steps none of which refuses, followed by more such steps, are steps none
/// of which refuses.
pub proof fn lemma_writable_concat(first: Seq<Step>, second: Seq<Step>)
    requires
        writable(first),
        writable(second),
    ensures
        writable(first + second),
{
    let all = first + second;
    assert forall|i: int| 0 <= i < all.len() implies (#[trigger] all[i]) is Write by {
        if i < first.len() {
            assert(first[i] is Write);
        } else {
            assert(second[i - first.len()] is Write);
        }
    }
}

/// Round trip of a value without parts: the encoding of an integer, a
/// boolean or a string of at most 65535 bytes, followed by any other bytes,
/// decodes successfully, the decoding takes exactly the bytes of the
/// encoding, and the value that it yields is equal to the one that was
/// encoded.
pub proof fn lemma_leaf_round_trip(
    value: FieldValue,
    ty: FieldType,
    found: FieldValue,
    rest: Seq<u8>,
)
    requires
        conforms(value, ty),
        !(ty is Sequence || ty is Optional || ty is Struct || ty is Enum),
    ensures
        writable(value_steps(value)),
        field_parse(ty, value_wire(value) + rest) == (Parsed {
            taken: value_wire(value).len(),
            failure: None,
        }),
        field_decoded_from(found, ty, value_wire(value) + rest) ==> same_value(found, value),
{
    match ty {
        FieldType::U8 => {
            let v = value->U8_0;
            v.lemma_round_trip(&v, rest);
            if found is U8 {
                v.lemma_round_trip(&found->U8_0, rest);
            }
        },
        FieldType::U16 => {
            let v = value->U16_0;
            v.lemma_round_trip(&v, rest);
            if found is U16 {
                v.lemma_round_trip(&found->U16_0, rest);
            }
        },
        FieldType::U32 => {
            let v = value->U32_0;
            v.lemma_round_trip(&v, rest);
            if found is U32 {
                v.lemma_round_trip(&found->U32_0, rest);
            }
        },
        FieldType::U64 => {
            let v = value->U64_0;
            v.lemma_round_trip(&v, rest);
            if found is U64 {
                v.lemma_round_trip(&found->U64_0, rest);
            }
        },
        FieldType::U128 => {
            let v = value->U128_0;
            v.lemma_round_trip(&v, rest);
            if found is U128 {
                v.lemma_round_trip(&found->U128_0, rest);
            }
        },
        FieldType::I8 => {
            let v = value->I8_0;
            v.lemma_round_trip(&v, rest);
            if found is I8 {
                v.lemma_round_trip(&found->I8_0, rest);
            }
        },
        FieldType::I16 => {
            let v = value->I16_0;
            v.lemma_round_trip(&v, rest);
            if found is I16 {
                v.lemma_round_trip(&found->I16_0, rest);
            }
        },
        FieldType::I32 => {
            let v = value->I32_0;
            v.lemma_round_trip(&v, rest);
            if found is I32 {
                v.lemma_round_trip(&found->I32_0, rest);
            }
        },
        FieldType::I64 => {
            let v = value->I64_0;
            v.lemma_round_trip(&v, rest);
            if found is I64 {
                v.lemma_round_trip(&found->I64_0, rest);
            }
        },
        FieldType::I128 => {
            let v = value->I128_0;
            v.lemma_round_trip(&v, rest);
            if found is I128 {
                v.lemma_round_trip(&found->I128_0, rest);
            }
        },
        FieldType::Bool => {
            let v = value->Bool_0;
            v.lemma_round_trip(&v, rest);
            if found is Bool {
                v.lemma_round_trip(&found->Bool_0, rest);
            }
        },
        FieldType::Text => {
            let text = value->Text_0;
            text.lemma_round_trip(&text, rest);
            if found is Text {
                text.lemma_round_trip(&found->Text_0, rest);
            }
        },
        _ => {},
    }
}

/// Round trip of a value: the encoding of a value that conforms to a type,
/// followed by any other bytes, decodes successfully as a value of that
/// type, the decoding takes exactly the bytes of the encoding, and the
/// value that it yields is equal to the one that was encoded.
pub proof fn lemma_value_round_trip(
    value: FieldValue,
    ty: FieldType,
    found: FieldValue,
    rest: Seq<u8>,
)
    requires
        conforms(value, ty),
    ensures
        writable(value_steps(value)),
        field_parse(ty, value_wire(value) + rest) == (Parsed {
            taken: value_wire(value).len(),
            failure: None,
        }),
        field_decoded_from(found, ty, value_wire(value) + rest) ==> same_value(found, value),
    decreases ty, 0nat, 0nat,
{
    let input = value_wire(value) + rest;
    match ty {
        FieldType::Sequence(item) => {
            let items = value->Sequence_0@;
            let count = items.len();
            let prefix = be_bytes(count % 65536, 2);
            let body = values_wire(items, count) + rest;
            lemma_pow256_values();
            lemma_be_bytes_len(count, 2);
            lemma_be_value_of_bytes(count, 2);
            lemma_wire_of_one_write(prefix);
            lemma_wire_of_concat(seq![Step::Write(prefix)], values_steps(items, count));
            assert(input.subrange(0, 2) =~= prefix);
            assert(input.skip(2) =~= body);
            let none = Seq::<FieldValue>::empty();
            lemma_repeated_round_trip(items, *item, none, rest, count);
            lemma_writable_concat(seq![Step::Write(prefix)], values_steps(items, count));
            if field_decoded_from(found, ty, input) {
                let others = found->Sequence_0@;
                lemma_repeated_round_trip(items, *item, others, rest, count);
            }
        },
        FieldType::Optional(inner) => {
            match value->Optional_0 {
                Some(present) => {
                    lemma_wire_of_one_write(seq![1u8]);
                    lemma_wire_of_concat(seq![Step::Write(seq![1u8])], value_steps(*present));
                    assert(input.skip(1) =~= value_wire(*present) + rest);
                    lemma_value_round_trip(*present, *inner, *present, rest);
                    lemma_writable_concat(seq![Step::Write(seq![1u8])], value_steps(*present));
                    if field_decoded_from(found, ty, input) {
                        let other = found->Optional_0->Some_0;
                        lemma_value_round_trip(*present, *inner, *other, rest);
                    }
                },
                None => {
                    lemma_wire_of_one_write(seq![0u8]);
                },
            }
        },
        FieldType::Struct(fields) => {
            let values = value->Struct_0@;
            let none = Seq::<FieldValue>::empty();
            lemma_fields_round_trip(values, fields@, none, rest, values.len());
            if field_decoded_from(found, ty, input) {
                let others = found->Struct_0@;
                lemma_fields_round_trip(values, fields@, others, rest, values.len());
            }
        },
        FieldType::Enum(variants) => {
            let variant = value->Enum_0;
            let values = value->Enum_1@;
            let tys = variants@[variant as int]@;
            lemma_wire_of_one_write(seq![variant]);
            lemma_wire_of_concat(
                seq![Step::Write(seq![variant])],
                values_steps(values, values.len()),
            );
            assert(input.skip(1) =~= values_wire(values, values.len()) + rest);
            let none = Seq::<FieldValue>::empty();
            lemma_fields_round_trip(values, tys, none, rest, values.len());
            lemma_writable_concat(
                seq![Step::Write(seq![variant])],
                values_steps(values, values.len()),
            );
            if field_decoded_from(found, ty, input) {
                let others = found->Enum_1@;
                lemma_fields_round_trip(values, tys, others, rest, values.len());
            }
        },
        _ => {
            lemma_leaf_round_trip(value, ty, found, rest);
        },
    }
}

/// Round trip of the items of a sequence: in the encoding of values that
/// conform to one type, the first `upto` of them decode successfully, the
/// decoding takes exactly their bytes, and the values that it yields are
/// equal to those that were encoded.
pub proof fn lemma_repeated_round_trip(
    values: Seq<FieldValue>,
    ty: FieldType,
    found: Seq<FieldValue>,
    rest: Seq<u8>,
    upto: nat,
)
    requires
        all_conform(values, ty, values.len()),
        upto <= values.len(),
    ensures
        writable(values_steps(values, upto)),
        repeat_parse(ty, values_wire(values, values.len()) + rest, upto) == (Parsed {
            taken: values_wire(values, upto).len(),
            failure: None,
        }),
        upto <= found.len() && repeated_decoded_from(
            found,
            ty,
            values_wire(values, values.len()) + rest,
            upto,
        ) ==> same_values(found, values, upto),
    decreases ty, 1nat, upto,
{
    let input = values_wire(values, values.len()) + rest;
    if upto > 0 {
        let k = (upto - 1) as nat;
        let value = values[k as int];
        let tail = values_wire_from(values, upto) + rest;
        lemma_repeated_round_trip(values, ty, found, rest, k);
        lemma_all_conform_at(values, ty, values.len(), k);
        lemma_values_wire_split(values, k);
        assert(input.skip(values_wire(values, k).len() as int) =~= value_wire(value) + tail);
        lemma_value_round_trip(value, ty, value, tail);
        lemma_writable_concat(values_steps(values, k), value_steps(value));
        if upto <= found.len() && repeated_decoded_from(found, ty, input, upto) {
            lemma_value_round_trip(value, ty, found[k as int], tail);
        }
    }
}

/// Round trip of the fields of a struct or a variant: in the encoding of
/// values that conform to the types of the fields, the first `upto` of them
/// decode successfully, the decoding takes exactly their bytes, and the
/// values that it yields are equal to those that were encoded.
pub proof fn lemma_fields_round_trip(
    values: Seq<FieldValue>,
    tys: Seq<FieldType>,
    found: Seq<FieldValue>,
    rest: Seq<u8>,
    upto: nat,
)
    requires
        values.len() == tys.len(),
        fields_conform(values, tys, values.len()),
        upto <= values.len(),
    ensures
        writable(values_steps(values, upto)),
        fields_parse(tys, values_wire(values, values.len()) + rest, upto) == (Parsed {
            taken: values_wire(values, upto).len(),
            failure: None,
        }),
        upto <= found.len() && fields_decoded_from(
            found,
            tys,
            values_wire(values, values.len()) + rest,
            upto,
        ) ==> same_values(found, values, upto),
    decreases tys, 0nat, upto,
{
    let input = values_wire(values, values.len()) + rest;
    if upto > 0 {
        let k = (upto - 1) as nat;
        let value = values[k as int];
        let tail = values_wire_from(values, upto) + rest;
        lemma_fields_round_trip(values, tys, found, rest, k);
        lemma_fields_conform_at(values, tys, values.len(), k);
        lemma_values_wire_split(values, k);
        assert(input.skip(values_wire(values, k).len() as int) =~= value_wire(value) + tail);
        lemma_value_round_trip(value, tys[k as int], value, tail);
        lemma_writable_concat(values_steps(values, k), value_steps(value));
        if upto <= found.len() && fields_decoded_from(found, tys, input, upto) {
            lemma_value_round_trip(value, tys[k as int], found[k as int], tail);
        }
    }
}

/// Whether a bound does not rule out a length as too great: the length is
/// not above the bound, or the bound is not known, or it is `usize::MAX`,
/// which is above the length of every buffer.
pub open spec fn not_above(len: nat, bound: Option<usize>) -> bool {
    match bound {
        Some(max) => len <= max || max == usize::MAX,
        None => true,
    }
}

/// Whether a bound does not rule out a length as too small.
pub open spec fn not_below(len: nat, bound: Option<usize>) -> bool {
    match bound {
        Some(min) => min <= len,
        None => true,
    }
}

/// Whether no sequence occurs in a type.
pub open spec fn sequence_free(ty: FieldType) -> bool
    decreases ty, 0nat,
{
    match ty {
        FieldType::Sequence(_) => false,
        FieldType::Optional(inner) => sequence_free(*inner),
        FieldType::Struct(fields) => all_sequence_free(fields@, fields@.len()),
        FieldType::Enum(variants) => variants_sequence_free(variants@, variants@.len()),
        _ => true,
    }
}

/// Whether no sequence occurs in the first `upto` of some types.
pub open spec fn all_sequence_free(tys: Seq<FieldType>, upto: nat) -> bool
    decreases tys, upto,
{
    if upto == 0 || upto > tys.len() {
        true
    } else {
        all_sequence_free(tys, (upto - 1) as nat) && sequence_free(tys[upto - 1])
    }
}

/// Whether no sequence occurs in the fields of the first `upto` of some
/// variants.
pub open spec fn variants_sequence_free(variants: Seq<Vec<FieldType>>, upto: nat) -> bool
    decreases variants, upto,
{
    if upto == 0 || upto > variants.len() {
        true
    } else {
        variants_sequence_free(variants, (upto - 1) as nat) && all_sequence_free(
            variants[upto - 1]@,
            variants[upto - 1]@.len(),
        )
    }
}

/// How many bytes the field data of a value take, by the kind of the value.
pub proof fn lemma_value_len(value: FieldValue)
    ensures
        match value {
            FieldValue::U8(_) => value_wire(value).len() == 1,
            FieldValue::U16(_) => value_wire(value).len() == 2,
            FieldValue::U32(_) => value_wire(value).len() == 4,
            FieldValue::U64(_) => value_wire(value).len() == 8,
            FieldValue::U128(_) => value_wire(value).len() == 16,
            FieldValue::I8(_) => value_wire(value).len() == 1,
            FieldValue::I16(_) => value_wire(value).len() == 2,
            FieldValue::I32(_) => value_wire(value).len() == 4,
            FieldValue::I64(_) => value_wire(value).len() == 8,
            FieldValue::I128(_) => value_wire(value).len() == 16,
            FieldValue::Bool(_) => value_wire(value).len() == 1,
            FieldValue::Text(text) => encode_utf8(text@).len() <= 65535 ==> value_wire(
                value,
            ).len() == 2 + encode_utf8(text@).len(),
            FieldValue::Sequence(items) => value_wire(value).len() == 2 + values_wire(
                items@,
                items@.len(),
            ).len(),
            FieldValue::Optional(Some(present)) => value_wire(value).len() == 1 + value_wire(
                *present,
            ).len(),
            FieldValue::Optional(None) => value_wire(value).len() == 1,
            FieldValue::Struct(fields) => value_wire(value).len() == values_wire(
                fields@,
                fields@.len(),
            ).len(),
            FieldValue::Enum(_, fields) => value_wire(value).len() == 1 + values_wire(
                fields@,
                fields@.len(),
            ).len(),
        },
{
    match value {
        FieldValue::U8(v) => {
            let chunk = be_bytes(v as nat, 1);
            lemma_wire_of_one_write(chunk);
            lemma_be_bytes_len(v as nat, 1);
        },
        FieldValue::U16(v) => {
            let chunk = be_bytes(v as nat, 2);
            lemma_wire_of_one_write(chunk);
            lemma_be_bytes_len(v as nat, 2);
        },
        FieldValue::U32(v) => {
            let chunk = be_bytes(v as nat, 4);
            lemma_wire_of_one_write(chunk);
            lemma_be_bytes_len(v as nat, 4);
        },
        FieldValue::U64(v) => {
            let chunk = be_bytes(v as nat, 8);
            lemma_wire_of_one_write(chunk);
            lemma_be_bytes_len(v as nat, 8);
        },
        FieldValue::U128(v) => {
            let chunk = be_bytes(v as nat, 16);
            lemma_wire_of_one_write(chunk);
            lemma_be_bytes_len(v as nat, 16);
        },
        FieldValue::I8(v) => {
            let chunk = be_bytes(twos_complement(v as int, 1), 1);
            lemma_wire_of_one_write(chunk);
            lemma_be_bytes_len(twos_complement(v as int, 1), 1);
        },
        FieldValue::I16(v) => {
            let chunk = be_bytes(twos_complement(v as int, 2), 2);
            lemma_wire_of_one_write(chunk);
            lemma_be_bytes_len(twos_complement(v as int, 2), 2);
        },
        FieldValue::I32(v) => {
            let chunk = be_bytes(twos_complement(v as int, 4), 4);
            lemma_wire_of_one_write(chunk);
            lemma_be_bytes_len(twos_complement(v as int, 4), 4);
        },
        FieldValue::I64(v) => {
            let chunk = be_bytes(twos_complement(v as int, 8), 8);
            lemma_wire_of_one_write(chunk);
            lemma_be_bytes_len(twos_complement(v as int, 8), 8);
        },
        FieldValue::I128(v) => {
            let chunk = be_bytes(twos_complement(v as int, 16), 16);
            lemma_wire_of_one_write(chunk);
            lemma_be_bytes_len(twos_complement(v as int, 16), 16);
        },
        FieldValue::Bool(v) => {
            lemma_wire_of_one_write(seq![if v {
                1u8
            } else {
                0u8
            }]);
        },
        FieldValue::Text(text) => {
            let payload = encode_utf8(text@);
            if payload.len() <= 65535 {
                let prefix = be_bytes(payload.len(), 2);
                lemma_be_bytes_len(payload.len(), 2);
                lemma_wire_of_one_write(prefix);
                lemma_wire_of_one_write(payload);
                assert(value_steps(value) =~= seq![Step::Write(prefix)] + seq![
                    Step::Write(payload),
                ]);
                lemma_wire_of_concat(seq![Step::Write(prefix)], seq![Step::Write(payload)]);
            }
        },
        FieldValue::Sequence(items) => {
            let prefix = be_bytes(items@.len() % 65536, 2);
            lemma_be_bytes_len(items@.len() % 65536, 2);
            lemma_wire_of_one_write(prefix);
            lemma_wire_of_concat(seq![Step::Write(prefix)], values_steps(items@, items@.len()));
        },
        FieldValue::Optional(Some(present)) => {
            lemma_wire_of_one_write(seq![1u8]);
            lemma_wire_of_concat(seq![Step::Write(seq![1u8])], value_steps(*present));
        },
        FieldValue::Optional(None) => {
            lemma_wire_of_one_write(seq![0u8]);
        },
        FieldValue::Struct(fields) => {},
        FieldValue::Enum(variant, fields) => {
            lemma_wire_of_one_write(seq![variant]);
            lemma_wire_of_concat(
                seq![Step::Write(seq![variant])],
                values_steps(fields@, fields@.len()),
            );
        },
    }
}

/// The field sums of the first variants are as many as the variants, and
/// each is the sum of the bounds of the fields of its variant.
pub proof fn lemma_variant_sums_at(variants: Seq<Vec<FieldType>>, upto: nat, i: int)
    requires
        0 <= i < upto <= variants.len(),
    ensures
        variant_mins(variants, upto).len() == upto,
        variant_maxes(variants, upto).len() == upto,
        variant_mins(variants, upto)[i] == saturated(
            sum_of_known(min_bounds(variants[i]@, variants[i]@.len())),
        ),
        variant_maxes(variants, upto)[i] == (if all_known(
            max_bounds(variants[i]@, variants[i]@.len()),
        ) {
            Some(saturated(sum_of_known(max_bounds(variants[i]@, variants[i]@.len()))))
        } else {
            None
        }),
    decreases upto,
{
    lemma_variant_sums_len(variants, upto);
    if i + 1 < upto {
        lemma_variant_sums_at(variants, (upto - 1) as nat, i);
    }
}

/// The field sums of the first variants are as many as the variants.
pub proof fn lemma_variant_sums_len(variants: Seq<Vec<FieldType>>, upto: nat)
    requires
        upto <= variants.len(),
    ensures
        variant_mins(variants, upto).len() == upto,
        variant_maxes(variants, upto).len() == upto,
    decreases upto,
{
    if upto > 0 {
        lemma_variant_sums_len(variants, (upto - 1) as nat);
    }
}

/// The least and the greatest size of every type are known.
pub proof fn lemma_bounds_known(ty: FieldType)
    ensures
        min_bound(ty) is Some,
        max_bound(ty) is Some,
    decreases ty, 0nat, 0nat,
{
    match ty {
        FieldType::Sequence(item) => {
            lemma_bounds_known(*item);
        },
        FieldType::Optional(inner) => {
            lemma_bounds_known(*inner);
        },
        FieldType::Struct(fields) => {
            lemma_all_bounds_known(fields@, fields@.len());
        },
        FieldType::Enum(variants) => {
            lemma_variants_known(variants@, variants@.len());
        },
        _ => {},
    }
}

/// The greatest sizes of the first `upto` of some types are all known.
pub proof fn lemma_all_bounds_known(tys: Seq<FieldType>, upto: nat)
    requires
        upto <= tys.len(),
    ensures
        all_known(max_bounds(tys, upto)),
    decreases tys, 0nat, upto,
{
    if upto > 0 {
        lemma_all_bounds_known(tys, (upto - 1) as nat);
        lemma_bounds_known(tys[upto - 1]);
        let before = max_bounds(tys, (upto - 1) as nat);
        let all = max_bounds(tys, upto);
        assert forall|i: int| 0 <= i < all.len() implies (#[trigger] all[i]) is Some by {
            if i < before.len() {
                assert(before[i] is Some);
            }
        }
    }
}

/// The greatest field sums of the first `upto` of some variants are all
/// known.
pub proof fn lemma_variants_known(variants: Seq<Vec<FieldType>>, upto: nat)
    requires
        upto <= variants.len(),
    ensures
        all_known(variant_maxes(variants, upto)),
    decreases variants, 0nat, upto,
{
    if upto > 0 {
        lemma_variants_known(variants, (upto - 1) as nat);
        lemma_all_bounds_known(variants[upto - 1]@, variants[upto - 1]@.len());
        let before = variant_maxes(variants, (upto - 1) as nat);
        let all = variant_maxes(variants, upto);
        assert forall|i: int| 0 <= i < all.len() implies (#[trigger] all[i]) is Some by {
            if i < before.len() {
                assert(before[i] is Some);
            }
        }
    }
}

/// The greatest size: the encoding of a value that conforms to a type is
/// not above the greatest size of the type, so admission control refuses no
/// such encoding as too long.
pub proof fn lemma_max_bound_holds(value: FieldValue, ty: FieldType)
    requires
        conforms(value, ty),
    ensures
        not_above(value_wire(value).len(), max_bound(ty)),
    decreases ty, 0nat, 0nat,
{
    lemma_value_len(value);
    lemma_bounds_known(ty);
    match ty {
        FieldType::Sequence(item) => {
            let items = value->Sequence_0@;
            let count = items.len();
            lemma_bounds_known(*item);
            lemma_repeated_max_bound_holds(items, *item, count);
            let each = max_bound(*item)->Some_0;
            if each != usize::MAX {
                assert(count * each <= 65535 * each) by (nonlinear_arith)
                    requires
                        count <= 65535,
                ;
            } else {
                assert(65535 * each >= each) by (nonlinear_arith)
                    requires
                        each >= 0,
                ;
            }
        },
        FieldType::Optional(inner) => {
            lemma_bounds_known(*inner);
            match value->Optional_0 {
                Some(present) => {
                    lemma_value_len(*present);
                    lemma_max_bound_holds(*present, *inner);
                },
                None => {},
            }
        },
        FieldType::Struct(fields) => {
            let values = value->Struct_0@;
            lemma_all_bounds_known(fields@, fields@.len());
            lemma_fields_max_bound_holds(values, fields@, values.len());
        },
        FieldType::Enum(variants) => {
            let variant = value->Enum_0;
            let values = value->Enum_1@;
            let tys = variants@[variant as int]@;
            lemma_all_bounds_known(tys, tys.len());
            lemma_fields_max_bound_holds(values, tys, values.len());
            lemma_variants_known(variants@, variants@.len());
            lemma_variant_sums_at(variants@, variants@.len(), variant as int);
            lemma_greatest_of_at(variant_maxes(variants@, variants@.len()), variant as int);
        },
        _ => {},
    }
}

/// The first `upto` of some items that conform to one type take no more
/// bytes than as many times the greatest size of the type.
pub proof fn lemma_repeated_max_bound_holds(values: Seq<FieldValue>, ty: FieldType, upto: nat)
    requires
        all_conform(values, ty, values.len()),
        upto <= values.len(),
        max_bound(ty) is Some,
    ensures
        max_bound(ty)->Some_0 == usize::MAX || values_wire(values, upto).len() <= upto
            * max_bound(ty)->Some_0,
    decreases ty, 1nat, upto,
{
    if upto > 0 {
        let k = (upto - 1) as nat;
        let each = max_bound(ty)->Some_0;
        lemma_repeated_max_bound_holds(values, ty, k);
        lemma_all_conform_at(values, ty, values.len(), k);
        lemma_values_wire_split(values, k);
        lemma_max_bound_holds(values[k as int], ty);
        assert(upto * each == k * each + each) by (nonlinear_arith)
            requires
                upto == k + 1,
        ;
    } else {
        assert(values_wire(values, 0).len() == 0);
    }
}

/// The first `upto` of some fields that conform to their types take no
/// more bytes than the sum of the greatest sizes of the types.
pub proof fn lemma_fields_max_bound_holds(
    values: Seq<FieldValue>,
    tys: Seq<FieldType>,
    upto: nat,
)
    requires
        values.len() == tys.len(),
        fields_conform(values, tys, values.len()),
        upto <= values.len(),
    ensures
        not_above(
            values_wire(values, upto).len(),
            Some(saturated(sum_of_known(max_bounds(tys, upto)))),
        ),
    decreases tys, 0nat, upto,
{
    if upto > 0 {
        let k = (upto - 1) as nat;
        lemma_fields_max_bound_holds(values, tys, k);
        lemma_fields_conform_at(values, tys, values.len(), k);
        lemma_values_wire_split(values, k);
        lemma_max_bound_holds(values[k as int], tys[k as int]);
        lemma_bounds_known(tys[k as int]);
        assert(max_bounds(tys, upto).drop_last() =~= max_bounds(tys, k));
    } else {
        assert(values_wire(values, 0).len() == 0);
    }
}

/// The least size: the encoding of a value that conforms to a type in
/// which no sequence occurs is not below the least size of the type, so
/// admission control refuses no such encoding as too short. (The least size
/// of a sequence is a loose fence and not a bound from below.)
pub proof fn lemma_min_bound_holds(value: FieldValue, ty: FieldType)
    requires
        conforms(value, ty),
        sequence_free(ty),
    ensures
        not_below(value_wire(value).len(), min_bound(ty)),
    decreases ty, 0nat, 0nat,
{
    lemma_value_len(value);
    match ty {
        FieldType::Struct(fields) => {
            let values = value->Struct_0@;
            lemma_fields_min_bound_holds(values, fields@, values.len());
        },
        FieldType::Enum(variants) => {
            let variant = value->Enum_0;
            let values = value->Enum_1@;
            let tys = variants@[variant as int]@;
            lemma_variants_sequence_free_at(variants@, variants@.len(), variant as int);
            lemma_fields_min_bound_holds(values, tys, values.len());
            lemma_variant_sums_at(variants@, variants@.len(), variant as int);
            lemma_least_of_at(variant_mins(variants@, variants@.len()), variant as int);
        },
        _ => {},
    }
}

/// The first `upto` of some fields that conform to their types, in which
/// no sequence occurs, take no fewer bytes than the sum of the least sizes
/// of the types.
pub proof fn lemma_fields_min_bound_holds(
    values: Seq<FieldValue>,
    tys: Seq<FieldType>,
    upto: nat,
)
    requires
        values.len() == tys.len(),
        fields_conform(values, tys, values.len()),
        all_sequence_free(tys, tys.len()),
        upto <= values.len(),
    ensures
        sum_of_known(min_bounds(tys, upto)) <= values_wire(values, upto).len(),
    decreases tys, 0nat, upto,
{
    if upto > 0 {
        let k = (upto - 1) as nat;
        lemma_fields_min_bound_holds(values, tys, k);
        lemma_fields_conform_at(values, tys, values.len(), k);
        lemma_all_sequence_free_at(tys, tys.len(), k as int);
        lemma_values_wire_split(values, k);
        lemma_min_bound_holds(values[k as int], tys[k as int]);
        assert(min_bounds(tys, upto).drop_last() =~= min_bounds(tys, k));
    }
}

/// Each of some types in which no sequence occurs is one in which none
/// occurs.
pub proof fn lemma_all_sequence_free_at(tys: Seq<FieldType>, upto: nat, i: int)
    requires
        0 <= i < upto <= tys.len(),
        all_sequence_free(tys, upto),
    ensures
        sequence_free(tys[i]),
    decreases upto,
{
    if i + 1 < upto {
        lemma_all_sequence_free_at(tys, (upto - 1) as nat, i);
    }
}

/// Each of some variants in whose fields no sequence occurs is one in
/// whose fields none occurs.
pub proof fn lemma_variants_sequence_free_at(variants: Seq<Vec<FieldType>>, upto: nat, i: int)
    requires
        0 <= i < upto <= variants.len(),
        variants_sequence_free(variants, upto),
    ensures
        all_sequence_free(variants[i]@, variants[i]@.len()),
    decreases upto,
{
    if i + 1 < upto {
        lemma_variants_sequence_free_at(variants, (upto - 1) as nat, i);
    }
}

} // verus!
