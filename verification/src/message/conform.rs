//! Which values a field type holds.

use crate::message::{FieldType, FieldValue};
use vstd::prelude::*;
use vstd::utf8::encode_utf8;

verus! {

/// Whether `value` is a value of type `ty` that the wire format can say in
/// full: its strings have at most 65535 bytes and its sequences at most
/// 65535 items.
pub open spec fn conforms(value: FieldValue, ty: FieldType) -> bool
    decreases ty, 0nat, 0nat,
{
    match ty {
        FieldType::U8 => value is U8,
        FieldType::U16 => value is U16,
        FieldType::U32 => value is U32,
        FieldType::U64 => value is U64,
        FieldType::U128 => value is U128,
        FieldType::I8 => value is I8,
        FieldType::I16 => value is I16,
        FieldType::I32 => value is I32,
        FieldType::I64 => value is I64,
        FieldType::I128 => value is I128,
        FieldType::Bool => value is Bool,
        FieldType::Text => value matches FieldValue::Text(text) && encode_utf8(text@).len()
            <= 65535,
        FieldType::Sequence(item) => value matches FieldValue::Sequence(items) && items@.len()
            <= 65535 && all_conform(items@, *item, items@.len()),
        FieldType::Optional(inner) => value matches FieldValue::Optional(found) && (
        found matches Some(present) ==> conforms(*present, *inner)),
        FieldType::Struct(fields) => value matches FieldValue::Struct(found) && found@.len()
            == fields@.len() && fields_conform(found@, fields@, fields@.len()),
        FieldType::Enum(variants) => value matches FieldValue::Enum(variant, found) && (
        variant as nat) < variants@.len() && found@.len() == variants@[variant as int]@.len()
            && fields_conform(found@, variants@[variant as int]@, found@.len()),
    }
}

/// Whether the first `upto` of `values` conform to the type `ty`.
pub open spec fn all_conform(values: Seq<FieldValue>, ty: FieldType, upto: nat) -> bool
    decreases ty, 1nat, upto,
{
    if upto == 0 || upto > values.len() {
        true
    } else {
        all_conform(values, ty, (upto - 1) as nat) && conforms(values[upto - 1], ty)
    }
}

/// Whether the first `upto` of `values` conform to the types `tys`, each
/// value to the type at its index.
pub open spec fn fields_conform(values: Seq<FieldValue>, tys: Seq<FieldType>, upto: nat) -> bool
    decreases tys, 0nat, upto,
{
    if upto == 0 || upto > values.len() || upto > tys.len() {
        true
    } else {
        fields_conform(values, tys, (upto - 1) as nat) && conforms(
            values[upto - 1],
            tys[upto - 1],
        )
    }
}

/// Says whether `value` is a value of type `ty` that the wire format can
/// say in full.
pub fn conforms_to(value: &FieldValue, ty: &FieldType) -> (yes: bool)
    ensures
        yes == conforms(*value, *ty),
    decreases ty, 0nat,
{
    match ty {
        FieldType::U8 => match value {
            FieldValue::U8(_) => true,
            _ => false,
        },
        FieldType::U16 => match value {
            FieldValue::U16(_) => true,
            _ => false,
        },
        FieldType::U32 => match value {
            FieldValue::U32(_) => true,
            _ => false,
        },
        FieldType::U64 => match value {
            FieldValue::U64(_) => true,
            _ => false,
        },
        FieldType::U128 => match value {
            FieldValue::U128(_) => true,
            _ => false,
        },
        FieldType::I8 => match value {
            FieldValue::I8(_) => true,
            _ => false,
        },
        FieldType::I16 => match value {
            FieldValue::I16(_) => true,
            _ => false,
        },
        FieldType::I32 => match value {
            FieldValue::I32(_) => true,
            _ => false,
        },
        FieldType::I64 => match value {
            FieldValue::I64(_) => true,
            _ => false,
        },
        FieldType::I128 => match value {
            FieldValue::I128(_) => true,
            _ => false,
        },
        FieldType::Bool => match value {
            FieldValue::Bool(_) => true,
            _ => false,
        },
        FieldType::Text => match value {
            FieldValue::Text(text) => text.as_str().as_bytes().len() <= 65535,
            _ => false,
        },
        FieldType::Sequence(item) => {
            let yes = match value {
                FieldValue::Sequence(items) => items.len() <= 65535 && all_conform_to(items, item),
                _ => false,
            };
            assert(yes == conforms(*value, *ty));
            yes
        },
        FieldType::Optional(inner) => {
            let yes = match value {
                FieldValue::Optional(Some(present)) => conforms_to(present, inner),
                FieldValue::Optional(None) => true,
                _ => false,
            };
            assert(yes == conforms(*value, *ty));
            yes
        },
        FieldType::Struct(fields) => {
            let yes = match value {
                FieldValue::Struct(found) => fields_conform_to(found, fields),
                _ => false,
            };
            assert(yes == conforms(*value, *ty));
            yes
        },
        FieldType::Enum(variants) => {
            let yes = match value {
                FieldValue::Enum(variant, found) => (*variant as usize) < variants.len()
                    && fields_conform_to(found, &variants[*variant as usize]),
                _ => false,
            };
            assert(yes == conforms(*value, *ty));
            yes
        },
    }
}

/// Says whether each of the values conforms to the type `ty`.
pub fn all_conform_to(values: &Vec<FieldValue>, ty: &FieldType) -> (yes: bool)
    ensures
        yes == all_conform(values@, *ty, values@.len()),
    decreases ty, 1nat,
{
    let mut at: usize = 0;
    while at < values.len()
        invariant
            at <= values@.len(),
            all_conform(values@, *ty, at as nat),
        decreases values@.len() - at,
    {
        if !conforms_to(&values[at], ty) {
            proof {
                lemma_all_conform_fails(values@, *ty, values@.len(), at as nat);
            }
            return false;
        }
        at = at + 1;
    }
    true
}

/// Says whether the values are as many as the types and each conforms to
/// the type at its index.
pub fn fields_conform_to(values: &Vec<FieldValue>, tys: &Vec<FieldType>) -> (yes: bool)
    ensures
        yes == (values@.len() == tys@.len() && fields_conform(values@, tys@, values@.len())),
    decreases tys, 1nat,
{
    if values.len() != tys.len() {
        return false;
    }
    let mut at: usize = 0;
    while at < values.len()
        invariant
            at <= values@.len(),
            values@.len() == tys@.len(),
            fields_conform(values@, tys@, at as nat),
        decreases values@.len() - at,
    {
        if !conforms_to(&values[at], &tys[at]) {
            proof {
                lemma_fields_conform_fails(values@, tys@, values@.len(), at as nat);
            }
            return false;
        }
        at = at + 1;
    }
    true
}

/// Values of which one does not conform to a type do not all conform to it.
pub proof fn lemma_all_conform_fails(values: Seq<FieldValue>, ty: FieldType, upto: nat, k: nat)
    requires
        k < upto <= values.len(),
        !conforms(values[k as int], ty),
    ensures
        !all_conform(values, ty, upto),
    decreases upto,
{
    if k + 1 < upto {
        lemma_all_conform_fails(values, ty, (upto - 1) as nat, k);
    }
}

/// Values of which one does not conform to the type of its field do not
/// all conform to the types of the fields.
pub proof fn lemma_fields_conform_fails(
    values: Seq<FieldValue>,
    tys: Seq<FieldType>,
    upto: nat,
    k: nat,
)
    requires
        k < upto <= values.len(),
        upto <= tys.len(),
        !conforms(values[k as int], tys[k as int]),
    ensures
        !fields_conform(values, tys, upto),
    decreases upto,
{
    if k + 1 < upto {
        lemma_fields_conform_fails(values, tys, (upto - 1) as nat, k);
    }
}

/// Each of the values that conform to a type does.
pub proof fn lemma_all_conform_at(values: Seq<FieldValue>, ty: FieldType, upto: nat, k: nat)
    requires
        all_conform(values, ty, upto),
        k < upto <= values.len(),
    ensures
        conforms(values[k as int], ty),
    decreases upto,
{
    if k + 1 < upto {
        lemma_all_conform_at(values, ty, (upto - 1) as nat, k);
    }
}

/// Each of the values that conform to the types of some fields does.
pub proof fn lemma_fields_conform_at(
    values: Seq<FieldValue>,
    tys: Seq<FieldType>,
    upto: nat,
    k: nat,
)
    requires
        fields_conform(values, tys, upto),
        k < upto <= values.len(),
        upto <= tys.len(),
    ensures
        conforms(values[k as int], tys[k as int]),
    decreases upto,
{
    if k + 1 < upto {
        lemma_fields_conform_at(values, tys, (upto - 1) as nat, k);
    }
}

} // verus!
