//! The size bounds of field types.

use crate::bounds::{
    all_known, enum_max, enum_max_bytes, enum_min, enum_min_bytes, fields_max_bytes,
    fields_min_bytes, optional_max, optional_max_bytes, saturated, sequence_bound,
    sequence_max_bytes, sequence_min_bytes, struct_max, struct_max_bytes, struct_min,
    struct_min_bytes, sum_of_known,
};
use crate::message::FieldType;
use vstd::prelude::*;

verus! {

/// The least size of the field data of a value of type `ty`.
pub open spec fn min_bound(ty: FieldType) -> Option<usize>
    decreases ty, 0nat,
{
    match ty {
        FieldType::U8 => Some(1usize),
        FieldType::U16 => Some(2usize),
        FieldType::U32 => Some(4usize),
        FieldType::U64 => Some(8usize),
        FieldType::U128 => Some(16usize),
        FieldType::I8 => Some(1usize),
        FieldType::I16 => Some(2usize),
        FieldType::I32 => Some(4usize),
        FieldType::I64 => Some(8usize),
        FieldType::I128 => Some(16usize),
        FieldType::Bool => Some(1usize),
        FieldType::Text => Some(2usize),
        FieldType::Sequence(item) => sequence_bound(min_bound(*item)),
        FieldType::Optional(_) => Some(1usize),
        FieldType::Struct(fields) => struct_min(false, min_bounds(fields@, fields@.len())),
        FieldType::Enum(variants) => enum_min(false, variant_mins(variants@, variants@.len())),
    }
}

/// The least sizes of values of the first `upto` of the types `tys`.
pub open spec fn min_bounds(tys: Seq<FieldType>, upto: nat) -> Seq<Option<usize>>
    decreases tys, upto,
{
    if upto == 0 || upto > tys.len() {
        Seq::empty()
    } else {
        min_bounds(tys, (upto - 1) as nat).push(min_bound(tys[upto - 1]))
    }
}

/// The least field sums of the first `upto` of the variants of an enum.
pub open spec fn variant_mins(variants: Seq<Vec<FieldType>>, upto: nat) -> Seq<usize>
    decreases variants, upto,
{
    if upto == 0 || upto > variants.len() {
        Seq::empty()
    } else {
        variant_mins(variants, (upto - 1) as nat).push(
            saturated(sum_of_known(min_bounds(variants[upto - 1]@, variants[upto - 1]@.len()))),
        )
    }
}

/// The greatest size of the field data of a value of type `ty`.
pub open spec fn max_bound(ty: FieldType) -> Option<usize>
    decreases ty, 0nat,
{
    match ty {
        FieldType::U8 => Some(1usize),
        FieldType::U16 => Some(2usize),
        FieldType::U32 => Some(4usize),
        FieldType::U64 => Some(8usize),
        FieldType::U128 => Some(16usize),
        FieldType::I8 => Some(1usize),
        FieldType::I16 => Some(2usize),
        FieldType::I32 => Some(4usize),
        FieldType::I64 => Some(8usize),
        FieldType::I128 => Some(16usize),
        FieldType::Bool => Some(1usize),
        FieldType::Text => Some(65537usize),
        FieldType::Sequence(item) => sequence_bound(max_bound(*item)),
        FieldType::Optional(inner) => optional_max(max_bound(*inner)),
        FieldType::Struct(fields) => struct_max(false, max_bounds(fields@, fields@.len())),
        FieldType::Enum(variants) => enum_max(false, variant_maxes(variants@, variants@.len())),
    }
}

/// The greatest sizes of values of the first `upto` of the types `tys`.
pub open spec fn max_bounds(tys: Seq<FieldType>, upto: nat) -> Seq<Option<usize>>
    decreases tys, upto,
{
    if upto == 0 || upto > tys.len() {
        Seq::empty()
    } else {
        max_bounds(tys, (upto - 1) as nat).push(max_bound(tys[upto - 1]))
    }
}

/// The greatest field sums of the first `upto` of the variants of an enum.
pub open spec fn variant_maxes(variants: Seq<Vec<FieldType>>, upto: nat) -> Seq<Option<usize>>
    decreases variants, upto,
{
    if upto == 0 || upto > variants.len() {
        Seq::empty()
    } else {
        let bounds = max_bounds(variants[upto - 1]@, variants[upto - 1]@.len());
        variant_maxes(variants, (upto - 1) as nat).push(
            if all_known(bounds) {
                Some(saturated(sum_of_known(bounds)))
            } else {
                None
            },
        )
    }
}

/// Get the minimum number of bytes that the field data of a value of type
/// `ty` take.
pub fn min_bytes(ty: &FieldType) -> (min: Option<usize>)
    ensures
        min == min_bound(*ty),
    decreases ty, 0nat,
{
    match ty {
        FieldType::U8 => Some(1),
        FieldType::U16 => Some(2),
        FieldType::U32 => Some(4),
        FieldType::U64 => Some(8),
        FieldType::U128 => Some(16),
        FieldType::I8 => Some(1),
        FieldType::I16 => Some(2),
        FieldType::I32 => Some(4),
        FieldType::I64 => Some(8),
        FieldType::I128 => Some(16),
        FieldType::Bool => Some(1),
        FieldType::Text => Some(2),
        FieldType::Sequence(item) => sequence_min_bytes(min_bytes(item)),
        FieldType::Optional(_) => Some(1),
        FieldType::Struct(fields) => {
            let bounds = fields_min_bounds(fields);
            struct_min_bytes(false, bounds.as_slice())
        },
        FieldType::Enum(variants) => {
            let sums = variants_min_sums(variants);
            enum_min_bytes(false, sums.as_slice())
        },
    }
}

/// The least field sums of the variants of an enum.
pub fn variants_min_sums(variants: &Vec<Vec<FieldType>>) -> (sums: Vec<usize>)
    ensures
        sums@ == variant_mins(variants@, variants@.len()),
    decreases variants, 2nat,
{
    let mut sums: Vec<usize> = Vec::new();
    let mut at: usize = 0;
    while at < variants.len()
        invariant
            at <= variants@.len(),
            sums@ == variant_mins(variants@, at as nat),
        decreases variants@.len() - at,
    {
        let bounds = fields_min_bounds(&variants[at]);
        sums.push(fields_min_bytes(bounds.as_slice()));
        at = at + 1;
    }
    sums
}

/// The least sizes of values of the types `tys`.
pub fn fields_min_bounds(tys: &Vec<FieldType>) -> (bounds: Vec<Option<usize>>)
    ensures
        bounds@ == min_bounds(tys@, tys@.len()),
    decreases tys, 1nat,
{
    let mut bounds: Vec<Option<usize>> = Vec::new();
    let mut at: usize = 0;
    while at < tys.len()
        invariant
            at <= tys@.len(),
            bounds@ == min_bounds(tys@, at as nat),
        decreases tys@.len() - at,
    {
        bounds.push(min_bytes(&tys[at]));
        at = at + 1;
    }
    bounds
}

/// Get the maximum number of bytes that the field data of a value of type
/// `ty` can take.
pub fn max_bytes(ty: &FieldType) -> (max: Option<usize>)
    ensures
        max == max_bound(*ty),
    decreases ty, 0nat,
{
    match ty {
        FieldType::U8 => Some(1),
        FieldType::U16 => Some(2),
        FieldType::U32 => Some(4),
        FieldType::U64 => Some(8),
        FieldType::U128 => Some(16),
        FieldType::I8 => Some(1),
        FieldType::I16 => Some(2),
        FieldType::I32 => Some(4),
        FieldType::I64 => Some(8),
        FieldType::I128 => Some(16),
        FieldType::Bool => Some(1),
        FieldType::Text => Some(65537),
        FieldType::Sequence(item) => sequence_max_bytes(max_bytes(item)),
        FieldType::Optional(inner) => optional_max_bytes(max_bytes(inner)),
        FieldType::Struct(fields) => {
            let bounds = fields_max_bounds(fields);
            struct_max_bytes(false, bounds.as_slice())
        },
        FieldType::Enum(variants) => {
            let sums = variants_max_sums(variants);
            enum_max_bytes(false, sums.as_slice())
        },
    }
}

/// The greatest field sums of the variants of an enum.
pub fn variants_max_sums(variants: &Vec<Vec<FieldType>>) -> (sums: Vec<Option<usize>>)
    ensures
        sums@ == variant_maxes(variants@, variants@.len()),
    decreases variants, 2nat,
{
    let mut sums: Vec<Option<usize>> = Vec::new();
    let mut at: usize = 0;
    while at < variants.len()
        invariant
            at <= variants@.len(),
            sums@ == variant_maxes(variants@, at as nat),
        decreases variants@.len() - at,
    {
        let bounds = fields_max_bounds(&variants[at]);
        sums.push(fields_max_bytes(bounds.as_slice()));
        at = at + 1;
    }
    sums
}

/// The greatest sizes of values of the types `tys`.
pub fn fields_max_bounds(tys: &Vec<FieldType>) -> (bounds: Vec<Option<usize>>)
    ensures
        bounds@ == max_bounds(tys@, tys@.len()),
    decreases tys, 1nat,
{
    let mut bounds: Vec<Option<usize>> = Vec::new();
    let mut at: usize = 0;
    while at < tys.len()
        invariant
            at <= tys@.len(),
            bounds@ == max_bounds(tys@, at as nat),
        decreases tys@.len() - at,
    {
        bounds.push(max_bytes(&tys[at]));
        at = at + 1;
    }
    bounds
}

} // verus!
