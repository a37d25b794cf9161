//! The size-bound estimator: the least and the greatest number of bytes that
//! an encoding of a type can take, computed from the type alone, and the
//! admission check that holds a buffer's length against them.
//!
//! A bound is an `Option<usize>`: `None` says that the size cannot be bounded
//! statically. Sums and products saturate at `usize::MAX`.

use crate::error::BufferfishError;
use vstd::prelude::*;

verus! {

/// The worst-case count of the items of a sequence: the greatest value of
/// its two-byte count.
pub const MAX_SEQUENCE_ITEMS: usize = 65535;

/// `n` as a `usize`, or `usize::MAX` if it is greater than that.
pub open spec fn saturated(n: nat) -> usize {
    if n > usize::MAX {
        usize::MAX
    } else {
        n as usize
    }
}

/// The bytes that a message identifier takes: 2 if the type has one.
pub open spec fn header_len(has_message_id: bool) -> nat {
    if has_message_id {
        2
    } else {
        0
    }
}

/// The sum of the bounds, an unknown bound counting as 0.
pub open spec fn sum_of_known(bounds: Seq<Option<usize>>) -> nat
    decreases bounds.len(),
{
    if bounds.len() == 0 {
        0
    } else {
        sum_of_known(bounds.drop_last()) + match bounds.last() {
            Some(n) => n as nat,
            None => 0,
        }
    }
}

/// Whether none of the bounds is unknown.
pub open spec fn all_known(bounds: Seq<Option<usize>>) -> bool {
    forall|i: int| 0 <= i < bounds.len() ==> (#[trigger] bounds[i]) is Some
}

/// The least of the numbers, or 0 if there is none.
pub open spec fn least_of(numbers: Seq<usize>) -> nat
    decreases numbers.len(),
{
    if numbers.len() == 0 {
        0
    } else if numbers.len() == 1 {
        numbers[0] as nat
    } else if numbers.last() < least_of(numbers.drop_last()) {
        numbers.last() as nat
    } else {
        least_of(numbers.drop_last())
    }
}

/// The greatest of the bounds that are known, or 0 if there is none.
pub open spec fn greatest_of(bounds: Seq<Option<usize>>) -> nat
    decreases bounds.len(),
{
    if bounds.len() == 0 {
        0
    } else {
        let before = greatest_of(bounds.drop_last());
        match bounds.last() {
            Some(n) => if n > before {
                n as nat
            } else {
                before
            },
            None => before,
        }
    }
}

/// The least size of a struct: its message identifier and the least sizes
/// of its fields, a field of unknown least size counting as 0.
pub open spec fn struct_min(has_message_id: bool, fields: Seq<Option<usize>>) -> Option<usize> {
    Some(saturated(header_len(has_message_id) + sum_of_known(fields)))
}

/// The greatest size of a struct: its message identifier and the greatest
/// sizes of its fields; unknown if that of any field is.
pub open spec fn struct_max(has_message_id: bool, fields: Seq<Option<usize>>) -> Option<usize> {
    if all_known(fields) {
        Some(saturated(header_len(has_message_id) + sum_of_known(fields)))
    } else {
        None
    }
}

/// The least size of an enum: its message identifier, the discriminant byte
/// and the least of the field sums of its variants.
pub open spec fn enum_min(has_message_id: bool, variant_mins: Seq<usize>) -> Option<usize> {
    Some(saturated(header_len(has_message_id) + 1 + least_of(variant_mins)))
}

/// The greatest size of an enum: its message identifier, the discriminant
/// byte and the greatest of the field sums of its variants; unknown if that
/// of any variant is.
pub open spec fn enum_max(has_message_id: bool, variant_maxes: Seq<Option<usize>>) -> Option<
    usize,
> {
    if all_known(variant_maxes) {
        Some(saturated(header_len(has_message_id) + 1 + greatest_of(variant_maxes)))
    } else {
        None
    }
}

/// The bound of a sequence from that of its items: the two bytes of the
/// count and the worst-case count of items, each at the item's bound. This
/// is a loose fence and no promise of what a sequence takes.
pub open spec fn sequence_bound(item: Option<usize>) -> Option<usize> {
    match item {
        Some(n) => Some(saturated(2 + MAX_SEQUENCE_ITEMS as nat * n as nat)),
        None => None,
    }
}

/// The greatest size of an optional value: the presence byte and the
/// greatest size of the value; unknown if that is.
pub open spec fn optional_max(inner: Option<usize>) -> Option<usize> {
    match inner {
        Some(n) => Some(saturated(1 + n as nat)),
        None => None,
    }
}

/// Whether a buffer of `available` bytes can hold a value of a type with
/// the bounds `min` and `max`: it is refused as too short before it is
/// refused as too long.
pub open spec fn admission(available: usize, min: Option<usize>, max: Option<usize>) -> Result<
    (),
    BufferfishError,
> {
    if min is Some && available < min->Some_0 {
        Err(BufferfishError::InsufficientBytes { available, required: min->Some_0 })
    } else if max is Some && available > max->Some_0 {
        Err(BufferfishError::ExcessiveBytes { available, max_allowed: max->Some_0 })
    } else {
        Ok(())
    }
}

/// The sum of two sizes, or `usize::MAX` if that is less.
pub fn saturating_sum(a: usize, b: usize) -> (sum: usize)
    ensures
        sum == saturated((a + b) as nat),
{
    if a > usize::MAX - b {
        usize::MAX
    } else {
        a + b
    }
}

/// The product of two sizes, or `usize::MAX` if that is less.
pub fn saturating_product(a: usize, b: usize) -> (product: usize)
    ensures
        product == saturated((a * b) as nat),
{
    if a == 0 || b == 0 {
        assert(a * b == 0) by (nonlinear_arith)
            requires
                a == 0 || b == 0,
        ;
        0
    } else if a > usize::MAX / b {
        assert(a * b > usize::MAX) by (nonlinear_arith)
            requires
                b > 0,
                a > usize::MAX / b,
        ;
        usize::MAX
    } else {
        assert(a * b <= usize::MAX) by (nonlinear_arith)
            requires
                b > 0,
                a <= usize::MAX / b,
        ;
        a * b
    }
}

/// The size of the message identifier of a type: 2 if it has one, else 0.
pub fn header_bytes(has_message_id: bool) -> (n: usize)
    ensures
        n == header_len(has_message_id),
{
    if has_message_id {
        2
    } else {
        0
    }
}

/// The sum of the least sizes of some fields, where a field of unknown
/// least size counts as 0.
pub fn fields_min_bytes(fields: &[Option<usize>]) -> (sum: usize)
    ensures
        sum == saturated(sum_of_known(fields@)),
{
    let mut sum: usize = 0;
    let mut at: usize = 0;
    while at < fields.len()
        invariant
            at <= fields@.len(),
            sum == saturated(sum_of_known(fields@.subrange(0, at as int))),
        decreases fields@.len() - at,
    {
        proof {
            assert(fields@.subrange(0, at + 1).drop_last() =~= fields@.subrange(0, at as int));
        }
        match fields[at] {
            Some(n) => {
                sum = saturating_sum(sum, n);
            },
            None => {},
        }
        at = at + 1;
    }
    proof {
        assert(fields@.subrange(0, at as int) =~= fields@);
    }
    sum
}

/// The sum of the greatest sizes of some fields, or `None` if that of any
/// field is unknown.
pub fn fields_max_bytes(fields: &[Option<usize>]) -> (sum: Option<usize>)
    ensures
        sum == if all_known(fields@) {
            Some(saturated(sum_of_known(fields@)))
        } else {
            None
        },
{
    let mut sum: usize = 0;
    let mut at: usize = 0;
    while at < fields.len()
        invariant
            at <= fields@.len(),
            sum == saturated(sum_of_known(fields@.subrange(0, at as int))),
            all_known(fields@.subrange(0, at as int)),
        decreases fields@.len() - at,
    {
        proof {
            assert(fields@.subrange(0, at + 1).drop_last() =~= fields@.subrange(0, at as int));
        }
        match fields[at] {
            Some(n) => {
                sum = saturating_sum(sum, n);
            },
            None => {
                assert(!(fields@[at as int] is Some));
                return None;
            },
        }
        proof {
            let next = fields@.subrange(0, at + 1);
            assert forall|i: int| 0 <= i < next.len() implies (#[trigger] next[i]) is Some by {
                if i < at {
                    assert(fields@.subrange(0, at as int)[i] is Some);
                }
            }
        }
        at = at + 1;
    }
    proof {
        assert(fields@.subrange(0, at as int) =~= fields@);
    }
    Some(sum)
}

/// The least size of a struct with these fields, each given by its own
/// least size.
pub fn struct_min_bytes(has_message_id: bool, fields: &[Option<usize>]) -> (min: Option<usize>)
    ensures
        min == struct_min(has_message_id, fields@),
{
    Some(saturating_sum(header_bytes(has_message_id), fields_min_bytes(fields)))
}

/// The greatest size of a struct with these fields, each given by its own
/// greatest size.
pub fn struct_max_bytes(has_message_id: bool, fields: &[Option<usize>]) -> (max: Option<usize>)
    ensures
        max == struct_max(has_message_id, fields@),
{
    match fields_max_bytes(fields) {
        Some(sum) => Some(saturating_sum(header_bytes(has_message_id), sum)),
        None => None,
    }
}

/// The least size of an enum whose variants have these least field sums.
pub fn enum_min_bytes(has_message_id: bool, variant_mins: &[usize]) -> (min: Option<usize>)
    ensures
        min == enum_min(has_message_id, variant_mins@),
{
    let mut least: usize = 0;
    let mut at: usize = 0;
    while at < variant_mins.len()
        invariant
            at <= variant_mins@.len(),
            least == least_of(variant_mins@.subrange(0, at as int)),
        decreases variant_mins@.len() - at,
    {
        proof {
            assert(variant_mins@.subrange(0, at + 1).drop_last() =~= variant_mins@.subrange(
                0,
                at as int,
            ));
        }
        if at == 0 || variant_mins[at] < least {
            least = variant_mins[at];
        }
        at = at + 1;
    }
    proof {
        assert(variant_mins@.subrange(0, at as int) =~= variant_mins@);
    }
    Some(saturating_sum(saturating_sum(header_bytes(has_message_id), 1), least))
}

/// The greatest size of an enum whose variants have these greatest field
/// sums.
pub fn enum_max_bytes(has_message_id: bool, variant_maxes: &[Option<usize>]) -> (max: Option<
    usize,
>)
    ensures
        max == enum_max(has_message_id, variant_maxes@),
{
    let mut greatest: usize = 0;
    let mut at: usize = 0;
    while at < variant_maxes.len()
        invariant
            at <= variant_maxes@.len(),
            greatest == greatest_of(variant_maxes@.subrange(0, at as int)),
            all_known(variant_maxes@.subrange(0, at as int)),
        decreases variant_maxes@.len() - at,
    {
        proof {
            assert(variant_maxes@.subrange(0, at + 1).drop_last() =~= variant_maxes@.subrange(
                0,
                at as int,
            ));
        }
        match variant_maxes[at] {
            Some(n) => {
                if n > greatest {
                    greatest = n;
                }
            },
            None => {
                assert(!(variant_maxes@[at as int] is Some));
                return None;
            },
        }
        proof {
            let next = variant_maxes@.subrange(0, at + 1);
            assert forall|i: int| 0 <= i < next.len() implies (#[trigger] next[i]) is Some by {
                if i < at {
                    assert(variant_maxes@.subrange(0, at as int)[i] is Some);
                }
            }
        }
        at = at + 1;
    }
    proof {
        assert(variant_maxes@.subrange(0, at as int) =~= variant_maxes@);
    }
    Some(saturating_sum(saturating_sum(header_bytes(has_message_id), 1), greatest))
}

/// The least size of a sequence, from the least size of its items.
pub fn sequence_min_bytes(item_min: Option<usize>) -> (min: Option<usize>)
    ensures
        min == sequence_bound(item_min),
{
    match item_min {
        Some(n) => Some(saturating_sum(2, saturating_product(MAX_SEQUENCE_ITEMS, n))),
        None => None,
    }
}

/// The greatest size of a sequence, from the greatest size of its items.
pub fn sequence_max_bytes(item_max: Option<usize>) -> (max: Option<usize>)
    ensures
        max == sequence_bound(item_max),
{
    match item_max {
        Some(n) => Some(saturating_sum(2, saturating_product(MAX_SEQUENCE_ITEMS, n))),
        None => None,
    }
}

/// The greatest size of an optional value, from the greatest size of the
/// value.
pub fn optional_max_bytes(inner_max: Option<usize>) -> (max: Option<usize>)
    ensures
        max == optional_max(inner_max),
{
    match inner_max {
        Some(n) => Some(saturating_sum(1, n)),
        None => None,
    }
}

/// Holds the length of a buffer against the bounds of a type, before any
/// field is decoded.
pub fn check_admission(available: usize, min: Option<usize>, max: Option<usize>) -> (r: Result<
    (),
    BufferfishError,
>)
    ensures
        r == admission(available, min, max),
{
    if let Some(required) = min {
        if available < required {
            return Err(BufferfishError::InsufficientBytes { available, required });
        }
    }
    if let Some(max_allowed) = max {
        if available > max_allowed {
            return Err(BufferfishError::ExcessiveBytes { available, max_allowed });
        }
    }
    Ok(())
}

/// The least of some numbers is not above any of them.
pub proof fn lemma_least_of_at(numbers: Seq<usize>, i: int)
    requires
        0 <= i < numbers.len(),
    ensures
        least_of(numbers) <= numbers[i],
    decreases numbers.len(),
{
    if numbers.len() > 1 {
        if i < numbers.len() - 1 {
            lemma_least_of_at(numbers.drop_last(), i);
        }
    }
}

/// The greatest of some known bounds is not below any of them, and is
/// itself a `usize`.
pub proof fn lemma_greatest_of_at(bounds: Seq<Option<usize>>, i: int)
    requires
        0 <= i < bounds.len(),
    ensures
        bounds[i] matches Some(n) ==> n <= greatest_of(bounds),
        greatest_of(bounds) <= usize::MAX,
    decreases bounds.len(),
{
    lemma_greatest_of_is_usize(bounds);
    if i < bounds.len() - 1 {
        lemma_greatest_of_at(bounds.drop_last(), i);
    }
}

/// The greatest of some known bounds is a `usize`.
pub proof fn lemma_greatest_of_is_usize(bounds: Seq<Option<usize>>)
    ensures
        greatest_of(bounds) <= usize::MAX,
    decreases bounds.len(),
{
    if bounds.len() > 0 {
        lemma_greatest_of_is_usize(bounds.drop_last());
    }
}

} // verus!
