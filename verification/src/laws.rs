//! What holds of the codec as a whole: decoding undoes encoding, and the
//! capacity ceiling is never passed.

use crate::buffer::BufferView;
use crate::decodable::{decoded, item_decoded_at, items_parse, Decodable, Parsed};
use crate::encodable::{
    lemma_run_writable, lemma_steps_of_all_concat, lemma_wire_of_concat, run, steps_of_all, wire,
    wire_of, writable, Encodable, Step,
};
use crate::wire::{
    be_bytes, be_value, lemma_be_bytes_len, lemma_be_value_of_bytes, lemma_pow256_values,
    lemma_twos_complement_inverse, twos_complement,
};
use vstd::prelude::*;
use vstd::utf8::{encode_utf8, encode_utf8_decode_utf8, encode_utf8_valid_utf8};

verus! {

/// The types whose decoding undoes their encoding.
///
/// Every type that the codec supports by itself is one of them: the
/// integers, `bool`, `String`, and sequences and optional values of such
/// types, however deeply they are nested.
pub trait RoundTrip: Encodable + Decodable {
    /// Whether two values are equal: the same number or flag, the same
    /// text, or the same items and fields in the same order.
    spec fn same(&self, other: &Self) -> bool;

    /// Whether the wire format can say the value in full: a string of at
    /// most 65535 bytes, a sequence of at most 65535 items, each of which
    /// the wire format can say in full.
    spec fn representable(&self) -> bool;

    /// Round trip: the encoding of a value that the wire format can say in
    /// full, followed by any other bytes, decodes successfully, the decoding
    /// takes exactly the bytes of the encoding, and the value that it
    /// yields is equal to the one that was encoded.
    proof fn lemma_round_trip(&self, decoded: &Self, rest: Seq<u8>)
        requires
            self.representable(),
        ensures
            writable(self.steps()),
            Self::parse(wire(*self) + rest) == (Parsed { taken: wire(*self).len(), failure: None }),
            decoded.decoded_from(wire(*self) + rest) ==> decoded.same(self),
    ;
}

/// Round trip through a buffer: where a value that the wire format can say
/// in full was encoded into an empty buffer with room for it, and a value
/// was then decoded from that buffer, the two are equal and the decoding
/// has taken every byte.
pub proof fn lemma_decode_undoes_encode<T: RoundTrip>(
    value: T,
    decoded_value: T,
    empty: BufferView,
    written: BufferView,
    read: BufferView,
)
    requires
        value.representable(),
        empty.bytes.len() == 0,
        run(empty, value.steps()).0 == written,
        run(empty, value.steps()).1 is Ok,
        decoded(
            written,
            read,
            T::parse(written.unread()),
            Ok(decoded_value.decoded_from(written.unread())),
        ),
    ensures
        decoded_value.same(&value),
        read.unread().len() == 0,
{
    let bytes = wire(value);
    let nothing = Seq::<u8>::empty();
    value.lemma_round_trip(&decoded_value, nothing);
    lemma_run_writable(empty, value.steps());
    assert(bytes + nothing =~= bytes);
    if bytes.len() == 0 {
        assert(written.unread() =~= bytes);
    } else {
        assert(empty.bytes + bytes =~= bytes);
        assert(written.unread() =~= bytes);
    }
    written.lemma_unread_after_consume(bytes.len());
}

/// The bytes of a single write.
pub proof fn lemma_wire_of_one_write(chunk: Seq<u8>)
    ensures
        wire_of(seq![Step::Write(chunk)]) == chunk,
        writable(seq![Step::Write(chunk)]),
{
    let steps = seq![Step::Write(chunk)];
    reveal_with_fuel(wire_of, 2);
    assert(steps.drop_first() =~= Seq::<Step>::empty());
    assert(wire_of(steps) =~= chunk);
}

impl RoundTrip for u8 {
    open spec fn same(&self, other: &Self) -> bool {
        *self == *other
    }

    open spec fn representable(&self) -> bool {
        true
    }

    proof fn lemma_round_trip(&self, decoded: &Self, rest: Seq<u8>) {
        let bytes = wire(*self);
        lemma_pow256_values();
        lemma_be_bytes_len(*self as nat, 1);
        lemma_be_value_of_bytes(*self as nat, 1);
        lemma_wire_of_one_write(be_bytes(*self as nat, 1));
        assert((bytes + rest).subrange(0, 1) =~= bytes);
    }
}

impl RoundTrip for u16 {
    open spec fn same(&self, other: &Self) -> bool {
        *self == *other
    }

    open spec fn representable(&self) -> bool {
        true
    }

    proof fn lemma_round_trip(&self, decoded: &Self, rest: Seq<u8>) {
        let bytes = wire(*self);
        lemma_pow256_values();
        lemma_be_bytes_len(*self as nat, 2);
        lemma_be_value_of_bytes(*self as nat, 2);
        lemma_wire_of_one_write(be_bytes(*self as nat, 2));
        assert((bytes + rest).subrange(0, 2) =~= bytes);
    }
}

impl RoundTrip for u32 {
    open spec fn same(&self, other: &Self) -> bool {
        *self == *other
    }

    open spec fn representable(&self) -> bool {
        true
    }

    proof fn lemma_round_trip(&self, decoded: &Self, rest: Seq<u8>) {
        let bytes = wire(*self);
        lemma_pow256_values();
        lemma_be_bytes_len(*self as nat, 4);
        lemma_be_value_of_bytes(*self as nat, 4);
        lemma_wire_of_one_write(be_bytes(*self as nat, 4));
        assert((bytes + rest).subrange(0, 4) =~= bytes);
    }
}

impl RoundTrip for u64 {
    open spec fn same(&self, other: &Self) -> bool {
        *self == *other
    }

    open spec fn representable(&self) -> bool {
        true
    }

    proof fn lemma_round_trip(&self, decoded: &Self, rest: Seq<u8>) {
        let bytes = wire(*self);
        lemma_pow256_values();
        lemma_be_bytes_len(*self as nat, 8);
        lemma_be_value_of_bytes(*self as nat, 8);
        lemma_wire_of_one_write(be_bytes(*self as nat, 8));
        assert((bytes + rest).subrange(0, 8) =~= bytes);
    }
}

impl RoundTrip for u128 {
    open spec fn same(&self, other: &Self) -> bool {
        *self == *other
    }

    open spec fn representable(&self) -> bool {
        true
    }

    proof fn lemma_round_trip(&self, decoded: &Self, rest: Seq<u8>) {
        let bytes = wire(*self);
        lemma_pow256_values();
        lemma_be_bytes_len(*self as nat, 16);
        lemma_be_value_of_bytes(*self as nat, 16);
        lemma_wire_of_one_write(be_bytes(*self as nat, 16));
        assert((bytes + rest).subrange(0, 16) =~= bytes);
    }
}

impl RoundTrip for i8 {
    open spec fn same(&self, other: &Self) -> bool {
        *self == *other
    }

    open spec fn representable(&self) -> bool {
        true
    }

    proof fn lemma_round_trip(&self, decoded: &Self, rest: Seq<u8>) {
        let bytes = wire(*self);
        let pattern = twos_complement(*self as int, 1);
        lemma_pow256_values();
        lemma_twos_complement_inverse(*self as int, 1);
        lemma_be_bytes_len(pattern, 1);
        lemma_be_value_of_bytes(pattern, 1);
        lemma_wire_of_one_write(be_bytes(pattern, 1));
        assert((bytes + rest).subrange(0, 1) =~= bytes);
    }
}

impl RoundTrip for i16 {
    open spec fn same(&self, other: &Self) -> bool {
        *self == *other
    }

    open spec fn representable(&self) -> bool {
        true
    }

    proof fn lemma_round_trip(&self, decoded: &Self, rest: Seq<u8>) {
        let bytes = wire(*self);
        let pattern = twos_complement(*self as int, 2);
        lemma_pow256_values();
        lemma_twos_complement_inverse(*self as int, 2);
        lemma_be_bytes_len(pattern, 2);
        lemma_be_value_of_bytes(pattern, 2);
        lemma_wire_of_one_write(be_bytes(pattern, 2));
        assert((bytes + rest).subrange(0, 2) =~= bytes);
    }
}

impl RoundTrip for i32 {
    open spec fn same(&self, other: &Self) -> bool {
        *self == *other
    }

    open spec fn representable(&self) -> bool {
        true
    }

    proof fn lemma_round_trip(&self, decoded: &Self, rest: Seq<u8>) {
        let bytes = wire(*self);
        let pattern = twos_complement(*self as int, 4);
        lemma_pow256_values();
        lemma_twos_complement_inverse(*self as int, 4);
        lemma_be_bytes_len(pattern, 4);
        lemma_be_value_of_bytes(pattern, 4);
        lemma_wire_of_one_write(be_bytes(pattern, 4));
        assert((bytes + rest).subrange(0, 4) =~= bytes);
    }
}

impl RoundTrip for i64 {
    open spec fn same(&self, other: &Self) -> bool {
        *self == *other
    }

    open spec fn representable(&self) -> bool {
        true
    }

    proof fn lemma_round_trip(&self, decoded: &Self, rest: Seq<u8>) {
        let bytes = wire(*self);
        let pattern = twos_complement(*self as int, 8);
        lemma_pow256_values();
        lemma_twos_complement_inverse(*self as int, 8);
        lemma_be_bytes_len(pattern, 8);
        lemma_be_value_of_bytes(pattern, 8);
        lemma_wire_of_one_write(be_bytes(pattern, 8));
        assert((bytes + rest).subrange(0, 8) =~= bytes);
    }
}

impl RoundTrip for i128 {
    open spec fn same(&self, other: &Self) -> bool {
        *self == *other
    }

    open spec fn representable(&self) -> bool {
        true
    }

    proof fn lemma_round_trip(&self, decoded: &Self, rest: Seq<u8>) {
        let bytes = wire(*self);
        let pattern = twos_complement(*self as int, 16);
        lemma_pow256_values();
        lemma_twos_complement_inverse(*self as int, 16);
        lemma_be_bytes_len(pattern, 16);
        lemma_be_value_of_bytes(pattern, 16);
        lemma_wire_of_one_write(be_bytes(pattern, 16));
        assert((bytes + rest).subrange(0, 16) =~= bytes);
    }
}

impl RoundTrip for bool {
    open spec fn same(&self, other: &Self) -> bool {
        *self == *other
    }

    open spec fn representable(&self) -> bool {
        true
    }

    proof fn lemma_round_trip(&self, decoded: &Self, rest: Seq<u8>) {
        let bytes = wire(*self);
        reveal_with_fuel(be_value, 2);
        lemma_wire_of_one_write(seq![if *self {
            1u8
        } else {
            0u8
        }]);
        assert((bytes + rest).subrange(0, 1) =~= bytes);
        assert(bytes.drop_last() =~= Seq::<u8>::empty());
    }
}

impl RoundTrip for String {
    open spec fn same(&self, other: &Self) -> bool {
        self@ == other@
    }

    open spec fn representable(&self) -> bool {
        encode_utf8(self@).len() <= 65535
    }

    proof fn lemma_round_trip(&self, decoded: &Self, rest: Seq<u8>) {
        let payload = encode_utf8(self@);
        let prefix = be_bytes(payload.len(), 2);
        let input = wire(*self) + rest;
        lemma_pow256_values();
        lemma_be_bytes_len(payload.len(), 2);
        lemma_be_value_of_bytes(payload.len(), 2);
        encode_utf8_valid_utf8(self@);
        encode_utf8_decode_utf8(self@);
        lemma_wire_of_one_write(prefix);
        lemma_wire_of_one_write(payload);
        assert(self.steps() =~= seq![Step::Write(prefix)] + seq![Step::Write(payload)]);
        lemma_wire_of_concat(seq![Step::Write(prefix)], seq![Step::Write(payload)]);
        assert(input.subrange(0, 2) =~= prefix);
        assert(input.subrange(2, 2 + payload.len() as int) =~= payload);
    }
}

impl<T: RoundTrip> RoundTrip for Option<T> {
    open spec fn same(&self, other: &Self) -> bool {
        match (*self, *other) {
            (Some(mine), Some(theirs)) => mine.same(&theirs),
            (None, None) => true,
            _ => false,
        }
    }

    open spec fn representable(&self) -> bool {
        match *self {
            Some(inner) => inner.representable(),
            None => true,
        }
    }

    proof fn lemma_round_trip(&self, decoded: &Self, rest: Seq<u8>) {
        let input = wire(*self) + rest;
        match *self {
            Some(inner) => {
                lemma_wire_of_one_write(seq![1u8]);
                lemma_wire_of_concat(seq![Step::Write(seq![1u8])], inner.steps());
                assert(input.skip(1) =~= wire(inner) + rest);
                match *decoded {
                    Some(found) => {
                        inner.lemma_round_trip(&found, rest);
                    },
                    None => {
                        inner.lemma_round_trip(&inner, rest);
                    },
                }
            },
            None => {
                lemma_wire_of_one_write(seq![0u8]);
            },
        }
    }
}

/// Whether each of the items can be said in full by the wire format.
pub open spec fn all_representable<T: RoundTrip>(items: Seq<T>) -> bool {
    forall|i: int| 0 <= i < items.len() ==> (#[trigger] items[i]).representable()
}

/// Whether two sequences have equal items at each index.
pub open spec fn all_same<T: RoundTrip>(mine: Seq<T>, theirs: Seq<T>) -> bool {
    &&& mine.len() == theirs.len()
    &&& forall|i: int| 0 <= i < mine.len() ==> (#[trigger] mine[i]).same(&theirs[i])
}

/// The bytes of the field data of the items of a sequence, one item after
/// the other.
pub open spec fn wire_of_all<T: Encodable>(items: Seq<T>) -> Seq<u8> {
    wire_of(steps_of_all(items))
}

/// The bytes of some items are those of the items but the last, then those
/// of the last; and items that can be said in full are written in steps
/// none of which refuses them.
pub proof fn lemma_wire_of_all<T: RoundTrip>(items: Seq<T>)
    requires
        all_representable(items),
    ensures
        writable(steps_of_all(items)),
        items.len() > 0 ==> wire_of_all(items) == wire_of_all(items.drop_last()) + wire(
            items.last(),
        ),
        items.len() == 0 ==> wire_of_all(items).len() == 0,
    decreases items.len(),
{
    if items.len() > 0 {
        let last = items.last();
        lemma_wire_of_all(items.drop_last());
        last.lemma_round_trip(&last, Seq::empty());
        lemma_wire_of_concat(steps_of_all(items.drop_last()), last.steps());
        let all = steps_of_all(items);
        let first = steps_of_all(items.drop_last());
        assert forall|i: int| 0 <= i < all.len() implies (#[trigger] all[i]) is Write by {
            if i < first.len() {
                assert(first[i] is Write);
            } else {
                assert(last.steps()[i - first.len()] is Write);
            }
        }
    }
}

/// In the field data of some items, followed by any other bytes, the first
/// `k` items end where their own field data end.
pub proof fn lemma_items_parse_of_wire<T: RoundTrip>(items: Seq<T>, rest: Seq<u8>, k: nat)
    requires
        all_representable(items),
        k <= items.len(),
    ensures
        items_parse::<T>(wire_of_all(items) + rest, k) == (Parsed {
            taken: wire_of_all(items.subrange(0, k as int)).len(),
            failure: None,
        }),
        k < items.len() ==> (wire_of_all(items) + rest).skip(
            wire_of_all(items.subrange(0, k as int)).len() as int,
        ) == wire(items[k as int]) + (wire_of_all(items.subrange(k as int + 1, items.len() as int))
            + rest),
    decreases k,
{
    let body = wire_of_all(items) + rest;
    let first = items.subrange(0, k as int);
    if k < items.len() {
        let next = items.subrange(0, k as int + 1);
        let later = items.subrange(k as int + 1, items.len() as int);
        assert(next + later =~= items);
        lemma_steps_of_all_concat(next, later);
        lemma_wire_of_concat(steps_of_all(next), steps_of_all(later));
        assert(next.drop_last() =~= first);
        assert(next.last() == items[k as int]);
        lemma_wire_of_all(next);
        assert(body.skip(wire_of_all(first).len() as int) =~= wire(items[k as int]) + (
        wire_of_all(later) + rest));
    } else {
        lemma_wire_of_all(first);
    }
    if k > 0 {
        let before = items.subrange(0, k - 1);
        lemma_items_parse_of_wire(items, rest, (k - 1) as nat);
        let item = items[k - 1];
        let tail = wire_of_all(items.subrange(k as int, items.len() as int)) + rest;
        item.lemma_round_trip(&item, tail);
        assert(first.drop_last() =~= before);
        assert(first.last() == item);
        lemma_wire_of_all(first);
    }
}

impl<T: RoundTrip> RoundTrip for Vec<T> {
    open spec fn same(&self, other: &Self) -> bool {
        all_same(self@, other@)
    }

    open spec fn representable(&self) -> bool {
        self@.len() <= 65535 && all_representable(self@)
    }

    proof fn lemma_round_trip(&self, decoded: &Self, rest: Seq<u8>) {
        let items = self@;
        let count = items.len();
        let prefix = be_bytes(count % 65536, 2);
        let input = wire(*self) + rest;
        let body = wire_of_all(items) + rest;
        lemma_pow256_values();
        lemma_be_bytes_len(count, 2);
        lemma_be_value_of_bytes(count, 2);
        lemma_wire_of_one_write(prefix);
        lemma_wire_of_concat(seq![Step::Write(prefix)], steps_of_all(items));
        lemma_wire_of_all(items);
        let all = self.steps();
        assert forall|i: int| 0 <= i < all.len() implies (#[trigger] all[i]) is Write by {
            if i >= 1 {
                assert(steps_of_all(items)[i - 1] is Write);
            }
        }
        assert(input.subrange(0, 2) =~= prefix);
        assert(input.skip(2) =~= body);
        lemma_items_parse_of_wire(items, rest, count);
        assert(items.subrange(0, count as int) =~= items);
        if decoded.decoded_from(input) {
            assert forall|i: int| 0 <= i < count implies (#[trigger] decoded@[i]).same(
                &items[i],
            ) by {
                assert(item_decoded_at(decoded@, body, i));
                lemma_items_parse_of_wire(items, rest, i as nat);
                let tail = wire_of_all(items.subrange(i + 1, count as int)) + rest;
                items[i].lemma_round_trip(&decoded@[i], tail);
            }
        }
    }
}

/// The buffer after each of the chunks was to be written in turn, whole or
/// not at all, whether or not the writes before it went through.
pub open spec fn write_each(before: BufferView, chunks: Seq<Seq<u8>>) -> BufferView
    decreases chunks.len(),
{
    if chunks.len() == 0 {
        before
    } else {
        write_each(before, chunks.drop_last()).write_all(chunks.last()).0
    }
}

/// Whether each of the chunks is written when they are written in turn.
pub open spec fn all_written(before: BufferView, chunks: Seq<Seq<u8>>) -> bool
    decreases chunks.len(),
{
    chunks.len() == 0 || (all_written(before, chunks.drop_last()) && write_each(
        before,
        chunks.drop_last(),
    ).write_all(chunks.last()).1 is Ok)
}

/// The count of the bytes of all the chunks.
pub open spec fn total_len(chunks: Seq<Seq<u8>>) -> nat
    decreases chunks.len(),
{
    if chunks.len() == 0 {
        0
    } else {
        total_len(chunks.drop_last()) + chunks.last().len()
    }
}

/// Capacity enforcement, of one write: without a ceiling no write fails;
/// under a ceiling a write fails, and changes nothing, exactly if it is not
/// empty and would take the buffer past the ceiling; and a buffer that is
/// not past its ceiling is not taken past it.
pub proof fn lemma_capacity_enforced(before: BufferView, chunk: Seq<u8>)
    ensures
        before.max_capacity == 0 ==> before.write_all(chunk).1 is Ok,
        before.max_capacity > 0 ==> (before.write_all(chunk).1 is Err <==> chunk.len() > 0
            && before.bytes.len() + chunk.len() > before.max_capacity),
        before.write_all(chunk).1 is Err ==> before.write_all(chunk).0 == before,
        before.write_all(chunk).1 is Ok ==> before.write_all(chunk).0.bytes == before.bytes
            + chunk,
        before.max_capacity > 0 && before.bytes.len() <= before.max_capacity
            ==> before.write_all(chunk).0.bytes.len() <= before.max_capacity,
        before.write_all(chunk).0.max_capacity == before.max_capacity,
{
    if chunk.len() == 0 {
        assert(before.bytes + chunk =~= before.bytes);
    }
}

/// Capacity enforcement, of writes in a row: under a ceiling of C bytes a
/// buffer never comes to hold more than C bytes, so writes of more than C
/// bytes in total into an empty buffer do not all succeed; without a
/// ceiling every write succeeds.
pub proof fn lemma_capacity_enforced_in_total(before: BufferView, chunks: Seq<Seq<u8>>)
    ensures
        write_each(before, chunks).max_capacity == before.max_capacity,
        before.max_capacity == 0 ==> all_written(before, chunks),
        all_written(before, chunks) ==> write_each(before, chunks).bytes.len()
            == before.bytes.len() + total_len(chunks),
        before.max_capacity > 0 && before.bytes.len() <= before.max_capacity ==> write_each(
            before,
            chunks,
        ).bytes.len() <= before.max_capacity,
        before.max_capacity > 0 && before.bytes.len() <= before.max_capacity
            && before.bytes.len() + total_len(chunks) > before.max_capacity ==> !all_written(
            before,
            chunks,
        ),
    decreases chunks.len(),
{
    if chunks.len() > 0 {
        lemma_capacity_enforced_in_total(before, chunks.drop_last());
        lemma_capacity_enforced(write_each(before, chunks.drop_last()), chunks.last());
    }
}

/// Capacity enforcement, of encodings: whether an encoding succeeds or
/// fails half-way, it does not change the ceiling and does not take a buffer
/// past it.
pub proof fn lemma_run_under_ceiling(before: BufferView, steps: Seq<Step>)
    ensures
        run(before, steps).0.max_capacity == before.max_capacity,
        before.max_capacity > 0 && before.bytes.len() <= before.max_capacity ==> run(
            before,
            steps,
        ).0.bytes.len() <= before.max_capacity,
    decreases steps.len(),
{
    if steps.len() > 0 {
        match steps.first() {
            Step::Write(chunk) => {
                lemma_capacity_enforced(before, chunk);
                lemma_run_under_ceiling(before.write_all(chunk).0, steps.drop_first());
            },
            Step::Refuse(_) => {},
        }
    }
}

} // verus!
