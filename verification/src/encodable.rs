//! The trait of the types that can be encoded to a `Bufferfish`, and its
//! implementations for the primitive types, strings, sequences and optional
//! values.

use crate::buffer::{BufferView, Bufferfish, DEFAULT_MAX_CAPACITY};
use crate::error::{BufferfishError, IoFailure};
use crate::wire::{be_bytes, twos_complement};
use vstd::prelude::*;
use vstd::utf8::encode_utf8;

verus! {

/// One step of an encoding.
pub enum Step {
    /// Some bytes are written to the buffer, whole or not at all.
    Write(Seq<u8>),
    /// The value cannot be written, and says why.
    Refuse(BufferfishError),
}

/// The buffer and the result of an encoding that goes through `steps` in
/// order: the first step that fails ends it, and what the steps before it
/// have written stays in the buffer.
pub open spec fn run(before: BufferView, steps: Seq<Step>) -> (
    BufferView,
    Result<(), BufferfishError>,
)
    decreases steps.len(),
{
    if steps.len() == 0 {
        (before, Ok(()))
    } else {
        match steps.first() {
            Step::Write(chunk) => match before.write_all(chunk) {
                (after, Ok(_)) => run(after, steps.drop_first()),
                (after, Err(e)) => (after, Err(e)),
            },
            Step::Refuse(e) => (before, Err(e)),
        }
    }
}

/// The buffer and the result of going through `steps` after an encoding
/// that ended as `first` says: nothing more is done if that failed.
pub open spec fn and_then(first: (BufferView, Result<(), BufferfishError>), steps: Seq<Step>) -> (
    BufferView,
    Result<(), BufferfishError>,
) {
    match first {
        (middle, Ok(_)) => run(middle, steps),
        (middle, Err(e)) => (middle, Err(e)),
    }
}

/// The bytes that the steps write if none of them fails.
pub open spec fn wire_of(steps: Seq<Step>) -> Seq<u8>
    decreases steps.len(),
{
    if steps.len() == 0 {
        Seq::empty()
    } else {
        (match steps.first() {
            Step::Write(chunk) => chunk,
            Step::Refuse(_) => Seq::empty(),
        }) + wire_of(steps.drop_first())
    }
}

/// Whether none of the steps refuses the value.
pub open spec fn writable(steps: Seq<Step>) -> bool {
    forall|i: int| 0 <= i < steps.len() ==> (#[trigger] steps[i]) is Write
}

/// The steps that write the identifier of a message, if it has one.
pub open spec fn header_steps(id: Option<u16>) -> Seq<Step> {
    match id {
        Some(id) => seq![Step::Write(be_bytes(id as nat, 2))],
        None => Seq::empty(),
    }
}

/// The steps that write a string: a two-byte length prefix, then the UTF-8
/// bytes. A string of more than 65535 bytes is refused.
pub open spec fn text_steps(text: Seq<char>) -> Seq<Step> {
    let payload = encode_utf8(text);
    if payload.len() > 65535 {
        seq![Step::Refuse(BufferfishError::FailedWrite(IoFailure::StringTooLong))]
    } else {
        seq![Step::Write(be_bytes(payload.len(), 2)), Step::Write(payload)]
    }
}

/// The steps that write the field data of the items of a sequence, one
/// item after the other.
pub open spec fn steps_of_all<T: Encodable>(items: Seq<T>) -> Seq<Step>
    decreases items.len(),
{
    if items.len() == 0 {
        Seq::empty()
    } else {
        steps_of_all(items.drop_last()) + items.last().steps()
    }
}

/// The steps that write a sequence: the count of its items in two bytes,
/// then the field data of each item. A count above 65535 is written modulo
/// 65536.
pub open spec fn array_steps<T: Encodable>(items: Seq<T>) -> Seq<Step> {
    seq![Step::Write(be_bytes(items.len() % 65536, 2))] + steps_of_all(items)
}

/// The steps that write an optional value: a presence byte, then the field
/// data of the value if there is one.
pub open spec fn option_steps<T: Encodable>(value: Option<T>) -> Seq<Step> {
    match value {
        Some(inner) => seq![Step::Write(seq![1u8])] + inner.steps(),
        None => seq![Step::Write(seq![0u8])],
    }
}

/// The buffer that `Bufferfish::new` makes.
pub open spec fn fresh_buffer() -> BufferView {
    BufferView {
        bytes: Seq::empty(),
        cursor: 0,
        max_capacity: DEFAULT_MAX_CAPACITY as nat,
    }
}

/// Going through one run of steps and then through another is going
/// through both in a row.
pub proof fn lemma_run_concat(before: BufferView, first: Seq<Step>, second: Seq<Step>)
    ensures
        run(before, first + second) == and_then(run(before, first), second),
    decreases first.len(),
{
    if first.len() == 0 {
        assert(first + second =~= second);
    } else {
        assert((first + second).first() == first.first());
        assert((first + second).drop_first() =~= first.drop_first() + second);
        match first.first() {
            Step::Write(chunk) => {
                lemma_run_concat(before.write_all(chunk).0, first.drop_first(), second);
            },
            Step::Refuse(_) => {},
        }
    }
}

/// A single write is the run of one step.
pub proof fn lemma_run_one_write(before: BufferView, chunk: Seq<u8>)
    ensures
        run(before, seq![Step::Write(chunk)]) == before.write_all(chunk),
{
    let steps = seq![Step::Write(chunk)];
    reveal_with_fuel(run, 2);
    assert(steps.drop_first() =~= Seq::<Step>::empty());
    assert(before.write_all(chunk).1 is Ok ==> before.write_all(chunk).1->Ok_0 == ());
}

/// The bytes of one run of steps and then another are the bytes of the
/// first, then those of the second.
pub proof fn lemma_wire_of_concat(first: Seq<Step>, second: Seq<Step>)
    ensures
        wire_of(first + second) == wire_of(first) + wire_of(second),
    decreases first.len(),
{
    if first.len() == 0 {
        assert(first + second =~= second);
        assert(wire_of(first) + wire_of(second) =~= wire_of(second));
    } else {
        assert((first + second).first() == first.first());
        assert((first + second).drop_first() =~= first.drop_first() + second);
        lemma_wire_of_concat(first.drop_first(), second);
        assert(wire_of(first + second) =~= wire_of(first) + wire_of(second));
    }
}

/// Where no step refuses the value, the encoding succeeds exactly if its
/// bytes fit under the ceiling, and they then stand at the end of the
/// buffer; where it fails, it fails for want of room.
pub proof fn lemma_run_writable(before: BufferView, steps: Seq<Step>)
    requires
        writable(steps),
    ensures
        run(before, steps).1 is Ok <==> before.fits(wire_of(steps).len()),
        run(before, steps).1 is Ok ==> run(before, steps).0 == before.append(wire_of(steps)),
        run(before, steps).1 is Err ==> run(before, steps).1->Err_0 is FailedWrite && run(
            before,
            steps,
        ).1->Err_0->FailedWrite_0 is CapacityExceeded,
    decreases steps.len(),
{
    if steps.len() == 0 {
    } else {
        let rest = steps.drop_first();
        assert(steps[0] is Write);
        assert forall|i: int| 0 <= i < rest.len() implies (#[trigger] rest[i]) is Write by {
            assert(steps[i + 1] is Write);
        }
        let chunk = steps.first()->Write_0;
        let (after, written) = before.write_all(chunk);
        if written is Ok {
            lemma_run_writable(after, rest);
            if chunk.len() == 0 {
                assert(wire_of(steps) =~= wire_of(rest));
            } else if wire_of(rest).len() == 0 {
                assert(wire_of(steps) =~= chunk);
            } else {
                assert((before.bytes + chunk) + wire_of(rest) =~= before.bytes + wire_of(steps));
            }
        }
    }
}

/// The steps of a sequence of items are those of a first part, then those
/// of the rest.
pub proof fn lemma_steps_of_all_concat<T: Encodable>(first: Seq<T>, rest: Seq<T>)
    ensures
        steps_of_all(first + rest) == steps_of_all(first) + steps_of_all(rest),
    decreases rest.len(),
{
    if rest.len() == 0 {
        assert(first + rest =~= first);
        assert(steps_of_all(first) + steps_of_all(rest) =~= steps_of_all(first));
    } else {
        lemma_steps_of_all_concat(first, rest.drop_last());
        assert((first + rest).drop_last() =~= first + rest.drop_last());
        assert((first + rest).last() == rest.last());
        assert(steps_of_all(first + rest) =~= steps_of_all(first) + steps_of_all(rest));
    }
}

/// Types implementing this trait are able to be encoded to a `Bufferfish`.
pub trait Encodable: Sized {
    /// The steps in which the field data of the value are written, without
    /// any message identifier. An implementation says what they are;
    /// nothing is known of them where it does not.
    open spec fn steps(&self) -> Seq<Step> {
        arbitrary()
    }

    /// Encode this type into a given `Bufferfish`: its message identifier,
    /// if the type has one, then its field data.
    fn encode(&self, bf: &mut Bufferfish) -> (r: Result<(), BufferfishError>)
        ensures
            exists|id: Option<u16>|
                (final(bf)@, r) == run(old(bf)@, #[trigger] header_steps(id) + self.steps()),
        default_ensures
            (final(bf)@, r) == run(old(bf)@, self.steps()),
    {
        let r = self.encode_value(bf);
        proof {
            assert(header_steps(None) + self.steps() =~= self.steps());
        }
        r
    }

    /// Encodes a raw value into a given `Bufferfish`.
    ///
    /// Note: This is generally not what you want to call on types
    /// implementing `Encodable`, as it will not encode the header value.
    /// Instead, use `encode` to encode an entire type.
    fn encode_value(&self, bf: &mut Bufferfish) -> (r: Result<(), BufferfishError>)
        ensures
            (final(bf)@, r) == run(old(bf)@, self.steps()),
    ;

    /// Encode the type into a new `Bufferfish` of the default capacity.
    ///
    /// Note: As this allocates a new `Bufferfish`, consider using
    /// `encode` instead and reusing a previously allocated `Bufferfish`.
    fn to_bufferfish(&self) -> (r: Result<Bufferfish, BufferfishError>)
        ensures
            exists|inner: &mut Bufferfish, written: Result<(), BufferfishError>|
                (*inner)@ == fresh_buffer() && #[trigger] call_ensures(
                    Self::encode,
                    (self, inner),
                    written,
                ) && match written {
                    Ok(_) => r is Ok && r->Ok_0@ == (*final(inner))@,
                    Err(e) => r is Err && r->Err_0 == e,
                },
    {
        let mut bf = Bufferfish::new();
        match self.encode(&mut bf) {
            Ok(()) => Ok(bf),
            Err(e) => Err(e),
        }
    }
}

/// The bytes of the field data of a value, as they stand on the wire where
/// the value can be written.
pub open spec fn wire<T: Encodable>(value: T) -> Seq<u8> {
    wire_of(value.steps())
}

impl Encodable for u8 {
    open spec fn steps(&self) -> Seq<Step> {
        seq![Step::Write(be_bytes(*self as nat, 1))]
    }

    fn encode_value(&self, bf: &mut Bufferfish) -> (r: Result<(), BufferfishError>) {
        proof {
            lemma_run_one_write(bf@, be_bytes(*self as nat, 1));
        }
        bf.write_u8(*self)
    }
}

impl Encodable for u16 {
    open spec fn steps(&self) -> Seq<Step> {
        seq![Step::Write(be_bytes(*self as nat, 2))]
    }

    fn encode_value(&self, bf: &mut Bufferfish) -> (r: Result<(), BufferfishError>) {
        proof {
            lemma_run_one_write(bf@, be_bytes(*self as nat, 2));
        }
        bf.write_u16(*self)
    }
}

impl Encodable for u32 {
    open spec fn steps(&self) -> Seq<Step> {
        seq![Step::Write(be_bytes(*self as nat, 4))]
    }

    fn encode_value(&self, bf: &mut Bufferfish) -> (r: Result<(), BufferfishError>) {
        proof {
            lemma_run_one_write(bf@, be_bytes(*self as nat, 4));
        }
        bf.write_u32(*self)
    }
}

impl Encodable for u64 {
    open spec fn steps(&self) -> Seq<Step> {
        seq![Step::Write(be_bytes(*self as nat, 8))]
    }

    fn encode_value(&self, bf: &mut Bufferfish) -> (r: Result<(), BufferfishError>) {
        proof {
            lemma_run_one_write(bf@, be_bytes(*self as nat, 8));
        }
        bf.write_u64(*self)
    }
}

impl Encodable for u128 {
    open spec fn steps(&self) -> Seq<Step> {
        seq![Step::Write(be_bytes(*self as nat, 16))]
    }

    fn encode_value(&self, bf: &mut Bufferfish) -> (r: Result<(), BufferfishError>) {
        proof {
            lemma_run_one_write(bf@, be_bytes(*self as nat, 16));
        }
        bf.write_u128(*self)
    }
}

impl Encodable for i8 {
    open spec fn steps(&self) -> Seq<Step> {
        seq![Step::Write(be_bytes(twos_complement(*self as int, 1), 1))]
    }

    fn encode_value(&self, bf: &mut Bufferfish) -> (r: Result<(), BufferfishError>) {
        proof {
            lemma_run_one_write(bf@, be_bytes(twos_complement(*self as int, 1), 1));
        }
        bf.write_i8(*self)
    }
}

impl Encodable for i16 {
    open spec fn steps(&self) -> Seq<Step> {
        seq![Step::Write(be_bytes(twos_complement(*self as int, 2), 2))]
    }

    fn encode_value(&self, bf: &mut Bufferfish) -> (r: Result<(), BufferfishError>) {
        proof {
            lemma_run_one_write(bf@, be_bytes(twos_complement(*self as int, 2), 2));
        }
        bf.write_i16(*self)
    }
}

impl Encodable for i32 {
    open spec fn steps(&self) -> Seq<Step> {
        seq![Step::Write(be_bytes(twos_complement(*self as int, 4), 4))]
    }

    fn encode_value(&self, bf: &mut Bufferfish) -> (r: Result<(), BufferfishError>) {
        proof {
            lemma_run_one_write(bf@, be_bytes(twos_complement(*self as int, 4), 4));
        }
        bf.write_i32(*self)
    }
}

impl Encodable for i64 {
    open spec fn steps(&self) -> Seq<Step> {
        seq![Step::Write(be_bytes(twos_complement(*self as int, 8), 8))]
    }

    fn encode_value(&self, bf: &mut Bufferfish) -> (r: Result<(), BufferfishError>) {
        proof {
            lemma_run_one_write(bf@, be_bytes(twos_complement(*self as int, 8), 8));
        }
        bf.write_i64(*self)
    }
}

impl Encodable for i128 {
    open spec fn steps(&self) -> Seq<Step> {
        seq![Step::Write(be_bytes(twos_complement(*self as int, 16), 16))]
    }

    fn encode_value(&self, bf: &mut Bufferfish) -> (r: Result<(), BufferfishError>) {
        proof {
            lemma_run_one_write(bf@, be_bytes(twos_complement(*self as int, 16), 16));
        }
        bf.write_i128(*self)
    }
}

impl Encodable for bool {
    open spec fn steps(&self) -> Seq<Step> {
        seq![Step::Write(seq![if *self {
            1u8
        } else {
            0u8
        }])]
    }

    fn encode_value(&self, bf: &mut Bufferfish) -> (r: Result<(), BufferfishError>) {
        proof {
            lemma_run_one_write(bf@, seq![if *self {
                1u8
            } else {
                0u8
            }]);
        }
        bf.write_bool(*self)
    }
}

impl Encodable for String {
    open spec fn steps(&self) -> Seq<Step> {
        text_steps(self@)
    }

    fn encode_value(&self, bf: &mut Bufferfish) -> (r: Result<(), BufferfishError>) {
        proof {
            lemma_write_string_is_run(bf@, self@);
        }
        bf.write_string(self.as_str())
    }
}

impl<T: Encodable> Encodable for Vec<T> {
    open spec fn steps(&self) -> Seq<Step> {
        array_steps(self@)
    }

    fn encode_value(&self, bf: &mut Bufferfish) -> (r: Result<(), BufferfishError>) {
        bf.write_array(self.as_slice())
    }
}

impl<T: Encodable> Encodable for Option<T> {
    open spec fn steps(&self) -> Seq<Step> {
        option_steps(*self)
    }

    fn encode_value(&self, bf: &mut Bufferfish) -> (r: Result<(), BufferfishError>) {
        bf.write_option(self)
    }
}

/// Writing a string goes through the steps of the string.
pub proof fn lemma_write_string_is_run(before: BufferView, text: Seq<char>)
    ensures
        before.write_string(text) == run(before, text_steps(text)),
{
    let payload = encode_utf8(text);
    let steps = text_steps(text);
    if payload.len() > 65535 {
    } else {
        let prefix = be_bytes(payload.len(), 2);
        let last = seq![Step::Write(payload)];
        assert(steps.drop_first() =~= last);
        lemma_run_one_write(before.write_all(prefix).0, payload);
    }
}

/// Writes the identifier of a message, then the field data of `value`.
pub fn encode_with_id<T: Encodable>(value: &T, id: u16, bf: &mut Bufferfish) -> (r: Result<
    (),
    BufferfishError,
>)
    ensures
        (final(bf)@, r) == run(old(bf)@, header_steps(Some(id)) + value.steps()),
{
    proof {
        lemma_run_one_write(bf@, be_bytes(id as nat, 2));
        lemma_run_concat(bf@, header_steps(Some(id)), value.steps());
    }
    match bf.write_message_id(id) {
        Ok(()) => value.encode_value(bf),
        Err(e) => Err(e),
    }
}

} // verus!
