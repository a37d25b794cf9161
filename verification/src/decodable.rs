//! The trait of the types that can be decoded from a `Bufferfish`, and its
//! implementations for the primitive types, strings, sequences and optional
//! values.

use crate::bounds::{
    admission, check_admission, optional_max, optional_max_bytes, sequence_bound,
    sequence_max_bytes, sequence_min_bytes,
};
use crate::buffer::{BufferView, Bufferfish};
use crate::error::{BufferfishError, IoFailure};
use crate::wire::{be_value, from_twos_complement, lemma_pow256_values};
use vstd::prelude::*;
use vstd::utf8::{decode_utf8, valid_utf8};

verus! {

/// How a decoding goes: the count of the bytes that it takes from the
/// unread bytes, and the reason why it fails, if it does.
pub struct Parsed {
    /// The count of the bytes that the decoding takes, whether it succeeds
    /// or fails.
    pub taken: nat,
    /// Why the decoding fails; `None` where it succeeds.
    pub failure: Option<BufferfishError>,
}

/// The failure of a read that ran out of bytes.
pub open spec fn end_of_data() -> BufferfishError {
    BufferfishError::FailedWrite(IoFailure::UnexpectedEof)
}

/// What holds of a buffer and a result after a decoding that goes as
/// `parsed` says: the cursor has moved over the bytes that the decoding
/// takes, and nothing else has changed. `got` is the result, with `true`
/// in place of a value that is the one that the bytes stand for.
pub open spec fn decoded(
    before: BufferView,
    after: BufferView,
    parsed: Parsed,
    got: Result<bool, BufferfishError>,
) -> bool {
    &&& parsed.taken <= before.unread().len()
    &&& after == before.consume(parsed.taken)
    &&& got == match parsed.failure {
        None => Ok::<bool, BufferfishError>(true),
        Some(e) => Err::<bool, BufferfishError>(e),
    }
}

/// How reading `width` bytes goes: a read that asks for more than is left
/// fails and takes what is left.
pub open spec fn fixed_parse(input: Seq<u8>, width: nat) -> Parsed {
    if input.len() >= width {
        Parsed { taken: width, failure: None }
    } else {
        Parsed { taken: input.len(), failure: Some(end_of_data()) }
    }
}

/// How one decoding after another goes: the second is not begun if the
/// first fails.
pub open spec fn after_parse(first: Parsed, second: Parsed) -> Parsed {
    if first.failure is Some {
        first
    } else {
        Parsed { taken: first.taken + second.taken, failure: second.failure }
    }
}

/// How reading the identifier of a message goes, where one is expected: an
/// identifier that is not the expected one is refused once it is read.
pub open spec fn header_parse(id: Option<u16>, input: Seq<u8>) -> Parsed {
    match id {
        Some(expected) => if input.len() < 2 {
            Parsed { taken: input.len(), failure: Some(end_of_data()) }
        } else if be_value(input.subrange(0, 2)) != expected {
            Parsed { taken: 2, failure: Some(BufferfishError::InvalidMessageId) }
        } else {
            Parsed { taken: 2, failure: None }
        },
        None => Parsed { taken: 0, failure: None },
    }
}

/// How decoding a string at the head of `input` goes: a length in two
/// bytes, then as many bytes of well-formed UTF-8.
pub open spec fn string_parse(input: Seq<u8>) -> Parsed {
    if input.len() < 2 {
        Parsed { taken: input.len(), failure: Some(end_of_data()) }
    } else {
        let n = be_value(input.subrange(0, 2));
        if input.len() < 2 + n {
            Parsed { taken: input.len(), failure: Some(end_of_data()) }
        } else if !valid_utf8(input.subrange(2, 2 + n as int)) {
            Parsed {
                taken: 2 + n,
                failure: Some(BufferfishError::FailedWrite(IoFailure::InvalidUtf8)),
            }
        } else {
            Parsed { taken: 2 + n, failure: None }
        }
    }
}

/// Whether `text` is the string at the head of `input`.
pub open spec fn string_decoded_from(text: Seq<char>, input: Seq<u8>) -> bool {
    &&& input.len() >= 2
    &&& input.len() >= 2 + be_value(input.subrange(0, 2))
    &&& text == decode_utf8(input.subrange(2, 2 + be_value(input.subrange(0, 2)) as int))
}

/// How decoding the field data of `count` items in a row goes: the first
/// item that fails ends it.
pub open spec fn items_parse<T: Decodable>(input: Seq<u8>, count: nat) -> Parsed
    decreases count,
{
    if count == 0 {
        Parsed { taken: 0, failure: None }
    } else {
        let before = items_parse::<T>(input, (count - 1) as nat);
        after_parse(before, T::parse(input.skip(before.taken as int)))
    }
}

/// How decoding a sequence of `T` at the head of `input` goes: a count in
/// two bytes, then as many items.
pub open spec fn array_parse<T: Decodable>(input: Seq<u8>) -> Parsed {
    after_parse(
        fixed_parse(input, 2),
        items_parse::<T>(input.skip(2), be_value(input.subrange(0, 2))),
    )
}

/// Whether the item at index `i` is the value of the field data that
/// follow those of the `i` items before it in `body`.
pub open spec fn item_decoded_at<T: Decodable>(items: Seq<T>, body: Seq<u8>, i: int) -> bool {
    &&& items_parse::<T>(body, i as nat).failure is None
    &&& items[i].decoded_from(body.skip(items_parse::<T>(body, i as nat).taken as int))
}

/// Whether `items` are the items of the sequence at the head of `input`:
/// as many as its count says, each the value of the field data at its place.
pub open spec fn array_decoded_from<T: Decodable>(items: Seq<T>, input: Seq<u8>) -> bool {
    &&& input.len() >= 2
    &&& items.len() == be_value(input.subrange(0, 2))
    &&& forall|i: int| 0 <= i < items.len() ==> #[trigger] item_decoded_at(items, input.skip(2), i)
}

/// How decoding an optional `T` at the head of `input` goes: a presence
/// byte, then the value if the byte is 1. A byte above 1 names no variant.
pub open spec fn option_parse<T: Decodable>(input: Seq<u8>) -> Parsed {
    if input.len() < 1 {
        Parsed { taken: 0, failure: Some(end_of_data()) }
    } else if input[0] == 0 {
        Parsed { taken: 1, failure: None }
    } else if input[0] == 1 {
        after_parse(Parsed { taken: 1, failure: None }, T::parse(input.skip(1)))
    } else {
        Parsed { taken: 1, failure: Some(BufferfishError::InvalidEnumVariant) }
    }
}

/// Whether `value` is the optional value at the head of `input`.
pub open spec fn option_decoded_from<T: Decodable>(value: Option<T>, input: Seq<u8>) -> bool {
    &&& input.len() >= 1
    &&& match value {
        Some(inner) => input[0] == 1 && inner.decoded_from(input.skip(1)),
        None => input[0] == 0,
    }
}

/// How decoding a message of type `T` goes, where `id` is the message
/// identifier that the type expects, if any: a missing or wrong identifier
/// ends the decoding before any field is read.
pub open spec fn message_parse<T: Decodable>(id: Option<u16>, input: Seq<u8>) -> Parsed {
    let head = header_parse(id, input);
    after_parse(head, T::parse(input.skip(head.taken as int)))
}

/// Once an item fails to decode, so does every longer run of items, at the
/// same place and for the same reason.
pub proof fn lemma_items_parse_failure_stays<T: Decodable>(
    input: Seq<u8>,
    failed: nat,
    count: nat,
)
    requires
        failed <= count,
        items_parse::<T>(input, failed).failure is Some,
    ensures
        items_parse::<T>(input, count) == items_parse::<T>(input, failed),
    decreases count,
{
    if failed < count {
        lemma_items_parse_failure_stays::<T>(input, failed, (count - 1) as nat);
    }
}

/// Types implementing this trait are able to be decoded from a `Bufferfish`.
pub trait Decodable: Sized {
    /// How decoding the field data at the head of `input` goes: the count
    /// of bytes that it takes, and the reason why it fails, if it does. An
    /// implementation says how; nothing is known where it does not.
    open spec fn parse(input: Seq<u8>) -> Parsed {
        arbitrary()
    }

    /// Whether `self` is the value that the field data at the head of
    /// `input` stands for. An implementation says when; nothing is known
    /// where it does not.
    open spec fn decoded_from(&self, input: Seq<u8>) -> bool {
        arbitrary()
    }

    /// Decode the type from a given `Bufferfish`: check its message
    /// identifier, if the type has one, then decode its field data.
    fn decode(bf: &mut Bufferfish) -> (r: Result<Self, BufferfishError>)
        ensures
            exists|id: Option<u16>|
                #![trigger header_parse(id, old(bf)@.unread())]
                decoded(
                    old(bf)@,
                    final(bf)@,
                    after_parse(
                        header_parse(id, old(bf)@.unread()),
                        Self::parse(
                            old(bf)@.unread().skip(
                                header_parse(id, old(bf)@.unread()).taken as int,
                            ),
                        ),
                    ),
                    match r {
                        Ok(v) => Ok(
                            v.decoded_from(
                                old(bf)@.unread().skip(
                                    header_parse(id, old(bf)@.unread()).taken as int,
                                ),
                            ),
                        ),
                        Err(e) => Err(e),
                    },
                ),
        default_ensures
            decoded(
                old(bf)@,
                final(bf)@,
                Self::parse(old(bf)@.unread()),
                match r {
                    Ok(v) => Ok(v.decoded_from(old(bf)@.unread())),
                    Err(e) => Err(e),
                },
            ),
    {
        let r = Self::decode_value(bf);
        proof {
            let none: Option<u16> = None;
            let input = old(bf)@.unread();
            assert(header_parse(none, input).taken == 0);
            assert(input.skip(0) =~= input);
        }
        r
    }

    /// Decodes a raw value from a given `Bufferfish`.
    ///
    /// Note: This is generally not what you want to call on types
    /// implementing `Decodable`, as it will not decode the header value.
    /// Instead, use `decode` to decode an entire type.
    fn decode_value(bf: &mut Bufferfish) -> (r: Result<Self, BufferfishError>)
        ensures
            decoded(
                old(bf)@,
                final(bf)@,
                Self::parse(old(bf)@.unread()),
                match r {
                    Ok(v) => Ok(v.decoded_from(old(bf)@.unread())),
                    Err(e) => Err(e),
                },
            ),
    ;

    /// Creates a checked, generic type from a `Bufferfish`.
    ///
    /// The length of the buffer is held against the bounds that the type
    /// reports before anything is decoded: a buffer that is too short or
    /// too long is refused untouched. Any other buffer is decoded as
    /// `decode` does.
    fn from_bufferfish(bf: &mut Bufferfish) -> (r: Result<Self, BufferfishError>)
        ensures
            exists|min: Option<usize>, max: Option<usize>|
                #![trigger admission(old(bf)@.bytes.len() as usize, min, max)]
                call_ensures(Self::min_bytes_required, (), min) && call_ensures(
                    Self::max_bytes_allowed,
                    (),
                    max,
                ) && match admission(old(bf)@.bytes.len() as usize, min, max) {
                    Ok(_) => exists|inner: &mut Bufferfish|
                        *inner == *old(bf) && *final(inner) == *final(bf) && #[trigger] call_ensures(
                            Self::decode,
                            (inner,),
                            r,
                        ),
                    Err(e) => final(bf)@ == old(bf)@ && r is Err && r->Err_0 == e,
                },
    {
        let min = Self::min_bytes_required();
        let max = Self::max_bytes_allowed();
        let ghost before = bf@;
        match check_admission(bf.len(), min, max) {
            Ok(()) => {},
            Err(e) => {
                assert(admission(before.bytes.len() as usize, min, max) is Err);
                return Err(e);
            },
        }
        let r = Self::decode(bf);
        proof {
            assert(admission(before.bytes.len() as usize, min, max) is Ok);
        }
        r
    }

    /// Get the minimum number of bytes required to decode this type.
    /// Returns None if the size can't be determined statically.
    fn min_bytes_required() -> (min: Option<usize>)
        default_ensures
            min is None,
    {
        None
    }

    /// Get the maximum number of bytes this type can occupy.
    /// Returns None if the size can't be determined statically.
    fn max_bytes_allowed() -> (max: Option<usize>)
        default_ensures
            max is None,
    {
        None
    }
}

impl Decodable for u8 {
    open spec fn parse(input: Seq<u8>) -> Parsed {
        fixed_parse(input, 1)
    }

    open spec fn decoded_from(&self, input: Seq<u8>) -> bool {
        input.len() >= 1 && *self == be_value(input.subrange(0, 1)) as u8
    }

    fn decode_value(bf: &mut Bufferfish) -> (r: Result<u8, BufferfishError>) {
        bf.read_u8()
    }

    fn min_bytes_required() -> (min: Option<usize>)
        ensures
            min == Some(1usize),
    {
        Some(1)
    }

    fn max_bytes_allowed() -> (max: Option<usize>)
        ensures
            max == Some(1usize),
    {
        Some(1)
    }
}

impl Decodable for u16 {
    open spec fn parse(input: Seq<u8>) -> Parsed {
        fixed_parse(input, 2)
    }

    open spec fn decoded_from(&self, input: Seq<u8>) -> bool {
        input.len() >= 2 && *self == be_value(input.subrange(0, 2)) as u16
    }

    fn decode_value(bf: &mut Bufferfish) -> (r: Result<u16, BufferfishError>) {
        bf.read_u16()
    }

    fn min_bytes_required() -> (min: Option<usize>)
        ensures
            min == Some(2usize),
    {
        Some(2)
    }

    fn max_bytes_allowed() -> (max: Option<usize>)
        ensures
            max == Some(2usize),
    {
        Some(2)
    }
}

impl Decodable for u32 {
    open spec fn parse(input: Seq<u8>) -> Parsed {
        fixed_parse(input, 4)
    }

    open spec fn decoded_from(&self, input: Seq<u8>) -> bool {
        input.len() >= 4 && *self == be_value(input.subrange(0, 4)) as u32
    }

    fn decode_value(bf: &mut Bufferfish) -> (r: Result<u32, BufferfishError>) {
        bf.read_u32()
    }

    fn min_bytes_required() -> (min: Option<usize>)
        ensures
            min == Some(4usize),
    {
        Some(4)
    }

    fn max_bytes_allowed() -> (max: Option<usize>)
        ensures
            max == Some(4usize),
    {
        Some(4)
    }
}

impl Decodable for u64 {
    open spec fn parse(input: Seq<u8>) -> Parsed {
        fixed_parse(input, 8)
    }

    open spec fn decoded_from(&self, input: Seq<u8>) -> bool {
        input.len() >= 8 && *self == be_value(input.subrange(0, 8)) as u64
    }

    fn decode_value(bf: &mut Bufferfish) -> (r: Result<u64, BufferfishError>) {
        bf.read_u64()
    }

    fn min_bytes_required() -> (min: Option<usize>)
        ensures
            min == Some(8usize),
    {
        Some(8)
    }

    fn max_bytes_allowed() -> (max: Option<usize>)
        ensures
            max == Some(8usize),
    {
        Some(8)
    }
}

impl Decodable for u128 {
    open spec fn parse(input: Seq<u8>) -> Parsed {
        fixed_parse(input, 16)
    }

    open spec fn decoded_from(&self, input: Seq<u8>) -> bool {
        input.len() >= 16 && *self == be_value(input.subrange(0, 16)) as u128
    }

    fn decode_value(bf: &mut Bufferfish) -> (r: Result<u128, BufferfishError>) {
        bf.read_u128()
    }

    fn min_bytes_required() -> (min: Option<usize>)
        ensures
            min == Some(16usize),
    {
        Some(16)
    }

    fn max_bytes_allowed() -> (max: Option<usize>)
        ensures
            max == Some(16usize),
    {
        Some(16)
    }
}

impl Decodable for i8 {
    open spec fn parse(input: Seq<u8>) -> Parsed {
        fixed_parse(input, 1)
    }

    open spec fn decoded_from(&self, input: Seq<u8>) -> bool {
        input.len() >= 1 && *self == from_twos_complement(be_value(input.subrange(0, 1)), 1) as i8
    }

    fn decode_value(bf: &mut Bufferfish) -> (r: Result<i8, BufferfishError>) {
        bf.read_i8()
    }

    fn min_bytes_required() -> (min: Option<usize>)
        ensures
            min == Some(1usize),
    {
        Some(1)
    }

    fn max_bytes_allowed() -> (max: Option<usize>)
        ensures
            max == Some(1usize),
    {
        Some(1)
    }
}

impl Decodable for i16 {
    open spec fn parse(input: Seq<u8>) -> Parsed {
        fixed_parse(input, 2)
    }

    open spec fn decoded_from(&self, input: Seq<u8>) -> bool {
        input.len() >= 2 && *self == from_twos_complement(be_value(input.subrange(0, 2)), 2) as i16
    }

    fn decode_value(bf: &mut Bufferfish) -> (r: Result<i16, BufferfishError>) {
        bf.read_i16()
    }

    fn min_bytes_required() -> (min: Option<usize>)
        ensures
            min == Some(2usize),
    {
        Some(2)
    }

    fn max_bytes_allowed() -> (max: Option<usize>)
        ensures
            max == Some(2usize),
    {
        Some(2)
    }
}

impl Decodable for i32 {
    open spec fn parse(input: Seq<u8>) -> Parsed {
        fixed_parse(input, 4)
    }

    open spec fn decoded_from(&self, input: Seq<u8>) -> bool {
        input.len() >= 4 && *self == from_twos_complement(be_value(input.subrange(0, 4)), 4) as i32
    }

    fn decode_value(bf: &mut Bufferfish) -> (r: Result<i32, BufferfishError>) {
        bf.read_i32()
    }

    fn min_bytes_required() -> (min: Option<usize>)
        ensures
            min == Some(4usize),
    {
        Some(4)
    }

    fn max_bytes_allowed() -> (max: Option<usize>)
        ensures
            max == Some(4usize),
    {
        Some(4)
    }
}

impl Decodable for i64 {
    open spec fn parse(input: Seq<u8>) -> Parsed {
        fixed_parse(input, 8)
    }

    open spec fn decoded_from(&self, input: Seq<u8>) -> bool {
        input.len() >= 8 && *self == from_twos_complement(be_value(input.subrange(0, 8)), 8) as i64
    }

    fn decode_value(bf: &mut Bufferfish) -> (r: Result<i64, BufferfishError>) {
        bf.read_i64()
    }

    fn min_bytes_required() -> (min: Option<usize>)
        ensures
            min == Some(8usize),
    {
        Some(8)
    }

    fn max_bytes_allowed() -> (max: Option<usize>)
        ensures
            max == Some(8usize),
    {
        Some(8)
    }
}

impl Decodable for i128 {
    open spec fn parse(input: Seq<u8>) -> Parsed {
        fixed_parse(input, 16)
    }

    open spec fn decoded_from(&self, input: Seq<u8>) -> bool {
        input.len() >= 16 && *self == from_twos_complement(be_value(input.subrange(0, 16)), 16) as i128
    }

    fn decode_value(bf: &mut Bufferfish) -> (r: Result<i128, BufferfishError>) {
        bf.read_i128()
    }

    fn min_bytes_required() -> (min: Option<usize>)
        ensures
            min == Some(16usize),
    {
        Some(16)
    }

    fn max_bytes_allowed() -> (max: Option<usize>)
        ensures
            max == Some(16usize),
    {
        Some(16)
    }
}

impl Decodable for bool {
    open spec fn parse(input: Seq<u8>) -> Parsed {
        fixed_parse(input, 1)
    }

    open spec fn decoded_from(&self, input: Seq<u8>) -> bool {
        input.len() >= 1 && *self == (be_value(input.subrange(0, 1)) != 0)
    }

    fn decode_value(bf: &mut Bufferfish) -> (r: Result<bool, BufferfishError>) {
        bf.read_bool()
    }

    fn min_bytes_required() -> (min: Option<usize>)
        ensures
            min == Some(1usize),
    {
        Some(1)
    }

    fn max_bytes_allowed() -> (max: Option<usize>)
        ensures
            max == Some(1usize),
    {
        Some(1)
    }
}

impl Decodable for String {
    open spec fn parse(input: Seq<u8>) -> Parsed {
        string_parse(input)
    }

    open spec fn decoded_from(&self, input: Seq<u8>) -> bool {
        string_decoded_from(self@, input)
    }

    fn decode_value(bf: &mut Bufferfish) -> (r: Result<String, BufferfishError>) {
        let ghost before = bf@;
        let r = bf.read_string();
        proof {
            let input = before.unread();
            if input.len() >= 2 {
                let n = be_value(input.subrange(0, 2));
                let middle = before.consume(2);
                before.lemma_unread_after_consume(2);
                if input.len() >= 2 + n {
                    assert(middle.unread().subrange(0, n as int) =~= input.subrange(
                        2,
                        2 + n as int,
                    ));
                    assert(middle.consume(n) == before.consume(2 + n));
                } else {
                    assert(middle.consume(middle.unread().len()) == before.consume(input.len()));
                }
            }
        }
        r
    }

    fn min_bytes_required() -> (min: Option<usize>)
        ensures
            min == Some(2usize),
    {
        Some(2)
    }

    fn max_bytes_allowed() -> (max: Option<usize>)
        ensures
            max == Some(65537usize),
    {
        Some(65537)
    }
}

impl<T: Decodable> Decodable for Vec<T> {
    open spec fn parse(input: Seq<u8>) -> Parsed {
        array_parse::<T>(input)
    }

    open spec fn decoded_from(&self, input: Seq<u8>) -> bool {
        array_decoded_from(self@, input)
    }

    fn decode_value(bf: &mut Bufferfish) -> (r: Result<Vec<T>, BufferfishError>) {
        bf.read_array::<T>()
    }

    fn min_bytes_required() -> (min: Option<usize>)
        ensures
            exists|item: Option<usize>|
                call_ensures(T::min_bytes_required, (), item) && min == #[trigger] sequence_bound(
                    item,
                ),
    {
        sequence_min_bytes(T::min_bytes_required())
    }

    fn max_bytes_allowed() -> (max: Option<usize>)
        ensures
            exists|item: Option<usize>|
                call_ensures(T::max_bytes_allowed, (), item) && max == #[trigger] sequence_bound(
                    item,
                ),
    {
        sequence_max_bytes(T::max_bytes_allowed())
    }
}

impl<T: Decodable> Decodable for Option<T> {
    open spec fn parse(input: Seq<u8>) -> Parsed {
        option_parse::<T>(input)
    }

    open spec fn decoded_from(&self, input: Seq<u8>) -> bool {
        option_decoded_from(*self, input)
    }

    fn decode_value(bf: &mut Bufferfish) -> (r: Result<Option<T>, BufferfishError>) {
        let ghost before = bf@;
        let ghost input = before.unread();
        proof {
            before.lemma_read_number_bound(1);
            lemma_pow256_values();
            if input.len() >= 1 {
                reveal_with_fuel(be_value, 2);
                assert(input.subrange(0, 1).drop_last() =~= Seq::<u8>::empty());
                assert(be_value(input.subrange(0, 1)) == input[0]);
                before.lemma_unread_after_consume(1);
            }
        }
        let flag = match bf.read_u8() {
            Ok(flag) => flag,
            Err(e) => {
                return Err(e);
            },
        };
        if flag == 0 {
            Ok(None)
        } else if flag == 1 {
            match T::decode_value(bf) {
                Ok(inner) => Ok(Some(inner)),
                Err(e) => Err(e),
            }
        } else {
            Err(BufferfishError::InvalidEnumVariant)
        }
    }

    fn min_bytes_required() -> (min: Option<usize>)
        ensures
            min == Some(1usize),
    {
        Some(1)
    }

    fn max_bytes_allowed() -> (max: Option<usize>)
        ensures
            exists|inner: Option<usize>|
                call_ensures(T::max_bytes_allowed, (), inner) && max == #[trigger] optional_max(
                    inner,
                ),
    {
        optional_max_bytes(T::max_bytes_allowed())
    }
}

/// Reads the identifier of a message and holds it against `id`, then
/// decodes the field data of a `T`.
pub fn decode_with_id<T: Decodable>(bf: &mut Bufferfish, id: u16) -> (r: Result<T, BufferfishError>)
    ensures
        decoded(
            old(bf)@,
            final(bf)@,
            message_parse::<T>(Some(id), old(bf)@.unread()),
            match r {
                Ok(v) => Ok(
                    v.decoded_from(
                        old(bf)@.unread().skip(
                            header_parse(Some(id), old(bf)@.unread()).taken as int,
                        ),
                    ),
                ),
                Err(e) => Err(e),
            },
        ),
{
    proof {
        let head = header_parse(Some(id), bf@.unread());
        if head.failure is None {
            bf@.lemma_unread_after_consume(2);
        }
    }
    match bf.read_message_id(id) {
        Ok(()) => T::decode_value(bf),
        Err(e) => Err(e),
    }
}

} // verus!
