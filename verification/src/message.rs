//! Messages as values: a structured value whose type is known only when
//! the program runs, the description of such a type, and the encoding,
//! decoding and size bounds of one by the other.
//!
//! A field value is an integer, a boolean, a string, a sequence of field
//! values, an optional field value, a struct of fields in declaration order,
//! or the selected variant of an enum with its fields. On the wire it is
//! what a type with such fields is: nothing says which field is which but
//! the order.

use crate::bounds::{
    admission, check_admission, struct_max, struct_max_bytes, struct_min, struct_min_bytes,
};
use crate::buffer::Bufferfish;
use crate::decodable::{after_parse, decoded, header_parse, Parsed};
use crate::encodable::{header_steps, lemma_run_concat, lemma_run_one_write, run};
use crate::error::BufferfishError;
use crate::wire::be_bytes;
use vstd::prelude::*;

pub mod conform;
pub mod decode;
pub mod encode;
pub mod laws;
pub mod size;

pub use conform::{all_conform_to, conforms_to, fields_conform_to};
pub use decode::{decode_field, decode_fields, decode_repeated};
pub use encode::{encode_field, encode_fields};
pub use size::{max_bytes, min_bytes};

use decode::{field_decoded_from, field_parse};
use encode::value_steps;
use size::{max_bound, min_bound};

verus! {

/// The type of a field value.
#[derive(Debug, PartialEq, Eq)]
pub enum FieldType {
    /// An unsigned integer of 8 bits.
    U8,
    /// An unsigned integer of 16 bits.
    U16,
    /// An unsigned integer of 32 bits.
    U32,
    /// An unsigned integer of 64 bits.
    U64,
    /// An unsigned integer of 128 bits.
    U128,
    /// A signed integer of 8 bits.
    I8,
    /// A signed integer of 16 bits.
    I16,
    /// A signed integer of 32 bits.
    I32,
    /// A signed integer of 64 bits.
    I64,
    /// A signed integer of 128 bits.
    I128,
    /// A boolean.
    Bool,
    /// A string of UTF-8 text.
    Text,
    /// A sequence of values of one type.
    Sequence(Box<FieldType>),
    /// A value that may be absent.
    Optional(Box<FieldType>),
    /// A struct: the types of its fields in declaration order.
    Struct(Vec<FieldType>),
    /// An enum: for each variant in declaration order, the types of its
    /// fields in declaration order.
    Enum(Vec<Vec<FieldType>>),
}

/// A field value.
#[derive(Debug, PartialEq, Eq)]
pub enum FieldValue {
    /// An unsigned integer of 8 bits.
    U8(u8),
    /// An unsigned integer of 16 bits.
    U16(u16),
    /// An unsigned integer of 32 bits.
    U32(u32),
    /// An unsigned integer of 64 bits.
    U64(u64),
    /// An unsigned integer of 128 bits.
    U128(u128),
    /// A signed integer of 8 bits.
    I8(i8),
    /// A signed integer of 16 bits.
    I16(i16),
    /// A signed integer of 32 bits.
    I32(i32),
    /// A signed integer of 64 bits.
    I64(i64),
    /// A signed integer of 128 bits.
    I128(i128),
    /// A boolean.
    Bool(bool),
    /// A string of UTF-8 text.
    Text(String),
    /// A sequence of values.
    Sequence(Vec<FieldValue>),
    /// A value that may be absent.
    Optional(Option<Box<FieldValue>>),
    /// A struct: the values of its fields in declaration order.
    Struct(Vec<FieldValue>),
    /// An enum: the zero-based declaration index of the selected variant,
    /// and the values of the fields of that variant in declaration order.
    Enum(u8, Vec<FieldValue>),
}

/// The type of a message: a type of value with the message identifier that
/// is written before it, if it has one.
#[derive(Debug, PartialEq, Eq)]
pub struct MessageType {
    /// The fixed identifier of the message, if it has one.
    pub id: Option<u16>,
    /// The type of what the message holds.
    pub body: FieldType,
}

/// The least size of a message: its identifier, if it has one, and the
/// least size of what it holds.
pub open spec fn message_min(ty: MessageType) -> Option<usize> {
    struct_min(ty.id is Some, seq![min_bound(ty.body)])
}

/// The greatest size of a message: its identifier, if it has one, and the
/// greatest size of what it holds.
pub open spec fn message_max(ty: MessageType) -> Option<usize> {
    struct_max(ty.id is Some, seq![max_bound(ty.body)])
}

/// How decoding a message of type `ty` goes: a missing or wrong identifier
/// ends the decoding before any field is read.
pub open spec fn message_value_parse(ty: MessageType, input: Seq<u8>) -> Parsed {
    let head = header_parse(ty.id, input);
    after_parse(head, field_parse(ty.body, input.skip(head.taken as int)))
}

impl MessageType {
    /// Get the minimum number of bytes that a message of this type takes.
    pub fn min_bytes_required(&self) -> (min: Option<usize>)
        ensures
            min == message_min(*self),
    {
        let mut bounds: Vec<Option<usize>> = Vec::new();
        bounds.push(min_bytes(&self.body));
        proof {
            assert(bounds@ =~= seq![min_bound(self.body)]);
        }
        struct_min_bytes(self.id.is_some(), bounds.as_slice())
    }

    /// Get the maximum number of bytes that a message of this type can take.
    pub fn max_bytes_allowed(&self) -> (max: Option<usize>)
        ensures
            max == message_max(*self),
    {
        let mut bounds: Vec<Option<usize>> = Vec::new();
        bounds.push(max_bytes(&self.body));
        proof {
            assert(bounds@ =~= seq![max_bound(self.body)]);
        }
        struct_max_bytes(self.id.is_some(), bounds.as_slice())
    }

    /// Encodes a message of this type: its identifier, if the type has one,
    /// then the field data of `value`. The value is written as it is:
    /// `conforms_to` says whether it is one that this type decodes again.
    pub fn encode(&self, value: &FieldValue, bf: &mut Bufferfish) -> (r: Result<
        (),
        BufferfishError,
    >)
        ensures
            (final(bf)@, r) == run(old(bf)@, header_steps(self.id) + value_steps(*value)),
    {
        match self.id {
            Some(id) => {
                proof {
                    lemma_run_one_write(bf@, be_bytes(id as nat, 2));
                    lemma_run_concat(bf@, header_steps(Some(id)), value_steps(*value));
                }
                match bf.write_message_id(id) {
                    Ok(()) => encode_field(value, bf),
                    Err(e) => Err(e),
                }
            },
            None => {
                proof {
                    assert(header_steps(None) + value_steps(*value) =~= value_steps(*value));
                }
                encode_field(value, bf)
            },
        }
    }

    /// Decodes a message of this type: checks its identifier, if the type
    /// has one, then decodes its field data.
    pub fn decode(&self, bf: &mut Bufferfish) -> (r: Result<FieldValue, BufferfishError>)
        ensures
            decoded(
                old(bf)@,
                final(bf)@,
                message_value_parse(*self, old(bf)@.unread()),
                match r {
                    Ok(value) => Ok(
                        field_decoded_from(
                            value,
                            self.body,
                            old(bf)@.unread().skip(
                                header_parse(self.id, old(bf)@.unread()).taken as int,
                            ),
                        ),
                    ),
                    Err(e) => Err(e),
                },
            ),
    {
        match self.id {
            Some(id) => {
                proof {
                    let head = header_parse(Some(id), bf@.unread());
                    if head.failure is None {
                        bf@.lemma_unread_after_consume(2);
                    }
                }
                match bf.read_message_id(id) {
                    Ok(()) => decode_field(&self.body, bf),
                    Err(e) => Err(e),
                }
            },
            None => {
                proof {
                    assert(bf@.unread().skip(0) =~= bf@.unread());
                }
                decode_field(&self.body, bf)
            },
        }
    }

    /// Decodes a message of this type under admission control: a buffer
    /// whose length is below the least or above the greatest size of such a
    /// message is refused untouched, before any field is decoded.
    pub fn from_bufferfish(&self, bf: &mut Bufferfish) -> (r: Result<FieldValue, BufferfishError>)
        ensures
            match admission(
                old(bf)@.bytes.len() as usize,
                message_min(*self),
                message_max(*self),
            ) {
                Ok(_) => decoded(
                    old(bf)@,
                    final(bf)@,
                    message_value_parse(*self, old(bf)@.unread()),
                    match r {
                        Ok(value) => Ok(
                            field_decoded_from(
                                value,
                                self.body,
                                old(bf)@.unread().skip(
                                    header_parse(self.id, old(bf)@.unread()).taken as int,
                                ),
                            ),
                        ),
                        Err(e) => Err(e),
                    },
                ),
                Err(e) => final(bf)@ == old(bf)@ && r is Err && r->Err_0 == e,
            },
    {
        match check_admission(bf.len(), self.min_bytes_required(), self.max_bytes_allowed()) {
            Ok(()) => self.decode(bf),
            Err(e) => Err(e),
        }
    }
}

} // verus!
