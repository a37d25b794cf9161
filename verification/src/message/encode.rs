//! The encoding of field values.

use crate::buffer::Bufferfish;
use crate::encodable::{
    lemma_run_concat, lemma_run_one_write, lemma_write_string_is_run, run, text_steps, Encodable,
    Step,
};
use crate::error::BufferfishError;
use crate::message::FieldValue;
use crate::wire::{be_bytes, twos_complement};
use vstd::prelude::*;

verus! {

/// The steps that write the field data of a value.
pub open spec fn value_steps(value: FieldValue) -> Seq<Step>
    decreases value, 0nat,
{
    match value {
        FieldValue::U8(v) => seq![Step::Write(be_bytes(v as nat, 1))],
        FieldValue::U16(v) => seq![Step::Write(be_bytes(v as nat, 2))],
        FieldValue::U32(v) => seq![Step::Write(be_bytes(v as nat, 4))],
        FieldValue::U64(v) => seq![Step::Write(be_bytes(v as nat, 8))],
        FieldValue::U128(v) => seq![Step::Write(be_bytes(v as nat, 16))],
        FieldValue::I8(v) => seq![Step::Write(be_bytes(twos_complement(v as int, 1), 1))],
        FieldValue::I16(v) => seq![Step::Write(be_bytes(twos_complement(v as int, 2), 2))],
        FieldValue::I32(v) => seq![Step::Write(be_bytes(twos_complement(v as int, 4), 4))],
        FieldValue::I64(v) => seq![Step::Write(be_bytes(twos_complement(v as int, 8), 8))],
        FieldValue::I128(v) => seq![Step::Write(be_bytes(twos_complement(v as int, 16), 16))],
        FieldValue::Bool(v) => seq![Step::Write(seq![if v {
            1u8
        } else {
            0u8
        }])],
        FieldValue::Text(text) => text_steps(text@),
        FieldValue::Sequence(items) => seq![Step::Write(be_bytes(items@.len() % 65536, 2))]
            + values_steps(items@, items@.len()),
        FieldValue::Optional(Some(inner)) => seq![Step::Write(seq![1u8])] + value_steps(*inner),
        FieldValue::Optional(None) => seq![Step::Write(seq![0u8])],
        FieldValue::Struct(fields) => values_steps(fields@, fields@.len()),
        FieldValue::Enum(variant, fields) => seq![Step::Write(seq![variant])] + values_steps(
            fields@,
            fields@.len(),
        ),
    }
}

/// The steps that write the field data of the first `upto` of some values,
/// one value after the other.
pub open spec fn values_steps(values: Seq<FieldValue>, upto: nat) -> Seq<Step>
    decreases values, upto,
{
    if upto == 0 || upto > values.len() {
        Seq::empty()
    } else {
        values_steps(values, (upto - 1) as nat) + value_steps(values[upto - 1])
    }
}

/// The steps that write the field data of the values from index `from` on.
pub open spec fn values_steps_from(values: Seq<FieldValue>, from: nat) -> Seq<Step>
    decreases values.len() - from,
{
    if from >= values.len() {
        Seq::empty()
    } else {
        value_steps(values[from as int]) + values_steps_from(values, from + 1)
    }
}

/// The steps of some values are those of the first `k`, then those of the
/// rest.
pub proof fn lemma_values_steps_split(values: Seq<FieldValue>, k: nat)
    requires
        k <= values.len(),
    ensures
        values_steps(values, values.len()) == values_steps(values, k) + values_steps_from(
            values,
            k,
        ),
    decreases values.len() - k,
{
    if k < values.len() {
        lemma_values_steps_split(values, k + 1);
        assert(values_steps(values, k + 1) =~= values_steps(values, k) + value_steps(
            values[k as int],
        ));
        assert(values_steps(values, k) + values_steps_from(values, k) =~= values_steps(
            values,
            k + 1,
        ) + values_steps_from(values, k + 1));
    } else {
        assert(values_steps(values, k) + values_steps_from(values, k) =~= values_steps(values, k));
    }
}

/// Writes the field data of a value: an integer in big-endian bytes, a
/// boolean as one byte, a string behind its length, a sequence behind the
/// count of its items, an optional value behind a presence byte, the fields
/// of a struct in order, and the fields of a variant behind its index.
pub fn encode_field(value: &FieldValue, bf: &mut Bufferfish) -> (r: Result<(), BufferfishError>)
    ensures
        (final(bf)@, r) == run(old(bf)@, value_steps(*value)),
    decreases value,
{
    match value {
        FieldValue::U8(v) => {
            proof {
                lemma_run_one_write(bf@, be_bytes(*v as nat, 1));
            }
            bf.write_u8(*v)
        },
        FieldValue::U16(v) => {
            proof {
                lemma_run_one_write(bf@, be_bytes(*v as nat, 2));
            }
            bf.write_u16(*v)
        },
        FieldValue::U32(v) => {
            proof {
                lemma_run_one_write(bf@, be_bytes(*v as nat, 4));
            }
            bf.write_u32(*v)
        },
        FieldValue::U64(v) => {
            proof {
                lemma_run_one_write(bf@, be_bytes(*v as nat, 8));
            }
            bf.write_u64(*v)
        },
        FieldValue::U128(v) => {
            proof {
                lemma_run_one_write(bf@, be_bytes(*v as nat, 16));
            }
            bf.write_u128(*v)
        },
        FieldValue::I8(v) => {
            proof {
                lemma_run_one_write(bf@, be_bytes(twos_complement(*v as int, 1), 1));
            }
            bf.write_i8(*v)
        },
        FieldValue::I16(v) => {
            proof {
                lemma_run_one_write(bf@, be_bytes(twos_complement(*v as int, 2), 2));
            }
            bf.write_i16(*v)
        },
        FieldValue::I32(v) => {
            proof {
                lemma_run_one_write(bf@, be_bytes(twos_complement(*v as int, 4), 4));
            }
            bf.write_i32(*v)
        },
        FieldValue::I64(v) => {
            proof {
                lemma_run_one_write(bf@, be_bytes(twos_complement(*v as int, 8), 8));
            }
            bf.write_i64(*v)
        },
        FieldValue::I128(v) => {
            proof {
                lemma_run_one_write(bf@, be_bytes(twos_complement(*v as int, 16), 16));
            }
            bf.write_i128(*v)
        },
        FieldValue::Bool(v) => {
            proof {
                lemma_run_one_write(bf@, seq![if *v {
                    1u8
                } else {
                    0u8
                }]);
            }
            bf.write_bool(*v)
        },
        FieldValue::Text(text) => {
            proof {
                lemma_write_string_is_run(bf@, text@);
            }
            bf.write_string(text.as_str())
        },
        FieldValue::Sequence(items) => {
            proof {
                let header = be_bytes(items@.len() % 65536, 2);
                lemma_run_one_write(bf@, header);
                lemma_run_concat(
                    bf@,
                    seq![Step::Write(header)],
                    values_steps(items@, items@.len()),
                );
            }
            match bf.write_u16((items.len() % 65536) as u16) {
                Ok(()) => encode_fields(items, bf),
                Err(e) => Err(e),
            }
        },
        FieldValue::Optional(Some(inner)) => {
            proof {
                reveal_with_fuel(be_bytes, 2);
                assert(be_bytes(1, 1) =~= seq![1u8]);
                lemma_run_one_write(bf@, seq![1u8]);
                lemma_run_concat(bf@, seq![Step::Write(seq![1u8])], value_steps(**inner));
            }
            match bf.write_u8(1) {
                Ok(()) => encode_field(inner, bf),
                Err(e) => Err(e),
            }
        },
        FieldValue::Optional(None) => {
            proof {
                reveal_with_fuel(be_bytes, 2);
                assert(be_bytes(0, 1) =~= seq![0u8]);
                lemma_run_one_write(bf@, seq![0u8]);
            }
            bf.write_u8(0)
        },
        FieldValue::Struct(fields) => encode_fields(fields, bf),
        FieldValue::Enum(variant, fields) => {
            proof {
                reveal_with_fuel(be_bytes, 2);
                assert(be_bytes(*variant as nat, 1) =~= seq![*variant]);
                lemma_run_one_write(bf@, seq![*variant]);
                lemma_run_concat(
                    bf@,
                    seq![Step::Write(seq![*variant])],
                    values_steps(fields@, fields@.len()),
                );
            }
            match bf.write_u8(*variant) {
                Ok(()) => encode_fields(fields, bf),
                Err(e) => Err(e),
            }
        },
    }
}

/// Writes the field data of some values, one value after the other.
pub fn encode_fields(values: &Vec<FieldValue>, bf: &mut Bufferfish) -> (r: Result<
    (),
    BufferfishError,
>)
    ensures
        (final(bf)@, r) == run(old(bf)@, values_steps(values@, values@.len())),
    decreases values,
{
    let ghost start = bf@;
    let mut at: usize = 0;
    while at < values.len()
        invariant
            at <= values@.len(),
            start == old(bf)@,
            run(start, values_steps(values@, at as nat)).0 == bf@,
            run(start, values_steps(values@, at as nat)).1 is Ok,
        decreases values@.len() - at,
    {
        proof {
            lemma_run_concat(
                start,
                values_steps(values@, at as nat),
                value_steps(values@[at as int]),
            );
            lemma_values_steps_split(values@, (at + 1) as nat);
            lemma_run_concat(
                start,
                values_steps(values@, (at + 1) as nat),
                values_steps_from(values@, (at + 1) as nat),
            );
        }
        match encode_field(&values[at], bf) {
            Ok(()) => {},
            Err(e) => {
                return Err(e);
            },
        }
        at = at + 1;
    }
    proof {
        assert(run(start, values_steps(values@, values@.len())).1->Ok_0 == ());
    }
    Ok(())
}

impl Encodable for FieldValue {
    open spec fn steps(&self) -> Seq<Step> {
        value_steps(*self)
    }

    fn encode_value(&self, bf: &mut Bufferfish) -> (r: Result<(), BufferfishError>) {
        encode_field(self, bf)
    }
}

} // verus!
