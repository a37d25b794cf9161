//! The Rust source of the `Encodable` and `Decodable` implementations of a
//! struct or an enum, written from its definition.
//!
//! The implementations only say in which order the fields go; every rule
//! of the wire format and of the size bounds is a call into this library.

use crate::text::{decimal, decimal_text};
use vstd::prelude::*;
use vstd::string::StringExecFns;

verus! {

/// A named field of a struct or a variant.
#[derive(Debug, PartialEq, Eq)]
pub struct RustField {
    /// The name of the field.
    pub name: String,
    /// The type of the field, as it is written in the source.
    pub ty: String,
}

/// The fields of a struct or of a variant of an enum.
#[derive(Debug, PartialEq, Eq)]
pub enum RustFields {
    /// Fields with names, in declaration order.
    Named(Vec<RustField>),
    /// The types of fields without names, in declaration order.
    Unnamed(Vec<String>),
    /// No fields at all.
    Unit,
}

/// A variant of an enum.
#[derive(Debug, PartialEq, Eq)]
pub struct RustVariant {
    /// The name of the variant.
    pub name: String,
    /// Its fields.
    pub fields: RustFields,
}

/// What a type definition holds.
#[derive(Debug, PartialEq, Eq)]
pub enum RustBody {
    /// The fields of a struct.
    Struct(RustFields),
    /// The variants of an enum in declaration order.
    Enum(Vec<RustVariant>),
}

/// The definition of a struct or an enum.
#[derive(Debug, PartialEq, Eq)]
pub struct RustType {
    /// The name of the type.
    pub name: String,
    /// The expression that gives the identifier of the message, as it is
    /// written in the source, if the type has one.
    pub message_id: Option<String>,
    /// Its fields or variants.
    pub body: RustBody,
}

/// The most variants that an enum can have: as many as one byte can tell
/// apart.
pub const MAX_VARIANTS: usize = 256;

/// The name that the field at index `i` of a tuple variant is bound to.
pub open spec fn binding_text(i: nat) -> Seq<char> {
    "f"@ + decimal_text(i)
}

/// The statement that encodes the value at a place.
pub open spec fn encode_call_text(indent: Seq<char>, place: Seq<char>) -> Seq<char> {
    indent + "bufferfish::Encodable::encode_value("@ + place + ", bf)?;\n"@
}

/// The statements that encode the first `upto` named fields of `self`.
pub open spec fn named_encoders_text(fields: Seq<RustField>, upto: nat) -> Seq<char>
    decreases upto,
{
    if upto == 0 || upto > fields.len() {
        Seq::empty()
    } else {
        named_encoders_text(fields, (upto - 1) as nat) + encode_call_text(
            "        "@,
            "&self."@ + fields[upto - 1].name@,
        )
    }
}

/// The statements that encode the first `upto` unnamed fields of `self`.
pub open spec fn unnamed_encoders_text(upto: nat) -> Seq<char>
    decreases upto,
{
    if upto == 0 {
        Seq::empty()
    } else {
        unnamed_encoders_text((upto - 1) as nat) + encode_call_text(
            "        "@,
            "&self."@ + decimal_text((upto - 1) as nat),
        )
    }
}

/// The statements that encode the fields of a struct in declaration order.
pub open spec fn struct_encoders_text(fields: RustFields) -> Seq<char> {
    match fields {
        RustFields::Named(fields) => named_encoders_text(fields@, fields@.len()),
        RustFields::Unnamed(fields) => unnamed_encoders_text(fields@.len()),
        RustFields::Unit => Seq::empty(),
    }
}

/// The names of the first `upto` named fields, with commas between them.
pub open spec fn named_bindings_text(fields: Seq<RustField>, upto: nat) -> Seq<char>
    decreases upto,
{
    if upto == 0 || upto > fields.len() {
        Seq::empty()
    } else if upto == 1 {
        fields[0].name@
    } else {
        named_bindings_text(fields, (upto - 1) as nat) + ", "@ + fields[upto - 1].name@
    }
}

/// The names that the first `upto` unnamed fields are bound to, with commas
/// between them.
pub open spec fn unnamed_bindings_text(upto: nat) -> Seq<char>
    decreases upto,
{
    if upto == 0 {
        Seq::empty()
    } else if upto == 1 {
        binding_text(0)
    } else {
        unnamed_bindings_text((upto - 1) as nat) + ", "@ + binding_text((upto - 1) as nat)
    }
}

/// The pattern that matches a variant and binds its fields.
pub open spec fn variant_pattern_text(name: Seq<char>, variant: RustVariant) -> Seq<char> {
    let path = name + "::"@ + variant.name@;
    match variant.fields {
        RustFields::Named(fields) => path + " { "@ + named_bindings_text(fields@, fields@.len())
            + " }"@,
        RustFields::Unnamed(fields) => path + "("@ + unnamed_bindings_text(fields@.len()) + ")"@,
        RustFields::Unit => path,
    }
}

/// The statements that encode the first `upto` bound named fields.
pub open spec fn bound_named_encoders_text(fields: Seq<RustField>, upto: nat) -> Seq<char>
    decreases upto,
{
    if upto == 0 || upto > fields.len() {
        Seq::empty()
    } else {
        bound_named_encoders_text(fields, (upto - 1) as nat) + encode_call_text(
            "                "@,
            fields[upto - 1].name@,
        )
    }
}

/// The statements that encode the first `upto` bound unnamed fields.
pub open spec fn bound_unnamed_encoders_text(upto: nat) -> Seq<char>
    decreases upto,
{
    if upto == 0 {
        Seq::empty()
    } else {
        bound_unnamed_encoders_text((upto - 1) as nat) + encode_call_text(
            "                "@,
            binding_text((upto - 1) as nat),
        )
    }
}

/// The statements that encode the bound fields of a variant.
pub open spec fn variant_encoders_text(fields: RustFields) -> Seq<char> {
    match fields {
        RustFields::Named(fields) => bound_named_encoders_text(fields@, fields@.len()),
        RustFields::Unnamed(fields) => bound_unnamed_encoders_text(fields@.len()),
        RustFields::Unit => Seq::empty(),
    }
}

/// The arm that encodes the variant at index `i`: its index, then its
/// fields in declaration order.
pub open spec fn encoder_arm_text(name: Seq<char>, variant: RustVariant, i: nat) -> Seq<char> {
    "            "@ + variant_pattern_text(name, variant) + " => {\n"@
        + "                bf.write_variant_index("@ + decimal_text(i) + ")?;\n"@
        + variant_encoders_text(variant.fields) + "            }\n"@
}

/// The arms that encode the first `upto` variants.
pub open spec fn encoder_arms_text(name: Seq<char>, variants: Seq<RustVariant>, upto: nat) -> Seq<
    char,
>
    decreases upto,
{
    if upto == 0 || upto > variants.len() {
        Seq::empty()
    } else {
        encoder_arms_text(name, variants, (upto - 1) as nat) + encoder_arm_text(
            name,
            variants[upto - 1],
            (upto - 1) as nat,
        )
    }
}

/// The statements that encode the field data of a value of a type.
pub open spec fn encoders_text(def: RustType) -> Seq<char> {
    match def.body {
        RustBody::Struct(fields) => struct_encoders_text(fields),
        RustBody::Enum(variants) => "        match self {\n"@ + encoder_arms_text(
            def.name@,
            variants@,
            variants@.len(),
        ) + "        }\n"@,
    }
}

/// The method that encodes a message with its identifier; nothing for a
/// type without one.
pub open spec fn encode_method_text(message_id: Option<String>) -> Seq<char> {
    match message_id {
        Some(id) =>
            "\n    fn encode(&self, bf: &mut bufferfish::Bufferfish) -> Result<(), bufferfish::BufferfishError> {\n"@
                + "        bufferfish::encode_with_id(self, u16::from("@ + id@ + "), bf)\n"@
                + "    }\n"@,
        None => Seq::empty(),
    }
}

/// The method that encodes the field data of a value of a type.
pub open spec fn encode_value_method_text(def: RustType) -> Seq<char> {
    "    fn encode_value(&self, bf: &mut bufferfish::Bufferfish) -> Result<(), bufferfish::BufferfishError> {\n"@
        + encoders_text(def) + "        Ok(())\n"@ + "    }\n"@
}

/// The implementation of `Encodable` for a type.
pub open spec fn encodable_text(def: RustType) -> Seq<char> {
    "impl bufferfish::Encodable for "@ + def.name@ + " {\n"@ + encode_value_method_text(def)
        + encode_method_text(def.message_id) + "}\n"@
}

/// The expression that decodes a value of a type.
pub open spec fn decode_call_text(ty: Seq<char>) -> Seq<char> {
    "<"@ + ty + " as bufferfish::Decodable>::decode_value(bf)?"@
}

/// The initializers of the first `upto` named fields, each decoded in
/// declaration order.
pub open spec fn named_decoders_text(fields: Seq<RustField>, upto: nat) -> Seq<char>
    decreases upto,
{
    if upto == 0 || upto > fields.len() {
        Seq::empty()
    } else {
        named_decoders_text(fields, (upto - 1) as nat) + fields[upto - 1].name@ + ": "@
            + decode_call_text(fields[upto - 1].ty@) + ", "@
    }
}

/// The first `upto` unnamed fields, each decoded in declaration order.
pub open spec fn unnamed_decoders_text(fields: Seq<String>, upto: nat) -> Seq<char>
    decreases upto,
{
    if upto == 0 || upto > fields.len() {
        Seq::empty()
    } else {
        unnamed_decoders_text(fields, (upto - 1) as nat) + decode_call_text(fields[upto - 1]@)
            + ", "@
    }
}

/// What follows the name of a struct or a variant to make a value of it
/// from decoded fields.
pub open spec fn construction_text(fields: RustFields, unit: Seq<char>) -> Seq<char> {
    match fields {
        RustFields::Named(fields) => " { "@ + named_decoders_text(fields@, fields@.len())
            + "}"@,
        RustFields::Unnamed(fields) => "("@ + unnamed_decoders_text(fields@, fields@.len())
            + ")"@,
        RustFields::Unit => unit,
    }
}

/// The arm that decodes the variant at index `i`.
pub open spec fn decoder_arm_text(variant: RustVariant, i: nat) -> Seq<char> {
    "            "@ + decimal_text(i) + " => Ok(Self::"@ + variant.name@ + construction_text(
        variant.fields,
        Seq::empty(),
    ) + "),\n"@
}

/// The arms that decode the first `upto` variants.
pub open spec fn decoder_arms_text(variants: Seq<RustVariant>, upto: nat) -> Seq<char>
    decreases upto,
{
    if upto == 0 || upto > variants.len() {
        Seq::empty()
    } else {
        decoder_arms_text(variants, (upto - 1) as nat) + decoder_arm_text(
            variants[upto - 1],
            (upto - 1) as nat,
        )
    }
}

/// The statements that decode the field data of a value of a type.
pub open spec fn decoders_text(def: RustType) -> Seq<char> {
    match def.body {
        RustBody::Struct(fields) => "        Ok(Self"@ + construction_text(fields, " {}"@)
            + ")\n"@,
        RustBody::Enum(variants) => "        let variant_idx = bf.read_variant_index("@
            + decimal_text(variants@.len()) + ")?;\n"@ + "        match variant_idx {\n"@
            + decoder_arms_text(variants@, variants@.len())
            + "            _ => Err(bufferfish::BufferfishError::InvalidEnumVariant),\n"@
            + "        }\n"@,
    }
}

/// The method that decodes a message with its identifier; nothing for a
/// type without one.
pub open spec fn decode_method_text(message_id: Option<String>) -> Seq<char> {
    match message_id {
        Some(id) =>
            "    fn decode(bf: &mut bufferfish::Bufferfish) -> Result<Self, bufferfish::BufferfishError> {\n"@
                + "        bufferfish::decode_with_id(bf, u16::from("@ + id@ + "))\n"@
                + "    }\n\n"@,
        None => Seq::empty(),
    }
}

/// The call that asks a type for one of its bounds.
pub open spec fn bound_call_text(ty: Seq<char>, method: Seq<char>) -> Seq<char> {
    "<"@ + ty + " as bufferfish::Decodable>::"@ + method + "(), "@
}

/// The bounds of the first `upto` named fields, each asked of the type of
/// the field.
pub open spec fn named_bounds_text(fields: Seq<RustField>, method: Seq<char>, upto: nat) -> Seq<
    char,
>
    decreases upto,
{
    if upto == 0 || upto > fields.len() {
        Seq::empty()
    } else {
        named_bounds_text(fields, method, (upto - 1) as nat) + bound_call_text(
            fields[upto - 1].ty@,
            method,
        )
    }
}

/// The bounds of the first `upto` unnamed fields, each asked of the type
/// of the field.
pub open spec fn unnamed_bounds_text(fields: Seq<String>, method: Seq<char>, upto: nat) -> Seq<
    char,
>
    decreases upto,
{
    if upto == 0 || upto > fields.len() {
        Seq::empty()
    } else {
        unnamed_bounds_text(fields, method, (upto - 1) as nat) + bound_call_text(
            fields[upto - 1]@,
            method,
        )
    }
}

/// The array of the bounds of some fields.
pub open spec fn bounds_text(fields: RustFields, method: Seq<char>) -> Seq<char> {
    match fields {
        RustFields::Named(fields) => "&["@ + named_bounds_text(fields@, method, fields@.len())
            + "]"@,
        RustFields::Unnamed(fields) => "&["@ + unnamed_bounds_text(
            fields@,
            method,
            fields@.len(),
        ) + "]"@,
        RustFields::Unit => "&[]"@,
    }
}

/// The field sums of the first `upto` variants.
pub open spec fn variant_sums_text(
    variants: Seq<RustVariant>,
    sum: Seq<char>,
    method: Seq<char>,
    upto: nat,
) -> Seq<char>
    decreases upto,
{
    if upto == 0 || upto > variants.len() {
        Seq::empty()
    } else {
        variant_sums_text(variants, sum, method, (upto - 1) as nat) + "bufferfish::bounds::"@
            + sum + "("@ + bounds_text(variants[upto - 1].fields, method) + "), "@
    }
}

/// `true` or `false` in words.
pub open spec fn flag_text(flag: bool) -> Seq<char> {
    if flag {
        "true"@
    } else {
        "false"@
    }
}

/// The name of the method that gives a bound of a type: the least size if
/// `least`, else the greatest.
pub open spec fn bound_method_text(least: bool) -> Seq<char> {
    if least {
        "min_bytes_required"@
    } else {
        "max_bytes_allowed"@
    }
}

/// The expression that computes a bound of a struct from the bounds of its
/// fields.
pub open spec fn struct_size_text(
    fields: RustFields,
    has_id: Seq<char>,
    function: Seq<char>,
    method: Seq<char>,
) -> Seq<char> {
    "bufferfish::bounds::"@ + function + "("@ + has_id + ", "@ + bounds_text(fields, method)
        + ")"@
}

/// The expression that computes a bound of an enum from the field sums of
/// its variants.
pub open spec fn enum_size_text(
    variants: Seq<RustVariant>,
    has_id: Seq<char>,
    function: Seq<char>,
    sum: Seq<char>,
    method: Seq<char>,
) -> Seq<char> {
    "bufferfish::bounds::"@ + function + "("@ + has_id + ", &["@ + variant_sums_text(
        variants,
        sum,
        method,
        variants.len(),
    ) + "])"@
}

/// The expression that computes a bound of a type: of the least size if
/// `least`, else of the greatest.
pub open spec fn size_logic_text(def: RustType, least: bool) -> Seq<char> {
    match def.body {
        RustBody::Struct(fields) => struct_size_text(
            fields,
            flag_text(def.message_id is Some),
            if least {
                "struct_min_bytes"@
            } else {
                "struct_max_bytes"@
            },
            bound_method_text(least),
        ),
        RustBody::Enum(variants) => enum_size_text(
            variants@,
            flag_text(def.message_id is Some),
            if least {
                "enum_min_bytes"@
            } else {
                "enum_max_bytes"@
            },
            if least {
                "fields_min_bytes"@
            } else {
                "fields_max_bytes"@
            },
            bound_method_text(least),
        ),
    }
}

/// The method that computes a bound of a type: of the least size if
/// `least`, else of the greatest.
pub open spec fn size_method_text(def: RustType, least: bool) -> Seq<char> {
    (if least {
        "    fn min_bytes_required() -> Option<usize> {\n"@
    } else {
        "    fn max_bytes_allowed() -> Option<usize> {\n"@
    }) + "        "@ + size_logic_text(def, least) + "\n"@ + "    }\n"@
}

/// The method that decodes the field data of a value of a type.
pub open spec fn decode_value_method_text(def: RustType) -> Seq<char> {
    "    fn decode_value(bf: &mut bufferfish::Bufferfish) -> Result<Self, bufferfish::BufferfishError> {\n"@
        + decoders_text(def) + "    }\n"@
}

/// The implementation of `Decodable` for a type.
pub open spec fn decodable_text(def: RustType) -> Seq<char> {
    "impl bufferfish::Decodable for "@ + def.name@ + " {\n"@ + decode_method_text(def.message_id)
        + decode_value_method_text(def) + "\n"@ + size_method_text(def, true) + "\n"@
        + size_method_text(def, false) + "}\n"@
}

/// Whether a type has no more variants than one byte can tell apart.
pub open spec fn within_variant_limit(def: RustType) -> bool {
    def.body matches RustBody::Enum(variants) ==> variants@.len() <= MAX_VARIANTS
}

/// Puts a text behind another.
fn put(text: &mut String, more: &str)
    ensures
        final(text)@ == old(text)@ + more@,
{
    text.append(more);
}

/// Puts the statement that encodes the value at a place behind a text.
fn put_encode_call(text: &mut String, indent: &str, place: &str)
    ensures
        final(text)@ == old(text)@ + encode_call_text(indent@, place@),
{
    let ghost before = text@;
    put(text, indent);
    put(text, "bufferfish::Encodable::encode_value(");
    put(text, place);
    put(text, ", bf)?;\n");
    proof {
        assert(text@ =~= before + encode_call_text(indent@, place@));
    }
}

/// The name that the field at index `i` of a tuple variant is bound to.
fn binding(i: usize) -> (name: String)
    ensures
        name@ == binding_text(i as nat),
{
    let mut name = String::from_str("f");
    put(&mut name, decimal(i).as_str());
    name
}

/// Writes the statements that encode the fields of a struct in declaration
/// order.
pub fn generate_struct_field_encoders(fields: &RustFields, out: &mut String)
    ensures
        final(out)@ == old(out)@ + struct_encoders_text(*fields),
{
    let ghost before = out@;
    match fields {
        RustFields::Named(fields) => {
            let mut at: usize = 0;
            while at < fields.len()
                invariant
                    at <= fields@.len(),
                    out@ == before + named_encoders_text(fields@, at as nat),
                decreases fields@.len() - at,
            {
                let mut place = String::from_str("&self.");
                put(&mut place, fields[at].name.as_str());
                put_encode_call(out, "        ", place.as_str());
                proof {
                    assert(out@ =~= before + named_encoders_text(fields@, (at + 1) as nat));
                }
                at = at + 1;
            }
        },
        RustFields::Unnamed(fields) => {
            let mut at: usize = 0;
            while at < fields.len()
                invariant
                    at <= fields@.len(),
                    out@ == before + unnamed_encoders_text(at as nat),
                decreases fields@.len() - at,
            {
                let mut place = String::from_str("&self.");
                put(&mut place, decimal(at).as_str());
                put_encode_call(out, "        ", place.as_str());
                proof {
                    assert(out@ =~= before + unnamed_encoders_text((at + 1) as nat));
                }
                at = at + 1;
            }
        },
        RustFields::Unit => {
            proof {
                assert(before + struct_encoders_text(*fields) =~= before);
            }
        },
    }
}

/// Writes the pattern that matches a variant and binds its fields.
fn put_variant_pattern(out: &mut String, name: &str, variant: &RustVariant)
    ensures
        final(out)@ == old(out)@ + variant_pattern_text(name@, *variant),
{
    let ghost before = out@;
    put(out, name);
    put(out, "::");
    put(out, variant.name.as_str());
    let ghost path = out@;
    match &variant.fields {
        RustFields::Named(fields) => {
            put(out, " { ");
            let ghost head = out@;
            let mut at: usize = 0;
            while at < fields.len()
                invariant
                    at <= fields@.len(),
                    out@ == head + named_bindings_text(fields@, at as nat),
                decreases fields@.len() - at,
            {
                if at > 0 {
                    put(out, ", ");
                }
                put(out, fields[at].name.as_str());
                proof {
                    assert(out@ =~= head + named_bindings_text(fields@, (at + 1) as nat));
                }
                at = at + 1;
            }
            put(out, " }");
        },
        RustFields::Unnamed(fields) => {
            put(out, "(");
            let ghost head = out@;
            let mut at: usize = 0;
            while at < fields.len()
                invariant
                    at <= fields@.len(),
                    out@ == head + unnamed_bindings_text(at as nat),
                decreases fields@.len() - at,
            {
                if at > 0 {
                    put(out, ", ");
                }
                put(out, binding(at).as_str());
                proof {
                    assert(out@ =~= head + unnamed_bindings_text((at + 1) as nat));
                }
                at = at + 1;
            }
            put(out, ")");
        },
        RustFields::Unit => {},
    }
    proof {
        assert(out@ =~= before + variant_pattern_text(name@, *variant));
    }
}

/// Writes the statements that encode the bound fields of a variant.
fn put_variant_encoders(out: &mut String, fields: &RustFields)
    ensures
        final(out)@ == old(out)@ + variant_encoders_text(*fields),
{
    let ghost before = out@;
    match fields {
        RustFields::Named(fields) => {
            let mut at: usize = 0;
            while at < fields.len()
                invariant
                    at <= fields@.len(),
                    out@ == before + bound_named_encoders_text(fields@, at as nat),
                decreases fields@.len() - at,
            {
                put_encode_call(out, "                ", fields[at].name.as_str());
                proof {
                    assert(out@ =~= before + bound_named_encoders_text(fields@, (at + 1) as nat));
                }
                at = at + 1;
            }
        },
        RustFields::Unnamed(fields) => {
            let mut at: usize = 0;
            while at < fields.len()
                invariant
                    at <= fields@.len(),
                    out@ == before + bound_unnamed_encoders_text(at as nat),
                decreases fields@.len() - at,
            {
                put_encode_call(out, "                ", binding(at).as_str());
                proof {
                    assert(out@ =~= before + bound_unnamed_encoders_text((at + 1) as nat));
                }
                at = at + 1;
            }
        },
        RustFields::Unit => {
            proof {
                assert(before + variant_encoders_text(*fields) =~= before);
            }
        },
    }
}

/// Writes the match that encodes the selected variant of an enum: its
/// zero-based declaration index, then its fields in declaration order.
pub fn generate_enum_variant_encoders(name: &str, variants: &Vec<RustVariant>, out: &mut String)
    ensures
        final(out)@ == old(out)@ + "        match self {\n"@ + encoder_arms_text(
            name@,
            variants@,
            variants@.len(),
        ) + "        }\n"@,
{
    put(out, "        match self {\n");
    let ghost head = out@;
    let mut at: usize = 0;
    while at < variants.len()
        invariant
            at <= variants@.len(),
            out@ == head + encoder_arms_text(name@, variants@, at as nat),
        decreases variants@.len() - at,
    {
        put(out, "            ");
        put_variant_pattern(out, name, &variants[at]);
        put(out, " => {\n");
        put(out, "                bf.write_variant_index(");
        put(out, decimal(at).as_str());
        put(out, ")?;\n");
        put_variant_encoders(out, &variants[at].fields);
        put(out, "            }\n");
        proof {
            assert(out@ =~= head + encoder_arms_text(name@, variants@, (at + 1) as nat));
        }
        at = at + 1;
    }
    put(out, "        }\n");
}

/// Writes the method that encodes the field data of a value of a type.
fn put_encode_value_method(out: &mut String, def: &RustType)
    ensures
        final(out)@ == old(out)@ + encode_value_method_text(*def),
{
    let ghost before = out@;
    put(
        out,
        "    fn encode_value(&self, bf: &mut bufferfish::Bufferfish) -> Result<(), bufferfish::BufferfishError> {\n",
    );
    match &def.body {
        RustBody::Struct(fields) => {
            generate_struct_field_encoders(fields, out);
        },
        RustBody::Enum(variants) => {
            generate_enum_variant_encoders(def.name.as_str(), variants, out);
        },
    }
    put(out, "        Ok(())\n");
    put(out, "    }\n");
    proof {
        assert(out@ =~= before + encode_value_method_text(*def));
    }
}

/// Writes the method that encodes a message with its identifier; nothing
/// for a type without one.
fn put_encode_method(out: &mut String, message_id: &Option<String>)
    ensures
        final(out)@ == old(out)@ + encode_method_text(*message_id),
{
    let ghost before = out@;
    match message_id {
        Some(id) => {
            put(
                out,
                "\n    fn encode(&self, bf: &mut bufferfish::Bufferfish) -> Result<(), bufferfish::BufferfishError> {\n",
            );
            put(out, "        bufferfish::encode_with_id(self, u16::from(");
            put(out, id.as_str());
            put(out, "), bf)\n");
            put(out, "    }\n");
        },
        None => {},
    }
    proof {
        assert(out@ =~= before + encode_method_text(*message_id));
    }
}

/// The Rust source of the implementation of `Encodable` for a type.
pub fn bufferfish_impl_encodable(def: &RustType) -> (source: String)
    ensures
        source@ == encodable_text(*def),
{
    let mut out = String::from_str("impl bufferfish::Encodable for ");
    put(&mut out, def.name.as_str());
    put(&mut out, " {\n");
    put_encode_value_method(&mut out, def);
    put_encode_method(&mut out, &def.message_id);
    put(&mut out, "}\n");
    proof {
        assert(out@ =~= encodable_text(*def));
    }
    out
}

/// Writes the expression that decodes a value of a type.
fn put_decode_call(out: &mut String, ty: &str)
    ensures
        final(out)@ == old(out)@ + decode_call_text(ty@),
{
    let ghost before = out@;
    put(out, "<");
    put(out, ty);
    put(out, " as bufferfish::Decodable>::decode_value(bf)?");
    proof {
        assert(out@ =~= before + decode_call_text(ty@));
    }
}

/// Writes what follows the name of a struct or a variant to make a value
/// of it: each field decoded in declaration order.
pub fn generate_struct_field_decoders(fields: &RustFields, unit: &str, out: &mut String)
    ensures
        final(out)@ == old(out)@ + construction_text(*fields, unit@),
{
    let ghost before = out@;
    match fields {
        RustFields::Named(fields) => {
            put(out, " { ");
            let ghost head = out@;
            let mut at: usize = 0;
            while at < fields.len()
                invariant
                    at <= fields@.len(),
                    out@ == head + named_decoders_text(fields@, at as nat),
                decreases fields@.len() - at,
            {
                put(out, fields[at].name.as_str());
                put(out, ": ");
                put_decode_call(out, fields[at].ty.as_str());
                put(out, ", ");
                proof {
                    assert(out@ =~= head + named_decoders_text(fields@, (at + 1) as nat));
                }
                at = at + 1;
            }
            put(out, "}");
        },
        RustFields::Unnamed(fields) => {
            put(out, "(");
            let ghost head = out@;
            let mut at: usize = 0;
            while at < fields.len()
                invariant
                    at <= fields@.len(),
                    out@ == head + unnamed_decoders_text(fields@, at as nat),
                decreases fields@.len() - at,
            {
                put_decode_call(out, fields[at].as_str());
                put(out, ", ");
                proof {
                    assert(out@ =~= head + unnamed_decoders_text(fields@, (at + 1) as nat));
                }
                at = at + 1;
            }
            put(out, ")");
        },
        RustFields::Unit => {
            put(out, unit);
        },
    }
    proof {
        assert(out@ =~= before + construction_text(*fields, unit@));
    }
}

/// Writes the arms that decode the variants of an enum by their zero-based
/// declaration index.
pub fn generate_enum_variant_decoders(variants: &Vec<RustVariant>, out: &mut String)
    ensures
        final(out)@ == old(out)@ + decoder_arms_text(variants@, variants@.len()),
{
    let ghost before = out@;
    let mut at: usize = 0;
    while at < variants.len()
        invariant
            at <= variants@.len(),
            out@ == before + decoder_arms_text(variants@, at as nat),
        decreases variants@.len() - at,
    {
        put(out, "            ");
        put(out, decimal(at).as_str());
        put(out, " => Ok(Self::");
        put(out, variants[at].name.as_str());
        generate_struct_field_decoders(&variants[at].fields, "", out);
        put(out, "),\n");
        proof {
            reveal_strlit("");
            assert(out@ =~= before + decoder_arms_text(variants@, (at + 1) as nat));
        }
        at = at + 1;
    }
}

/// Writes the call that asks a type for one of its bounds.
fn put_bound_call(out: &mut String, ty: &str, method: &str)
    ensures
        final(out)@ == old(out)@ + bound_call_text(ty@, method@),
{
    let ghost before = out@;
    put(out, "<");
    put(out, ty);
    put(out, " as bufferfish::Decodable>::");
    put(out, method);
    put(out, "(), ");
    proof {
        assert(out@ =~= before + bound_call_text(ty@, method@));
    }
}

/// Writes the array of the bounds of some fields.
fn put_bounds(out: &mut String, fields: &RustFields, method: &str)
    ensures
        final(out)@ == old(out)@ + bounds_text(*fields, method@),
{
    let ghost before = out@;
    match fields {
        RustFields::Named(fields) => {
            put(out, "&[");
            let ghost head = out@;
            let mut at: usize = 0;
            while at < fields.len()
                invariant
                    at <= fields@.len(),
                    out@ == head + named_bounds_text(fields@, method@, at as nat),
                decreases fields@.len() - at,
            {
                put_bound_call(out, fields[at].ty.as_str(), method);
                proof {
                    assert(out@ =~= head + named_bounds_text(fields@, method@, (at + 1) as nat));
                }
                at = at + 1;
            }
            put(out, "]");
        },
        RustFields::Unnamed(fields) => {
            put(out, "&[");
            let ghost head = out@;
            let mut at: usize = 0;
            while at < fields.len()
                invariant
                    at <= fields@.len(),
                    out@ == head + unnamed_bounds_text(fields@, method@, at as nat),
                decreases fields@.len() - at,
            {
                put_bound_call(out, fields[at].as_str(), method);
                proof {
                    assert(out@ =~= head + unnamed_bounds_text(
                        fields@,
                        method@,
                        (at + 1) as nat,
                    ));
                }
                at = at + 1;
            }
            put(out, "]");
        },
        RustFields::Unit => {
            put(out, "&[]");
        },
    }
    proof {
        assert(out@ =~= before + bounds_text(*fields, method@));
    }
}

/// Writes the expression that computes a bound of a struct from the bounds
/// of its fields.
fn put_struct_size(out: &mut String, fields: &RustFields, has_id: &str, function: &str, method: &str)
    ensures
        final(out)@ == old(out)@ + struct_size_text(*fields, has_id@, function@, method@),
{
    let ghost before = out@;
    put(out, "bufferfish::bounds::");
    put(out, function);
    put(out, "(");
    put(out, has_id);
    put(out, ", ");
    put_bounds(out, fields, method);
    put(out, ")");
    proof {
        assert(out@ =~= before + struct_size_text(*fields, has_id@, function@, method@));
    }
}

/// Writes the field sums of the variants of an enum.
fn put_variant_sums(out: &mut String, variants: &Vec<RustVariant>, sum: &str, method: &str)
    ensures
        final(out)@ == old(out)@ + variant_sums_text(variants@, sum@, method@, variants@.len()),
{
    let ghost before = out@;
    let mut at: usize = 0;
    while at < variants.len()
        invariant
            at <= variants@.len(),
            out@ == before + variant_sums_text(variants@, sum@, method@, at as nat),
        decreases variants@.len() - at,
    {
        let ghost here = out@;
        put(out, "bufferfish::bounds::");
        put(out, sum);
        put(out, "(");
        put_bounds(out, &variants[at].fields, method);
        put(out, "), ");
        proof {
            assert(out@ =~= here + ("bufferfish::bounds::"@ + sum@ + "("@ + bounds_text(
                variants@[at as int].fields,
                method@,
            ) + "), "@));
            assert(out@ =~= before + variant_sums_text(variants@, sum@, method@, (at + 1) as nat));
        }
        at = at + 1;
    }
}

/// Writes the expression that computes a bound of an enum from the field
/// sums of its variants.
fn put_enum_size(
    out: &mut String,
    variants: &Vec<RustVariant>,
    has_id: &str,
    function: &str,
    sum: &str,
    method: &str,
)
    ensures
        final(out)@ == old(out)@ + enum_size_text(variants@, has_id@, function@, sum@, method@),
{
    let ghost before = out@;
    put(out, "bufferfish::bounds::");
    put(out, function);
    put(out, "(");
    put(out, has_id);
    put(out, ", &[");
    put_variant_sums(out, variants, sum, method);
    put(out, "])");
    proof {
        assert(out@ =~= before + enum_size_text(variants@, has_id@, function@, sum@, method@));
    }
}

/// Writes the expression that computes a bound of a type from the bounds
/// of its fields: of the least size if `least`, else of the greatest.
pub fn generate_size_logic(def: &RustType, least: bool, out: &mut String)
    ensures
        final(out)@ == old(out)@ + size_logic_text(*def, least),
{
    let method = if least {
        "min_bytes_required"
    } else {
        "max_bytes_allowed"
    };
    let has_id = if def.message_id.is_some() {
        "true"
    } else {
        "false"
    };
    match &def.body {
        RustBody::Struct(fields) => {
            let function = if least {
                "struct_min_bytes"
            } else {
                "struct_max_bytes"
            };
            put_struct_size(out, fields, has_id, function, method);
        },
        RustBody::Enum(variants) => {
            let function = if least {
                "enum_min_bytes"
            } else {
                "enum_max_bytes"
            };
            let sum = if least {
                "fields_min_bytes"
            } else {
                "fields_max_bytes"
            };
            put_enum_size(out, variants, has_id, function, sum, method);
        },
    }
}

/// Writes the method that decodes a message with its identifier; nothing
/// for a type without one.
fn put_decode_method(out: &mut String, message_id: &Option<String>)
    ensures
        final(out)@ == old(out)@ + decode_method_text(*message_id),
{
    let ghost before = out@;
    match message_id {
        Some(id) => {
            put(
                out,
                "    fn decode(bf: &mut bufferfish::Bufferfish) -> Result<Self, bufferfish::BufferfishError> {\n",
            );
            put(out, "        bufferfish::decode_with_id(bf, u16::from(");
            put(out, id.as_str());
            put(out, "))\n");
            put(out, "    }\n\n");
        },
        None => {},
    }
    proof {
        assert(out@ =~= before + decode_method_text(*message_id));
    }
}

/// Writes the method that decodes the field data of a value of a type.
/// Says `false` for an enum of more variants than one byte can tell apart.
fn put_decode_value_method(out: &mut String, def: &RustType) -> (written: bool)
    ensures
        written == within_variant_limit(*def),
        written ==> final(out)@ == old(out)@ + decode_value_method_text(*def),
{
    let ghost before = out@;
    put(
        out,
        "    fn decode_value(bf: &mut bufferfish::Bufferfish) -> Result<Self, bufferfish::BufferfishError> {\n",
    );
    match &def.body {
        RustBody::Struct(fields) => {
            put(out, "        Ok(Self");
            generate_struct_field_decoders(fields, " {}", out);
            put(out, ")\n");
        },
        RustBody::Enum(variants) => {
            if variants.len() > MAX_VARIANTS {
                return false;
            }
            put(out, "        let variant_idx = bf.read_variant_index(");
            put(out, decimal(variants.len()).as_str());
            put(out, ")?;\n");
            put(out, "        match variant_idx {\n");
            generate_enum_variant_decoders(variants, out);
            put(out, "            _ => Err(bufferfish::BufferfishError::InvalidEnumVariant),\n");
            put(out, "        }\n");
        },
    }
    put(out, "    }\n");
    proof {
        assert(out@ =~= before + decode_value_method_text(*def));
    }
    true
}

/// Writes the method that computes a bound of a type.
fn put_size_method(out: &mut String, def: &RustType, least: bool)
    ensures
        final(out)@ == old(out)@ + size_method_text(*def, least),
{
    let ghost before = out@;
    put(
        out,
        if least {
            "    fn min_bytes_required() -> Option<usize> {\n"
        } else {
            "    fn max_bytes_allowed() -> Option<usize> {\n"
        },
    );
    put(out, "        ");
    generate_size_logic(def, least, out);
    put(out, "\n");
    put(out, "    }\n");
    proof {
        assert(out@ =~= before + size_method_text(*def, least));
    }
}

/// The Rust source of the implementation of `Decodable` for a type; `None`
/// for an enum of more variants than one byte can tell apart.
pub fn bufferfish_impl_decodable(def: &RustType) -> (source: Option<String>)
    ensures
        source is Some <==> within_variant_limit(*def),
        source matches Some(text) ==> text@ == decodable_text(*def),
{
    let mut out = String::from_str("impl bufferfish::Decodable for ");
    put(&mut out, def.name.as_str());
    put(&mut out, " {\n");
    put_decode_method(&mut out, &def.message_id);
    if !put_decode_value_method(&mut out, def) {
        return None;
    }
    put(&mut out, "\n");
    put_size_method(&mut out, def, true);
    put(&mut out, "\n");
    put_size_method(&mut out, def, false);
    put(&mut out, "}\n");
    proof {
        assert(out@ =~= decodable_text(*def));
    }
    Some(out)
}

} // verus!
