//! TypeScript for the types of messages: for each struct and enum its
//! TypeScript definition and a function that decodes it from a `Bufferfish`
//! of the TypeScript library.

use crate::text::{decimal_text, decimal_u64};
use vstd::prelude::*;
use vstd::string::StringExecFns;

verus! {

/// The type of a field, as far as its TypeScript counterpart depends on it.
#[derive(Debug, PartialEq, Eq)]
pub enum TypeRef {
    /// An unsigned integer of 8 bits.
    U8,
    /// An unsigned integer of 16 bits.
    U16,
    /// An unsigned integer of 32 bits.
    U32,
    /// A signed integer of 8 bits.
    I8,
    /// A signed integer of 16 bits.
    I16,
    /// A signed integer of 32 bits.
    I32,
    /// A boolean.
    Bool,
    /// A string.
    Text,
    /// A sequence of values of one type.
    Array(Box<TypeRef>),
    /// Another type, named by the segments of its path.
    Named(Vec<String>),
    /// A type that has no TypeScript counterpart.
    Unknown,
}

/// A field of a struct with named fields.
#[derive(Debug, PartialEq, Eq)]
pub struct NamedField {
    /// The name of the field.
    pub name: String,
    /// The type of the field.
    pub ty: TypeRef,
}

/// The fields of a struct.
#[derive(Debug, PartialEq, Eq)]
pub enum FieldList {
    /// Fields with names, in declaration order.
    Named(Vec<NamedField>),
    /// Fields without names, in declaration order.
    Unnamed(Vec<TypeRef>),
    /// No fields at all.
    Unit,
}

/// The definition of a struct.
#[derive(Debug, PartialEq, Eq)]
pub struct StructDef {
    /// The name of the struct.
    pub name: String,
    /// Its fields.
    pub fields: FieldList,
}

/// The integer type by which an enum is represented.
#[derive(Debug, Clone, Copy, PartialEq, Eq)]
pub enum Repr {
    /// `u8`, also where the enum names no representation.
    U8,
    /// `u16`.
    U16,
    /// `u32`.
    U32,
    /// `i8`.
    I8,
    /// `i16`.
    I16,
    /// `i32`.
    I32,
    /// A representation that the TypeScript library cannot read.
    Unsupported,
}

/// A variant of an enum.
#[derive(Debug, PartialEq, Eq)]
pub struct VariantDef {
    /// The name of the variant.
    pub name: String,
    /// The discriminant that the definition gives the variant, if it gives
    /// one.
    pub discriminant: Option<u64>,
}

/// The definition of an enum.
#[derive(Debug, PartialEq, Eq)]
pub struct EnumDef {
    /// The name of the enum.
    pub name: String,
    /// The integer type by which it is represented.
    pub repr: Repr,
    /// Its variants in declaration order.
    pub variants: Vec<VariantDef>,
}

/// The first `upto` of some names in a row, with `::` between them.
pub open spec fn path_text(segments: Seq<String>, upto: nat) -> Seq<char>
    decreases upto,
{
    if upto == 0 || upto > segments.len() {
        Seq::empty()
    } else if upto == 1 {
        segments[0]@
    } else {
        path_text(segments, (upto - 1) as nat) + "::"@ + segments[upto - 1]@
    }
}

/// The TypeScript type that stands for a type.
pub open spec fn type_text(ty: TypeRef) -> Seq<char>
    decreases ty,
{
    match ty {
        TypeRef::U8 | TypeRef::U16 | TypeRef::U32 | TypeRef::I8 | TypeRef::I16 | TypeRef::I32 =>
            "number"@,
        TypeRef::Bool => "boolean"@,
        TypeRef::Text => "string"@,
        TypeRef::Array(item) => "Array<"@ + type_text(*item) + ">"@,
        TypeRef::Named(segments) => path_text(segments@, segments@.len()),
        TypeRef::Unknown => "unknown"@,
    }
}

/// The TypeScript expression that decodes a value of a type from the
/// buffer `bf`.
pub open spec fn decoder_text(ty: TypeRef) -> Seq<char>
    decreases ty,
{
    match ty {
        TypeRef::U8 => "bf.readUint8() as number"@,
        TypeRef::U16 => "bf.readUint16() as number"@,
        TypeRef::U32 => "bf.readUint32() as number"@,
        TypeRef::I8 => "bf.readInt8() as number"@,
        TypeRef::I16 => "bf.readInt16() as number"@,
        TypeRef::I32 => "bf.readInt32() as number"@,
        TypeRef::Bool => "bf.readBool() as boolean"@,
        TypeRef::Text => "bf.readString() as string"@,
        TypeRef::Array(item) => "bf.readArray(() => "@ + decoder_text(*item) + ") as Array<"@
            + type_text(*item) + ">"@,
        TypeRef::Named(segments) => if segments@.len() == 1 {
            "decode"@ + segments@[0]@ + "(bf)"@
        } else {
            "unknown"@
        },
        TypeRef::Unknown => "unknown"@,
    }
}

/// The discriminant of the variant at index `i`: the one that the
/// definition gives it, else one more than that of the variant before it,
/// else 0.
pub open spec fn discriminant_at(variants: Seq<VariantDef>, i: int) -> u64
    decreases i,
{
    if i < 0 || i >= variants.len() {
        0
    } else {
        match variants[i].discriminant {
            Some(given) => given,
            None => if i == 0 {
                0
            } else if discriminant_at(variants, i - 1) == u64::MAX {
                u64::MAX
            } else {
                (discriminant_at(variants, i - 1) + 1) as u64
            },
        }
    }
}

/// The lines of the first `upto` variants of a TypeScript enum.
pub open spec fn variants_text(variants: Seq<VariantDef>, upto: nat) -> Seq<char>
    decreases upto,
{
    if upto == 0 || upto > variants.len() {
        Seq::empty()
    } else {
        variants_text(variants, (upto - 1) as nat) + "    "@ + variants[upto - 1].name@ + " = "@
            + decimal_text(discriminant_at(variants, upto - 1) as nat) + ",\n"@
    }
}

/// The TypeScript enum that matches an enum.
pub open spec fn enum_definition_text(def: EnumDef) -> Seq<char> {
    "\nexport enum "@ + def.name@ + " {\n"@ + variants_text(def.variants@, def.variants@.len())
        + "}\n"@
}

/// The method of the TypeScript buffer that reads an integer of a
/// representation.
pub open spec fn reader_text(repr: Repr) -> Seq<char> {
    match repr {
        Repr::U8 => "readUint8"@,
        Repr::U16 => "readUint16"@,
        Repr::U32 => "readUint32"@,
        Repr::I8 => "readInt8"@,
        Repr::I16 => "readInt16"@,
        Repr::I32 => "readInt32"@,
        Repr::Unsupported => Seq::empty(),
    }
}

/// The TypeScript function that decodes an enum.
pub open spec fn enum_decoder_text(def: EnumDef) -> Seq<char> {
    "\nexport function decode"@ + def.name@ + "(bf: Bufferfish): "@ + def.name@ + " {\n"@
        + "    return bf."@ + reader_text(def.repr) + "() as "@ + def.name@ + "\n"@ + "}\n"@
}

/// The lines of the first `upto` fields of a TypeScript interface.
pub open spec fn interface_fields_text(fields: Seq<NamedField>, upto: nat) -> Seq<char>
    decreases upto,
{
    if upto == 0 || upto > fields.len() {
        Seq::empty()
    } else {
        interface_fields_text(fields, (upto - 1) as nat) + "    "@ + fields[upto - 1].name@
            + ": "@ + type_text(fields[upto - 1].ty) + "\n"@
    }
}

/// The TypeScript types of the first `upto` fields of a tuple, with commas
/// between them.
pub open spec fn tuple_types_text(fields: Seq<TypeRef>, upto: nat) -> Seq<char>
    decreases upto,
{
    if upto == 0 || upto > fields.len() {
        Seq::empty()
    } else if upto == 1 {
        type_text(fields[0])
    } else {
        tuple_types_text(fields, (upto - 1) as nat) + ", "@ + type_text(fields[upto - 1])
    }
}

/// The TypeScript interface or tuple type that matches a struct; nothing
/// for a struct without fields.
pub open spec fn struct_definition_text(def: StructDef) -> Seq<char> {
    match def.fields {
        FieldList::Named(fields) => if fields@.len() == 0 {
            Seq::empty()
        } else {
            "\nexport interface "@ + def.name@ + " {\n"@ + interface_fields_text(
                fields@,
                fields@.len(),
            ) + "}\n"@
        },
        FieldList::Unnamed(fields) => if fields@.len() == 0 {
            Seq::empty()
        } else {
            "\nexport type "@ + def.name@ + " = ["@ + tuple_types_text(fields@, fields@.len())
                + "]\n"@
        },
        FieldList::Unit => Seq::empty(),
    }
}

/// The lines that decode the first `upto` fields of a struct with named
/// fields.
pub open spec fn named_decoders_text(fields: Seq<NamedField>, upto: nat) -> Seq<char>
    decreases upto,
{
    if upto == 0 || upto > fields.len() {
        Seq::empty()
    } else {
        named_decoders_text(fields, (upto - 1) as nat) + "        "@ + fields[upto - 1].name@
            + ": "@ + decoder_text(fields[upto - 1].ty) + ",\n"@
    }
}

/// The lines that decode the first `upto` fields of a tuple struct.
pub open spec fn unnamed_decoders_text(fields: Seq<TypeRef>, upto: nat) -> Seq<char>
    decreases upto,
{
    if upto == 0 || upto > fields.len() {
        Seq::empty()
    } else {
        unnamed_decoders_text(fields, (upto - 1) as nat) + "        "@ + decoder_text(
            fields[upto - 1],
        ) + ",\n"@
    }
}

/// The first line of the TypeScript function that decodes a type.
pub open spec fn decoder_head_text(name: Seq<char>) -> Seq<char> {
    "\nexport function decode"@ + name + "(bf: Bufferfish): "@ + name + " {\n"@
}

/// The TypeScript function that decodes a struct; nothing for a unit
/// struct.
pub open spec fn struct_decoder_text(def: StructDef) -> Seq<char> {
    match def.fields {
        FieldList::Named(fields) => decoder_head_text(def.name@) + "    return {\n"@
            + named_decoders_text(fields@, fields@.len()) + "    };\n"@ + "}\n"@,
        FieldList::Unnamed(fields) => decoder_head_text(def.name@) + "    return [\n"@
            + unnamed_decoders_text(fields@, fields@.len()) + "    ]\n"@ + "}\n"@,
        FieldList::Unit => Seq::empty(),
    }
}

/// The first lines of every TypeScript module.
pub open spec fn module_head_text() -> Seq<char> {
    "/* AUTOGENERATED BUFFERFISH FILE, DO NOT EDIT */\n"@
        + "import { Bufferfish } from 'bufferfish'\n"@
}

/// The definitions and decoders of the first `upto` enums.
pub open spec fn enums_text(enums: Seq<EnumDef>, upto: nat) -> Seq<char>
    decreases upto,
{
    if upto == 0 || upto > enums.len() {
        Seq::empty()
    } else {
        enums_text(enums, (upto - 1) as nat) + enum_definition_text(enums[upto - 1])
            + enum_decoder_text(enums[upto - 1])
    }
}

/// The definitions and decoders of the first `upto` structs.
pub open spec fn structs_text(structs: Seq<StructDef>, upto: nat) -> Seq<char>
    decreases upto,
{
    if upto == 0 || upto > structs.len() {
        Seq::empty()
    } else {
        structs_text(structs, (upto - 1) as nat) + struct_definition_text(structs[upto - 1])
            + struct_decoder_text(structs[upto - 1])
    }
}

/// The index, from `from` on, of the first enum that the TypeScript library
/// cannot read; the count of the enums if it can read them all.
pub open spec fn first_unreadable(enums: Seq<EnumDef>, from: nat) -> nat
    decreases enums.len() - from,
{
    if from >= enums.len() {
        enums.len()
    } else if enums[from as int].repr is Unsupported {
        from
    } else {
        first_unreadable(enums, from + 1)
    }
}

/// Puts a text behind another.
fn put(text: &mut String, more: &str)
    ensures
        final(text)@ == old(text)@ + more@,
{
    text.append(more);
}

/// The TypeScript type that stands for a type.
pub fn get_typescript_type(ty: &TypeRef) -> (text: String)
    ensures
        text@ == type_text(*ty),
    decreases ty,
{
    match ty {
        TypeRef::U8 | TypeRef::U16 | TypeRef::U32 | TypeRef::I8 | TypeRef::I16 | TypeRef::I32 => {
            String::from_str("number")
        },
        TypeRef::Bool => String::from_str("boolean"),
        TypeRef::Text => String::from_str("string"),
        TypeRef::Array(item) => {
            let mut text = String::from_str("Array<");
            put(&mut text, get_typescript_type(item).as_str());
            put(&mut text, ">");
            text
        },
        TypeRef::Named(segments) => {
            let mut text = String::new();
            let mut at: usize = 0;
            while at < segments.len()
                invariant
                    at <= segments@.len(),
                    text@ == path_text(segments@, at as nat),
                decreases segments@.len() - at,
            {
                if at > 0 {
                    put(&mut text, "::");
                }
                put(&mut text, segments[at].as_str());
                proof {
                    assert(text@ =~= path_text(segments@, (at + 1) as nat));
                }
                at = at + 1;
            }
            text
        },
        TypeRef::Unknown => String::from_str("unknown"),
    }
}

/// The TypeScript expression that decodes a value of a type from the
/// buffer `bf`.
pub fn get_bufferfish_fn(ty: &TypeRef) -> (text: String)
    ensures
        text@ == decoder_text(*ty),
    decreases ty,
{
    match ty {
        TypeRef::U8 => String::from_str("bf.readUint8() as number"),
        TypeRef::U16 => String::from_str("bf.readUint16() as number"),
        TypeRef::U32 => String::from_str("bf.readUint32() as number"),
        TypeRef::I8 => String::from_str("bf.readInt8() as number"),
        TypeRef::I16 => String::from_str("bf.readInt16() as number"),
        TypeRef::I32 => String::from_str("bf.readInt32() as number"),
        TypeRef::Bool => String::from_str("bf.readBool() as boolean"),
        TypeRef::Text => String::from_str("bf.readString() as string"),
        TypeRef::Array(item) => {
            let mut text = String::from_str("bf.readArray(() => ");
            put(&mut text, get_bufferfish_fn(item).as_str());
            put(&mut text, ") as Array<");
            put(&mut text, get_typescript_type(item).as_str());
            put(&mut text, ">");
            text
        },
        TypeRef::Named(segments) => {
            if segments.len() == 1 {
                let mut text = String::from_str("decode");
                put(&mut text, segments[0].as_str());
                put(&mut text, "(bf)");
                text
            } else {
                String::from_str("unknown")
            }
        },
        TypeRef::Unknown => String::from_str("unknown"),
    }
}

/// Writes the TypeScript enum that matches `def`.
pub fn generate_typescript_enum_defs(def: &EnumDef, lines: &mut String)
    ensures
        final(lines)@ == old(lines)@ + enum_definition_text(*def),
{
    let ghost before = lines@;
    put(lines, "\nexport enum ");
    put(lines, def.name.as_str());
    put(lines, " {\n");
    let ghost head = lines@;
    let mut discriminant: u64 = 0;
    let mut at: usize = 0;
    while at < def.variants.len()
        invariant
            at <= def.variants@.len(),
            lines@ == head + variants_text(def.variants@, at as nat),
            at > 0 ==> discriminant == discriminant_at(def.variants@, at - 1),
        decreases def.variants@.len() - at,
    {
        let variant = &def.variants[at];
        discriminant = match variant.discriminant {
            Some(given) => given,
            None => if at == 0 {
                0
            } else if discriminant == u64::MAX {
                u64::MAX
            } else {
                discriminant + 1
            },
        };
        put(lines, "    ");
        put(lines, variant.name.as_str());
        put(lines, " = ");
        put(lines, decimal_u64(discriminant).as_str());
        put(lines, ",\n");
        proof {
            assert(lines@ =~= head + variants_text(def.variants@, (at + 1) as nat));
        }
        at = at + 1;
    }
    put(lines, "}\n");
    proof {
        assert(lines@ =~= before + enum_definition_text(*def));
    }
}

/// Writes the TypeScript function that decodes the enum `def`. Says `false`,
/// and writes nothing, if the TypeScript library cannot read integers of
/// the representation of the enum.
pub fn generate_typescript_enum_decoders(def: &EnumDef, output: &mut String) -> (written: bool)
    ensures
        written == !(def.repr is Unsupported),
        written ==> final(output)@ == old(output)@ + enum_decoder_text(*def),
        !written ==> final(output)@ == old(output)@,
{
    let ghost before = output@;
    let read_fn = match def.repr {
        Repr::U8 => "readUint8",
        Repr::U16 => "readUint16",
        Repr::U32 => "readUint32",
        Repr::I8 => "readInt8",
        Repr::I16 => "readInt16",
        Repr::I32 => "readInt32",
        Repr::Unsupported => {
            return false;
        },
    };
    put(output, "\nexport function decode");
    put(output, def.name.as_str());
    put(output, "(bf: Bufferfish): ");
    put(output, def.name.as_str());
    put(output, " {\n");
    put(output, "    return bf.");
    put(output, read_fn);
    put(output, "() as ");
    put(output, def.name.as_str());
    put(output, "\n");
    put(output, "}\n");
    proof {
        assert(output@ =~= before + enum_decoder_text(*def));
    }
    true
}

/// Writes the TypeScript interface or tuple type that matches `def`.
pub fn generate_typescript_struct_defs(def: &StructDef, lines: &mut String)
    ensures
        final(lines)@ == old(lines)@ + struct_definition_text(*def),
{
    let ghost before = lines@;
    match &def.fields {
        FieldList::Named(fields) => {
            if fields.len() == 0 {
                proof {
                    assert(before + struct_definition_text(*def) =~= before);
                }
                return ;
            }
            put(lines, "\nexport interface ");
            put(lines, def.name.as_str());
            put(lines, " {\n");
            let ghost head = lines@;
            let mut at: usize = 0;
            while at < fields.len()
                invariant
                    at <= fields@.len(),
                    lines@ == head + interface_fields_text(fields@, at as nat),
                decreases fields@.len() - at,
            {
                put(lines, "    ");
                put(lines, fields[at].name.as_str());
                put(lines, ": ");
                put(lines, get_typescript_type(&fields[at].ty).as_str());
                put(lines, "\n");
                proof {
                    assert(lines@ =~= head + interface_fields_text(fields@, (at + 1) as nat));
                }
                at = at + 1;
            }
            put(lines, "}\n");
            proof {
                assert(lines@ =~= before + struct_definition_text(*def));
            }
        },
        FieldList::Unnamed(fields) => {
            if fields.len() == 0 {
                proof {
                    assert(before + struct_definition_text(*def) =~= before);
                }
                return ;
            }
            put(lines, "\nexport type ");
            put(lines, def.name.as_str());
            put(lines, " = [");
            let ghost head = lines@;
            let mut at: usize = 0;
            while at < fields.len()
                invariant
                    at <= fields@.len(),
                    lines@ == head + tuple_types_text(fields@, at as nat),
                decreases fields@.len() - at,
            {
                if at > 0 {
                    put(lines, ", ");
                }
                put(lines, get_typescript_type(&fields[at]).as_str());
                proof {
                    assert(lines@ =~= head + tuple_types_text(fields@, (at + 1) as nat));
                }
                at = at + 1;
            }
            put(lines, "]\n");
            proof {
                assert(lines@ =~= before + struct_definition_text(*def));
            }
        },
        FieldList::Unit => {
            proof {
                assert(before + struct_definition_text(*def) =~= before);
            }
        },
    }
}

/// Writes the first line of the TypeScript function that decodes a type.
fn put_decoder_head(lines: &mut String, name: &str)
    ensures
        final(lines)@ == old(lines)@ + decoder_head_text(name@),
{
    let ghost before = lines@;
    put(lines, "\nexport function decode");
    put(lines, name);
    put(lines, "(bf: Bufferfish): ");
    put(lines, name);
    put(lines, " {\n");
    proof {
        assert(lines@ =~= before + decoder_head_text(name@));
    }
}

/// Writes the TypeScript function that decodes the struct `def`.
pub fn generate_typescript_struct_decoders(def: &StructDef, lines: &mut String)
    ensures
        final(lines)@ == old(lines)@ + struct_decoder_text(*def),
{
    let ghost before = lines@;
    match &def.fields {
        FieldList::Named(fields) => {
            put_decoder_head(lines, def.name.as_str());
            put(lines, "    return {\n");
            let ghost head = lines@;
            let mut at: usize = 0;
            while at < fields.len()
                invariant
                    at <= fields@.len(),
                    lines@ == head + named_decoders_text(fields@, at as nat),
                decreases fields@.len() - at,
            {
                put(lines, "        ");
                put(lines, fields[at].name.as_str());
                put(lines, ": ");
                put(lines, get_bufferfish_fn(&fields[at].ty).as_str());
                put(lines, ",\n");
                proof {
                    assert(lines@ =~= head + named_decoders_text(fields@, (at + 1) as nat));
                }
                at = at + 1;
            }
            put(lines, "    };\n");
            put(lines, "}\n");
            proof {
                assert(lines@ =~= before + struct_decoder_text(*def));
            }
        },
        FieldList::Unnamed(fields) => {
            put_decoder_head(lines, def.name.as_str());
            put(lines, "    return [\n");
            let ghost head = lines@;
            let mut at: usize = 0;
            while at < fields.len()
                invariant
                    at <= fields@.len(),
                    lines@ == head + unnamed_decoders_text(fields@, at as nat),
                decreases fields@.len() - at,
            {
                put(lines, "        ");
                put(lines, get_bufferfish_fn(&fields[at]).as_str());
                put(lines, ",\n");
                proof {
                    assert(lines@ =~= head + unnamed_decoders_text(fields@, (at + 1) as nat));
                }
                at = at + 1;
            }
            put(lines, "    ]\n");
            put(lines, "}\n");
            proof {
                assert(lines@ =~= before + struct_decoder_text(*def));
            }
        },
        FieldList::Unit => {
            proof {
                assert(before + struct_decoder_text(*def) =~= before);
            }
        },
    }
}

/// Writes the first lines of a TypeScript module.
pub fn generate_module_head(output: &mut String)
    ensures
        final(output)@ == old(output)@ + module_head_text(),
{
    let ghost before = output@;
    put(output, "/* AUTOGENERATED BUFFERFISH FILE, DO NOT EDIT */\n");
    put(output, "import { Bufferfish } from 'bufferfish'\n");
    proof {
        assert(output@ =~= before + module_head_text());
    }
}

/// Writes the TypeScript for the types of one source file: the definition
/// and the decoder of each enum, then those of each struct. Says `false` if
/// the TypeScript library cannot read one of the enums; the output then
/// ends with the definition of the first such enum.
pub fn generate_output_string(
    enums: &Vec<EnumDef>,
    structs: &Vec<StructDef>,
    output: &mut String,
) -> (written: bool)
    ensures
        written == (first_unreadable(enums@, 0) == enums@.len()),
        written ==> final(output)@ == old(output)@ + enums_text(enums@, enums@.len())
            + structs_text(structs@, structs@.len()),
        !written ==> final(output)@ == old(output)@ + enums_text(
            enums@,
            first_unreadable(enums@, 0),
        ) + enum_definition_text(enums@[first_unreadable(enums@, 0) as int]),
{
    let ghost before = output@;
    let mut at: usize = 0;
    while at < enums.len()
        invariant
            at <= enums@.len(),
            before == old(output)@,
            output@ == before + enums_text(enums@, at as nat),
            first_unreadable(enums@, 0) == first_unreadable(enums@, at as nat),
        decreases enums@.len() - at,
    {
        generate_typescript_enum_defs(&enums[at], output);
        if !generate_typescript_enum_decoders(&enums[at], output) {
            proof {
                assert(first_unreadable(enums@, at as nat) == at);
                assert(output@ =~= before + enums_text(enums@, at as nat) + enum_definition_text(
                    enums@[at as int],
                ));
            }
            return false;
        }
        proof {
            assert(output@ =~= before + enums_text(enums@, (at + 1) as nat));
        }
        at = at + 1;
    }
    let ghost middle = output@;
    let mut at: usize = 0;
    while at < structs.len()
        invariant
            at <= structs@.len(),
            output@ == middle + structs_text(structs@, at as nat),
        decreases structs@.len() - at,
    {
        generate_typescript_struct_defs(&structs[at], output);
        generate_typescript_struct_decoders(&structs[at], output);
        proof {
            assert(output@ =~= middle + structs_text(structs@, (at + 1) as nat));
        }
        at = at + 1;
    }
    true
}

} // verus!
