use bufferfish::bounds::{
    enum_max_bytes, enum_min_bytes, fields_max_bytes, fields_min_bytes, struct_max_bytes,
    struct_min_bytes,
};
use bufferfish::{decode_with_id, encode_with_id};
use bufferfish::{Bufferfish, BufferfishError, Decodable, Encodable};

// A struct of two fields, without a message identifier.

#[derive(Debug, PartialEq)]
struct User {
    id: u32,
    name: String,
}

impl Encodable for User {
    fn encode_value(&self, bf: &mut Bufferfish) -> Result<(), BufferfishError> {
        self.id.encode_value(bf)?;
        self.name.encode_value(bf)?;
        Ok(())
    }
}

impl Decodable for User {
    fn decode_value(bf: &mut Bufferfish) -> Result<Self, BufferfishError> {
        Ok(User { id: u32::decode_value(bf)?, name: String::decode_value(bf)? })
    }

    fn min_bytes_required() -> Option<usize> {
        struct_min_bytes(false, &[u32::min_bytes_required(), String::min_bytes_required()])
    }

    fn max_bytes_allowed() -> Option<usize> {
        struct_max_bytes(false, &[u32::max_bytes_allowed(), String::max_bytes_allowed()])
    }
}

// A message that holds a `User`, with the identifier 0.

struct JoinMessage {
    user: User,
}

impl Encodable for JoinMessage {
    fn encode_value(&self, bf: &mut Bufferfish) -> Result<(), BufferfishError> {
        self.user.encode_value(bf)?;
        Ok(())
    }

    fn encode(&self, bf: &mut Bufferfish) -> Result<(), BufferfishError> {
        encode_with_id(self, 0, bf)
    }
}

// A struct of one byte with the identifier 0, in the three shapes of a struct.

#[derive(Debug, PartialEq)]
struct Foo {
    bar: u8,
}

impl Encodable for Foo {
    fn encode_value(&self, bf: &mut Bufferfish) -> Result<(), BufferfishError> {
        self.bar.encode_value(bf)?;
        Ok(())
    }

    fn encode(&self, bf: &mut Bufferfish) -> Result<(), BufferfishError> {
        encode_with_id(self, 0, bf)
    }
}

impl Decodable for Foo {
    fn decode(bf: &mut Bufferfish) -> Result<Self, BufferfishError> {
        decode_with_id(bf, 0)
    }

    fn decode_value(bf: &mut Bufferfish) -> Result<Self, BufferfishError> {
        Ok(Foo { bar: u8::decode_value(bf)? })
    }

    fn min_bytes_required() -> Option<usize> {
        struct_min_bytes(true, &[u8::min_bytes_required()])
    }

    fn max_bytes_allowed() -> Option<usize> {
        struct_max_bytes(true, &[u8::max_bytes_allowed()])
    }
}

#[derive(Debug, PartialEq)]
struct UnitFoo;

impl Encodable for UnitFoo {
    fn encode_value(&self, _bf: &mut Bufferfish) -> Result<(), BufferfishError> {
        Ok(())
    }

    fn encode(&self, bf: &mut Bufferfish) -> Result<(), BufferfishError> {
        encode_with_id(self, 0, bf)
    }
}

impl Decodable for UnitFoo {
    fn decode(bf: &mut Bufferfish) -> Result<Self, BufferfishError> {
        decode_with_id(bf, 0)
    }

    fn decode_value(_bf: &mut Bufferfish) -> Result<Self, BufferfishError> {
        Ok(UnitFoo {})
    }

    fn min_bytes_required() -> Option<usize> {
        struct_min_bytes(true, &[])
    }

    fn max_bytes_allowed() -> Option<usize> {
        struct_max_bytes(true, &[])
    }
}

#[derive(Debug, PartialEq)]
struct TupleFoo(u8);

impl Encodable for TupleFoo {
    fn encode_value(&self, bf: &mut Bufferfish) -> Result<(), BufferfishError> {
        self.0.encode_value(bf)?;
        Ok(())
    }

    fn encode(&self, bf: &mut Bufferfish) -> Result<(), BufferfishError> {
        encode_with_id(self, 0, bf)
    }
}

impl Decodable for TupleFoo {
    fn decode(bf: &mut Bufferfish) -> Result<Self, BufferfishError> {
        decode_with_id(bf, 0)
    }

    fn decode_value(bf: &mut Bufferfish) -> Result<Self, BufferfishError> {
        Ok(TupleFoo(u8::decode_value(bf)?))
    }

    fn min_bytes_required() -> Option<usize> {
        struct_min_bytes(true, &[u8::min_bytes_required()])
    }

    fn max_bytes_allowed() -> Option<usize> {
        struct_max_bytes(true, &[u8::max_bytes_allowed()])
    }
}

// An item of one byte whose type has the identifier 0.

#[derive(Debug, PartialEq)]
struct Object {
    a: u8,
}

impl Encodable for Object {
    fn encode_value(&self, bf: &mut Bufferfish) -> Result<(), BufferfishError> {
        self.a.encode_value(bf)?;
        Ok(())
    }

    fn encode(&self, bf: &mut Bufferfish) -> Result<(), BufferfishError> {
        encode_with_id(self, 0, bf)
    }
}

impl Decodable for Object {
    fn decode_value(bf: &mut Bufferfish) -> Result<Self, BufferfishError> {
        Ok(Object { a: u8::decode_value(bf)? })
    }

    fn min_bytes_required() -> Option<usize> {
        struct_min_bytes(false, &[u8::min_bytes_required()])
    }

    fn max_bytes_allowed() -> Option<usize> {
        struct_max_bytes(false, &[u8::max_bytes_allowed()])
    }
}

// An enum that names message identifiers.

#[allow(dead_code)]
#[derive(Clone, Copy)]
enum MessageId {
    Join,
}

impl From<MessageId> for u16 {
    fn from(value: MessageId) -> Self {
        match value {
            MessageId::Join => 0,
        }
    }
}

impl Encodable for MessageId {
    fn encode_value(&self, bf: &mut Bufferfish) -> Result<(), BufferfishError> {
        match self {
            MessageId::Join => {
                bf.write_variant_index(0)?;
            }
        }
        Ok(())
    }
}

// An enum of one variant without fields.

#[derive(Debug, Clone, Copy, PartialEq)]
enum Class {
    Warrior,
}

impl Encodable for Class {
    fn encode_value(&self, bf: &mut Bufferfish) -> Result<(), BufferfishError> {
        match self {
            Class::Warrior => {
                bf.write_variant_index(0)?;
            }
        }
        Ok(())
    }
}

impl Decodable for Class {
    fn decode_value(bf: &mut Bufferfish) -> Result<Self, BufferfishError> {
        let variant_idx = bf.read_variant_index(1)?;
        match variant_idx {
            0 => Ok(Self::Warrior),
            _ => Err(BufferfishError::InvalidEnumVariant),
        }
    }

    fn min_bytes_required() -> Option<usize> {
        enum_min_bytes(false, &[fields_min_bytes(&[])])
    }

    fn max_bytes_allowed() -> Option<usize> {
        enum_max_bytes(false, &[fields_max_bytes(&[])])
    }
}

struct ClassMessage {
    class: Class,
}

impl Encodable for ClassMessage {
    fn encode_value(&self, bf: &mut Bufferfish) -> Result<(), BufferfishError> {
        self.class.encode_value(bf)?;
        Ok(())
    }

    fn encode(&self, bf: &mut Bufferfish) -> Result<(), BufferfishError> {
        encode_with_id(self, u16::from(MessageId::Join), bf)
    }
}

// A message of one string with the identifier 0.

struct NameMessage {
    user: String,
}

impl Encodable for NameMessage {
    fn encode_value(&self, bf: &mut Bufferfish) -> Result<(), BufferfishError> {
        self.user.encode_value(bf)?;
        Ok(())
    }

    fn encode(&self, bf: &mut Bufferfish) -> Result<(), BufferfishError> {
        encode_with_id(self, 0, bf)
    }
}

impl Decodable for NameMessage {
    fn decode(bf: &mut Bufferfish) -> Result<Self, BufferfishError> {
        decode_with_id(bf, 0)
    }

    fn decode_value(bf: &mut Bufferfish) -> Result<Self, BufferfishError> {
        Ok(NameMessage { user: String::decode_value(bf)? })
    }

    fn min_bytes_required() -> Option<usize> {
        struct_min_bytes(true, &[String::min_bytes_required()])
    }

    fn max_bytes_allowed() -> Option<usize> {
        struct_max_bytes(true, &[String::max_bytes_allowed()])
    }
}

// A struct of one 32-bit number.

#[derive(Debug)]
struct Id {
    id: u32,
}

impl Decodable for Id {
    fn decode_value(bf: &mut Bufferfish) -> Result<Self, BufferfishError> {
        Ok(Id { id: u32::decode_value(bf)? })
    }

    fn min_bytes_required() -> Option<usize> {
        struct_min_bytes(false, &[u32::min_bytes_required()])
    }

    fn max_bytes_allowed() -> Option<usize> {
        struct_max_bytes(false, &[u32::max_bytes_allowed()])
    }
}

// Structs with optional fields.

#[derive(Debug)]
struct OptionContainer {
    value: Option<u32>,
}

impl Encodable for OptionContainer {
    fn encode_value(&self, bf: &mut Bufferfish) -> Result<(), BufferfishError> {
        self.value.encode_value(bf)?;
        Ok(())
    }
}

impl Decodable for OptionContainer {
    fn decode_value(bf: &mut Bufferfish) -> Result<Self, BufferfishError> {
        Ok(OptionContainer { value: Option::<u32>::decode_value(bf)? })
    }

    fn min_bytes_required() -> Option<usize> {
        struct_min_bytes(false, &[Option::<u32>::min_bytes_required()])
    }

    fn max_bytes_allowed() -> Option<usize> {
        struct_max_bytes(false, &[Option::<u32>::max_bytes_allowed()])
    }
}

#[derive(Debug)]
struct AgedUser {
    id: u32,
    name: String,
    age: Option<u8>,
}

impl Encodable for AgedUser {
    fn encode_value(&self, bf: &mut Bufferfish) -> Result<(), BufferfishError> {
        self.id.encode_value(bf)?;
        self.name.encode_value(bf)?;
        self.age.encode_value(bf)?;
        Ok(())
    }
}

impl Decodable for AgedUser {
    fn decode_value(bf: &mut Bufferfish) -> Result<Self, BufferfishError> {
        Ok(AgedUser {
            id: u32::decode_value(bf)?,
            name: String::decode_value(bf)?,
            age: Option::<u8>::decode_value(bf)?,
        })
    }
}

// A message whose identifier is written as a single byte.

struct JoinPacket {
    user: User,
}

impl Encodable for JoinPacket {
    fn encode_value(&self, bf: &mut Bufferfish) -> Result<(), BufferfishError> {
        self.user.encode_value(bf)?;
        Ok(())
    }

    fn encode(&self, bf: &mut Bufferfish) -> Result<(), BufferfishError> {
        bf.write_u8(0)?;
        self.encode_value(bf)
    }
}

// A struct of one byte without an identifier.

struct Bare {
    bar: u8,
}

impl Encodable for Bare {
    fn encode_value(&self, bf: &mut Bufferfish) -> Result<(), BufferfishError> {
        self.bar.encode_value(bf)?;
        Ok(())
    }
}

fn users() -> Vec<User> {
    vec![
        User { id: 0, name: "Bufferfish".to_string() },
        User { id: 1, name: "Bufferfish2".to_string() },
    ]
}

#[test]
fn basic_header_encode_struct() {
    let foo = Foo { bar: 42 };
    let bf: Bufferfish = foo.to_bufferfish().unwrap();

    assert_eq!(bf.len(), 3);
}

#[test]
fn enum_header_encode_struct() {
    struct Ping {
        bar: u8,
    }

    impl Encodable for Ping {
        fn encode_value(&self, bf: &mut Bufferfish) -> Result<(), BufferfishError> {
            self.bar.encode_value(bf)?;
            Ok(())
        }

        fn encode(&self, bf: &mut Bufferfish) -> Result<(), BufferfishError> {
            encode_with_id(self, u16::from(MessageId::Join), bf)
        }
    }

    let foo = Ping { bar: 42 };
    let bf: Bufferfish = foo.to_bufferfish().unwrap();

    assert_eq!(bf.len(), 3);
}

#[test]
fn bf_derive_serialize() {
    let foo = Bare { bar: 42 };
    let bf: Bufferfish = foo.to_bufferfish().unwrap();

    assert_eq!(bf.len(), 1);
}

#[test]
fn serialize_struct_encode_struct() {
    let foo = Foo { bar: 42 };
    let bf: Bufferfish = foo.to_bufferfish().unwrap();

    assert_eq!(bf.len(), 3);
}

#[test]
fn serialize_struct_encode_unit_struct() {
    let foo = UnitFoo;
    let bf: Bufferfish = foo.to_bufferfish().unwrap();

    assert_eq!(bf.len(), 2);
}

#[test]
fn serialize_struct_encode_tuple_struct() {
    let foo = TupleFoo(42);
    let bf: Bufferfish = foo.to_bufferfish().unwrap();

    assert_eq!(bf.len(), 3);
}

#[test]
fn decode_struct() {
    let mut bf = Bufferfish::from(vec![0, 0, 42]);
    let foo = Foo::decode(&mut bf).unwrap();

    assert_eq!(foo, Foo { bar: 42 });
}

#[test]
fn decode_unit_struct() {
    let mut bf = Bufferfish::from(vec![0, 0]);
    let foo = UnitFoo::decode(&mut bf).unwrap();

    assert_eq!(foo, UnitFoo);
}

#[test]
fn decode_tuple_struct() {
    let mut bf = Bufferfish::from(vec![0, 0, 42]);
    let foo = TupleFoo::decode(&mut bf).unwrap();

    assert_eq!(foo, TupleFoo(42));
}

#[test]
fn test_write_encodable_items_to_array() {
    let arr = vec![Object { a: 0 }, Object { a: 1 }];

    let mut bf = Bufferfish::new();
    bf.write_u8(0).unwrap();
    bf.write_array(&arr).unwrap();

    let expected_bytes: Vec<u8> = vec![0, 0, 2, 0, 1];

    assert_eq!(bf.to_vec(), expected_bytes);
}

#[test]
fn test_encode_array() {
    let bf = JoinPacket { user: User { id: 0, name: "Bufferfish".to_string() } }
        .to_bufferfish()
        .unwrap();

    assert_eq!(
        bf.as_ref(),
        &[0, 0, 0, 0, 0, 0, 10, 66, 117, 102, 102, 101, 114, 102, 105, 115, 104]
    );
}

#[test]
fn test_write_items_to_array() {
    let arr = vec![Object { a: 0 }, Object { a: 1 }];

    let mut bf = Bufferfish::new();
    bf.write_array(&arr).unwrap();

    let expected_bytes: Vec<u8> = vec![0, 2, 0, 1];

    assert_eq!(bf.into_vec(), expected_bytes);
}

#[test]
fn test_read_items_from_array() {
    let arr = vec![Object { a: 0 }, Object { a: 1 }];

    let mut bf = Bufferfish::new();
    bf.write_array(&arr).unwrap();

    let result = bf.read_array::<Object>().unwrap();

    assert_eq!(result, vec![Object { a: 0 }, Object { a: 1 }]);
}

#[test]
fn test_to_bufferfish_struct() {
    let bf = JoinMessage { user: User { id: 0, name: "Bufferfish".to_string() } }
        .to_bufferfish()
        .unwrap();

    assert_eq!(
        bf.as_ref(),
        &[0, 0, 0, 0, 0, 0, 0, 10, 66, 117, 102, 102, 101, 114, 102, 105, 115, 104]
    );
}

#[test]
fn test_to_bufferfish_array() {
    let users = users();

    let bf = users.to_bufferfish().unwrap();

    assert_eq!(
        bf.as_ref(),
        &[
            0, 2, 0, 0, 0, 0, 0, 10, 66, 117, 102, 102, 101, 114, 102, 105, 115, 104, 0, 0, 0, 1,
            0, 11, 66, 117, 102, 102, 101, 114, 102, 105, 115, 104, 50,
        ]
    );
}

#[test]
fn test_to_bufferfish_enums() {
    let bf = ClassMessage { class: Class::Warrior }.to_bufferfish().unwrap();

    assert_eq!(bf.as_ref(), &[0, 0, 0]);
}

#[test]
fn test_encode_into_struct() {
    let mut bf = Bufferfish::new();
    let user = User { id: 0, name: "Bufferfish".to_string() };
    let message = JoinMessage { user };

    message.encode(&mut bf).unwrap();

    assert_eq!(
        bf.as_ref(),
        &[0, 0, 0, 0, 0, 0, 0, 10, 66, 117, 102, 102, 101, 114, 102, 105, 115, 104]
    );
}

#[test]
fn test_encode_into_array() {
    let users = users();

    let mut bf = Bufferfish::new();
    users.encode(&mut bf).unwrap();

    assert_eq!(
        bf.as_ref(),
        &[
            0, 2, 0, 0, 0, 0, 0, 10, 66, 117, 102, 102, 101, 114, 102, 105, 115, 104, 0, 0, 0, 1,
            0, 11, 66, 117, 102, 102, 101, 114, 102, 105, 115, 104, 50,
        ]
    );
}

#[test]
fn test_encode_into_enums() {
    let mut bf = Bufferfish::new();
    let message = ClassMessage { class: Class::Warrior };

    message.encode(&mut bf).unwrap();

    assert_eq!(bf.as_ref(), &[0, 0, 0]);
}

#[test]
fn test_decode_struct() {
    let mut bf = Bufferfish::new();
    bf.write_u32(0).unwrap();
    bf.write_string("Bufferfish").unwrap();

    let user = User::decode(&mut bf).unwrap();

    assert_eq!(user.id, 0);
    assert_eq!(user.name, "Bufferfish");
}

#[test]
fn test_decode_array() {
    let users = users();

    let mut bf = Bufferfish::new();
    bf.write_array(&users).unwrap();

    let result = Vec::<User>::decode(&mut bf).unwrap();

    assert_eq!(
        result,
        vec![
            User { id: 0, name: "Bufferfish".to_string() },
            User { id: 1, name: "Bufferfish2".to_string() }
        ]
    );
}

#[test]
fn test_decode_with_message_id() {
    let mut bf = NameMessage { user: "Bufferfish".to_string() }.to_bufferfish().unwrap();

    let result = NameMessage::decode(&mut bf).unwrap();

    assert_eq!(result.user, "Bufferfish");
}

#[test]
fn test_decode_nested_data() {
    #[derive(Debug, Clone, Copy, PartialEq)]
    enum Role {
        User,
    }

    impl Encodable for Role {
        fn encode_value(&self, bf: &mut Bufferfish) -> Result<(), BufferfishError> {
            match self {
                Role::User => {
                    bf.write_variant_index(0)?;
                }
            }
            Ok(())
        }
    }

    impl Decodable for Role {
        fn decode_value(bf: &mut Bufferfish) -> Result<Self, BufferfishError> {
            let variant_idx = bf.read_variant_index(1)?;
            match variant_idx {
                0 => Ok(Self::User),
                _ => Err(BufferfishError::InvalidEnumVariant),
            }
        }

        fn min_bytes_required() -> Option<usize> {
            enum_min_bytes(false, &[fields_min_bytes(&[])])
        }

        fn max_bytes_allowed() -> Option<usize> {
            enum_max_bytes(false, &[fields_max_bytes(&[])])
        }
    }

    pub struct JoinMessage {
        user: User,
        role: Role,
    }

    impl Encodable for JoinMessage {
        fn encode_value(&self, bf: &mut Bufferfish) -> Result<(), BufferfishError> {
            self.user.encode_value(bf)?;
            self.role.encode_value(bf)?;
            Ok(())
        }
    }

    impl Decodable for JoinMessage {
        fn decode_value(bf: &mut Bufferfish) -> Result<Self, BufferfishError> {
            Ok(JoinMessage { user: User::decode_value(bf)?, role: Role::decode_value(bf)? })
        }

        fn min_bytes_required() -> Option<usize> {
            struct_min_bytes(false, &[User::min_bytes_required(), Role::min_bytes_required()])
        }

        fn max_bytes_allowed() -> Option<usize> {
            struct_max_bytes(false, &[User::max_bytes_allowed(), Role::max_bytes_allowed()])
        }
    }

    let mut bf = JoinMessage {
        user: User { id: 0, name: "Bufferfish".to_string() },
        role: Role::User,
    }
    .to_bufferfish()
    .unwrap();

    let result = JoinMessage::decode(&mut bf).unwrap();

    assert_eq!(result.user, User { id: 0, name: "Bufferfish".to_string() });
    assert_eq!(result.role, Role::User);
}

#[test]
fn test_decode_undersized_bufferfish() {
    let mut bf = Bufferfish::new();
    bf.write_u32(0).unwrap();

    let result = User::decode(&mut bf);

    assert!(result.is_err());
}

#[test]
fn test_decode_malformed_data() {
    let mut bf = Bufferfish::new();
    bf.write_u32(0).unwrap();
    bf.write_u8(0).unwrap();

    let result = User::decode(&mut bf);

    assert!(result.is_err());
}

#[test]
fn test_decode_into_struct() {
    let mut bf = Bufferfish::new();
    bf.write_u32(0).unwrap();
    bf.write_string("Bufferfish").unwrap();

    let user = User::from_bufferfish(&mut bf).unwrap();

    assert_eq!(user.id, 0);
    assert_eq!(user.name, "Bufferfish");
}

#[test]
fn test_decode_too_small_into_struct() {
    // Minimum of 6 bytes: 4 bytes for u32 and 2 bytes for string length
    let mut bf_err = Bufferfish::from(vec![0, 0, 0, 0, 0]);
    let mut bf_ok = Bufferfish::from(vec![0, 0, 0, 0, 0, 0]);

    let result_should_err = User::from_bufferfish(&mut bf_err);
    let result_should_ok = User::from_bufferfish(&mut bf_ok);

    assert!(result_should_err.is_err());
    assert!(result_should_ok.is_ok());
}

#[test]
fn test_decode_too_large_into_struct() {
    let mut bf_err = Bufferfish::from(vec![0, 0, 0, 0, 0]);
    let mut bf_ok = Bufferfish::from(vec![0, 0, 0, 0]);

    let result_should_err = Id::from_bufferfish(&mut bf_err);
    let result_should_ok = Id::from_bufferfish(&mut bf_ok);

    assert!(result_should_err.is_err());
    assert!(result_should_ok.is_ok());
    assert_eq!(result_should_ok.unwrap().id, 0);
}

#[test]
fn test_encode_decode_complex_enums() {
    enum Object {
        Variant1 { a: u32, b: String },
        Variant2 { c: i32, d: bool },
    }

    impl Encodable for Object {
        fn encode_value(&self, bf: &mut Bufferfish) -> Result<(), BufferfishError> {
            match self {
                Object::Variant1 { a, b } => {
                    bf.write_variant_index(0)?;
                    a.encode_value(bf)?;
                    b.encode_value(bf)?;
                }
                Object::Variant2 { c, d } => {
                    bf.write_variant_index(1)?;
                    c.encode_value(bf)?;
                    d.encode_value(bf)?;
                }
            }
            Ok(())
        }
    }

    impl Decodable for Object {
        fn decode_value(bf: &mut Bufferfish) -> Result<Self, BufferfishError> {
            let variant_idx = bf.read_variant_index(2)?;
            match variant_idx {
                0 => Ok(Self::Variant1 { a: u32::decode_value(bf)?, b: String::decode_value(bf)? }),
                1 => Ok(Self::Variant2 { c: i32::decode_value(bf)?, d: bool::decode_value(bf)? }),
                _ => Err(BufferfishError::InvalidEnumVariant),
            }
        }

        fn min_bytes_required() -> Option<usize> {
            enum_min_bytes(
                false,
                &[
                    fields_min_bytes(&[u32::min_bytes_required(), String::min_bytes_required()]),
                    fields_min_bytes(&[i32::min_bytes_required(), bool::min_bytes_required()]),
                ],
            )
        }

        fn max_bytes_allowed() -> Option<usize> {
            enum_max_bytes(
                false,
                &[
                    fields_max_bytes(&[u32::max_bytes_allowed(), String::max_bytes_allowed()]),
                    fields_max_bytes(&[i32::max_bytes_allowed(), bool::max_bytes_allowed()]),
                ],
            )
        }
    }

    enum Complex {
        Object(Object),
        Stringly(String),
        Simple(u8),
        Other,
    }

    impl Encodable for Complex {
        fn encode_value(&self, bf: &mut Bufferfish) -> Result<(), BufferfishError> {
            match self {
                Complex::Object(f0) => {
                    bf.write_variant_index(0)?;
                    f0.encode_value(bf)?;
                }
                Complex::Stringly(f0) => {
                    bf.write_variant_index(1)?;
                    f0.encode_value(bf)?;
                }
                Complex::Simple(f0) => {
                    bf.write_variant_index(2)?;
                    f0.encode_value(bf)?;
                }
                Complex::Other => {
                    bf.write_variant_index(3)?;
                }
            }
            Ok(())
        }
    }

    impl Decodable for Complex {
        fn decode_value(bf: &mut Bufferfish) -> Result<Self, BufferfishError> {
            let variant_idx = bf.read_variant_index(4)?;
            match variant_idx {
                0 => Ok(Self::Object(Object::decode_value(bf)?)),
                1 => Ok(Self::Stringly(String::decode_value(bf)?)),
                2 => Ok(Self::Simple(u8::decode_value(bf)?)),
                3 => Ok(Self::Other),
                _ => Err(BufferfishError::InvalidEnumVariant),
            }
        }

        fn min_bytes_required() -> Option<usize> {
            enum_min_bytes(
                false,
                &[
                    fields_min_bytes(&[Object::min_bytes_required()]),
                    fields_min_bytes(&[String::min_bytes_required()]),
                    fields_min_bytes(&[u8::min_bytes_required()]),
                    fields_min_bytes(&[]),
                ],
            )
        }

        fn max_bytes_allowed() -> Option<usize> {
            enum_max_bytes(
                false,
                &[
                    fields_max_bytes(&[Object::max_bytes_allowed()]),
                    fields_max_bytes(&[String::max_bytes_allowed()]),
                    fields_max_bytes(&[u8::max_bytes_allowed()]),
                    fields_max_bytes(&[]),
                ],
            )
        }
    }

    struct ObjectContainer {
        complex: Complex,
    }

    impl Encodable for ObjectContainer {
        fn encode_value(&self, bf: &mut Bufferfish) -> Result<(), BufferfishError> {
            self.complex.encode_value(bf)?;
            Ok(())
        }

        fn encode(&self, bf: &mut Bufferfish) -> Result<(), BufferfishError> {
            encode_with_id(self, u16::from(ObjectId::Test), bf)
        }
    }

    impl Decodable for ObjectContainer {
        fn decode(bf: &mut Bufferfish) -> Result<Self, BufferfishError> {
            decode_with_id(bf, u16::from(ObjectId::Test))
        }

        fn decode_value(bf: &mut Bufferfish) -> Result<Self, BufferfishError> {
            Ok(ObjectContainer { complex: Complex::decode_value(bf)? })
        }

        fn min_bytes_required() -> Option<usize> {
            struct_min_bytes(true, &[Complex::min_bytes_required()])
        }

        fn max_bytes_allowed() -> Option<usize> {
            struct_max_bytes(true, &[Complex::max_bytes_allowed()])
        }
    }

    #[allow(dead_code)]
    enum ObjectId {
        Test,
    }

    impl From<ObjectId> for u16 {
        fn from(value: ObjectId) -> Self {
            match value {
                ObjectId::Test => 0,
            }
        }
    }

    let mut bf = Bufferfish::new();
    let complex = ObjectContainer {
        complex: Complex::Object(Object::Variant1 { a: 42, b: "Hello".to_string() }),
    };

    complex.encode(&mut bf).unwrap();

    let decoded = ObjectContainer::decode(&mut bf).unwrap();

    match decoded.complex {
        Complex::Object(Object::Variant1 { a, b }) => {
            assert_eq!(a, 42);
            assert_eq!(b, "Hello");
        }
        _ => panic!("Decoded complex type did not match expected variant"),
    }
}

#[test]
fn test_manual_encode_decode_impl() {
    #[derive(Debug)]
    struct CustomType {
        value: u32,
    }

    impl Encodable for CustomType {
        fn encode_value(&self, bf: &mut Bufferfish) -> Result<(), BufferfishError> {
            bf.write_u32(self.value)
        }
    }

    impl Decodable for CustomType {
        fn decode_value(bf: &mut Bufferfish) -> Result<Self, BufferfishError> {
            let value = bf.read_u32()?;
            Ok(CustomType { value })
        }
    }

    let mut bf = Bufferfish::new();
    let custom = CustomType { value: 42 };
    custom.encode(&mut bf).unwrap();
    assert_eq!(bf.as_ref(), &[0, 0, 0, 42]);

    let decoded = CustomType::decode(&mut bf).unwrap();
    assert_eq!(decoded.value, 42);
}

#[test]
fn test_optional_encode() {
    let mut bf = Bufferfish::new();
    let container_with_value = OptionContainer { value: Some(42) };
    let container_without_value = OptionContainer { value: None };

    container_with_value.encode(&mut bf).unwrap();
    container_without_value.encode(&mut bf).unwrap();

    assert_eq!(bf.as_ref(), &[1, 0, 0, 0, 42, 0]);
}

#[test]
fn test_optional_decode_some() {
    let mut bf = Bufferfish::new();
    bf.write_option(&Some(42u32)).unwrap();

    let container_with_value = OptionContainer::decode(&mut bf).unwrap();

    assert_eq!(container_with_value.value, Some(42));
}

#[test]
fn test_optional_decode_none() {
    let mut bf = Bufferfish::new();
    bf.write_option(&None::<u32>).unwrap();

    let container_without_value = OptionContainer::decode(&mut bf).unwrap();

    assert_eq!(container_without_value.value, None);
}

#[test]
fn test_encode_decode_with_option() {
    let mut bf = Bufferfish::new();
    let user_with_age = AgedUser { id: 1, name: "Bufferfish".to_string(), age: Some(10) };
    let user_without_age = AgedUser { id: 2, name: "Bufferfish2".to_string(), age: None };

    user_with_age.encode(&mut bf).unwrap();
    user_without_age.encode(&mut bf).unwrap();

    let decoded_user_with_age = AgedUser::decode(&mut bf).unwrap();
    let decoded_user_without_age = AgedUser::decode(&mut bf).unwrap();

    assert_eq!(decoded_user_with_age.id, 1);
    assert_eq!(decoded_user_with_age.name, "Bufferfish");
    assert_eq!(decoded_user_with_age.age, Some(10));

    assert_eq!(decoded_user_without_age.id, 2);
    assert_eq!(decoded_user_without_age.name, "Bufferfish2");
    assert_eq!(decoded_user_without_age.age, None);
}

#[test]
fn encode_struct() {
    let foo = Bare { bar: 42 };
    let bf: Bufferfish = foo.to_bufferfish().unwrap();

    assert_eq!(bf.len(), 1);
}

#[test]
fn encode_unit_struct() {
    struct Nothing;

    impl Encodable for Nothing {
        fn encode_value(&self, _bf: &mut Bufferfish) -> Result<(), BufferfishError> {
            Ok(())
        }
    }

    let foo = Nothing;
    let bf: Bufferfish = foo.to_bufferfish().unwrap();

    assert_eq!(bf.len(), 0);
}

#[test]
fn encode_tuple_struct() {
    struct Single(u8);

    impl Encodable for Single {
        fn encode_value(&self, bf: &mut Bufferfish) -> Result<(), BufferfishError> {
            self.0.encode_value(bf)?;
            Ok(())
        }
    }

    let foo = Single(42);
    let bf: Bufferfish = foo.to_bufferfish().unwrap();

    assert_eq!(bf.len(), 1);
}
