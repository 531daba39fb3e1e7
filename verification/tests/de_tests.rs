use serde_eetf::decode_any;
use serde_eetf::decode_bool;
use serde_eetf::decode_char;
use serde_eetf::decode_f64_bits;
use serde_eetf::decode_i8;
use serde_eetf::decode_identifier;
use serde_eetf::decode_string;
use serde_eetf::decode_u64;
use serde_eetf::decode_u8;
use serde_eetf::decode_unit;
use serde_eetf::decode_value;
use serde_eetf::variant_parts;
use serde_eetf::Error;
use serde_eetf::MapAccess;
use serde_eetf::SeqAccess;
use serde_eetf::Shape;
use serde_eetf::Term;
use serde_eetf::Value;
use serde_eetf::Variant;
use serde_eetf::VariantKind;

#[test]
fn de_test_unsigned_ints_and_structs() {
    let term = Term::Mapping(vec![
        (
            Term::Atom("unsigned8".to_string()),
            Term::FixInteger(129),
        ),
        (
            Term::Atom("unsigned16".to_string()),
            Term::FixInteger(65530),
        ),
        (
            Term::Atom("unsigned32".to_string()),
            Term::BigInteger(65530),
        ),
        (
            Term::Atom("unsigned64".to_string()),
            Term::BigInteger(65530),
        ),
    ]);
    let shape = Shape::Record(vec![
        ("unsigned8".to_string(), Shape::U8),
        ("unsigned16".to_string(), Shape::U16),
        ("unsigned32".to_string(), Shape::U32),
        ("unsigned64".to_string(), Shape::U64),
    ]);
    let result = decode_value(&term, &shape).expect("deserialize failed");

    assert_eq!(
        result,
        Value::Record(vec![
            ("unsigned8".to_string(), Value::U8(129)),
            ("unsigned16".to_string(), Value::U16(65530)),
            ("unsigned32".to_string(), Value::U32(65530)),
            ("unsigned64".to_string(), Value::U64(65530)),
        ])
    )
}

#[test]
fn de_test_signed_ints_and_tuple_structs() {
    let term = Term::Tuple(vec![
        Term::FixInteger(-127),
        Term::FixInteger(30000),
        Term::FixInteger(65530),
        Term::BigInteger(65530),
    ]);
    let shape = Shape::Tuple(vec![Shape::I8, Shape::I16, Shape::I32, Shape::I64]);
    let result = decode_value(&term, &shape).expect("deserialize failed");
    assert_eq!(
        result,
        Value::Tuple(vec![
            Value::I8(-127),
            Value::I16(30000),
            Value::I32(65530),
            Value::I64(65530),
        ])
    )
}

#[test]
fn de_test_binaries_tuples_and_lists() {
    let term = Term::Tuple(vec![
        Term::Binary("ABCD".as_bytes().to_vec()),
        Term::List(vec![
            Term::FixInteger(0),
            Term::FixInteger(1),
            Term::FixInteger(2),
        ]),
    ]);
    let shape = Shape::Tuple(vec![
        Shape::Text,
        Shape::Sequence(Box::new(Shape::U8)),
    ]);
    let result = decode_value(&term, &shape).expect("deserialize failed");

    assert_eq!(
        result,
        Value::Tuple(vec![
            Value::Text("ABCD".to_string()),
            Value::Sequence(vec![Value::U8(0), Value::U8(1), Value::U8(2)]),
        ])
    )
}

#[test]
fn de_test_option() {
    let shape = Shape::Optional(Box::new(Shape::U8));
    let nil_result =
        decode_value(&Term::Atom("nil".to_string()), &shape).expect("deserialize failed");
    let some_result = decode_value(&Term::FixInteger(0), &shape).expect("deserialize failed");

    assert_eq!(nil_result, Value::OptNone);

    assert_eq!(some_result, Value::OptSome(Box::new(Value::U8(0))));
}

#[test]
fn de_test_unit_variant() {
    let shape = Shape::Enum(vec![
        Variant { name: "an_option".to_string(), kind: VariantKind::Unit },
        Variant { name: "another_option".to_string(), kind: VariantKind::Unit },
    ]);
    let result = decode_value(&Term::Atom("an_option".to_string()), &shape).expect(
        "deserialize failed",
    );

    assert_eq!(result, Value::UnitVariant("an_option".to_string()));
}

#[test]
fn de_test_newtype_variant() {
    let shape = Shape::Enum(vec![Variant {
        name: "ok".to_string(),
        kind: VariantKind::Newtype(Box::new(Shape::Text)),
    }]);
    let term = Term::Mapping(vec![(
        Term::Atom("ok".to_string()),
        Term::Binary("test".as_bytes().to_vec()),
    )]);
    let result = decode_value(&term, &shape).expect("deserialize failed");

    assert_eq!(
        result,
        Value::NewtypeVariant("ok".to_string(), Box::new(Value::Text("test".to_string())))
    );
}

#[test]
fn de_test_tuple_variant() {
    let shape = Shape::Enum(vec![Variant {
        name: "ok".to_string(),
        kind: VariantKind::Tuple(vec![Shape::U8, Shape::U8]),
    }]);
    let term = Term::Mapping(vec![(
        Term::Atom("ok".to_string()),
        Term::Tuple(vec![Term::FixInteger(1), Term::FixInteger(2)]),
    )]);
    let result = decode_value(&term, &shape).expect("deserialize failed");

    assert_eq!(
        result,
        Value::TupleVariant("ok".to_string(), vec![Value::U8(1), Value::U8(2)])
    );
}

#[test]
fn test_newtype_variant_both_tagged_forms() {
    let shape = Shape::Enum(vec![Variant {
        name: "ok".to_string(),
        kind: VariantKind::Newtype(Box::new(Shape::Text)),
    }]);
    let tuple_form = Term::Tuple(vec![
        Term::Atom("ok".to_string()),
        Term::Binary("test".as_bytes().to_vec()),
    ]);
    assert_eq!(
        decode_value(&tuple_form, &shape),
        Ok(Value::NewtypeVariant(
            "ok".to_string(),
            Box::new(Value::Text("test".to_string())),
        ))
    );

    let map_form = Term::Mapping(vec![(
        Term::Atom("ok".to_string()),
        Term::Binary("test".as_bytes().to_vec()),
    )]);
    assert_eq!(
        decode_value(&map_form, &shape),
        Ok(Value::NewtypeVariant(
            "ok".to_string(),
            Box::new(Value::Text("test".to_string())),
        ))
    );
}

#[test]
fn test_booleans() {
    assert_eq!(decode_bool(&Term::Atom("true".to_string())), Ok(true));
    assert_eq!(decode_bool(&Term::Atom("false".to_string())), Ok(false));
    assert_eq!(
        decode_bool(&Term::Atom("maybe".to_string())),
        Err(Error::InvalidBoolean)
    );
    assert_eq!(decode_bool(&Term::FixInteger(1)), Err(Error::ExpectedBoolean));
}

#[test]
fn test_integer_narrowing() {
    assert_eq!(decode_u8(&Term::FixInteger(129)), Ok(129));
    assert_eq!(
        decode_u8(&Term::FixInteger(300)),
        Err(Error::IntegerConvertError)
    );
    assert_eq!(
        decode_u8(&Term::BigInteger(300)),
        Err(Error::IntegerConvertError)
    );
    assert_eq!(decode_i8(&Term::FixInteger(-128)), Ok(-128));
    assert_eq!(
        decode_i8(&Term::BigInteger(-129)),
        Err(Error::IntegerConvertError)
    );
    assert_eq!(
        decode_u8(&Term::Atom("seven".to_string())),
        Err(Error::ExpectedFixInteger)
    );
    assert_eq!(
        decode_u64(&Term::BigInteger(u64::MAX as i128)),
        Ok(u64::MAX)
    );
    assert_eq!(decode_u64(&Term::BigInteger(-1)), Err(Error::IntegerConvertError));
}

#[test]
fn test_floats_are_not_integers() {
    let bits = 159.1f64.to_bits();
    assert_eq!(decode_f64_bits(&Term::Float(bits)), Ok(bits));
    assert_eq!(
        decode_f64_bits(&Term::FixInteger(159)),
        Err(Error::ExpectedFloat)
    );
    assert_eq!(decode_u8(&Term::Float(bits)), Err(Error::ExpectedFixInteger));
}

#[test]
fn test_strings_and_chars_decode() {
    assert_eq!(
        decode_string(&Term::Binary("test".as_bytes().to_vec())),
        Ok("test".to_string())
    );
    assert_eq!(
        decode_string(&Term::Atom("test".to_string())),
        Err(Error::ExpectedBinary)
    );
    assert_eq!(decode_char(&Term::Binary(vec![0x41])), Ok('A'));
    assert_eq!(decode_char(&Term::Binary(vec![0xf0, 0x9f, 0x98, 0x80])), Ok('😀'));
    assert_eq!(
        decode_char(&Term::Binary("ab".as_bytes().to_vec())),
        Err(Error::ExpectedChar)
    );
    assert_eq!(decode_char(&Term::FixInteger(65)), Err(Error::ExpectedChar));
}

#[test]
fn test_utf8_boundary() {
    let invalid = vec![0xff, 0xfe, 0xfd];
    assert_eq!(
        decode_string(&Term::Binary(invalid.clone())),
        Err(Error::Utf8DecodeError)
    );
    assert_eq!(
        decode_char(&Term::Binary(invalid.clone())),
        Err(Error::Utf8DecodeError)
    );
    assert_eq!(
        decode_value(&Term::Binary(invalid.clone()), &Shape::Bytes),
        Ok(Value::Bytes(invalid))
    );
}

#[test]
fn test_unit_and_identifier() {
    assert_eq!(decode_unit(&Term::Atom("nil".to_string())), Ok(()));
    assert_eq!(decode_unit(&Term::FixInteger(0)), Err(Error::ExpectedNil));
    assert_eq!(
        decode_identifier(&Term::Atom("name".to_string())),
        Ok("name".to_string())
    );
    assert_eq!(
        decode_identifier(&Term::FixInteger(0)),
        Err(Error::ExpectedAtom)
    );
}

#[test]
fn test_arity_enforcement() {
    let term = Term::Tuple(vec![Term::FixInteger(1), Term::FixInteger(2)]);
    let shape = Shape::Tuple(vec![Shape::U8, Shape::U8, Shape::U8]);
    assert_eq!(decode_value(&term, &shape), Err(Error::WrongTupleLength));

    let record_shape = Shape::Record(vec![("only".to_string(), Shape::U8)]);
    let term = Term::Mapping(vec![
        (Term::Atom("only".to_string()), Term::FixInteger(1)),
        (Term::Atom("extra".to_string()), Term::FixInteger(2)),
    ]);
    assert_eq!(decode_value(&term, &record_shape), Err(Error::TooManyItems));
}

#[test]
fn test_enum_wire_shapes() {
    let shape = Shape::Enum(vec![Variant {
        name: "ok".to_string(),
        kind: VariantKind::Newtype(Box::new(Shape::U8)),
    }]);
    let three = Term::Tuple(vec![
        Term::Atom("ok".to_string()),
        Term::FixInteger(1),
        Term::FixInteger(2),
    ]);
    assert_eq!(
        decode_value(&three, &shape),
        Err(Error::MisSizedVariantTuple)
    );
    assert_eq!(
        decode_value(&Term::FixInteger(1), &shape),
        Err(Error::ExpectedAtomOrTuple)
    );
    let two_entries = Term::Mapping(vec![
        (Term::Atom("ok".to_string()), Term::FixInteger(1)),
        (Term::Atom("ok".to_string()), Term::FixInteger(2)),
    ]);
    assert_eq!(
        decode_value(&two_entries, &shape),
        Err(Error::ExpectedAtomOrTuple)
    );
    let bad_tag = Term::Tuple(vec![Term::FixInteger(0), Term::FixInteger(1)]);
    assert_eq!(decode_value(&bad_tag, &shape), Err(Error::ExpectedAtom));
}

#[test]
fn test_opaque_wire_kinds_are_rejected() {
    assert_eq!(decode_u8(&Term::Pid), Err(Error::ExpectedFixInteger));
    assert_eq!(
        decode_value(&Term::Reference, &Shape::Text),
        Err(Error::ExpectedBinary)
    );
    assert_eq!(decode_any(&Term::Fun), Err(Error::TypeHintsRequired));
    assert_eq!(decode_any(&Term::BigInteger(7)), Err(Error::TypeHintsRequired));
}

#[test]
fn test_generic_decode_fallback() {
    let term = Term::Mapping(vec![
        (
            Term::Atom("data".to_string()),
            Term::Float(159.1f64.to_bits()),
        ),
        (
            Term::Atom("type".to_string()),
            Term::Atom("Float".to_string()),
        ),
    ]);
    let result = decode_any(&term).expect("generic decode failed");
    assert_eq!(
        result,
        Value::Mapping(vec![
            (
                Value::Text("data".to_string()),
                Value::Float(159.1f64.to_bits()),
            ),
            (
                Value::Text("type".to_string()),
                Value::Text("Float".to_string()),
            ),
        ])
    );

    let term = Term::Tuple(vec![Term::FixInteger(3), Term::Binary(vec![1, 2])]);
    assert_eq!(
        decode_any(&term),
        Ok(Value::Sequence(vec![
            Value::I32(3),
            Value::Bytes(vec![1, 2]),
        ]))
    );
}

#[test]
fn test_variant_parts_wire_split() {
    let (tag, payload) = variant_parts(Term::Atom("ok".to_string())).unwrap();
    assert_eq!(tag, Term::Atom("ok".to_string()));
    assert_eq!(payload, None);

    let (tag, payload) = variant_parts(Term::Tuple(vec![
        Term::Atom("ok".to_string()),
        Term::FixInteger(1),
    ]))
    .unwrap();
    assert_eq!(tag, Term::Atom("ok".to_string()));
    assert_eq!(payload, Some(Term::FixInteger(1)));

    let (tag, payload) = variant_parts(Term::Mapping(vec![(
        Term::Atom("ok".to_string()),
        Term::FixInteger(1),
    )]))
    .unwrap();
    assert_eq!(tag, Term::Atom("ok".to_string()));
    assert_eq!(payload, Some(Term::FixInteger(1)));

    assert_eq!(
        variant_parts(Term::Tuple(vec![Term::Atom("ok".to_string())])),
        Err(Error::MisSizedVariantTuple)
    );
    assert_eq!(
        variant_parts(Term::FixInteger(1)),
        Err(Error::ExpectedAtomOrTuple)
    );
}

#[test]
fn test_seq_access_cursor() {
    let mut cursor = SeqAccess::new(vec![Term::FixInteger(1), Term::FixInteger(2)]);
    assert_eq!(cursor.remaining(), 2);
    assert_eq!(cursor.next(), Some(Term::FixInteger(1)));
    assert!(cursor.finish().is_err());
    assert_eq!(cursor.next(), Some(Term::FixInteger(2)));
    assert_eq!(cursor.next(), None);
    assert!(cursor.finish().is_ok());

    let cursor = SeqAccess::new(vec![Term::FixInteger(1)]);
    assert_eq!(cursor.finish(), Err(Error::TooManyItems));
}

#[test]
fn test_map_access_cursor() {
    let mut cursor = MapAccess::new(vec![
        (Term::Atom("a".to_string()), Term::FixInteger(1)),
        (Term::Atom("b".to_string()), Term::FixInteger(2)),
    ]);
    assert_eq!(cursor.remaining(), 2);
    assert_eq!(cursor.next_key(), Some(Term::Atom("a".to_string())));
    assert_eq!(cursor.next_value(), Term::FixInteger(1));
    assert!(cursor.finish().is_err());
    assert_eq!(cursor.next_key(), Some(Term::Atom("b".to_string())));
    assert_eq!(cursor.next_value(), Term::FixInteger(2));
    assert_eq!(cursor.next_key(), None);
    assert!(cursor.finish().is_ok());
}

#[test]
fn test_record_from_list_positionally() {
    let shape = Shape::Record(vec![
        ("x".to_string(), Shape::U8),
        ("y".to_string(), Shape::Text),
    ]);
    let term = Term::List(vec![
        Term::FixInteger(7),
        Term::Binary("hi".as_bytes().to_vec()),
    ]);
    assert_eq!(
        decode_value(&term, &shape),
        Ok(Value::Record(vec![
            ("x".to_string(), Value::U8(7)),
            ("y".to_string(), Value::Text("hi".to_string())),
        ]))
    );
    assert_eq!(
        decode_value(&Term::FixInteger(1), &shape),
        Err(Error::ExpectedMap)
    );
}

#[test]
fn test_record_field_mismatches() {
    let shape = Shape::Record(vec![
        ("x".to_string(), Shape::U8),
        ("y".to_string(), Shape::U8),
    ]);
    let short = Term::Mapping(vec![(Term::Atom("x".to_string()), Term::FixInteger(1))]);
    assert_eq!(
        decode_value(&short, &shape),
        Err(Error::Message("missing field".to_string()))
    );
    let misnamed = Term::Mapping(vec![
        (Term::Atom("x".to_string()), Term::FixInteger(1)),
        (Term::Atom("z".to_string()), Term::FixInteger(2)),
    ]);
    assert_eq!(
        decode_value(&misnamed, &shape),
        Err(Error::Message("missing field".to_string()))
    );
    let bad_key = Term::Mapping(vec![
        (Term::FixInteger(0), Term::FixInteger(1)),
        (Term::Atom("y".to_string()), Term::FixInteger(2)),
    ]);
    assert_eq!(decode_value(&bad_key, &shape), Err(Error::ExpectedAtom));
}

#[test]
fn test_error_descriptions() {
    assert_eq!(
        Error::TooManyItems.description(),
        "Too many items when deserializing sequence"
    );
    assert_eq!(
        Error::Message("custom words".to_string()).description(),
        "custom words"
    );
    assert_eq!(
        Error::MisSizedVariantTuple.description(),
        "Was expecting a tuple of an atom and element"
    );
}
