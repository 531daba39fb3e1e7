use serde_eetf::decode_value;
use serde_eetf::encode_value;
use serde_eetf::Shape;
use serde_eetf::Term;
use serde_eetf::Value;
use serde_eetf::Variant;
use serde_eetf::VariantKind;

#[test]
fn test_round_trip_record() {
    let record = Value::Record(vec![
        ("unsigned8".to_string(), Value::U8(129)),
        ("unsigned16".to_string(), Value::U16(65530)),
        ("unsigned32".to_string(), Value::U32(65530)),
        ("unsigned64".to_string(), Value::U64(65530)),
    ]);
    let shape = Shape::Record(vec![
        ("unsigned8".to_string(), Shape::U8),
        ("unsigned16".to_string(), Shape::U16),
        ("unsigned32".to_string(), Shape::U32),
        ("unsigned64".to_string(), Shape::U64),
    ]);
    let term = encode_value(&record).expect("encode failed");
    let back = decode_value(&term, &shape).expect("decode failed");
    assert_eq!(back, record);
}

#[test]
fn test_round_trip_composites() {
    let value = Value::Tuple(vec![
        Value::Bool(true),
        Value::Text("héllo".to_string()),
        Value::Char('€'),
        Value::Bytes(vec![0xff, 0x00]),
        Value::Sequence(vec![Value::I64(-5), Value::I64(1 << 40)]),
        Value::Mapping(vec![(Value::Text("k".to_string()), Value::U32(7))]),
        Value::OptSome(Box::new(Value::U8(3))),
        Value::Float(2.5f64.to_bits()),
    ]);
    let shape = Shape::Tuple(vec![
        Shape::Bool,
        Shape::Text,
        Shape::Char,
        Shape::Bytes,
        Shape::Sequence(Box::new(Shape::I64)),
        Shape::Mapping(Box::new(Shape::Text), Box::new(Shape::U32)),
        Shape::Optional(Box::new(Shape::U8)),
        Shape::Float,
    ]);
    let term = encode_value(&value).expect("encode failed");
    let back = decode_value(&term, &shape).expect("decode failed");
    assert_eq!(back, value);
}

#[test]
fn test_round_trip_variants() {
    let shape = Shape::Enum(vec![
        Variant { name: "none_at_all".to_string(), kind: VariantKind::Unit },
        Variant {
            name: "pair".to_string(),
            kind: VariantKind::Tuple(vec![Shape::U8, Shape::U8]),
        },
        Variant {
            name: "named".to_string(),
            kind: VariantKind::Record(vec![("x".to_string(), Shape::I32)]),
        },
        Variant {
            name: "wrapped".to_string(),
            kind: VariantKind::Newtype(Box::new(Shape::Text)),
        },
    ]);

    let unit = Value::UnitVariant("none_at_all".to_string());
    let term = encode_value(&unit).expect("encode failed");
    assert_eq!(decode_value(&term, &shape).expect("decode failed"), unit);

    let pair = Value::TupleVariant("pair".to_string(), vec![Value::U8(1), Value::U8(2)]);
    let term = encode_value(&pair).expect("encode failed");
    assert_eq!(decode_value(&term, &shape).expect("decode failed"), pair);

    let named = Value::RecordVariant(
        "named".to_string(),
        vec![("x".to_string(), Value::I32(-7))],
    );
    let term = encode_value(&named).expect("encode failed");
    assert_eq!(decode_value(&term, &shape).expect("decode failed"), named);

    let wrapped = Value::NewtypeVariant(
        "wrapped".to_string(),
        Box::new(Value::Text("test".to_string())),
    );
    let term = encode_value(&wrapped).expect("encode failed");
    assert_eq!(decode_value(&term, &shape).expect("decode failed"), wrapped);
}

#[test]
fn test_option_collapse() {
    let none_term = encode_value(&Value::OptNone).expect("encode failed");
    let some_unit_term =
        encode_value(&Value::OptSome(Box::new(Value::Unit))).expect("encode failed");
    assert_eq!(none_term, some_unit_term);
    assert_eq!(none_term, Term::Atom("nil".to_string()));

    let shape = Shape::Optional(Box::new(Shape::Unit));
    assert_eq!(
        decode_value(&none_term, &shape).expect("decode failed"),
        Value::OptNone
    );
}

#[test]
fn test_newtype_wrapper_is_transparent() {
    let wrapped = Value::Newtype(Box::new(Value::U8(8)));
    let term = encode_value(&wrapped).expect("encode failed");
    assert_eq!(term, Term::FixInteger(8));

    let shape = Shape::Newtype(Box::new(Shape::U8));
    assert_eq!(
        decode_value(&term, &shape).expect("decode failed"),
        wrapped
    );
}

#[test]
fn test_variant_name_casing_is_one_way() {
    // The encoder converts variant names to snake_case at the atom
    // boundary; the decoder hands the wire name back verbatim.  Round
    // trips are exact only for names already in wire form.
    let shape = Shape::Enum(vec![Variant {
        name: "an_option".to_string(),
        kind: VariantKind::Unit,
    }]);
    let camel = Value::UnitVariant("AnOption".to_string());
    let term = encode_value(&camel).expect("encode failed");
    assert_eq!(term, Term::Atom("an_option".to_string()));
    assert_eq!(
        decode_value(&term, &shape).expect("decode failed"),
        Value::UnitVariant("an_option".to_string())
    );
}

#[test]
fn test_unit_struct_encodes_as_nil() {
    let value = Value::UnitStruct("Marker".to_string());
    let term = encode_value(&value).expect("encode failed");
    assert_eq!(term, Term::Atom("nil".to_string()));

    let shape = Shape::UnitStruct("Marker".to_string());
    assert_eq!(decode_value(&term, &shape).expect("decode failed"), value);
}
