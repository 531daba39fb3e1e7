use serde_eetf::encode_bool;
use serde_eetf::encode_bytes;
use serde_eetf::encode_char;
use serde_eetf::encode_f64_bits;
use serde_eetf::encode_i64;
use serde_eetf::encode_none;
use serde_eetf::encode_str;
use serde_eetf::encode_u16;
use serde_eetf::encode_u32;
use serde_eetf::encode_u64;
use serde_eetf::encode_u8;
use serde_eetf::encode_unit;
use serde_eetf::encode_unit_variant;
use serde_eetf::encode_value;
use serde_eetf::Error;
use serde_eetf::MapBuilder;
use serde_eetf::NamedMapBuilder;
use serde_eetf::NamedSequenceBuilder;
use serde_eetf::SequenceBuilder;
use serde_eetf::Term;
use serde_eetf::Value;

#[test]
fn test_unsigned_ints_and_structs() {
    let record = Value::Record(vec![
        ("unsigned8".to_string(), Value::U8(129)),
        ("unsigned16".to_string(), Value::U16(65530)),
        ("unsigned32".to_string(), Value::U32(65530)),
        ("unsigned64".to_string(), Value::U64(65530)),
    ]);
    let result = encode_value(&record).expect("serialize failed");
    assert_eq!(
        result,
        Term::Mapping(vec![
            (
                Term::Atom("unsigned8".to_string()),
                Term::FixInteger(129)
            ),
            (
                Term::Atom("unsigned16".to_string()),
                Term::FixInteger(65530)
            ),
            (
                Term::Atom("unsigned32".to_string()),
                Term::BigInteger(65530)
            ),
            (
                Term::Atom("unsigned64".to_string()),
                Term::BigInteger(65530)
            ),
        ])
    )
}

#[test]
fn test_signed_ints_and_tuple_structs() {
    let tuple_struct = Value::Tuple(vec![
        Value::I8(-127),
        Value::I16(30000),
        Value::I32(65530),
        Value::I64(65530),
    ]);
    let result = encode_value(&tuple_struct).expect("serialize failed");
    assert_eq!(
        result,
        Term::Tuple(vec![
            Term::FixInteger(-127),
            Term::FixInteger(30000),
            Term::FixInteger(65530),
            Term::BigInteger(65530),
        ])
    )
}

#[test]
fn test_binaries_tuples_and_lists() {
    let pair = Value::Tuple(vec![
        Value::Text("ABCD".to_string()),
        Value::Sequence(vec![Value::I32(0), Value::I32(1), Value::I32(2)]),
    ]);
    let result = encode_value(&pair).expect("serialize failed");
    assert_eq!(
        result,
        Term::Tuple(vec![
            Term::Binary("ABCD".as_bytes().to_vec()),
            Term::List(vec![
                Term::FixInteger(0),
                Term::FixInteger(1),
                Term::FixInteger(2),
            ]),
        ])
    )
}

#[test]
fn test_option() {
    let nil_result = encode_value(&Value::OptNone).expect("serialize failed");
    let some_result =
        encode_value(&Value::OptSome(Box::new(Value::U8(0)))).expect("serialize failed");

    assert_eq!(nil_result, Term::Atom("nil".to_string()));

    assert_eq!(some_result, Term::FixInteger(0));
}

#[test]
fn test_unit_variant() {
    let result = encode_value(&Value::UnitVariant("AnOption".to_string())).expect(
        "serialize failed",
    );

    assert_eq!(result, Term::Atom("an_option".to_string()))
}

#[test]
fn test_newtype_variant() {
    let result = encode_value(&Value::NewtypeVariant(
        "Ok".to_string(),
        Box::new(Value::Text("test".to_string())),
    ))
    .expect("serialize failed");

    assert_eq!(
        result,
        Term::Tuple(vec![
            Term::Atom("ok".to_string()),
            Term::Binary("test".as_bytes().to_vec()),
        ])
    );
}

#[test]
fn test_tuple_variant() {
    let result = encode_value(&Value::TupleVariant(
        "Ok".to_string(),
        vec![Value::U8(1), Value::U8(2)],
    ))
    .expect("serialize failed");

    assert_eq!(
        result,
        Term::Tuple(vec![
            Term::Atom("ok".to_string()),
            Term::Tuple(vec![Term::FixInteger(1), Term::FixInteger(2)]),
        ])
    );
}

#[test]
fn test_integer_widths() {
    assert_eq!(encode_u8(200), Term::FixInteger(200));
    assert_eq!(encode_u16(65535), Term::FixInteger(65535));
    assert_eq!(encode_u32(65530), Term::BigInteger(65530));
    assert_eq!(encode_u64(u64::MAX), Term::BigInteger(u64::MAX as i128));
    assert_eq!(encode_i64(i64::MIN), Term::BigInteger(i64::MIN as i128));
}

#[test]
fn test_booleans_and_unit() {
    assert_eq!(encode_bool(true), Term::Atom("true".to_string()));
    assert_eq!(encode_bool(false), Term::Atom("false".to_string()));
    assert_eq!(encode_unit(), Term::Atom("nil".to_string()));
    assert_eq!(encode_none(), Term::Atom("nil".to_string()));
}

#[test]
fn test_strings_and_chars() {
    assert_eq!(
        encode_str("hé€😀"),
        Term::Binary(vec![0x68, 0xc3, 0xa9, 0xe2, 0x82, 0xac, 0xf0, 0x9f, 0x98, 0x80])
    );
    assert_eq!(encode_char('A'), Term::Binary(vec![0x41]));
    assert_eq!(encode_char('é'), Term::Binary(vec![0xc3, 0xa9]));
    assert_eq!(encode_char('€'), Term::Binary(vec![0xe2, 0x82, 0xac]));
    assert_eq!(encode_char('😀'), Term::Binary(vec![0xf0, 0x9f, 0x98, 0x80]));
    assert_eq!(encode_bytes(&[0xff, 0x00]), Term::Binary(vec![0xff, 0x00]));
}

#[test]
fn test_floats() {
    let bits = 159.1f64.to_bits();
    assert_eq!(encode_f64_bits(bits), Ok(Term::Float(bits)));
    let nan_bits = f64::NAN.to_bits();
    assert_eq!(encode_f64_bits(nan_bits), Err(Error::FloatConvertError));
    let inf_bits = f64::INFINITY.to_bits();
    assert_eq!(encode_f64_bits(inf_bits), Err(Error::FloatConvertError));
}

#[test]
fn test_float_inside_record_fails_encode() {
    let record = Value::Record(vec![
        ("ok_field".to_string(), Value::U8(1)),
        ("bad_field".to_string(), Value::Float(f64::NAN.to_bits())),
    ]);
    assert_eq!(encode_value(&record), Err(Error::FloatConvertError));
}

#[test]
fn test_sequence_builder() {
    let mut builder = SequenceBuilder::new();
    builder.push(encode_u8(1));
    builder.push(encode_u8(2));
    let result = builder.end_list();
    assert_eq!(
        result,
        Term::List(vec![Term::FixInteger(1), Term::FixInteger(2)])
    );

    let mut builder = SequenceBuilder::new();
    builder.push(encode_bool(true));
    let result = builder.end_tuple();
    assert_eq!(result, Term::Tuple(vec![Term::Atom("true".to_string())]));
}

#[test]
fn test_named_builders() {
    let mut builder = NamedSequenceBuilder::new("BadRequest");
    builder.push(encode_u8(4));
    assert_eq!(
        builder.end(),
        Term::Tuple(vec![
            Term::Atom("bad_request".to_string()),
            Term::Tuple(vec![Term::FixInteger(4)]),
        ])
    );

    let mut builder = NamedMapBuilder::new("SomeError");
    builder.push_field("code", encode_u8(7));
    assert_eq!(
        builder.end(),
        Term::Tuple(vec![
            Term::Atom("some_error".to_string()),
            Term::Mapping(vec![(
                Term::Atom("code".to_string()),
                Term::FixInteger(7)
            )]),
        ])
    );
}

#[test]
fn test_map_builder_keeps_order_and_duplicates() {
    let mut builder = MapBuilder::new();
    builder.push_entry(encode_str("k"), encode_u8(1));
    builder.push_entry(encode_str("k"), encode_u8(2));
    assert_eq!(
        builder.end(),
        Term::Mapping(vec![
            (Term::Binary(vec![0x6b]), Term::FixInteger(1)),
            (Term::Binary(vec![0x6b]), Term::FixInteger(2)),
        ])
    );
}

#[test]
fn test_unit_variant_casing() {
    assert_eq!(
        encode_unit_variant("HTTPResponse"),
        Term::Atom("http_response".to_string())
    );
    assert_eq!(
        encode_unit_variant("already_snake"),
        Term::Atom("already_snake".to_string())
    );
}
