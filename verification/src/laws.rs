//! The laws of the codec: what holds of encoding and decoding together.
use vstd::prelude::*;
use vstd::utf8::encode_utf8;
use vstd::utf8::valid_utf8;

use crate::casing::snake_of;
use crate::de::decode_entries_m;
use crate::de::decode_list_m;
use crate::de::decode_m;
use crate::de::decode_record_m;
use crate::de::decode_tagged_m;
use crate::de::decode_tuple_m;
use crate::de::find_variant;
use crate::error::ErrorV;
use crate::ser::encode_entries_m;
use crate::ser::encode_fields_m;
use crate::ser::encode_m;
use crate::ser::encode_seq_m;
use crate::ser::is_finite_bits;
use crate::shape::ShapeV;
use crate::shape::VariantKindV;
use crate::term::TermV;
use crate::value::ValueV;

verus! {

/// Whether this value's wire form is exactly the atom `nil`.
///
/// An absent optional, a unit, a unit struct, a unit variant whose wire
/// name is `nil`, and any transparent wrapper around one of these all
/// encode to `nil`.
pub open spec fn encodes_nil(v: ValueV) -> bool {
    encode_m(v) == Ok::<TermV, ErrorV>(TermV::Atom("nil"@))
}

/// Whether a value is of the given shape and survives the trip onto the
/// wire and back.
///
/// Beyond plain shape conformance this demands the three things the wire
/// convention cannot carry: a float must be finite (a non-finite one is
/// not expressible in the wire float and is rejected at encode time), a
/// present optional must not hold a value that encodes to `nil` (the
/// documented collapse of `nil`-valued payloads with the absent optional),
/// and an enum variant name must already be in its snake_case wire form
/// (the case conversion applied at the atom boundary is not undone on
/// decode).
pub open spec fn conforms(v: ValueV, s: ShapeV) -> bool
    decreases v,
{
    match v {
        ValueV::Bool(_) => s is Bool,
        ValueV::I8(_) => s is I8,
        ValueV::I16(_) => s is I16,
        ValueV::I32(_) => s is I32,
        ValueV::I64(_) => s is I64,
        ValueV::U8(_) => s is U8,
        ValueV::U16(_) => s is U16,
        ValueV::U32(_) => s is U32,
        ValueV::U64(_) => s is U64,
        ValueV::Float(bits) => s is Float && is_finite_bits(bits),
        ValueV::Char(_) => s is Char,
        ValueV::Text(_) => s is Text,
        ValueV::Bytes(_) => s is Bytes,
        ValueV::OptNone => s is Optional,
        ValueV::OptSome(inner) => s matches ShapeV::Optional(inner_s) && conforms(
            *inner,
            *inner_s,
        ) && !encodes_nil(*inner),
        ValueV::Unit => s is Unit,
        ValueV::UnitStruct(name) => s matches ShapeV::UnitStruct(m) && name == m,
        ValueV::Newtype(inner) => s matches ShapeV::Newtype(inner_s) && conforms(
            *inner,
            *inner_s,
        ),
        ValueV::Sequence(items) => s matches ShapeV::Sequence(elem) && conforms_seq(items, *elem),
        ValueV::Tuple(items) => s matches ShapeV::Tuple(ss) && items.len() == ss.len()
            && conforms_tuple(items, ss),
        ValueV::Mapping(entries) => s matches ShapeV::Mapping(ks, vs) && conforms_entries(
            entries,
            *ks,
            *vs,
        ),
        ValueV::Record(fields) => s matches ShapeV::Record(fs) && conforms_fields(fields, fs),
        ValueV::UnitVariant(name) => s matches ShapeV::Enum(vars) && snake_of(name) == name && ({
            let idx = find_variant(vars, name);
            idx >= 0 && vars[idx].kind is Unit
        }),
        ValueV::NewtypeVariant(name, inner) => s matches ShapeV::Enum(vars) && snake_of(name)
            == name && ({
            let idx = find_variant(vars, name);
            &&& idx >= 0
            &&& vars[idx].kind matches VariantKindV::Newtype(inner_s)
            &&& conforms(*inner, *inner_s)
        }),
        ValueV::TupleVariant(name, items) => s matches ShapeV::Enum(vars) && snake_of(name)
            == name && ({
            let idx = find_variant(vars, name);
            &&& idx >= 0
            &&& vars[idx].kind matches VariantKindV::Tuple(ss)
            &&& items.len() == ss.len()
            &&& conforms_tuple(items, ss)
        }),
        ValueV::RecordVariant(name, fields) => s matches ShapeV::Enum(vars) && snake_of(name)
            == name && ({
            let idx = find_variant(vars, name);
            &&& idx >= 0
            &&& vars[idx].kind matches VariantKindV::Record(fs)
            &&& conforms_fields(fields, fs)
        }),
    }
}

/// Every element of a sequence conforms to the element shape.
pub open spec fn conforms_seq(items: Seq<ValueV>, elem: ShapeV) -> bool
    decreases items,
{
    items.len() == 0 || (conforms(items[0], elem) && conforms_seq(
        items.subrange(1, items.len() as int),
        elem,
    ))
}

/// The elements of a fixed tuple conform pointwise to its element shapes.
pub open spec fn conforms_tuple(items: Seq<ValueV>, ss: Seq<ShapeV>) -> bool
    decreases items,
{
    if items.len() == 0 {
        ss.len() == 0
    } else {
        ss.len() == items.len() && conforms(items[0], ss[0]) && conforms_tuple(
            items.subrange(1, items.len() as int),
            ss.subrange(1, ss.len() as int),
        )
    }
}

/// Every key and value of a map conforms to the key and value shapes.
pub open spec fn conforms_entries(entries: Seq<(ValueV, ValueV)>, ks: ShapeV, vs: ShapeV) -> bool
    decreases entries,
{
    entries.len() == 0 || (conforms(entries[0].0, ks) && conforms(entries[0].1, vs)
        && conforms_entries(entries.subrange(1, entries.len() as int), ks, vs))
}

/// The fields of a record carry the declared names in declared order and
/// conform pointwise to the declared field shapes.
pub open spec fn conforms_fields(
    fields: Seq<(Seq<char>, ValueV)>,
    fs: Seq<(Seq<char>, ShapeV)>,
) -> bool
    decreases fields,
{
    if fields.len() == 0 {
        fs.len() == 0
    } else {
        fs.len() == fields.len() && fields[0].0 == fs[0].0 && conforms(fields[0].1, fs[0].1)
            && conforms_fields(
            fields.subrange(1, fields.len() as int),
            fs.subrange(1, fs.len() as int),
        )
    }
}

/// Round trip: a value of a supported shape encodes successfully, and
/// decoding the resulting term under that shape gives back exactly the
/// value.
///
/// The premise [`conforms`] states shape conformance plus the three
/// documented exclusions: non-finite floats (the encoder rejects them), a
/// present optional whose payload encodes to `nil` (the collapse of
/// `Some(unit)` with `None` is part of the wire convention), and enum
/// variant names not already in snake_case (the encoder's case conversion
/// is not undone on decode).
pub proof fn lemma_round_trip(v: ValueV, s: ShapeV)
    requires
        conforms(v, s),
    ensures
        encode_m(v) matches Ok(t) && decode_m(t, s) == Ok::<ValueV, ErrorV>(v),
    decreases v,
{
    broadcast use vstd::utf8::encode_utf8_valid_utf8;
    broadcast use vstd::utf8::encode_utf8_decode_utf8;
    broadcast use vstd::utf8::char_is_scalar;

    reveal_strlit("true");
    reveal_strlit("false");
    reveal_strlit("nil");
    match v {
        ValueV::Char(c) => {
            assert(encode_utf8(seq![c]).len() >= 1) by {
                reveal_with_fuel(vstd::utf8::encode_utf8, 2);
                assert(seq![c].drop_first() =~= Seq::<char>::empty());
            }
            assert(decode_m(TermV::Binary(encode_utf8(seq![c])), ShapeV::Char) == Ok::<
                ValueV,
                ErrorV,
            >(v)) by {
                assert(vstd::utf8::decode_utf8(encode_utf8(seq![c])) == seq![c]);
            }
        },
        ValueV::Text(text) => {
            assert(vstd::utf8::decode_utf8(encode_utf8(text)) == text);
        },
        ValueV::OptSome(inner) => {
            lemma_round_trip(*inner, *s->Optional_0);
        },
        ValueV::Newtype(inner) => {
            lemma_round_trip(*inner, *s->Newtype_0);
        },
        ValueV::Sequence(items) => {
            lemma_round_trip_seq(items, *s->Sequence_0);
        },
        ValueV::Tuple(items) => {
            lemma_round_trip_tuple(items, s->Tuple_0);
        },
        ValueV::Mapping(entries) => {
            lemma_round_trip_entries(entries, *s->Mapping_0, *s->Mapping_1);
            let tps = encode_entries_m(entries)->Ok_0;
            assert(decode_entries_m(tps, s) == Ok::<Seq<(ValueV, ValueV)>, ErrorV>(entries));
        },
        ValueV::Record(fields) => {
            lemma_round_trip_fields(fields, s->Record_0);
        },
        ValueV::UnitVariant(name) => {
            crate::de::lemma_find_variant(s->Enum_0, name);
        },
        ValueV::NewtypeVariant(name, inner) => {
            let vars = s->Enum_0;
            let idx = find_variant(vars, name);
            crate::de::lemma_find_variant(vars, name);
            lemma_round_trip(*inner, *vars[idx].kind->Newtype_0);
            let payload = encode_m(*inner)->Ok_0;
            let t = TermV::Tuple(seq![TermV::Atom(snake_of(name)), payload]);
            assert(t->Tuple_0.len() == 2);
            assert(t->Tuple_0[0] == TermV::Atom(name));
            assert(t->Tuple_0[1] == payload);
            assert(decode_tagged_m(TermV::Atom(name), payload, vars) == Ok::<ValueV, ErrorV>(v));
        },
        ValueV::TupleVariant(name, items) => {
            let vars = s->Enum_0;
            let idx = find_variant(vars, name);
            crate::de::lemma_find_variant(vars, name);
            lemma_round_trip_tuple(items, vars[idx].kind->Tuple_0);
            let pts = encode_seq_m(items)->Ok_0;
            let t = TermV::Tuple(seq![TermV::Atom(snake_of(name)), TermV::Tuple(pts)]);
            assert(t->Tuple_0.len() == 2);
            assert(t->Tuple_0[0] == TermV::Atom(name));
            assert(t->Tuple_0[1] == TermV::Tuple(pts));
            assert(decode_tagged_m(TermV::Atom(name), TermV::Tuple(pts), vars) == Ok::<
                ValueV,
                ErrorV,
            >(v));
        },
        ValueV::RecordVariant(name, fields) => {
            let vars = s->Enum_0;
            let idx = find_variant(vars, name);
            crate::de::lemma_find_variant(vars, name);
            lemma_round_trip_fields(fields, vars[idx].kind->Record_0);
            let tps = encode_fields_m(fields)->Ok_0;
            let t = TermV::Tuple(seq![TermV::Atom(snake_of(name)), TermV::Mapping(tps)]);
            assert(t->Tuple_0.len() == 2);
            assert(t->Tuple_0[0] == TermV::Atom(name));
            assert(t->Tuple_0[1] == TermV::Mapping(tps));
            assert(decode_tagged_m(TermV::Atom(name), TermV::Mapping(tps), vars) == Ok::<
                ValueV,
                ErrorV,
            >(v));
        },
        _ => {
            assert("true"@.len() == 4);
            assert("false"@.len() == 5);
        },
    }
}

/// Round trip for the elements of a sequence, in order.
pub proof fn lemma_round_trip_seq(items: Seq<ValueV>, elem: ShapeV)
    requires
        conforms_seq(items, elem),
    ensures
        encode_seq_m(items) matches Ok(ts) && ts.len() == items.len() && decode_list_m(ts, elem)
            == Ok::<Seq<ValueV>, ErrorV>(items),
    decreases items,
{
    if items.len() == 0 {
        assert(items =~= Seq::<ValueV>::empty());
        assert(encode_seq_m(items) == Ok::<Seq<TermV>, ErrorV>(Seq::empty()));
    } else {
        let rest = items.subrange(1, items.len() as int);
        lemma_round_trip(items[0], elem);
        lemma_round_trip_seq(rest, elem);
        let t0 = encode_m(items[0])->Ok_0;
        let ts_rest = encode_seq_m(rest)->Ok_0;
        let ts = seq![t0] + ts_rest;
        assert(encode_seq_m(items) == Ok::<Seq<TermV>, ErrorV>(ts));
        assert(ts[0] == t0);
        assert(ts.subrange(1, ts.len() as int) =~= ts_rest);
        assert(seq![items[0]] + rest =~= items);
    }
}

/// Round trip for the elements of a fixed tuple, pointwise.
pub proof fn lemma_round_trip_tuple(items: Seq<ValueV>, ss: Seq<ShapeV>)
    requires
        conforms_tuple(items, ss),
    ensures
        encode_seq_m(items) matches Ok(ts) && ts.len() == items.len() && decode_tuple_m(ts, ss)
            == Ok::<Seq<ValueV>, ErrorV>(items),
    decreases items,
{
    if items.len() == 0 {
        assert(items =~= Seq::<ValueV>::empty());
        assert(ss =~= Seq::<ShapeV>::empty());
        assert(encode_seq_m(items) == Ok::<Seq<TermV>, ErrorV>(Seq::empty()));
    } else {
        let rest = items.subrange(1, items.len() as int);
        let ss_rest = ss.subrange(1, ss.len() as int);
        lemma_round_trip(items[0], ss[0]);
        lemma_round_trip_tuple(rest, ss_rest);
        let t0 = encode_m(items[0])->Ok_0;
        let ts_rest = encode_seq_m(rest)->Ok_0;
        let ts = seq![t0] + ts_rest;
        assert(encode_seq_m(items) == Ok::<Seq<TermV>, ErrorV>(ts));
        assert(ts[0] == t0);
        assert(ts.subrange(1, ts.len() as int) =~= ts_rest);
        assert(seq![items[0]] + rest =~= items);
    }
}

/// Round trip for the entries of a map, in order, keys before values.
pub proof fn lemma_round_trip_entries(entries: Seq<(ValueV, ValueV)>, ks: ShapeV, vs: ShapeV)
    requires
        conforms_entries(entries, ks, vs),
    ensures
        encode_entries_m(entries) matches Ok(tps) && tps.len() == entries.len()
            && decode_entries_m(tps, ShapeV::Mapping(Box::new(ks), Box::new(vs))) == Ok::<
            Seq<(ValueV, ValueV)>,
            ErrorV,
        >(entries),
    decreases entries,
{
    let s = ShapeV::Mapping(Box::new(ks), Box::new(vs));
    if entries.len() == 0 {
        assert(entries =~= Seq::<(ValueV, ValueV)>::empty());
        assert(encode_entries_m(entries) == Ok::<Seq<(TermV, TermV)>, ErrorV>(Seq::empty()));
    } else {
        let rest = entries.subrange(1, entries.len() as int);
        lemma_round_trip(entries[0].0, ks);
        lemma_round_trip(entries[0].1, vs);
        lemma_round_trip_entries(rest, ks, vs);
        let k0 = encode_m(entries[0].0)->Ok_0;
        let v0 = encode_m(entries[0].1)->Ok_0;
        let tps_rest = encode_entries_m(rest)->Ok_0;
        let tps = seq![(k0, v0)] + tps_rest;
        assert(encode_entries_m(entries) == Ok::<Seq<(TermV, TermV)>, ErrorV>(tps));
        assert(tps[0] == (k0, v0));
        assert(tps.subrange(1, tps.len() as int) =~= tps_rest);
        assert(seq![entries[0]] + rest =~= entries);
    }
}

/// Round trip for the fields of a record: names survive verbatim, in
/// order, and every entry is consumed.
pub proof fn lemma_round_trip_fields(
    fields: Seq<(Seq<char>, ValueV)>,
    fs: Seq<(Seq<char>, ShapeV)>,
)
    requires
        conforms_fields(fields, fs),
    ensures
        encode_fields_m(fields) matches Ok(tps) && tps.len() == fields.len() && decode_record_m(
            tps,
            fs,
        ) == Ok::<Seq<(Seq<char>, ValueV)>, ErrorV>(fields),
    decreases fields,
{
    if fields.len() == 0 {
        assert(fields =~= Seq::<(Seq<char>, ValueV)>::empty());
        assert(fs =~= Seq::<(Seq<char>, ShapeV)>::empty());
        assert(encode_fields_m(fields) == Ok::<Seq<(TermV, TermV)>, ErrorV>(Seq::empty()));
    } else {
        let rest = fields.subrange(1, fields.len() as int);
        let fs_rest = fs.subrange(1, fs.len() as int);
        lemma_round_trip(fields[0].1, fs[0].1);
        lemma_round_trip_fields(rest, fs_rest);
        let v0 = encode_m(fields[0].1)->Ok_0;
        let tps_rest = encode_fields_m(rest)->Ok_0;
        let tps = seq![(TermV::Atom(fields[0].0), v0)] + tps_rest;
        assert(encode_fields_m(fields) == Ok::<Seq<(TermV, TermV)>, ErrorV>(tps));
        assert(tps[0] == (TermV::Atom(fields[0].0), v0));
        assert(tps.subrange(1, tps.len() as int) =~= tps_rest);
        assert(seq![fields[0]] + rest =~= fields);
    }
}

/// Arity enforcement: a tuple term decoded against a fixed-tuple hint of
/// a different length fails with `WrongTupleLength`, whatever the
/// elements hold.
pub proof fn lemma_wrong_tuple_length(ts: Seq<TermV>, ss: Seq<ShapeV>)
    requires
        ts.len() != ss.len(),
    ensures
        decode_m(TermV::Tuple(ts), ShapeV::Tuple(ss)) == Err::<ValueV, ErrorV>(
            ErrorV::WrongTupleLength,
        ),
{
}

/// Arity enforcement: entries left over after the value-description
/// protocol has consumed every declared record field fail with
/// `TooManyItems`.
pub proof fn lemma_record_leftover_entries(
    fields: Seq<(Seq<char>, ValueV)>,
    fs: Seq<(Seq<char>, ShapeV)>,
    extra: Seq<(TermV, TermV)>,
)
    requires
        conforms_fields(fields, fs),
        extra.len() > 0,
    ensures
        encode_fields_m(fields) matches Ok(tps) && decode_record_m(tps + extra, fs) == Err::<
            Seq<(Seq<char>, ValueV)>,
            ErrorV,
        >(ErrorV::TooManyItems),
    decreases fields,
{
    lemma_round_trip_fields(fields, fs);
    let tps = encode_fields_m(fields)->Ok_0;
    if fields.len() == 0 {
        assert(tps + extra =~= extra);
    } else {
        let rest = fields.subrange(1, fields.len() as int);
        let fs_rest = fs.subrange(1, fs.len() as int);
        lemma_round_trip(fields[0].1, fs[0].1);
        lemma_record_leftover_entries(rest, fs_rest, extra);
        let v0 = encode_m(fields[0].1)->Ok_0;
        let tps_rest = encode_fields_m(rest)->Ok_0;
        assert(tps =~= seq![(TermV::Atom(fields[0].0), v0)] + tps_rest);
        assert((tps + extra)[0] == (TermV::Atom(fields[0].0), v0));
        assert((tps + extra).subrange(1, (tps + extra).len() as int) =~= tps_rest + extra);
    }
}

/// Integer width on decode: a big integer narrowed into an 8-bit target
/// succeeds exactly on the 8-bit range and otherwise fails with
/// `IntegerConvertError`.
pub proof fn lemma_big_integer_to_u8(x: int)
    ensures
        0 <= x <= u8::MAX as int ==> decode_m(TermV::BigInteger(x), ShapeV::U8) == Ok::<
            ValueV,
            ErrorV,
        >(ValueV::U8(x as u8)),
        !(0 <= x <= u8::MAX as int) ==> decode_m(TermV::BigInteger(x), ShapeV::U8) == Err::<
            ValueV,
            ErrorV,
        >(ErrorV::IntegerConvertError),
{
}

/// The UTF-8 boundary: a binary holding invalid UTF-8 fails a string
/// decode with `Utf8DecodeError`, while the very same binary decodes
/// fine into a byte blob.
pub proof fn lemma_utf8_boundary(b: Seq<u8>)
    requires
        !valid_utf8(b),
    ensures
        decode_m(TermV::Binary(b), ShapeV::Text) == Err::<ValueV, ErrorV>(ErrorV::Utf8DecodeError),
        decode_m(TermV::Binary(b), ShapeV::Bytes) == Ok::<ValueV, ErrorV>(ValueV::Bytes(b)),
{
}

/// Whether every float anywhere inside this value is finite.
pub open spec fn floats_finite(v: ValueV) -> bool
    decreases v,
{
    match v {
        ValueV::Float(bits) => is_finite_bits(bits),
        ValueV::OptSome(inner) => floats_finite(*inner),
        ValueV::Newtype(inner) => floats_finite(*inner),
        ValueV::Sequence(items) => floats_finite_seq(items),
        ValueV::Tuple(items) => floats_finite_seq(items),
        ValueV::Mapping(entries) => floats_finite_entries(entries),
        ValueV::Record(fields) => floats_finite_fields(fields),
        ValueV::NewtypeVariant(_, inner) => floats_finite(*inner),
        ValueV::TupleVariant(_, items) => floats_finite_seq(items),
        ValueV::RecordVariant(_, fields) => floats_finite_fields(fields),
        _ => true,
    }
}

/// Whether every float inside a sequence of values is finite.
pub open spec fn floats_finite_seq(items: Seq<ValueV>) -> bool
    decreases items,
{
    items.len() == 0 || (floats_finite(items[0]) && floats_finite_seq(
        items.subrange(1, items.len() as int),
    ))
}

/// Whether every float inside a sequence of key-value pairs is finite.
pub open spec fn floats_finite_entries(entries: Seq<(ValueV, ValueV)>) -> bool
    decreases entries,
{
    entries.len() == 0 || (floats_finite(entries[0].0) && floats_finite(entries[0].1)
        && floats_finite_entries(entries.subrange(1, entries.len() as int)))
}

/// Whether every float inside a sequence of named fields is finite.
pub open spec fn floats_finite_fields(fields: Seq<(Seq<char>, ValueV)>) -> bool
    decreases fields,
{
    fields.len() == 0 || (floats_finite(fields[0].1) && floats_finite_fields(
        fields.subrange(1, fields.len() as int),
    ))
}

/// Totality of the encoder: encoding succeeds on every value whose floats
/// are all finite, and the one way it can fail is a non-finite float,
/// reported as `FloatConvertError`.
pub proof fn lemma_encode_total(v: ValueV)
    ensures
        floats_finite(v) ==> encode_m(v) is Ok,
        !floats_finite(v) ==> encode_m(v) == Err::<TermV, ErrorV>(ErrorV::FloatConvertError),
    decreases v,
{
    match v {
        ValueV::OptSome(inner) => lemma_encode_total(*inner),
        ValueV::Newtype(inner) => lemma_encode_total(*inner),
        ValueV::Sequence(items) => lemma_encode_total_seq(items),
        ValueV::Tuple(items) => lemma_encode_total_seq(items),
        ValueV::Mapping(entries) => lemma_encode_total_entries(entries),
        ValueV::Record(fields) => lemma_encode_total_fields(fields),
        ValueV::NewtypeVariant(_, inner) => lemma_encode_total(*inner),
        ValueV::TupleVariant(_, items) => lemma_encode_total_seq(items),
        ValueV::RecordVariant(_, fields) => lemma_encode_total_fields(fields),
        _ => {},
    }
}

/// Totality of the encoder over a sequence of values.
pub proof fn lemma_encode_total_seq(items: Seq<ValueV>)
    ensures
        floats_finite_seq(items) ==> encode_seq_m(items) is Ok,
        !floats_finite_seq(items) ==> encode_seq_m(items) == Err::<Seq<TermV>, ErrorV>(
            ErrorV::FloatConvertError,
        ),
    decreases items,
{
    if items.len() > 0 {
        lemma_encode_total(items[0]);
        lemma_encode_total_seq(items.subrange(1, items.len() as int));
    }
}

/// Totality of the encoder over a sequence of key-value pairs.
pub proof fn lemma_encode_total_entries(entries: Seq<(ValueV, ValueV)>)
    ensures
        floats_finite_entries(entries) ==> encode_entries_m(entries) is Ok,
        !floats_finite_entries(entries) ==> encode_entries_m(entries) == Err::<
            Seq<(TermV, TermV)>,
            ErrorV,
        >(ErrorV::FloatConvertError),
    decreases entries,
{
    if entries.len() > 0 {
        lemma_encode_total(entries[0].0);
        lemma_encode_total(entries[0].1);
        lemma_encode_total_entries(entries.subrange(1, entries.len() as int));
    }
}

/// Totality of the encoder over a sequence of named fields.
pub proof fn lemma_encode_total_fields(fields: Seq<(Seq<char>, ValueV)>)
    ensures
        floats_finite_fields(fields) ==> encode_fields_m(fields) is Ok,
        !floats_finite_fields(fields) ==> encode_fields_m(fields) == Err::<
            Seq<(TermV, TermV)>,
            ErrorV,
        >(ErrorV::FloatConvertError),
    decreases fields,
{
    if fields.len() > 0 {
        lemma_encode_total(fields[0].1);
        lemma_encode_total_fields(fields.subrange(1, fields.len() as int));
    }
}

} // verus!
