//! The decoder: from term tree nodes, under a target-shape hint, back to
//! typed values.
//!
//! Wire terms are not self-describing enough to recover host types unaided,
//! so every typed decode is driven by a [`Shape`].  Every mismatch between
//! the expected shape and the actual node kind is reported immediately as
//! the specific taxonomy member; there is no best-effort coercion, with one
//! exception: under an optional hint, the atom `nil` decodes to an absent
//! optional and any other node decodes to a present one.
use vstd::prelude::*;
use vstd::slice::slice_to_vec;
use vstd::string::StrSliceExecFns;
use vstd::utf8::decode_utf8;
use vstd::utf8::valid_utf8;

use crate::error::result_view;
use crate::error::Error;
use crate::error::ErrorV;
use crate::shape::field_shapes_view;
use crate::shape::lemma_field_shapes_view;
use crate::shape::lemma_shapes_view;
use crate::shape::lemma_variants_view;
use crate::shape::shapes_view;
use crate::shape::variants_view;
use crate::shape::Shape;
use crate::shape::ShapeV;
use crate::shape::Variant;
use crate::shape::VariantKind;
use crate::shape::VariantKindV;
use crate::shape::VariantV;
use crate::term::entries_view;
use crate::term::lemma_entries_view;
use crate::term::lemma_terms_view;
use crate::term::terms_view;
use crate::term::Term;
use crate::term::TermV;
use crate::text::str_eq;
use crate::text::string_from_utf8;
use crate::value::Value;
use crate::value::ValueV;

verus! {

/// The integer carried by a term node: a fixed integer or a big integer,
/// taken at its mathematical value; any other node kind is a mismatch.
pub open spec fn int_of_term(t: TermV) -> Result<int, ErrorV> {
    match t {
        TermV::FixInteger(x) => Ok(x),
        TermV::BigInteger(x) => Ok(x),
        _ => Err(ErrorV::ExpectedFixInteger),
    }
}

/// The index of the first variant with the given wire name, or `-1` when no
/// variant has it.
pub open spec fn find_variant(vars: Seq<VariantV>, name: Seq<char>) -> int
    decreases vars,
{
    if vars.len() == 0 {
        -1
    } else if vars[0].name == name {
        0
    } else {
        let rest = find_variant(vars.subrange(1, vars.len() as int), name);
        if rest < 0 {
            -1
        } else {
            rest + 1
        }
    }
}

/// `find_variant` returns the first index whose variant carries the name,
/// and `-1` exactly when no variant does.
pub proof fn lemma_find_variant(vars: Seq<VariantV>, name: Seq<char>)
    ensures
        find_variant(vars, name) == -1 ==> forall|i: int|
            0 <= i < vars.len() ==> (#[trigger] vars[i]).name != name,
        find_variant(vars, name) != -1 ==> {
            let r = find_variant(vars, name);
            &&& 0 <= r < vars.len()
            &&& vars[r].name == name
            &&& forall|i: int| 0 <= i < r ==> (#[trigger] vars[i]).name != name
        },
    decreases vars,
{
    if vars.len() > 0 && vars[0].name != name {
        lemma_find_variant(vars.subrange(1, vars.len() as int), name);
        let rest = find_variant(vars.subrange(1, vars.len() as int), name);
        assert forall|i: int| 1 <= i < vars.len() implies vars.subrange(1, vars.len() as int)[i
            - 1] == vars[i] by {}
    }
}

/// What the decoder produces for a term under a shape hint: the full
/// mapping from term tree nodes back onto the typed data model.
///
/// Integers narrow with a range check and fail with `IntegerConvertError`
/// on overflow.  Text demands a binary with valid UTF-8.  A fixed-tuple
/// hint demands a tuple of exactly its length.  A record decodes from a
/// map whose atom keys carry the declared field names in declared order
/// (or positionally from a list); entries left over after the last field
/// fail with `TooManyItems`.  An enum decodes from a bare atom (unit
/// variant), from a two-element tuple `{tag, payload}`, or from the
/// equivalent single-entry map; both tagged forms are accepted on decode
/// although the encoder only ever emits the tuple form.
pub open spec fn decode_m(t: TermV, s: ShapeV) -> Result<ValueV, ErrorV>
    decreases s, t,
{
    match s {
        ShapeV::Bool => match t {
            TermV::Atom(n) => if n == "true"@ {
                Ok(ValueV::Bool(true))
            } else if n == "false"@ {
                Ok(ValueV::Bool(false))
            } else {
                Err(ErrorV::InvalidBoolean)
            },
            _ => Err(ErrorV::ExpectedBoolean),
        },
        ShapeV::I8 => match int_of_term(t) {
            Ok(x) => if i8::MIN as int <= x <= i8::MAX as int {
                Ok(ValueV::I8(x as i8))
            } else {
                Err(ErrorV::IntegerConvertError)
            },
            Err(e) => Err(e),
        },
        ShapeV::I16 => match int_of_term(t) {
            Ok(x) => if i16::MIN as int <= x <= i16::MAX as int {
                Ok(ValueV::I16(x as i16))
            } else {
                Err(ErrorV::IntegerConvertError)
            },
            Err(e) => Err(e),
        },
        ShapeV::I32 => match int_of_term(t) {
            Ok(x) => if i32::MIN as int <= x <= i32::MAX as int {
                Ok(ValueV::I32(x as i32))
            } else {
                Err(ErrorV::IntegerConvertError)
            },
            Err(e) => Err(e),
        },
        ShapeV::I64 => match int_of_term(t) {
            Ok(x) => if i64::MIN as int <= x <= i64::MAX as int {
                Ok(ValueV::I64(x as i64))
            } else {
                Err(ErrorV::IntegerConvertError)
            },
            Err(e) => Err(e),
        },
        ShapeV::U8 => match int_of_term(t) {
            Ok(x) => if 0 <= x <= u8::MAX as int {
                Ok(ValueV::U8(x as u8))
            } else {
                Err(ErrorV::IntegerConvertError)
            },
            Err(e) => Err(e),
        },
        ShapeV::U16 => match int_of_term(t) {
            Ok(x) => if 0 <= x <= u16::MAX as int {
                Ok(ValueV::U16(x as u16))
            } else {
                Err(ErrorV::IntegerConvertError)
            },
            Err(e) => Err(e),
        },
        ShapeV::U32 => match int_of_term(t) {
            Ok(x) => if 0 <= x <= u32::MAX as int {
                Ok(ValueV::U32(x as u32))
            } else {
                Err(ErrorV::IntegerConvertError)
            },
            Err(e) => Err(e),
        },
        ShapeV::U64 => match int_of_term(t) {
            Ok(x) => if 0 <= x <= u64::MAX as int {
                Ok(ValueV::U64(x as u64))
            } else {
                Err(ErrorV::IntegerConvertError)
            },
            Err(e) => Err(e),
        },
        ShapeV::Float => match t {
            TermV::Float(bits) => Ok(ValueV::Float(bits)),
            _ => Err(ErrorV::ExpectedFloat),
        },
        ShapeV::Char => match t {
            TermV::Binary(b) => if !valid_utf8(b) {
                Err(ErrorV::Utf8DecodeError)
            } else if decode_utf8(b).len() == 1 {
                Ok(ValueV::Char(decode_utf8(b)[0]))
            } else {
                Err(ErrorV::ExpectedChar)
            },
            _ => Err(ErrorV::ExpectedChar),
        },
        ShapeV::Text => match t {
            TermV::Binary(b) => if valid_utf8(b) {
                Ok(ValueV::Text(decode_utf8(b)))
            } else {
                Err(ErrorV::Utf8DecodeError)
            },
            _ => Err(ErrorV::ExpectedBinary),
        },
        ShapeV::Bytes => match t {
            TermV::Binary(b) => Ok(ValueV::Bytes(b)),
            _ => Err(ErrorV::ExpectedBinary),
        },
        ShapeV::Optional(inner) => if t == TermV::Atom("nil"@) {
            Ok(ValueV::OptNone)
        } else {
            match decode_m(t, *inner) {
                Ok(v) => Ok(ValueV::OptSome(Box::new(v))),
                Err(e) => Err(e),
            }
        },
        ShapeV::Unit => if t == TermV::Atom("nil"@) {
            Ok(ValueV::Unit)
        } else {
            Err(ErrorV::ExpectedNil)
        },
        ShapeV::UnitStruct(name) => if t == TermV::Atom("nil"@) {
            Ok(ValueV::UnitStruct(name))
        } else {
            Err(ErrorV::ExpectedNil)
        },
        ShapeV::Newtype(inner) => match decode_m(t, *inner) {
            Ok(v) => Ok(ValueV::Newtype(Box::new(v))),
            Err(e) => Err(e),
        },
        ShapeV::Sequence(elem) => match t {
            TermV::List(ts) => match decode_list_m(ts, *elem) {
                Ok(vs) => Ok(ValueV::Sequence(vs)),
                Err(e) => Err(e),
            },
            _ => Err(ErrorV::ExpectedList),
        },
        ShapeV::Tuple(ss) => match t {
            TermV::Tuple(ts) => if ts.len() != ss.len() {
                Err(ErrorV::WrongTupleLength)
            } else {
                match decode_tuple_m(ts, ss) {
                    Ok(vs) => Ok(ValueV::Tuple(vs)),
                    Err(e) => Err(e),
                }
            },
            _ => Err(ErrorV::ExpectedTuple),
        },
        ShapeV::Mapping(_, _) => match t {
            TermV::Mapping(ps) => match decode_entries_m(ps, s) {
                Ok(pairs) => Ok(ValueV::Mapping(pairs)),
                Err(e) => Err(e),
            },
            _ => Err(ErrorV::ExpectedMap),
        },
        ShapeV::Record(fs) => match t {
            TermV::Mapping(ps) => match decode_record_m(ps, fs) {
                Ok(fields) => Ok(ValueV::Record(fields)),
                Err(e) => Err(e),
            },
            TermV::List(ts) => match decode_record_list_m(ts, fs) {
                Ok(fields) => Ok(ValueV::Record(fields)),
                Err(e) => Err(e),
            },
            _ => Err(ErrorV::ExpectedMap),
        },
        ShapeV::Enum(vars) => match t {
            TermV::Atom(n) => {
                let idx = find_variant(vars, n);
                if idx < 0 {
                    Err(ErrorV::Message("unknown variant"@))
                } else if vars[idx].kind is Unit {
                    Ok(ValueV::UnitVariant(n))
                } else {
                    Err(ErrorV::ExpectedAtom)
                }
            },
            TermV::Tuple(ts) => if ts.len() != 2 {
                Err(ErrorV::MisSizedVariantTuple)
            } else {
                decode_tagged_m(ts[0], ts[1], vars)
            },
            TermV::Mapping(ps) => if ps.len() != 1 {
                Err(ErrorV::ExpectedAtomOrTuple)
            } else {
                decode_tagged_m(ps[0].0, ps[0].1, vars)
            },
            _ => Err(ErrorV::ExpectedAtomOrTuple),
        },
    }
}

/// Decodes an externally tagged variant: the tag must be an atom naming a
/// known variant; the payload is decoded per that variant's declared shape.
pub open spec fn decode_tagged_m(tag: TermV, payload: TermV, vars: Seq<VariantV>) -> Result<
    ValueV,
    ErrorV,
>
    decreases vars, payload,
    via decode_tagged_m_decreases
{
    match tag {
        TermV::Atom(n) => {
            let idx = find_variant(vars, n);
            if idx < 0 {
                Err(ErrorV::Message("unknown variant"@))
            } else {
                match vars[idx].kind {
                    VariantKindV::Unit => if payload == TermV::Atom("nil"@) {
                        Ok(ValueV::UnitVariant(n))
                    } else {
                        Err(ErrorV::ExpectedNil)
                    },
                    VariantKindV::Newtype(inner) => match decode_m(payload, *inner) {
                        Ok(v) => Ok(ValueV::NewtypeVariant(n, Box::new(v))),
                        Err(e) => Err(e),
                    },
                    VariantKindV::Tuple(ss) => match payload {
                        TermV::Tuple(pts) => if pts.len() != ss.len() {
                            Err(ErrorV::WrongTupleLength)
                        } else {
                            match decode_tuple_m(pts, ss) {
                                Ok(vs) => Ok(ValueV::TupleVariant(n, vs)),
                                Err(e) => Err(e),
                            }
                        },
                        _ => Err(ErrorV::ExpectedTuple),
                    },
                    VariantKindV::Record(fs) => match payload {
                        TermV::Mapping(pps) => match decode_record_m(pps, fs) {
                            Ok(fields) => Ok(ValueV::RecordVariant(n, fields)),
                            Err(e) => Err(e),
                        },
                        TermV::List(pts) => match decode_record_list_m(pts, fs) {
                            Ok(fields) => Ok(ValueV::RecordVariant(n, fields)),
                            Err(e) => Err(e),
                        },
                        _ => Err(ErrorV::ExpectedMap),
                    },
                }
            }
        },
        _ => Err(ErrorV::ExpectedAtom),
    }
}

#[via_fn]
proof fn decode_tagged_m_decreases(tag: TermV, payload: TermV, vars: Seq<VariantV>) {
    match tag {
        TermV::Atom(n) => {
            lemma_find_variant(vars, n);
            let idx = find_variant(vars, n);
            if idx >= 0 {
                assert(decreases_to!(vars => vars[idx]));
                assert(decreases_to!(vars[idx] => vars[idx].kind));
                match vars[idx].kind {
                    VariantKindV::Newtype(inner) => {
                        assert(decreases_to!(vars[idx].kind => *inner));
                    },
                    VariantKindV::Tuple(ss) => {
                        assert(decreases_to!(vars[idx].kind => ss));
                    },
                    VariantKindV::Record(fs) => {
                        assert(decreases_to!(vars[idx].kind => fs));
                    },
                    VariantKindV::Unit => {},
                }
            }
        },
        _ => {},
    }
}

/// Decodes every element of a list under one element shape, in order; the
/// first failure wins.
pub open spec fn decode_list_m(ts: Seq<TermV>, elem: ShapeV) -> Result<Seq<ValueV>, ErrorV>
    decreases elem, ts,
{
    if ts.len() == 0 {
        Ok(Seq::empty())
    } else {
        match decode_m(ts[0], elem) {
            Ok(v) => match decode_list_m(ts.subrange(1, ts.len() as int), elem) {
                Ok(vs) => Ok(seq![v] + vs),
                Err(e) => Err(e),
            },
            Err(e) => Err(e),
        }
    }
}

/// Decodes the elements of a fixed tuple pointwise against its element
/// shapes, in order; the first failure wins.
pub open spec fn decode_tuple_m(ts: Seq<TermV>, ss: Seq<ShapeV>) -> Result<Seq<ValueV>, ErrorV>
    recommends
        ts.len() == ss.len(),
    decreases ss, ts,
{
    if ss.len() == 0 {
        Ok(Seq::empty())
    } else {
        match decode_m(ts[0], ss[0]) {
            Ok(v) => match decode_tuple_m(
                ts.subrange(1, ts.len() as int),
                ss.subrange(1, ss.len() as int),
            ) {
                Ok(vs) => Ok(seq![v] + vs),
                Err(e) => Err(e),
            },
            Err(e) => Err(e),
        }
    }
}

/// Decodes every entry of a map under the key and value shapes of the
/// given map hint, in order, the key of each entry before its value; the
/// first failure wins.  Duplicate keys are passed through unchanged.
pub open spec fn decode_entries_m(ps: Seq<(TermV, TermV)>, s: ShapeV) -> Result<
    Seq<(ValueV, ValueV)>,
    ErrorV,
>
    recommends
        s is Mapping,
    decreases s, ps,
{
    if ps.len() == 0 {
        Ok(Seq::empty())
    } else if !(s is Mapping) {
        Err(ErrorV::ExpectedMap)
    } else {
        match decode_m(ps[0].0, *s->Mapping_0) {
            Ok(k) => match decode_m(ps[0].1, *s->Mapping_1) {
                Ok(v) => match decode_entries_m(ps.subrange(1, ps.len() as int), s) {
                    Ok(rest) => Ok(seq![(k, v)] + rest),
                    Err(e) => Err(e),
                },
                Err(e) => Err(e),
            },
            Err(e) => Err(e),
        }
    }
}

/// Decodes the fields of a record from map entries: the entries must carry
/// the declared field names as atom keys, in declared order; an entry left
/// over after the last field fails with `TooManyItems`, a missing or
/// misplaced field with a protocol-level message, and a non-atom key with
/// `ExpectedAtom`.
pub open spec fn decode_record_m(
    ps: Seq<(TermV, TermV)>,
    fs: Seq<(Seq<char>, ShapeV)>,
) -> Result<Seq<(Seq<char>, ValueV)>, ErrorV>
    decreases fs, ps,
{
    if fs.len() == 0 {
        if ps.len() == 0 {
            Ok(Seq::empty())
        } else {
            Err(ErrorV::TooManyItems)
        }
    } else if ps.len() == 0 {
        Err(ErrorV::Message("missing field"@))
    } else {
        match ps[0].0 {
            TermV::Atom(k) => if k == fs[0].0 {
                match decode_m(ps[0].1, fs[0].1) {
                    Ok(v) => match decode_record_m(
                        ps.subrange(1, ps.len() as int),
                        fs.subrange(1, fs.len() as int),
                    ) {
                        Ok(rest) => Ok(seq![(k, v)] + rest),
                        Err(e) => Err(e),
                    },
                    Err(e) => Err(e),
                }
            } else {
                Err(ErrorV::Message("missing field"@))
            },
            _ => Err(ErrorV::ExpectedAtom),
        }
    }
}

/// Decodes the fields of a record positionally from list elements, in
/// declared order; leftovers fail with `TooManyItems`, missing elements
/// with a protocol-level message.
pub open spec fn decode_record_list_m(
    ts: Seq<TermV>,
    fs: Seq<(Seq<char>, ShapeV)>,
) -> Result<Seq<(Seq<char>, ValueV)>, ErrorV>
    decreases fs, ts,
{
    if fs.len() == 0 {
        if ts.len() == 0 {
            Ok(Seq::empty())
        } else {
            Err(ErrorV::TooManyItems)
        }
    } else if ts.len() == 0 {
        Err(ErrorV::Message("missing field"@))
    } else {
        match decode_m(ts[0], fs[0].1) {
            Ok(v) => match decode_record_list_m(
                ts.subrange(1, ts.len() as int),
                fs.subrange(1, fs.len() as int),
            ) {
                Ok(rest) => Ok(seq![(fs[0].0, v)] + rest),
                Err(e) => Err(e),
            },
            Err(e) => Err(e),
        }
    }
}

/// What the generic, hint-free decode produces: the self-describing
/// fallback.  An atom becomes text, a fixed integer a 32-bit integer, a
/// float a 64-bit float, a binary a byte blob, a list or tuple a sequence,
/// a map a map; every other wire kind is not self-describing enough and
/// fails with `TypeHintsRequired`.
pub open spec fn decode_any_m(t: TermV) -> Result<ValueV, ErrorV>
    decreases t, 0int,
{
    match t {
        TermV::Atom(n) => Ok(ValueV::Text(n)),
        TermV::FixInteger(x) => Ok(ValueV::I32(x as i32)),
        TermV::Float(bits) => Ok(ValueV::Float(bits)),
        TermV::Binary(b) => Ok(ValueV::Bytes(b)),
        TermV::List(ts) => match decode_any_list_m(ts) {
            Ok(vs) => Ok(ValueV::Sequence(vs)),
            Err(e) => Err(e),
        },
        TermV::Tuple(ts) => match decode_any_list_m(ts) {
            Ok(vs) => Ok(ValueV::Sequence(vs)),
            Err(e) => Err(e),
        },
        TermV::Mapping(ps) => match decode_any_entries_m(ps) {
            Ok(pairs) => Ok(ValueV::Mapping(pairs)),
            Err(e) => Err(e),
        },
        _ => Err(ErrorV::TypeHintsRequired),
    }
}

/// Generic decode of a sequence of terms, in order; the first failure
/// wins.
pub open spec fn decode_any_list_m(ts: Seq<TermV>) -> Result<Seq<ValueV>, ErrorV>
    decreases ts, 1int,
{
    if ts.len() == 0 {
        Ok(Seq::empty())
    } else {
        match decode_any_m(ts[0]) {
            Ok(v) => match decode_any_list_m(ts.subrange(1, ts.len() as int)) {
                Ok(vs) => Ok(seq![v] + vs),
                Err(e) => Err(e),
            },
            Err(e) => Err(e),
        }
    }
}

/// Generic decode of a sequence of map entries, in order, the key of each
/// entry before its value; the first failure wins.
pub open spec fn decode_any_entries_m(ps: Seq<(TermV, TermV)>) -> Result<
    Seq<(ValueV, ValueV)>,
    ErrorV,
>
    decreases ps, 1int,
{
    if ps.len() == 0 {
        Ok(Seq::empty())
    } else {
        match decode_any_m(ps[0].0) {
            Ok(k) => match decode_any_m(ps[0].1) {
                Ok(v) => match decode_any_entries_m(ps.subrange(1, ps.len() as int)) {
                    Ok(rest) => Ok(seq![(k, v)] + rest),
                    Err(e) => Err(e),
                },
                Err(e) => Err(e),
            },
            Err(e) => Err(e),
        }
    }
}

/// Whether this term is the atom `nil`, the wire form of an absent
/// optional and of unit.
pub fn is_nil(t: &Term) -> (r: bool)
    ensures
        r == (t@ == TermV::Atom("nil"@)),
{
    match t {
        Term::Atom(name) => str_eq(name.as_str(), "nil"),
        _ => false,
    }
}

/// Decodes a boolean: only the atoms `true` and `false` are accepted.
pub fn decode_bool(t: &Term) -> (r: Result<bool, Error>)
    ensures
        result_view(r) == match decode_m(t@, ShapeV::Bool) {
            Ok(v) => Ok(v->Bool_0),
            Err(e) => Err(e),
        },
        decode_m(t@, ShapeV::Bool) matches Ok(v) ==> v is Bool,
{
    match t {
        Term::Atom(name) => if str_eq(name.as_str(), "true") {
            Ok(true)
        } else if str_eq(name.as_str(), "false") {
            Ok(false)
        } else {
            Err(Error::InvalidBoolean)
        },
        _ => Err(Error::ExpectedBoolean),
    }
}

/// Decodes an 8-bit signed integer with a range check.
pub fn decode_i8(t: &Term) -> (r: Result<i8, Error>)
    ensures
        result_view(r) == match decode_m(t@, ShapeV::I8) {
            Ok(v) => Ok(v->I8_0),
            Err(e) => Err(e),
        },
        decode_m(t@, ShapeV::I8) matches Ok(v) ==> v is I8,
{
    match t {
        Term::FixInteger(x) => if i8::MIN as i32 <= *x && *x <= i8::MAX as i32 {
            Ok(*x as i8)
        } else {
            Err(Error::IntegerConvertError)
        },
        Term::BigInteger(x) => if i8::MIN as i128 <= *x && *x <= i8::MAX as i128 {
            Ok(*x as i8)
        } else {
            Err(Error::IntegerConvertError)
        },
        _ => Err(Error::ExpectedFixInteger),
    }
}

/// Decodes a 16-bit signed integer with a range check.
pub fn decode_i16(t: &Term) -> (r: Result<i16, Error>)
    ensures
        result_view(r) == match decode_m(t@, ShapeV::I16) {
            Ok(v) => Ok(v->I16_0),
            Err(e) => Err(e),
        },
        decode_m(t@, ShapeV::I16) matches Ok(v) ==> v is I16,
{
    match t {
        Term::FixInteger(x) => if i16::MIN as i32 <= *x && *x <= i16::MAX as i32 {
            Ok(*x as i16)
        } else {
            Err(Error::IntegerConvertError)
        },
        Term::BigInteger(x) => if i16::MIN as i128 <= *x && *x <= i16::MAX as i128 {
            Ok(*x as i16)
        } else {
            Err(Error::IntegerConvertError)
        },
        _ => Err(Error::ExpectedFixInteger),
    }
}

/// Decodes a 32-bit signed integer with a range check.
pub fn decode_i32(t: &Term) -> (r: Result<i32, Error>)
    ensures
        result_view(r) == match decode_m(t@, ShapeV::I32) {
            Ok(v) => Ok(v->I32_0),
            Err(e) => Err(e),
        },
        decode_m(t@, ShapeV::I32) matches Ok(v) ==> v is I32,
{
    match t {
        Term::FixInteger(x) => Ok(*x),
        Term::BigInteger(x) => if i32::MIN as i128 <= *x && *x <= i32::MAX as i128 {
            Ok(*x as i32)
        } else {
            Err(Error::IntegerConvertError)
        },
        _ => Err(Error::ExpectedFixInteger),
    }
}

/// Decodes a 64-bit signed integer with a range check.
pub fn decode_i64(t: &Term) -> (r: Result<i64, Error>)
    ensures
        result_view(r) == match decode_m(t@, ShapeV::I64) {
            Ok(v) => Ok(v->I64_0),
            Err(e) => Err(e),
        },
        decode_m(t@, ShapeV::I64) matches Ok(v) ==> v is I64,
{
    match t {
        Term::FixInteger(x) => Ok(*x as i64),
        Term::BigInteger(x) => if i64::MIN as i128 <= *x && *x <= i64::MAX as i128 {
            Ok(*x as i64)
        } else {
            Err(Error::IntegerConvertError)
        },
        _ => Err(Error::ExpectedFixInteger),
    }
}

/// Decodes an 8-bit unsigned integer with a range check.
pub fn decode_u8(t: &Term) -> (r: Result<u8, Error>)
    ensures
        result_view(r) == match decode_m(t@, ShapeV::U8) {
            Ok(v) => Ok(v->U8_0),
            Err(e) => Err(e),
        },
        decode_m(t@, ShapeV::U8) matches Ok(v) ==> v is U8,
{
    match t {
        Term::FixInteger(x) => if 0 <= *x && *x <= u8::MAX as i32 {
            Ok(*x as u8)
        } else {
            Err(Error::IntegerConvertError)
        },
        Term::BigInteger(x) => if 0 <= *x && *x <= u8::MAX as i128 {
            Ok(*x as u8)
        } else {
            Err(Error::IntegerConvertError)
        },
        _ => Err(Error::ExpectedFixInteger),
    }
}

/// Decodes a 16-bit unsigned integer with a range check.
pub fn decode_u16(t: &Term) -> (r: Result<u16, Error>)
    ensures
        result_view(r) == match decode_m(t@, ShapeV::U16) {
            Ok(v) => Ok(v->U16_0),
            Err(e) => Err(e),
        },
        decode_m(t@, ShapeV::U16) matches Ok(v) ==> v is U16,
{
    match t {
        Term::FixInteger(x) => if 0 <= *x && *x <= u16::MAX as i32 {
            Ok(*x as u16)
        } else {
            Err(Error::IntegerConvertError)
        },
        Term::BigInteger(x) => if 0 <= *x && *x <= u16::MAX as i128 {
            Ok(*x as u16)
        } else {
            Err(Error::IntegerConvertError)
        },
        _ => Err(Error::ExpectedFixInteger),
    }
}

/// Decodes a 32-bit unsigned integer with a range check.
pub fn decode_u32(t: &Term) -> (r: Result<u32, Error>)
    ensures
        result_view(r) == match decode_m(t@, ShapeV::U32) {
            Ok(v) => Ok(v->U32_0),
            Err(e) => Err(e),
        },
        decode_m(t@, ShapeV::U32) matches Ok(v) ==> v is U32,
{
    match t {
        Term::FixInteger(x) => if 0 <= *x {
            Ok(*x as u32)
        } else {
            Err(Error::IntegerConvertError)
        },
        Term::BigInteger(x) => if 0 <= *x && *x <= u32::MAX as i128 {
            Ok(*x as u32)
        } else {
            Err(Error::IntegerConvertError)
        },
        _ => Err(Error::ExpectedFixInteger),
    }
}

/// Decodes a 64-bit unsigned integer with a range check.
pub fn decode_u64(t: &Term) -> (r: Result<u64, Error>)
    ensures
        result_view(r) == match decode_m(t@, ShapeV::U64) {
            Ok(v) => Ok(v->U64_0),
            Err(e) => Err(e),
        },
        decode_m(t@, ShapeV::U64) matches Ok(v) ==> v is U64,
{
    match t {
        Term::FixInteger(x) => if 0 <= *x {
            Ok(*x as u64)
        } else {
            Err(Error::IntegerConvertError)
        },
        Term::BigInteger(x) => if 0 <= *x && *x <= u64::MAX as i128 {
            Ok(*x as u64)
        } else {
            Err(Error::IntegerConvertError)
        },
        _ => Err(Error::ExpectedFixInteger),
    }
}

/// Decodes a 64-bit float, returned as its raw bits: only a wire float is
/// accepted, never an integer.
pub fn decode_f64_bits(t: &Term) -> (r: Result<u64, Error>)
    ensures
        result_view(r) == match decode_m(t@, ShapeV::Float) {
            Ok(v) => Ok(v->Float_0),
            Err(e) => Err(e),
        },
        decode_m(t@, ShapeV::Float) matches Ok(v) ==> v is Float,
{
    match t {
        Term::Float(bits) => Ok(*bits),
        _ => Err(Error::ExpectedFloat),
    }
}

/// Decodes a character: a binary whose bytes are the UTF-8 encoding of
/// exactly one character.
pub fn decode_char(t: &Term) -> (r: Result<char, Error>)
    ensures
        result_view(r) == match decode_m(t@, ShapeV::Char) {
            Ok(v) => Ok(v->Char_0),
            Err(e) => Err(e),
        },
        decode_m(t@, ShapeV::Char) matches Ok(v) ==> v is Char,
{
    match t {
        Term::Binary(b) => match string_from_utf8(slice_to_vec(b.as_slice())) {
            Some(s) => {
                proof {
                    broadcast use vstd::utf8::encode_utf8_decode_utf8;

                }
                if s.as_str().unicode_len() == 1 {
                    Ok(s.as_str().get_char(0))
                } else {
                    Err(Error::ExpectedChar)
                }
            },
            None => Err(Error::Utf8DecodeError),
        },
        _ => Err(Error::ExpectedChar),
    }
}

/// Decodes a string: a binary whose bytes are valid UTF-8.
pub fn decode_string(t: &Term) -> (r: Result<String, Error>)
    ensures
        result_view(r) == match decode_m(t@, ShapeV::Text) {
            Ok(v) => Ok(v->Text_0),
            Err(e) => Err(e),
        },
        decode_m(t@, ShapeV::Text) matches Ok(v) ==> v is Text,
{
    match t {
        Term::Binary(b) => match string_from_utf8(slice_to_vec(b.as_slice())) {
            Some(s) => {
                proof {
                    broadcast use vstd::utf8::encode_utf8_decode_utf8;

                }
                Ok(s)
            },
            None => Err(Error::Utf8DecodeError),
        },
        _ => Err(Error::ExpectedBinary),
    }
}

/// Decodes a byte blob: any binary, with no UTF-8 demand.
pub fn decode_bytes(t: &Term) -> (r: Result<Vec<u8>, Error>)
    ensures
        result_view(r) == match decode_m(t@, ShapeV::Bytes) {
            Ok(v) => Ok(v->Bytes_0),
            Err(e) => Err(e),
        },
        decode_m(t@, ShapeV::Bytes) matches Ok(v) ==> v is Bytes,
{
    match t {
        Term::Binary(b) => Ok(slice_to_vec(b.as_slice())),
        _ => Err(Error::ExpectedBinary),
    }
}

/// Decodes a unit value: only the atom `nil` is accepted.
pub fn decode_unit(t: &Term) -> (r: Result<(), Error>)
    ensures
        r matches Ok(_) ==> decode_m(t@, ShapeV::Unit) == Ok::<_, ErrorV>(ValueV::Unit),
        r matches Err(e) ==> decode_m(t@, ShapeV::Unit) == Err::<ValueV, _>(e@),
{
    if is_nil(t) {
        Ok(())
    } else {
        Err(Error::ExpectedNil)
    }
}

/// Decodes an identifier, such as a record field key or a variant tag:
/// only an atom is accepted, and its name is taken verbatim.
pub fn decode_identifier(t: &Term) -> (r: Result<String, Error>)
    ensures
        r matches Ok(s) ==> t@ == TermV::Atom(s@),
        r matches Err(e) ==> !(t@ is Atom) && e@ == ErrorV::ExpectedAtom,
{
    match t {
        Term::Atom(name) => Ok(name.clone()),
        _ => Err(Error::ExpectedAtom),
    }
}

/// A cursor over the remaining elements of a sequence: `next` consumes and
/// returns the head, and `finish` reports `TooManyItems` when the
/// value-description protocol stopped pulling while elements remained.
pub struct SeqAccess {
    pub items: Vec<Term>,
}

impl View for SeqAccess {
    type V = Seq<TermV>;

    open spec fn view(&self) -> Seq<TermV> {
        terms_view(self.items@)
    }
}

impl SeqAccess {
    /// Wraps the elements of a list or tuple node.
    pub fn new(items: Vec<Term>) -> (r: SeqAccess)
        ensures
            r@ == terms_view(items@),
    {
        SeqAccess { items }
    }

    /// How many elements remain.
    pub fn remaining(&self) -> (r: usize)
        ensures
            r == self@.len(),
    {
        proof {
            lemma_terms_view(self.items@);
        }
        self.items.len()
    }

    /// Consumes and returns the head element, or reports exhaustion.
    pub fn next(&mut self) -> (r: Option<Term>)
        ensures
            old(self)@.len() == 0 ==> r is None && final(self)@ == old(self)@,
            old(self)@.len() > 0 ==> (r matches Some(t) && t@ == old(self)@[0] && final(self)@
                == old(self)@.drop_first()),
    {
        proof {
            lemma_terms_view(self.items@);
        }
        if self.items.len() == 0 {
            None
        } else {
            let head = self.items.remove(0);
            proof {
                lemma_terms_view(self.items@);
                assert forall|j: int| 0 <= j < self.items@.len() implies old(self).items@.remove(
                    0,
                )[j] == old(self).items@[j + 1] by {}
                assert(final(self)@ =~= old(self)@.drop_first());
            }
            Some(head)
        }
    }

    /// The leftover check: any element remaining after the protocol has
    /// finished is an arity violation.
    pub fn finish(&self) -> (r: Result<(), Error>)
        ensures
            self@.len() == 0 ==> r is Ok,
            self@.len() > 0 ==> (r matches Err(e) && e@ == ErrorV::TooManyItems),
    {
        proof {
            lemma_terms_view(self.items@);
        }
        if self.items.len() == 0 {
            Ok(())
        } else {
            Err(Error::TooManyItems)
        }
    }
}

/// A cursor over the remaining key-value entries of a map.  Keys and
/// values must be pulled strictly alternately: pulling out of turn is a
/// caller bug, ruled out by precondition rather than reported as a
/// recoverable error.
pub struct MapAccess {
    pub entries: Vec<(Term, Term)>,
    pub pending: Option<Term>,
}

impl View for MapAccess {
    type V = (Seq<(TermV, TermV)>, Option<TermV>);

    open spec fn view(&self) -> (Seq<(TermV, TermV)>, Option<TermV>) {
        (
            entries_view(self.entries@),
            match self.pending {
                Some(t) => Some(t@),
                None => None,
            },
        )
    }
}

impl MapAccess {
    /// Wraps the entries of a map node.
    pub fn new(entries: Vec<(Term, Term)>) -> (r: MapAccess)
        ensures
            r@ == (entries_view(entries@), Option::<TermV>::None),
    {
        MapAccess { entries, pending: None }
    }

    /// How many whole entries remain.
    pub fn remaining(&self) -> (r: usize)
        ensures
            r == self@.0.len(),
    {
        proof {
            lemma_entries_view(self.entries@);
        }
        self.entries.len()
    }

    /// Consumes the next entry and returns its key, holding the value back
    /// for the matching `next_value` pull; returns exhaustion as `None`.
    /// Must not be called while a value is still pending.
    pub fn next_key(&mut self) -> (r: Option<Term>)
        requires
            old(self)@.1 is None,
        ensures
            old(self)@.0.len() == 0 ==> r is None && final(self)@ == old(self)@,
            old(self)@.0.len() > 0 ==> ({
                &&& r matches Some(k)
                &&& k@ == old(self)@.0[0].0
                &&& final(self)@.0 == old(self)@.0.drop_first()
                &&& final(self)@.1 == Some(old(self)@.0[0].1)
            }),
    {
        proof {
            lemma_entries_view(self.entries@);
        }
        if self.entries.len() == 0 {
            None
        } else {
            let (key, value) = self.entries.remove(0);
            self.pending = Some(value);
            proof {
                lemma_entries_view(self.entries@);
                assert forall|j: int| 0 <= j < self.entries@.len() implies old(
                    self,
                ).entries@.remove(0)[j] == old(self).entries@[j + 1] by {}
                assert(final(self)@.0 =~= old(self)@.0.drop_first());
            }
            Some(key)
        }
    }

    /// Returns the value held back by the last `next_key` pull.  Must only
    /// be called while a value is pending.
    pub fn next_value(&mut self) -> (r: Term)
        requires
            old(self)@.1 is Some,
        ensures
            r@ == old(self)@.1->0,
            final(self)@ == (old(self)@.0, Option::<TermV>::None),
    {
        let value = self.pending.take();
        value.unwrap()
    }

    /// The leftover check: any entry remaining after the protocol has
    /// finished is an arity violation.
    pub fn finish(&self) -> (r: Result<(), Error>)
        ensures
            self@.0.len() == 0 ==> r is Ok,
            self@.0.len() > 0 ==> (r matches Err(e) && e@ == ErrorV::TooManyItems),
    {
        proof {
            lemma_entries_view(self.entries@);
        }
        if self.entries.len() == 0 {
            Ok(())
        } else {
            Err(Error::TooManyItems)
        }
    }
}

/// The wire-shape split of an externally tagged enum term: a bare atom is
/// a unit variant with no payload; a two-element tuple and a single-entry
/// map both split into tag and payload; any other tuple arity is
/// mis-sized, and everything else is no enum form at all.
pub open spec fn variant_parts_m(t: TermV) -> Result<(TermV, Option<TermV>), ErrorV> {
    match t {
        TermV::Atom(n) => Ok((TermV::Atom(n), Option::None)),
        TermV::Tuple(ts) => if ts.len() == 2 {
            Ok((ts[0], Option::Some(ts[1])))
        } else {
            Err(ErrorV::MisSizedVariantTuple)
        },
        TermV::Mapping(ps) => if ps.len() == 1 {
            Ok((ps[0].0, Option::Some(ps[0].1)))
        } else {
            Err(ErrorV::ExpectedAtomOrTuple)
        },
        _ => Err(ErrorV::ExpectedAtomOrTuple),
    }
}

/// Splits an enum term into its tag term and optional payload term, per
/// [`variant_parts_m`].
pub fn variant_parts(t: Term) -> (r: Result<(Term, Option<Term>), Error>)
    ensures
        r matches Ok((tag, payload)) ==> variant_parts_m(t@) == Ok::<_, ErrorV>(
            (
                tag@,
                match payload {
                    Some(p) => Option::Some(p@),
                    None => Option::None,
                },
            ),
        ),
        r matches Err(e) ==> variant_parts_m(t@) == Err::<(TermV, Option<TermV>), _>(e@),
{
    match t {
        Term::Atom(name) => Ok((Term::Atom(name), None)),
        Term::Tuple(mut elements) => {
            proof {
                lemma_terms_view(elements@);
            }
            if elements.len() == 2 {
                let payload = elements.pop().unwrap();
                let tag = elements.pop().unwrap();
                Ok((tag, Some(payload)))
            } else {
                Err(Error::MisSizedVariantTuple)
            }
        },
        Term::Mapping(mut entries) => {
            proof {
                lemma_entries_view(entries@);
            }
            if entries.len() == 1 {
                let (tag, payload) = entries.remove(0);
                Ok((tag, Some(payload)))
            } else {
                Err(Error::ExpectedAtomOrTuple)
            }
        },
        _ => Err(Error::ExpectedAtomOrTuple),
    }
}

/// Finds the first variant whose name equals the given wire tag, as
/// [`find_variant`] describes.
fn find_variant_index(variants: &Vec<Variant>, name: &str) -> (r: Option<usize>)
    ensures
        match r {
            Some(i) => find_variant(variants_view(variants@), name@) == i as int && i
                < variants@.len(),
            None => find_variant(variants_view(variants@), name@) == -1,
        },
{
    let ghost vars_v = variants_view(variants@);
    proof {
        lemma_variants_view(variants@);
    }
    let mut i: usize = 0;
    while i < variants.len()
        invariant
            0 <= i <= variants.len(),
            vars_v == variants_view(variants@),
            vars_v.len() == variants@.len(),
            forall|j: int| 0 <= j < variants@.len() ==> vars_v[j] == #[trigger] variants@[j]@,
            forall|j: int| 0 <= j < i ==> (#[trigger] vars_v[j]).name != name@,
        decreases variants@.len() - i,
    {
        if str_eq(variants[i].name.as_str(), name) {
            proof {
                assert(vars_v[i as int] == variants@[i as int]@);
                assert(vars_v[i as int].name == name@);
                lemma_find_variant(vars_v, name@);
                let r = find_variant(vars_v, name@);
                if r == -1 {
                    assert(vars_v[i as int].name != name@);
                } else {
                    if r < i as int {
                        assert(vars_v[r].name == name@);
                    }
                    if r > i as int {
                        assert(vars_v[i as int].name != name@);
                    }
                }
                assert(r == i as int);
            }
            return Some(i);
        }
        proof {
            assert(vars_v[i as int] == variants@[i as int]@);
        }
        i += 1;
    }
    proof {
        lemma_find_variant(vars_v, name@);
        let r = find_variant(vars_v, name@);
        if r != -1 {
            assert(vars_v[r].name == name@);
        }
        assert(r == -1);
    }
    None
}

/// Decodes a term under a shape hint into a typed value, exactly as
/// [`decode_m`] describes.
pub fn decode_value(t: &Term, s: &Shape) -> (r: Result<Value, Error>)
    ensures
        result_view(r) == decode_m(t@, s@),
    decreases s, t,
{
    match s {
        Shape::Bool => match decode_bool(t) {
            Ok(b) => Ok(Value::Bool(b)),
            Err(e) => Err(e),
        },
        Shape::I8 => match decode_i8(t) {
            Ok(x) => Ok(Value::I8(x)),
            Err(e) => Err(e),
        },
        Shape::I16 => match decode_i16(t) {
            Ok(x) => Ok(Value::I16(x)),
            Err(e) => Err(e),
        },
        Shape::I32 => match decode_i32(t) {
            Ok(x) => Ok(Value::I32(x)),
            Err(e) => Err(e),
        },
        Shape::I64 => match decode_i64(t) {
            Ok(x) => Ok(Value::I64(x)),
            Err(e) => Err(e),
        },
        Shape::U8 => match decode_u8(t) {
            Ok(x) => Ok(Value::U8(x)),
            Err(e) => Err(e),
        },
        Shape::U16 => match decode_u16(t) {
            Ok(x) => Ok(Value::U16(x)),
            Err(e) => Err(e),
        },
        Shape::U32 => match decode_u32(t) {
            Ok(x) => Ok(Value::U32(x)),
            Err(e) => Err(e),
        },
        Shape::U64 => match decode_u64(t) {
            Ok(x) => Ok(Value::U64(x)),
            Err(e) => Err(e),
        },
        Shape::Float => match decode_f64_bits(t) {
            Ok(bits) => Ok(Value::Float(bits)),
            Err(e) => Err(e),
        },
        Shape::Char => match decode_char(t) {
            Ok(c) => Ok(Value::Char(c)),
            Err(e) => Err(e),
        },
        Shape::Text => match decode_string(t) {
            Ok(text) => Ok(Value::Text(text)),
            Err(e) => Err(e),
        },
        Shape::Bytes => match decode_bytes(t) {
            Ok(b) => Ok(Value::Bytes(b)),
            Err(e) => Err(e),
        },
        Shape::Optional(inner) => if is_nil(t) {
            Ok(Value::OptNone)
        } else {
            match decode_value(t, &**inner) {
                Ok(v) => Ok(Value::OptSome(Box::new(v))),
                Err(e) => Err(e),
            }
        },
        Shape::Unit => match decode_unit(t) {
            Ok(_) => Ok(Value::Unit),
            Err(e) => Err(e),
        },
        Shape::UnitStruct(name) => if is_nil(t) {
            Ok(Value::UnitStruct(name.clone()))
        } else {
            Err(Error::ExpectedNil)
        },
        Shape::Newtype(inner) => match decode_value(t, &**inner) {
            Ok(v) => Ok(Value::Newtype(Box::new(v))),
            Err(e) => Err(e),
        },
        Shape::Sequence(elem) => match t {
            Term::List(elements) => match decode_list(elements, &**elem) {
                Ok(vs) => Ok(Value::Sequence(vs)),
                Err(e) => Err(e),
            },
            _ => Err(Error::ExpectedList),
        },
        Shape::Tuple(elem_shapes) => match t {
            Term::Tuple(elements) => {
                proof {
                    lemma_terms_view(elements@);
                    lemma_shapes_view(elem_shapes@);
                }
                if elements.len() != elem_shapes.len() {
                    Err(Error::WrongTupleLength)
                } else {
                    match decode_tuple_elems(elements, elem_shapes) {
                        Ok(vs) => Ok(Value::Tuple(vs)),
                        Err(e) => Err(e),
                    }
                }
            },
            _ => Err(Error::ExpectedTuple),
        },
        Shape::Mapping(_, _) => match t {
            Term::Mapping(entries) => match decode_map_entries(entries, s) {
                Ok(pairs) => Ok(Value::Mapping(pairs)),
                Err(e) => Err(e),
            },
            _ => Err(Error::ExpectedMap),
        },
        Shape::Record(field_shapes) => match t {
            Term::Mapping(entries) => match decode_record_fields(entries, field_shapes) {
                Ok(fields) => Ok(Value::Record(fields)),
                Err(e) => Err(e),
            },
            Term::List(elements) => match decode_record_list_fields(elements, field_shapes) {
                Ok(fields) => Ok(Value::Record(fields)),
                Err(e) => Err(e),
            },
            _ => Err(Error::ExpectedMap),
        },
        Shape::Enum(variants) => match t {
            Term::Atom(name) => match find_variant_index(variants, name.as_str()) {
                Some(i) => {
                    proof {
                        lemma_variants_view(variants@);
                        assert(variants_view(variants@)[i as int] == variants@[i as int]@);
                    }
                    match &variants[i].kind {
                        VariantKind::Unit => Ok(Value::UnitVariant(name.clone())),
                        _ => Err(Error::ExpectedAtom),
                    }
                },
                None => Err(Error::Message(String::from_str("unknown variant"))),
            },
            Term::Tuple(elements) => {
                proof {
                    lemma_terms_view(elements@);
                }
                if elements.len() != 2 {
                    Err(Error::MisSizedVariantTuple)
                } else {
                    decode_tagged(&elements[0], &elements[1], variants)
                }
            },
            Term::Mapping(entries) => {
                proof {
                    lemma_entries_view(entries@);
                }
                if entries.len() != 1 {
                    Err(Error::ExpectedAtomOrTuple)
                } else {
                    decode_tagged(&entries[0].0, &entries[0].1, variants)
                }
            },
            _ => Err(Error::ExpectedAtomOrTuple),
        },
    }
}

/// Decodes an externally tagged variant from its tag and payload terms,
/// exactly as [`decode_tagged_m`] describes.
fn decode_tagged(tag: &Term, payload: &Term, variants: &Vec<Variant>) -> (r: Result<Value, Error>)
    ensures
        result_view(r) == decode_tagged_m(tag@, payload@, variants_view(variants@)),
    decreases variants, payload,
{
    let name = match tag {
        Term::Atom(name) => name,
        _ => {
            return Err(Error::ExpectedAtom);
        },
    };
    let idx = match find_variant_index(variants, name.as_str()) {
        Some(i) => i,
        None => {
            return Err(Error::Message(String::from_str("unknown variant")));
        },
    };
    proof {
        lemma_variants_view(variants@);
        assert(variants_view(variants@)[idx as int] == variants@[idx as int]@);
        assert(decreases_to!(variants => variants@[idx as int].kind));
    }
    match &variants[idx].kind {
        VariantKind::Unit => if is_nil(payload) {
            Ok(Value::UnitVariant(name.clone()))
        } else {
            Err(Error::ExpectedNil)
        },
        VariantKind::Newtype(inner) => match decode_value(payload, &**inner) {
            Ok(v) => Ok(Value::NewtypeVariant(name.clone(), Box::new(v))),
            Err(e) => Err(e),
        },
        VariantKind::Tuple(elem_shapes) => match payload {
            Term::Tuple(elements) => {
                proof {
                    lemma_terms_view(elements@);
                    lemma_shapes_view(elem_shapes@);
                }
                if elements.len() != elem_shapes.len() {
                    Err(Error::WrongTupleLength)
                } else {
                    match decode_tuple_elems(elements, elem_shapes) {
                        Ok(vs) => Ok(Value::TupleVariant(name.clone(), vs)),
                        Err(e) => Err(e),
                    }
                }
            },
            _ => Err(Error::ExpectedTuple),
        },
        VariantKind::Record(field_shapes) => match payload {
            Term::Mapping(entries) => match decode_record_fields(entries, field_shapes) {
                Ok(fields) => Ok(Value::RecordVariant(name.clone(), fields)),
                Err(e) => Err(e),
            },
            Term::List(elements) => match decode_record_list_fields(elements, field_shapes) {
                Ok(fields) => Ok(Value::RecordVariant(name.clone(), fields)),
                Err(e) => Err(e),
            },
            _ => Err(Error::ExpectedMap),
        },
    }
}

/// Decodes every element of a list under one element shape, exactly as
/// [`decode_list_m`] describes.
fn decode_list(elements: &Vec<Term>, elem: &Shape) -> (r: Result<Vec<Value>, Error>)
    ensures
        match r {
            Ok(vs) => decode_list_m(terms_view(elements@), elem@) == Ok::<_, ErrorV>(
                crate::value::values_view(vs@),
            ),
            Err(e) => decode_list_m(terms_view(elements@), elem@) == Err::<Seq<ValueV>, _>(e@),
        },
    decreases elem, elements,
{
    let ghost ts = terms_view(elements@);
    proof {
        lemma_terms_view(elements@);
    }
    let mut out: Vec<Value> = Vec::new();
    let mut i: usize = 0;
    proof {
        assert(ts.skip(0) =~= ts);
        assert forall|rest: Seq<ValueV>|
            decode_list_m(ts.skip(0), elem@) == Ok::<_, ErrorV>(rest) implies decode_list_m(
            ts,
            elem@,
        ) == Ok::<_, ErrorV>(crate::value::values_view(out@) + rest) by {
            assert(crate::value::values_view(out@) + rest =~= rest);
        }
    }
    while i < elements.len()
        invariant
            0 <= i <= elements.len(),
            ts == terms_view(elements@),
            ts.len() == elements@.len(),
            forall|j: int| 0 <= j < elements@.len() ==> ts[j] == #[trigger] elements@[j]@,
            forall|rest: Seq<ValueV>|
                decode_list_m(ts.skip(i as int), elem@) == Ok::<_, ErrorV>(rest)
                    ==> decode_list_m(ts, elem@) == Ok::<_, ErrorV>(
                    crate::value::values_view(out@) + rest,
                ),
            forall|e2: ErrorV|
                decode_list_m(ts.skip(i as int), elem@) == Err::<Seq<ValueV>, _>(e2)
                    ==> decode_list_m(ts, elem@) == Err::<Seq<ValueV>, _>(e2),
        decreases elements@.len() - i,
    {
        let ghost suffix = ts.skip(i as int);
        proof {
            assert(suffix[0] == ts[i as int]);
            assert(suffix.subrange(1, suffix.len() as int) =~= ts.skip(i as int + 1));
        }
        let v = match decode_value(&elements[i], elem) {
            Ok(v) => v,
            Err(e) => {
                proof {
                    assert(decode_list_m(suffix, elem@) == Err::<Seq<ValueV>, _>(e@));
                }
                return Err(e);
            },
        };
        let ghost v_model = v@;
        let ghost out_before = out@;
        out.push(v);
        proof {
            crate::value::lemma_push_values_view(out_before, v_model, out@);
            assert forall|rest: Seq<ValueV>|
                decode_list_m(ts.skip(i as int + 1), elem@) == Ok::<_, ErrorV>(rest)
                    implies decode_list_m(ts, elem@) == Ok::<_, ErrorV>(
                crate::value::values_view(out@) + rest,
            ) by {
                assert(decode_list_m(suffix, elem@) == Ok::<_, ErrorV>(seq![v_model] + rest));
                assert(crate::value::values_view(out_before) + (seq![v_model] + rest)
                    =~= crate::value::values_view(out@) + rest);
            }
            assert forall|e2: ErrorV|
                decode_list_m(ts.skip(i as int + 1), elem@) == Err::<Seq<ValueV>, _>(e2)
                    implies decode_list_m(ts, elem@) == Err::<Seq<ValueV>, _>(e2) by {
                assert(decode_list_m(suffix, elem@) == Err::<Seq<ValueV>, _>(e2));
            }
        }
        i += 1;
    }
    proof {
        assert(ts.skip(elements@.len() as int) =~= Seq::<TermV>::empty());
        assert(crate::value::values_view(out@) + Seq::<ValueV>::empty()
            =~= crate::value::values_view(out@));
    }
    Ok(out)
}

/// Decodes the elements of a fixed tuple pointwise against its element
/// shapes, exactly as [`decode_tuple_m`] describes.
fn decode_tuple_elems(elements: &Vec<Term>, elem_shapes: &Vec<Shape>) -> (r: Result<
    Vec<Value>,
    Error,
>)
    requires
        elements@.len() == elem_shapes@.len(),
    ensures
        match r {
            Ok(vs) => decode_tuple_m(terms_view(elements@), shapes_view(elem_shapes@))
                == Ok::<_, ErrorV>(crate::value::values_view(vs@)),
            Err(e) => decode_tuple_m(terms_view(elements@), shapes_view(elem_shapes@))
                == Err::<Seq<ValueV>, _>(e@),
        },
    decreases elem_shapes, elements,
{
    let ghost ts = terms_view(elements@);
    let ghost ss = shapes_view(elem_shapes@);
    proof {
        lemma_terms_view(elements@);
        lemma_shapes_view(elem_shapes@);
    }
    let mut out: Vec<Value> = Vec::new();
    let mut i: usize = 0;
    proof {
        assert(ts.skip(0) =~= ts);
        assert(ss.skip(0) =~= ss);
        assert forall|rest: Seq<ValueV>|
            decode_tuple_m(ts.skip(0), ss.skip(0)) == Ok::<_, ErrorV>(rest)
            implies decode_tuple_m(ts, ss) == Ok::<_, ErrorV>(
            crate::value::values_view(out@) + rest,
        ) by {
            assert(crate::value::values_view(out@) + rest =~= rest);
        }
    }
    while i < elements.len()
        invariant
            0 <= i <= elements.len(),
            ts == terms_view(elements@),
            ss == shapes_view(elem_shapes@),
            ts.len() == elements@.len(),
            ss.len() == elem_shapes@.len(),
            elements@.len() == elem_shapes@.len(),
            forall|j: int| 0 <= j < elements@.len() ==> ts[j] == #[trigger] elements@[j]@,
            forall|j: int| 0 <= j < elem_shapes@.len() ==> ss[j] == #[trigger] elem_shapes@[j]@,
            forall|rest: Seq<ValueV>|
                decode_tuple_m(ts.skip(i as int), ss.skip(i as int)) == Ok::<_, ErrorV>(rest)
                    ==> decode_tuple_m(ts, ss) == Ok::<_, ErrorV>(
                    crate::value::values_view(out@) + rest,
                ),
            forall|e2: ErrorV|
                decode_tuple_m(ts.skip(i as int), ss.skip(i as int)) == Err::<Seq<ValueV>, _>(e2)
                    ==> decode_tuple_m(ts, ss) == Err::<Seq<ValueV>, _>(e2),
        decreases elements@.len() - i,
    {
        let ghost t_suffix = ts.skip(i as int);
        let ghost s_suffix = ss.skip(i as int);
        proof {
            assert(t_suffix[0] == ts[i as int]);
            assert(s_suffix[0] == ss[i as int]);
            assert(t_suffix.subrange(1, t_suffix.len() as int) =~= ts.skip(i as int + 1));
            assert(s_suffix.subrange(1, s_suffix.len() as int) =~= ss.skip(i as int + 1));
        }
        let v = match decode_value(&elements[i], &elem_shapes[i]) {
            Ok(v) => v,
            Err(e) => {
                proof {
                    assert(decode_tuple_m(t_suffix, s_suffix) == Err::<Seq<ValueV>, _>(e@));
                }
                return Err(e);
            },
        };
        let ghost v_model = v@;
        let ghost out_before = out@;
        out.push(v);
        proof {
            crate::value::lemma_push_values_view(out_before, v_model, out@);
            assert forall|rest: Seq<ValueV>|
                decode_tuple_m(ts.skip(i as int + 1), ss.skip(i as int + 1)) == Ok::<_, ErrorV>(
                    rest,
                ) implies decode_tuple_m(ts, ss) == Ok::<_, ErrorV>(
                crate::value::values_view(out@) + rest,
            ) by {
                assert(decode_tuple_m(t_suffix, s_suffix) == Ok::<_, ErrorV>(
                    seq![v_model] + rest,
                ));
                assert(crate::value::values_view(out_before) + (seq![v_model] + rest)
                    =~= crate::value::values_view(out@) + rest);
            }
            assert forall|e2: ErrorV|
                decode_tuple_m(ts.skip(i as int + 1), ss.skip(i as int + 1)) == Err::<
                    Seq<ValueV>,
                    _,
                >(e2) implies decode_tuple_m(ts, ss) == Err::<Seq<ValueV>, _>(e2) by {
                assert(decode_tuple_m(t_suffix, s_suffix) == Err::<Seq<ValueV>, _>(e2));
            }
        }
        i += 1;
    }
    proof {
        assert(ts.skip(elements@.len() as int) =~= Seq::<TermV>::empty());
        assert(ss.skip(elements@.len() as int) =~= Seq::<ShapeV>::empty());
        assert(crate::value::values_view(out@) + Seq::<ValueV>::empty()
            =~= crate::value::values_view(out@));
    }
    Ok(out)
}

/// Decodes every entry of a map under the key and value shapes of the
/// given map hint, exactly as [`decode_entries_m`] describes.
#[verifier::loop_isolation(false)]
fn decode_map_entries(entries: &Vec<(Term, Term)>, s: &Shape) -> (r: Result<
    Vec<(Value, Value)>,
    Error,
>)
    requires
        s@ is Mapping,
    ensures
        match r {
            Ok(pairs) => decode_entries_m(entries_view(entries@), s@) == Ok::<_, ErrorV>(
                crate::value::value_entries_view(pairs@),
            ),
            Err(e) => decode_entries_m(entries_view(entries@), s@) == Err::<
                Seq<(ValueV, ValueV)>,
                _,
            >(e@),
        },
    decreases s, entries,
{
    let (key_shape, val_shape) = match s {
        Shape::Mapping(k, v) => (&**k, &**v),
        _ => {
            proof {
                assert(false);
            }
            return Err(Error::ExpectedMap);
        },
    };
    let ghost ps = entries_view(entries@);
    proof {
        lemma_entries_view(entries@);
    }
    let mut out: Vec<(Value, Value)> = Vec::new();
    let mut i: usize = 0;
    proof {
        assert(ps.skip(0) =~= ps);
        assert forall|rest: Seq<(ValueV, ValueV)>|
            decode_entries_m(ps.skip(0), s@) == Ok::<_, ErrorV>(rest) implies decode_entries_m(
            ps,
            s@,
        ) == Ok::<_, ErrorV>(crate::value::value_entries_view(out@) + rest) by {
            assert(crate::value::value_entries_view(out@) + rest =~= rest);
        }
    }
    while i < entries.len()
        invariant
            0 <= i <= entries.len(),
            s@ is Mapping,
            *s@->Mapping_0 == key_shape@,
            *s@->Mapping_1 == val_shape@,
            ps == entries_view(entries@),
            ps.len() == entries@.len(),
            forall|j: int| 0 <= j < entries@.len() ==> ps[j] == (
                #[trigger] entries@[j].0@,
                entries@[j].1@,
            ),
            forall|rest: Seq<(ValueV, ValueV)>|
                decode_entries_m(ps.skip(i as int), s@) == Ok::<_, ErrorV>(rest)
                    ==> decode_entries_m(ps, s@) == Ok::<_, ErrorV>(
                    crate::value::value_entries_view(out@) + rest,
                ),
            forall|e2: ErrorV|
                decode_entries_m(ps.skip(i as int), s@) == Err::<Seq<(ValueV, ValueV)>, _>(e2)
                    ==> decode_entries_m(ps, s@) == Err::<Seq<(ValueV, ValueV)>, _>(e2),
        decreases entries@.len() - i,
    {
        let ghost suffix = ps.skip(i as int);
        proof {
            assert(decreases_to!(s => key_shape));
            assert(decreases_to!(s => val_shape));
            assert(suffix[0] == ps[i as int]);
            assert(suffix.subrange(1, suffix.len() as int) =~= ps.skip(i as int + 1));
        }
        let k = match decode_value(&entries[i].0, key_shape) {
            Ok(k) => k,
            Err(e) => {
                proof {
                    assert(decode_entries_m(suffix, s@) == Err::<Seq<(ValueV, ValueV)>, _>(e@));
                }
                return Err(e);
            },
        };
        let v = match decode_value(&entries[i].1, val_shape) {
            Ok(v) => v,
            Err(e) => {
                proof {
                    assert(decode_entries_m(suffix, s@) == Err::<Seq<(ValueV, ValueV)>, _>(e@));
                }
                return Err(e);
            },
        };
        let ghost pair_model = (k@, v@);
        let ghost out_before = out@;
        out.push((k, v));
        proof {
            crate::value::lemma_push_value_entries_view(out_before, pair_model, out@);
            assert forall|rest: Seq<(ValueV, ValueV)>|
                decode_entries_m(ps.skip(i as int + 1), s@) == Ok::<_, ErrorV>(rest)
                    implies decode_entries_m(ps, s@) == Ok::<_, ErrorV>(
                crate::value::value_entries_view(out@) + rest,
            ) by {
                assert(decode_entries_m(suffix, s@) == Ok::<_, ErrorV>(seq![pair_model] + rest));
                assert(crate::value::value_entries_view(out_before) + (seq![pair_model] + rest)
                    =~= crate::value::value_entries_view(out@) + rest);
            }
            assert forall|e2: ErrorV|
                decode_entries_m(ps.skip(i as int + 1), s@) == Err::<Seq<(ValueV, ValueV)>, _>(e2)
                    implies decode_entries_m(ps, s@) == Err::<Seq<(ValueV, ValueV)>, _>(e2) by {
                assert(decode_entries_m(suffix, s@) == Err::<Seq<(ValueV, ValueV)>, _>(e2));
            }
        }
        i += 1;
    }
    proof {
        assert(ps.skip(entries@.len() as int) =~= Seq::<(TermV, TermV)>::empty());
        assert(crate::value::value_entries_view(out@) + Seq::<(ValueV, ValueV)>::empty()
            =~= crate::value::value_entries_view(out@));
    }
    Ok(out)
}

/// Decodes the fields of a record from map entries, exactly as
/// [`decode_record_m`] describes: declared names, declared order.
fn decode_record_fields(entries: &Vec<(Term, Term)>, field_shapes: &Vec<(String, Shape)>) -> (r:
    Result<Vec<(String, Value)>, Error>)
    ensures
        match r {
            Ok(fields) => decode_record_m(entries_view(entries@), field_shapes_view(field_shapes@))
                == Ok::<_, ErrorV>(crate::value::fields_view(fields@)),
            Err(e) => decode_record_m(entries_view(entries@), field_shapes_view(field_shapes@))
                == Err::<Seq<(Seq<char>, ValueV)>, _>(e@),
        },
    decreases field_shapes, entries,
{
    let ghost ps = entries_view(entries@);
    let ghost fs = field_shapes_view(field_shapes@);
    proof {
        lemma_entries_view(entries@);
        lemma_field_shapes_view(field_shapes@);
    }
    let mut out: Vec<(String, Value)> = Vec::new();
    let mut i: usize = 0;
    proof {
        assert(ps.skip(0) =~= ps);
        assert(fs.skip(0) =~= fs);
        assert forall|rest: Seq<(Seq<char>, ValueV)>|
            decode_record_m(ps.skip(0), fs.skip(0)) == Ok::<_, ErrorV>(rest)
            implies decode_record_m(ps, fs) == Ok::<_, ErrorV>(
            crate::value::fields_view(out@) + rest,
        ) by {
            assert(crate::value::fields_view(out@) + rest =~= rest);
        }
    }
    while i < entries.len() && i < field_shapes.len()
        invariant
            0 <= i <= entries.len(),
            0 <= i <= field_shapes.len(),
            ps == entries_view(entries@),
            fs == field_shapes_view(field_shapes@),
            ps.len() == entries@.len(),
            fs.len() == field_shapes@.len(),
            forall|j: int| 0 <= j < entries@.len() ==> ps[j] == (
                #[trigger] entries@[j].0@,
                entries@[j].1@,
            ),
            forall|j: int| 0 <= j < field_shapes@.len() ==> fs[j] == (
                #[trigger] field_shapes@[j].0@,
                field_shapes@[j].1@,
            ),
            forall|rest: Seq<(Seq<char>, ValueV)>|
                decode_record_m(ps.skip(i as int), fs.skip(i as int)) == Ok::<_, ErrorV>(rest)
                    ==> decode_record_m(ps, fs) == Ok::<_, ErrorV>(
                    crate::value::fields_view(out@) + rest,
                ),
            forall|e2: ErrorV|
                decode_record_m(ps.skip(i as int), fs.skip(i as int)) == Err::<
                    Seq<(Seq<char>, ValueV)>,
                    _,
                >(e2) ==> decode_record_m(ps, fs) == Err::<Seq<(Seq<char>, ValueV)>, _>(e2),
        decreases entries@.len() - i,
    {
        let ghost p_suffix = ps.skip(i as int);
        let ghost f_suffix = fs.skip(i as int);
        proof {
            assert(fs[i as int] == (field_shapes@[i as int].0@, field_shapes@[i as int].1@));
            assert(ps[i as int] == (entries@[i as int].0@, entries@[i as int].1@));
            assert(p_suffix[0] == ps[i as int]);
            assert(f_suffix[0] == fs[i as int]);
            assert(p_suffix.subrange(1, p_suffix.len() as int) =~= ps.skip(i as int + 1));
            assert(f_suffix.subrange(1, f_suffix.len() as int) =~= fs.skip(i as int + 1));
        }
        let key_name = match &entries[i].0 {
            Term::Atom(k) => k,
            _ => {
                proof {
                    assert(decode_record_m(p_suffix, f_suffix) == Err::<
                        Seq<(Seq<char>, ValueV)>,
                        _,
                    >(ErrorV::ExpectedAtom));
                }
                return Err(Error::ExpectedAtom);
            },
        };
        if !str_eq(key_name.as_str(), field_shapes[i].0.as_str()) {
            proof {
                assert(decode_record_m(p_suffix, f_suffix) == Err::<Seq<(Seq<char>, ValueV)>, _>(
                    ErrorV::Message("missing field"@),
                ));
            }
            return Err(Error::Message(String::from_str("missing field")));
        }
        let v = match decode_value(&entries[i].1, &field_shapes[i].1) {
            Ok(v) => v,
            Err(e) => {
                proof {
                    assert(decode_record_m(p_suffix, f_suffix) == Err::<
                        Seq<(Seq<char>, ValueV)>,
                        _,
                    >(e@));
                }
                return Err(e);
            },
        };
        let field_name = key_name.clone();
        let ghost field_model = (field_name@, v@);
        let ghost out_before = out@;
        out.push((field_name, v));
        proof {
            crate::value::lemma_push_fields_view(out_before, field_model, out@);
            assert forall|rest: Seq<(Seq<char>, ValueV)>|
                decode_record_m(ps.skip(i as int + 1), fs.skip(i as int + 1)) == Ok::<_, ErrorV>(
                    rest,
                ) implies decode_record_m(ps, fs) == Ok::<_, ErrorV>(
                crate::value::fields_view(out@) + rest,
            ) by {
                assert(decode_record_m(p_suffix, f_suffix) == Ok::<_, ErrorV>(
                    seq![field_model] + rest,
                ));
                assert(crate::value::fields_view(out_before) + (seq![field_model] + rest)
                    =~= crate::value::fields_view(out@) + rest);
            }
            assert forall|e2: ErrorV|
                decode_record_m(ps.skip(i as int + 1), fs.skip(i as int + 1)) == Err::<
                    Seq<(Seq<char>, ValueV)>,
                    _,
                >(e2) implies decode_record_m(ps, fs) == Err::<Seq<(Seq<char>, ValueV)>, _>(
                e2,
            ) by {
                assert(decode_record_m(p_suffix, f_suffix) == Err::<Seq<(Seq<char>, ValueV)>, _>(
                    e2,
                ));
            }
        }
        i += 1;
    }
    if i < entries.len() {
        proof {
            assert(fs.skip(i as int) =~= Seq::<(Seq<char>, ShapeV)>::empty());
            assert(ps.skip(i as int).len() > 0);
            assert(decode_record_m(ps.skip(i as int), fs.skip(i as int)) == Err::<
                Seq<(Seq<char>, ValueV)>,
                _,
            >(ErrorV::TooManyItems));
        }
        Err(Error::TooManyItems)
    } else if i < field_shapes.len() {
        proof {
            assert(ps.skip(i as int) =~= Seq::<(TermV, TermV)>::empty());
            assert(fs.skip(i as int).len() > 0);
            assert(decode_record_m(ps.skip(i as int), fs.skip(i as int)) == Err::<
                Seq<(Seq<char>, ValueV)>,
                _,
            >(ErrorV::Message("missing field"@)));
        }
        Err(Error::Message(String::from_str("missing field")))
    } else {
        proof {
            assert(ps.skip(i as int) =~= Seq::<(TermV, TermV)>::empty());
            assert(fs.skip(i as int) =~= Seq::<(Seq<char>, ShapeV)>::empty());
            assert(crate::value::fields_view(out@) + Seq::<(Seq<char>, ValueV)>::empty()
                =~= crate::value::fields_view(out@));
        }
        Ok(out)
    }
}

/// Decodes the fields of a record positionally from list elements,
/// exactly as [`decode_record_list_m`] describes.
fn decode_record_list_fields(
    elements: &Vec<Term>,
    field_shapes: &Vec<(String, Shape)>,
) -> (r: Result<Vec<(String, Value)>, Error>)
    ensures
        match r {
            Ok(fields) => decode_record_list_m(
                terms_view(elements@),
                field_shapes_view(field_shapes@),
            ) == Ok::<_, ErrorV>(crate::value::fields_view(fields@)),
            Err(e) => decode_record_list_m(
                terms_view(elements@),
                field_shapes_view(field_shapes@),
            ) == Err::<Seq<(Seq<char>, ValueV)>, _>(e@),
        },
    decreases field_shapes, elements,
{
    let ghost ts = terms_view(elements@);
    let ghost fs = field_shapes_view(field_shapes@);
    proof {
        lemma_terms_view(elements@);
        lemma_field_shapes_view(field_shapes@);
    }
    let mut out: Vec<(String, Value)> = Vec::new();
    let mut i: usize = 0;
    proof {
        assert(ts.skip(0) =~= ts);
        assert(fs.skip(0) =~= fs);
        assert forall|rest: Seq<(Seq<char>, ValueV)>|
            decode_record_list_m(ts.skip(0), fs.skip(0)) == Ok::<_, ErrorV>(rest)
            implies decode_record_list_m(ts, fs) == Ok::<_, ErrorV>(
            crate::value::fields_view(out@) + rest,
        ) by {
            assert(crate::value::fields_view(out@) + rest =~= rest);
        }
    }
    while i < elements.len() && i < field_shapes.len()
        invariant
            0 <= i <= elements.len(),
            0 <= i <= field_shapes.len(),
            ts == terms_view(elements@),
            fs == field_shapes_view(field_shapes@),
            ts.len() == elements@.len(),
            fs.len() == field_shapes@.len(),
            forall|j: int| 0 <= j < elements@.len() ==> ts[j] == #[trigger] elements@[j]@,
            forall|j: int| 0 <= j < field_shapes@.len() ==> fs[j] == (
                #[trigger] field_shapes@[j].0@,
                field_shapes@[j].1@,
            ),
            forall|rest: Seq<(Seq<char>, ValueV)>|
                decode_record_list_m(ts.skip(i as int), fs.skip(i as int)) == Ok::<_, ErrorV>(rest)
                    ==> decode_record_list_m(ts, fs) == Ok::<_, ErrorV>(
                    crate::value::fields_view(out@) + rest,
                ),
            forall|e2: ErrorV|
                decode_record_list_m(ts.skip(i as int), fs.skip(i as int)) == Err::<
                    Seq<(Seq<char>, ValueV)>,
                    _,
                >(e2) ==> decode_record_list_m(ts, fs) == Err::<Seq<(Seq<char>, ValueV)>, _>(e2),
        decreases elements@.len() - i,
    {
        let ghost t_suffix = ts.skip(i as int);
        let ghost f_suffix = fs.skip(i as int);
        proof {
            assert(fs[i as int] == (field_shapes@[i as int].0@, field_shapes@[i as int].1@));
            assert(t_suffix[0] == ts[i as int]);
            assert(f_suffix[0] == fs[i as int]);
            assert(t_suffix.subrange(1, t_suffix.len() as int) =~= ts.skip(i as int + 1));
            assert(f_suffix.subrange(1, f_suffix.len() as int) =~= fs.skip(i as int + 1));
        }
        let v = match decode_value(&elements[i], &field_shapes[i].1) {
            Ok(v) => v,
            Err(e) => {
                proof {
                    assert(decode_record_list_m(t_suffix, f_suffix) == Err::<
                        Seq<(Seq<char>, ValueV)>,
                        _,
                    >(e@));
                }
                return Err(e);
            },
        };
        let field_name = field_shapes[i].0.clone();
        let ghost field_model = (field_name@, v@);
        let ghost out_before = out@;
        out.push((field_name, v));
        proof {
            crate::value::lemma_push_fields_view(out_before, field_model, out@);
            assert forall|rest: Seq<(Seq<char>, ValueV)>|
                decode_record_list_m(ts.skip(i as int + 1), fs.skip(i as int + 1)) == Ok::<
                    _,
                    ErrorV,
                >(rest) implies decode_record_list_m(ts, fs) == Ok::<_, ErrorV>(
                crate::value::fields_view(out@) + rest,
            ) by {
                assert(decode_record_list_m(t_suffix, f_suffix) == Ok::<_, ErrorV>(
                    seq![field_model] + rest,
                ));
                assert(crate::value::fields_view(out_before) + (seq![field_model] + rest)
                    =~= crate::value::fields_view(out@) + rest);
            }
            assert forall|e2: ErrorV|
                decode_record_list_m(ts.skip(i as int + 1), fs.skip(i as int + 1)) == Err::<
                    Seq<(Seq<char>, ValueV)>,
                    _,
                >(e2) implies decode_record_list_m(ts, fs) == Err::<Seq<(Seq<char>, ValueV)>, _>(
                e2,
            ) by {
                assert(decode_record_list_m(t_suffix, f_suffix) == Err::<
                    Seq<(Seq<char>, ValueV)>,
                    _,
                >(e2));
            }
        }
        i += 1;
    }
    if i < elements.len() {
        proof {
            assert(fs.skip(i as int) =~= Seq::<(Seq<char>, ShapeV)>::empty());
            assert(ts.skip(i as int).len() > 0);
        }
        Err(Error::TooManyItems)
    } else if i < field_shapes.len() {
        proof {
            assert(ts.skip(i as int) =~= Seq::<TermV>::empty());
            assert(fs.skip(i as int).len() > 0);
        }
        Err(Error::Message(String::from_str("missing field")))
    } else {
        proof {
            assert(ts.skip(i as int) =~= Seq::<TermV>::empty());
            assert(fs.skip(i as int) =~= Seq::<(Seq<char>, ShapeV)>::empty());
            assert(crate::value::fields_view(out@) + Seq::<(Seq<char>, ValueV)>::empty()
                =~= crate::value::fields_view(out@));
        }
        Ok(out)
    }
}

/// Decodes a term with no shape hint at all, exactly as [`decode_any_m`]
/// describes: the self-describing fallback for the handful of wire kinds
/// that need no hint.
pub fn decode_any(t: &Term) -> (r: Result<Value, Error>)
    ensures
        result_view(r) == decode_any_m(t@),
    decreases t,
{
    match t {
        Term::Atom(name) => Ok(Value::Text(name.clone())),
        Term::FixInteger(x) => Ok(Value::I32(*x)),
        Term::Float(bits) => Ok(Value::Float(*bits)),
        Term::Binary(b) => Ok(Value::Bytes(slice_to_vec(b.as_slice()))),
        Term::List(elements) => match decode_any_items(elements) {
            Ok(vs) => Ok(Value::Sequence(vs)),
            Err(e) => Err(e),
        },
        Term::Tuple(elements) => match decode_any_items(elements) {
            Ok(vs) => Ok(Value::Sequence(vs)),
            Err(e) => Err(e),
        },
        Term::Mapping(entries) => match decode_any_pairs(entries) {
            Ok(pairs) => Ok(Value::Mapping(pairs)),
            Err(e) => Err(e),
        },
        _ => Err(Error::TypeHintsRequired),
    }
}

/// Generic decode of the elements of a list or tuple, exactly as
/// [`decode_any_list_m`] describes.
fn decode_any_items(elements: &Vec<Term>) -> (r: Result<Vec<Value>, Error>)
    ensures
        match r {
            Ok(vs) => decode_any_list_m(terms_view(elements@)) == Ok::<_, ErrorV>(
                crate::value::values_view(vs@),
            ),
            Err(e) => decode_any_list_m(terms_view(elements@)) == Err::<Seq<ValueV>, _>(e@),
        },
    decreases elements,
{
    let ghost ts = terms_view(elements@);
    proof {
        lemma_terms_view(elements@);
    }
    let mut out: Vec<Value> = Vec::new();
    let mut i: usize = 0;
    proof {
        assert(ts.skip(0) =~= ts);
        assert forall|rest: Seq<ValueV>|
            decode_any_list_m(ts.skip(0)) == Ok::<_, ErrorV>(rest) implies decode_any_list_m(ts)
            == Ok::<_, ErrorV>(crate::value::values_view(out@) + rest) by {
            assert(crate::value::values_view(out@) + rest =~= rest);
        }
    }
    while i < elements.len()
        invariant
            0 <= i <= elements.len(),
            ts == terms_view(elements@),
            ts.len() == elements@.len(),
            forall|j: int| 0 <= j < elements@.len() ==> ts[j] == #[trigger] elements@[j]@,
            forall|rest: Seq<ValueV>|
                decode_any_list_m(ts.skip(i as int)) == Ok::<_, ErrorV>(rest)
                    ==> decode_any_list_m(ts) == Ok::<_, ErrorV>(
                    crate::value::values_view(out@) + rest,
                ),
            forall|e2: ErrorV|
                decode_any_list_m(ts.skip(i as int)) == Err::<Seq<ValueV>, _>(e2)
                    ==> decode_any_list_m(ts) == Err::<Seq<ValueV>, _>(e2),
        decreases elements@.len() - i,
    {
        let ghost suffix = ts.skip(i as int);
        proof {
            assert(suffix[0] == ts[i as int]);
            assert(suffix.subrange(1, suffix.len() as int) =~= ts.skip(i as int + 1));
        }
        let v = match decode_any(&elements[i]) {
            Ok(v) => v,
            Err(e) => {
                proof {
                    assert(decode_any_list_m(suffix) == Err::<Seq<ValueV>, _>(e@));
                }
                return Err(e);
            },
        };
        let ghost v_model = v@;
        let ghost out_before = out@;
        out.push(v);
        proof {
            crate::value::lemma_push_values_view(out_before, v_model, out@);
            assert forall|rest: Seq<ValueV>|
                decode_any_list_m(ts.skip(i as int + 1)) == Ok::<_, ErrorV>(rest)
                    implies decode_any_list_m(ts) == Ok::<_, ErrorV>(
                crate::value::values_view(out@) + rest,
            ) by {
                assert(decode_any_list_m(suffix) == Ok::<_, ErrorV>(seq![v_model] + rest));
                assert(crate::value::values_view(out_before) + (seq![v_model] + rest)
                    =~= crate::value::values_view(out@) + rest);
            }
            assert forall|e2: ErrorV|
                decode_any_list_m(ts.skip(i as int + 1)) == Err::<Seq<ValueV>, _>(e2)
                    implies decode_any_list_m(ts) == Err::<Seq<ValueV>, _>(e2) by {
                assert(decode_any_list_m(suffix) == Err::<Seq<ValueV>, _>(e2));
            }
        }
        i += 1;
    }
    proof {
        assert(ts.skip(elements@.len() as int) =~= Seq::<TermV>::empty());
        assert(crate::value::values_view(out@) + Seq::<ValueV>::empty()
            =~= crate::value::values_view(out@));
    }
    Ok(out)
}

/// Generic decode of the entries of a map, exactly as
/// [`decode_any_entries_m`] describes.
fn decode_any_pairs(entries: &Vec<(Term, Term)>) -> (r: Result<Vec<(Value, Value)>, Error>)
    ensures
        match r {
            Ok(pairs) => decode_any_entries_m(entries_view(entries@)) == Ok::<_, ErrorV>(
                crate::value::value_entries_view(pairs@),
            ),
            Err(e) => decode_any_entries_m(entries_view(entries@)) == Err::<
                Seq<(ValueV, ValueV)>,
                _,
            >(e@),
        },
    decreases entries,
{
    let ghost ps = entries_view(entries@);
    proof {
        lemma_entries_view(entries@);
    }
    let mut out: Vec<(Value, Value)> = Vec::new();
    let mut i: usize = 0;
    proof {
        assert(ps.skip(0) =~= ps);
        assert forall|rest: Seq<(ValueV, ValueV)>|
            decode_any_entries_m(ps.skip(0)) == Ok::<_, ErrorV>(rest)
            implies decode_any_entries_m(ps) == Ok::<_, ErrorV>(
            crate::value::value_entries_view(out@) + rest,
        ) by {
            assert(crate::value::value_entries_view(out@) + rest =~= rest);
        }
    }
    while i < entries.len()
        invariant
            0 <= i <= entries.len(),
            ps == entries_view(entries@),
            ps.len() == entries@.len(),
            forall|j: int| 0 <= j < entries@.len() ==> ps[j] == (
                #[trigger] entries@[j].0@,
                entries@[j].1@,
            ),
            forall|rest: Seq<(ValueV, ValueV)>|
                decode_any_entries_m(ps.skip(i as int)) == Ok::<_, ErrorV>(rest)
                    ==> decode_any_entries_m(ps) == Ok::<_, ErrorV>(
                    crate::value::value_entries_view(out@) + rest,
                ),
            forall|e2: ErrorV|
                decode_any_entries_m(ps.skip(i as int)) == Err::<Seq<(ValueV, ValueV)>, _>(e2)
                    ==> decode_any_entries_m(ps) == Err::<Seq<(ValueV, ValueV)>, _>(e2),
        decreases entries@.len() - i,
    {
        let ghost suffix = ps.skip(i as int);
        proof {
            assert(suffix[0] == ps[i as int]);
            assert(suffix.subrange(1, suffix.len() as int) =~= ps.skip(i as int + 1));
        }
        let k = match decode_any(&entries[i].0) {
            Ok(k) => k,
            Err(e) => {
                proof {
                    assert(decode_any_entries_m(suffix) == Err::<Seq<(ValueV, ValueV)>, _>(e@));
                }
                return Err(e);
            },
        };
        let v = match decode_any(&entries[i].1) {
            Ok(v) => v,
            Err(e) => {
                proof {
                    assert(decode_any_entries_m(suffix) == Err::<Seq<(ValueV, ValueV)>, _>(e@));
                }
                return Err(e);
            },
        };
        let ghost pair_model = (k@, v@);
        let ghost out_before = out@;
        out.push((k, v));
        proof {
            crate::value::lemma_push_value_entries_view(out_before, pair_model, out@);
            assert forall|rest: Seq<(ValueV, ValueV)>|
                decode_any_entries_m(ps.skip(i as int + 1)) == Ok::<_, ErrorV>(rest)
                    implies decode_any_entries_m(ps) == Ok::<_, ErrorV>(
                crate::value::value_entries_view(out@) + rest,
            ) by {
                assert(decode_any_entries_m(suffix) == Ok::<_, ErrorV>(seq![pair_model] + rest));
                assert(crate::value::value_entries_view(out_before) + (seq![pair_model] + rest)
                    =~= crate::value::value_entries_view(out@) + rest);
            }
            assert forall|e2: ErrorV|
                decode_any_entries_m(ps.skip(i as int + 1)) == Err::<Seq<(ValueV, ValueV)>, _>(e2)
                    implies decode_any_entries_m(ps) == Err::<Seq<(ValueV, ValueV)>, _>(e2) by {
                assert(decode_any_entries_m(suffix) == Err::<Seq<(ValueV, ValueV)>, _>(e2));
            }
        }
        i += 1;
    }
    proof {
        assert(ps.skip(entries@.len() as int) =~= Seq::<(TermV, TermV)>::empty());
        assert(crate::value::value_entries_view(out@) + Seq::<(ValueV, ValueV)>::empty()
            =~= crate::value::value_entries_view(out@));
    }
    Ok(out)
}

} // verus!
