//! The encoder: from typed values to term tree nodes.
//!
//! Every mapping follows the wire convention of the format: booleans and
//! unit-like values become atoms, narrow integers become fixed integers,
//! wide integers become big integers, text becomes a UTF-8 binary, and
//! composite values become lists, tuples and maps.  Non-unit enum variants
//! are externally tagged as a two-element tuple.
use vstd::prelude::*;
use vstd::slice::slice_to_vec;
use vstd::string::StrSliceExecFns;
use vstd::string::StringExecFns;
use vstd::utf8::encode_utf8;

use crate::casing::snake_of;
use crate::casing::to_snake_case;
use crate::error::Error;
use crate::error::ErrorV;
use crate::term::entries_view;
use crate::term::lemma_entries_view;
use crate::term::lemma_terms_view;
use crate::term::terms_view;
use crate::term::Term;
use crate::term::TermV;
use crate::value::fields_view;
use crate::value::lemma_fields_view;
use crate::value::lemma_value_entries_view;
use crate::value::lemma_values_view;
use crate::value::value_entries_view;
use crate::value::values_view;
use crate::value::Value;
use crate::value::ValueV;

verus! {

/// Whether the 64-bit float with these bits is finite, that is, neither an
/// infinity nor a NaN: finite exactly when the exponent field is not all
/// ones.
pub open spec fn is_finite_bits(bits: u64) -> bool {
    (bits >> 52) & 0x7ff != 0x7ff
}

/// Encodes a boolean as the atom `true` or `false`.
pub fn encode_bool(v: bool) -> (r: Term)
    ensures
        r@ == TermV::Atom(if v {
            "true"@
        } else {
            "false"@
        }),
{
    if v {
        Term::Atom(String::from_str("true"))
    } else {
        Term::Atom(String::from_str("false"))
    }
}

/// Encodes an 8-bit signed integer as a fixed integer.
pub fn encode_i8(v: i8) -> (r: Term)
    ensures
        r@ == TermV::FixInteger(v as int),
{
    Term::FixInteger(v as i32)
}

/// Encodes a 16-bit signed integer as a fixed integer.
pub fn encode_i16(v: i16) -> (r: Term)
    ensures
        r@ == TermV::FixInteger(v as int),
{
    Term::FixInteger(v as i32)
}

/// Encodes a 32-bit signed integer as a fixed integer.
pub fn encode_i32(v: i32) -> (r: Term)
    ensures
        r@ == TermV::FixInteger(v as int),
{
    Term::FixInteger(v)
}

/// Encodes a 64-bit signed integer as a big integer.
pub fn encode_i64(v: i64) -> (r: Term)
    ensures
        r@ == TermV::BigInteger(v as int),
{
    Term::BigInteger(v as i128)
}

/// Encodes an 8-bit unsigned integer as a fixed integer.
pub fn encode_u8(v: u8) -> (r: Term)
    ensures
        r@ == TermV::FixInteger(v as int),
{
    Term::FixInteger(v as i32)
}

/// Encodes a 16-bit unsigned integer as a fixed integer.
pub fn encode_u16(v: u16) -> (r: Term)
    ensures
        r@ == TermV::FixInteger(v as int),
{
    Term::FixInteger(v as i32)
}

/// Encodes a 32-bit unsigned integer as a big integer: the wire's fixed
/// integer is 32-bit signed, which cannot carry the upper half of the range.
pub fn encode_u32(v: u32) -> (r: Term)
    ensures
        r@ == TermV::BigInteger(v as int),
{
    Term::BigInteger(v as i128)
}

/// Encodes a 64-bit unsigned integer as a big integer.
pub fn encode_u64(v: u64) -> (r: Term)
    ensures
        r@ == TermV::BigInteger(v as int),
{
    Term::BigInteger(v as i128)
}

/// Encodes a 64-bit float, given as its raw bits, as a wire float.
///
/// The wire float representation has no non-finite values, so an infinity
/// or NaN is rejected with `FloatConvertError`.
pub fn encode_f64_bits(bits: u64) -> (r: Result<Term, Error>)
    ensures
        is_finite_bits(bits) ==> (r matches Ok(t) && t@ == TermV::Float(bits)),
        !is_finite_bits(bits) ==> (r matches Err(e) && e@ == ErrorV::FloatConvertError),
{
    if (bits >> 52) & 0x7ff == 0x7ff {
        Err(Error::FloatConvertError)
    } else {
        Ok(Term::Float(bits))
    }
}

/// Encodes a character as a binary holding the UTF-8 bytes of that single
/// character.
pub fn encode_char(c: char) -> (r: Term)
    ensures
        r@ == TermV::Binary(encode_utf8(seq![c])),
{
    let u = c as u32;
    let mut bytes: Vec<u8> = Vec::new();
    if u <= 0x7f {
        bytes.push((u & 0x7f) as u8);
    } else if u <= 0x7ff {
        bytes.push(0xc0 | ((u >> 6) & 0x1f) as u8);
        bytes.push(0x80 | (u & 0x3f) as u8);
    } else if u <= 0xffff {
        bytes.push(0xe0 | ((u >> 12) & 0x0f) as u8);
        bytes.push(0x80 | ((u >> 6) & 0x3f) as u8);
        bytes.push(0x80 | (u & 0x3f) as u8);
    } else {
        bytes.push(0xf0 | ((u >> 18) & 0x7) as u8);
        bytes.push(0x80 | ((u >> 12) & 0x3f) as u8);
        bytes.push(0x80 | ((u >> 6) & 0x3f) as u8);
        bytes.push(0x80 | (u & 0x3f) as u8);
    }
    proof {
        broadcast use vstd::utf8::char_is_scalar;

        reveal_with_fuel(vstd::utf8::encode_utf8, 2);
        assert(seq![c][0] == c);
        assert(seq![c].drop_first() =~= Seq::<char>::empty());
        assert(vstd::utf8::encode_scalar(c as u32) + Seq::<u8>::empty()
            =~= vstd::utf8::encode_scalar(c as u32));
        assert(bytes@ =~= vstd::utf8::encode_scalar(u));
    }
    Term::Binary(bytes)
}

/// Encodes a string as a binary holding its UTF-8 bytes.
pub fn encode_str(s: &str) -> (r: Term)
    ensures
        r@ == TermV::Binary(encode_utf8(s@)),
{
    Term::Binary(s.as_bytes_vec())
}

/// Encodes a byte blob as a binary holding the bytes themselves.
pub fn encode_bytes(b: &[u8]) -> (r: Term)
    ensures
        r@ == TermV::Binary(b@),
{
    Term::Binary(slice_to_vec(b))
}

/// Encodes an absent optional as the atom `nil`.
///
/// A present optional encodes as just the contained value, so `nil` is also
/// what a present unit comes out as: the collapse is part of the wire
/// convention.
pub fn encode_none() -> (r: Term)
    ensures
        r@ == TermV::Atom("nil"@),
{
    Term::Atom(String::from_str("nil"))
}

/// Encodes a unit value as the atom `nil`.
pub fn encode_unit() -> (r: Term)
    ensures
        r@ == TermV::Atom("nil"@),
{
    encode_none()
}

/// Encodes a unit struct as the atom `nil`; the struct's name is not put on
/// the wire.
pub fn encode_unit_struct(_name: &str) -> (r: Term)
    ensures
        r@ == TermV::Atom("nil"@),
{
    encode_unit()
}

/// Encodes a unit enum variant as an atom holding the snake_case form of
/// the variant name.
pub fn encode_unit_variant(variant: &str) -> (r: Term)
    ensures
        r@ == TermV::Atom(snake_of(variant@)),
{
    Term::Atom(to_snake_case(variant))
}

/// Encodes a newtype enum variant as the externally tagged two-element
/// tuple `{snake_case(variant), payload}`.
pub fn encode_newtype_variant(variant: &str, value: Term) -> (r: Term)
    ensures
        r@ == TermV::Tuple(seq![TermV::Atom(snake_of(variant@)), value@]),
{
    let ghost value_model = value@;
    let tag = Term::Atom(to_snake_case(variant));
    let ghost tag_model = tag@;
    let mut elements: Vec<Term> = Vec::new();
    elements.push(tag);
    elements.push(value);
    proof {
        lemma_terms_view(elements@);
        assert(terms_view(elements@)[0] == elements@[0]@);
        assert(terms_view(elements@)[1] == elements@[1]@);
        assert(terms_view(elements@) =~= seq![tag_model, value_model]);
    }
    Term::Tuple(elements)
}

/// Accumulates the element nodes of a sequence or fixed tuple, in the order
/// received, and finalizes into a single list or tuple node.
pub struct SequenceBuilder {
    pub items: Vec<Term>,
}

impl View for SequenceBuilder {
    type V = Seq<TermV>;

    open spec fn view(&self) -> Seq<TermV> {
        terms_view(self.items@)
    }
}

impl SequenceBuilder {
    /// Starts with no elements.
    pub fn new() -> (r: SequenceBuilder)
        ensures
            r@ == Seq::<TermV>::empty(),
    {
        SequenceBuilder { items: Vec::new() }
    }

    /// Appends one already-encoded element.
    pub fn push(&mut self, t: Term)
        ensures
            final(self)@ == old(self)@.push(t@),
    {
        let ghost t_model = t@;
        let ghost before = self.items@;
        self.items.push(t);
        proof {
            lemma_push_terms_view(before, t_model, self.items@);
        }
    }

    /// Finalizes into a list node.
    pub fn end_list(self) -> (r: Term)
        ensures
            r@ == TermV::List(self@),
    {
        Term::List(self.items)
    }

    /// Finalizes into a fixed-tuple node.
    pub fn end_tuple(self) -> (r: Term)
        ensures
            r@ == TermV::Tuple(self@),
    {
        Term::Tuple(self.items)
    }
}

/// Accumulates the payload elements of a tuple enum variant and finalizes
/// into the externally tagged form `{snake_case(variant), {elements}}`.
pub struct NamedSequenceBuilder {
    pub tag: String,
    pub items: Vec<Term>,
}

impl View for NamedSequenceBuilder {
    type V = (Seq<char>, Seq<TermV>);

    open spec fn view(&self) -> (Seq<char>, Seq<TermV>) {
        (self.tag@, terms_view(self.items@))
    }
}

impl NamedSequenceBuilder {
    /// Starts an empty payload under the snake_case form of the variant
    /// name.
    pub fn new(variant: &str) -> (r: NamedSequenceBuilder)
        ensures
            r@ == (snake_of(variant@), Seq::<TermV>::empty()),
    {
        NamedSequenceBuilder { tag: to_snake_case(variant), items: Vec::new() }
    }

    /// Appends one already-encoded payload element.
    pub fn push(&mut self, t: Term)
        ensures
            final(self)@ == (old(self)@.0, old(self)@.1.push(t@)),
    {
        let ghost t_model = t@;
        let ghost before = self.items@;
        self.items.push(t);
        proof {
            lemma_push_terms_view(before, t_model, self.items@);
        }
    }

    /// Finalizes into the tagged two-element tuple.
    pub fn end(self) -> (r: Term)
        ensures
            r@ == TermV::Tuple(seq![TermV::Atom(self@.0), TermV::Tuple(self@.1)]),
    {
        let ghost payload_model = terms_view(self.items@);
        let tag = Term::Atom(self.tag);
        let ghost tag_model = tag@;
        let payload = Term::Tuple(self.items);
        let mut elements: Vec<Term> = Vec::new();
        elements.push(tag);
        elements.push(payload);
        proof {
            lemma_terms_view(elements@);
            assert(terms_view(elements@)[0] == elements@[0]@);
            assert(terms_view(elements@)[1] == elements@[1]@);
            assert(terms_view(elements@) =~= seq![tag_model, TermV::Tuple(payload_model)]);
        }
        Term::Tuple(elements)
    }
}

/// Accumulates the key-value entries of a map or the named fields of a
/// record, in the order received, and finalizes into a single map node.
/// Entries are never reordered or deduplicated.
pub struct MapBuilder {
    pub entries: Vec<(Term, Term)>,
}

impl View for MapBuilder {
    type V = Seq<(TermV, TermV)>;

    open spec fn view(&self) -> Seq<(TermV, TermV)> {
        entries_view(self.entries@)
    }
}

impl MapBuilder {
    /// Starts with no entries.
    pub fn new() -> (r: MapBuilder)
        ensures
            r@ == Seq::<(TermV, TermV)>::empty(),
    {
        MapBuilder { entries: Vec::new() }
    }

    /// Appends one already-encoded key-value entry.
    pub fn push_entry(&mut self, key: Term, value: Term)
        ensures
            final(self)@ == old(self)@.push((key@, value@)),
    {
        let ghost pair_model = (key@, value@);
        let ghost before = self.entries@;
        self.entries.push((key, value));
        proof {
            lemma_push_entries_view(before, pair_model, self.entries@);
        }
    }

    /// Appends one record field: the field name becomes an atom key,
    /// spelled verbatim, never case-converted.
    pub fn push_field(&mut self, name: &str, value: Term)
        ensures
            final(self)@ == old(self)@.push((TermV::Atom(name@), value@)),
    {
        let key = Term::Atom(String::from_str(name));
        self.push_entry(key, value);
    }

    /// Finalizes into a map node.
    pub fn end(self) -> (r: Term)
        ensures
            r@ == TermV::Mapping(self@),
    {
        Term::Mapping(self.entries)
    }
}

/// Accumulates the named fields of a record enum variant and finalizes into
/// the externally tagged form `{snake_case(variant), map}`.
pub struct NamedMapBuilder {
    pub tag: String,
    pub entries: Vec<(Term, Term)>,
}

impl View for NamedMapBuilder {
    type V = (Seq<char>, Seq<(TermV, TermV)>);

    open spec fn view(&self) -> (Seq<char>, Seq<(TermV, TermV)>) {
        (self.tag@, entries_view(self.entries@))
    }
}

impl NamedMapBuilder {
    /// Starts an empty payload under the snake_case form of the variant
    /// name.
    pub fn new(variant: &str) -> (r: NamedMapBuilder)
        ensures
            r@ == (snake_of(variant@), Seq::<(TermV, TermV)>::empty()),
    {
        NamedMapBuilder { tag: to_snake_case(variant), entries: Vec::new() }
    }

    /// Appends one record field: the field name becomes an atom key,
    /// spelled verbatim, never case-converted.
    pub fn push_field(&mut self, name: &str, value: Term)
        ensures
            final(self)@ == (old(self)@.0, old(self)@.1.push((TermV::Atom(name@), value@))),
    {
        let key = Term::Atom(String::from_str(name));
        let ghost pair_model = (key@, value@);
        let ghost before = self.entries@;
        self.entries.push((key, value));
        proof {
            lemma_push_entries_view(before, pair_model, self.entries@);
        }
    }

    /// Finalizes into the tagged two-element tuple.
    pub fn end(self) -> (r: Term)
        ensures
            r@ == TermV::Tuple(seq![TermV::Atom(self@.0), TermV::Mapping(self@.1)]),
    {
        let ghost payload_model = entries_view(self.entries@);
        let tag = Term::Atom(self.tag);
        let ghost tag_model = tag@;
        let payload = Term::Mapping(self.entries);
        let mut elements: Vec<Term> = Vec::new();
        elements.push(tag);
        elements.push(payload);
        proof {
            lemma_terms_view(elements@);
            assert(terms_view(elements@)[0] == elements@[0]@);
            assert(terms_view(elements@)[1] == elements@[1]@);
            assert(terms_view(elements@) =~= seq![tag_model, TermV::Mapping(payload_model)]);
        }
        Term::Tuple(elements)
    }
}

/// What the encoder produces for a value: the full mapping from the typed
/// data model onto term tree nodes.
///
/// Encoding is total except for floats: a non-finite float is rejected with
/// `FloatConvertError`, and the first such failure anywhere in a composite
/// value fails the whole encode.  A present optional encodes as just its
/// payload, so `nil` (the encoding of an absent optional) and the encoding
/// of a present unit coincide; this collapse is part of the wire
/// convention.  Newtype wrappers are transparent.
pub open spec fn encode_m(v: ValueV) -> Result<TermV, ErrorV>
    decreases v,
{
    match v {
        ValueV::Bool(b) => Ok(TermV::Atom(if b {
            "true"@
        } else {
            "false"@
        })),
        ValueV::I8(x) => Ok(TermV::FixInteger(x as int)),
        ValueV::I16(x) => Ok(TermV::FixInteger(x as int)),
        ValueV::I32(x) => Ok(TermV::FixInteger(x as int)),
        ValueV::I64(x) => Ok(TermV::BigInteger(x as int)),
        ValueV::U8(x) => Ok(TermV::FixInteger(x as int)),
        ValueV::U16(x) => Ok(TermV::FixInteger(x as int)),
        ValueV::U32(x) => Ok(TermV::BigInteger(x as int)),
        ValueV::U64(x) => Ok(TermV::BigInteger(x as int)),
        ValueV::Float(bits) => if is_finite_bits(bits) {
            Ok(TermV::Float(bits))
        } else {
            Err(ErrorV::FloatConvertError)
        },
        ValueV::Char(c) => Ok(TermV::Binary(encode_utf8(seq![c]))),
        ValueV::Text(s) => Ok(TermV::Binary(encode_utf8(s))),
        ValueV::Bytes(b) => Ok(TermV::Binary(b)),
        ValueV::OptNone => Ok(TermV::Atom("nil"@)),
        ValueV::OptSome(inner) => encode_m(*inner),
        ValueV::Unit => Ok(TermV::Atom("nil"@)),
        ValueV::UnitStruct(_) => Ok(TermV::Atom("nil"@)),
        ValueV::Newtype(inner) => encode_m(*inner),
        ValueV::Sequence(items) => match encode_seq_m(items) {
            Ok(ts) => Ok(TermV::List(ts)),
            Err(e) => Err(e),
        },
        ValueV::Tuple(items) => match encode_seq_m(items) {
            Ok(ts) => Ok(TermV::Tuple(ts)),
            Err(e) => Err(e),
        },
        ValueV::Mapping(entries) => match encode_entries_m(entries) {
            Ok(ps) => Ok(TermV::Mapping(ps)),
            Err(e) => Err(e),
        },
        ValueV::Record(fields) => match encode_fields_m(fields) {
            Ok(ps) => Ok(TermV::Mapping(ps)),
            Err(e) => Err(e),
        },
        ValueV::UnitVariant(name) => Ok(TermV::Atom(snake_of(name))),
        ValueV::NewtypeVariant(name, inner) => match encode_m(*inner) {
            Ok(t) => Ok(TermV::Tuple(seq![TermV::Atom(snake_of(name)), t])),
            Err(e) => Err(e),
        },
        ValueV::TupleVariant(name, items) => match encode_seq_m(items) {
            Ok(ts) => Ok(TermV::Tuple(seq![TermV::Atom(snake_of(name)), TermV::Tuple(ts)])),
            Err(e) => Err(e),
        },
        ValueV::RecordVariant(name, fields) => match encode_fields_m(fields) {
            Ok(ps) => Ok(TermV::Tuple(seq![TermV::Atom(snake_of(name)), TermV::Mapping(ps)])),
            Err(e) => Err(e),
        },
    }
}

/// Encodes a sequence of values element by element, in order; the first
/// failure wins.
pub open spec fn encode_seq_m(vs: Seq<ValueV>) -> Result<Seq<TermV>, ErrorV>
    decreases vs,
{
    if vs.len() == 0 {
        Ok(Seq::empty())
    } else {
        match encode_m(vs[0]) {
            Ok(t) => match encode_seq_m(vs.subrange(1, vs.len() as int)) {
                Ok(ts) => Ok(seq![t] + ts),
                Err(e) => Err(e),
            },
            Err(e) => Err(e),
        }
    }
}

/// Encodes a sequence of key-value pairs entry by entry, in order, the key
/// of each entry before its value; the first failure wins.
pub open spec fn encode_entries_m(ps: Seq<(ValueV, ValueV)>) -> Result<
    Seq<(TermV, TermV)>,
    ErrorV,
>
    decreases ps,
{
    if ps.len() == 0 {
        Ok(Seq::empty())
    } else {
        match encode_m(ps[0].0) {
            Ok(k) => match encode_m(ps[0].1) {
                Ok(v) => match encode_entries_m(ps.subrange(1, ps.len() as int)) {
                    Ok(rest) => Ok(seq![(k, v)] + rest),
                    Err(e) => Err(e),
                },
                Err(e) => Err(e),
            },
            Err(e) => Err(e),
        }
    }
}

/// Encodes a sequence of named fields in order: each field name becomes an
/// atom key, spelled verbatim; the first failure wins.
pub open spec fn encode_fields_m(fs: Seq<(Seq<char>, ValueV)>) -> Result<
    Seq<(TermV, TermV)>,
    ErrorV,
>
    decreases fs,
{
    if fs.len() == 0 {
        Ok(Seq::empty())
    } else {
        match encode_m(fs[0].1) {
            Ok(v) => match encode_fields_m(fs.subrange(1, fs.len() as int)) {
                Ok(rest) => Ok(seq![(TermV::Atom(fs[0].0), v)] + rest),
                Err(e) => Err(e),
            },
            Err(e) => Err(e),
        }
    }
}

/// Encodes a typed value into a term tree node, exactly as [`encode_m`]
/// describes.
pub fn encode_value(v: &Value) -> (r: Result<Term, Error>)
    ensures
        crate::error::result_view(r) == encode_m(v@),
    decreases v,
{
    match v {
        Value::Bool(b) => Ok(encode_bool(*b)),
        Value::I8(x) => Ok(encode_i8(*x)),
        Value::I16(x) => Ok(encode_i16(*x)),
        Value::I32(x) => Ok(encode_i32(*x)),
        Value::I64(x) => Ok(encode_i64(*x)),
        Value::U8(x) => Ok(encode_u8(*x)),
        Value::U16(x) => Ok(encode_u16(*x)),
        Value::U32(x) => Ok(encode_u32(*x)),
        Value::U64(x) => Ok(encode_u64(*x)),
        Value::Float(bits) => encode_f64_bits(*bits),
        Value::Char(c) => Ok(encode_char(*c)),
        Value::Text(s) => Ok(encode_str(s.as_str())),
        Value::Bytes(b) => Ok(encode_bytes(b.as_slice())),
        Value::OptNone => Ok(encode_none()),
        Value::OptSome(inner) => encode_value(&**inner),
        Value::Unit => Ok(encode_unit()),
        Value::UnitStruct(name) => Ok(encode_unit_struct(name.as_str())),
        Value::Newtype(inner) => encode_value(&**inner),
        Value::Sequence(items) => match encode_items(items) {
            Ok(ts) => Ok(Term::List(ts)),
            Err(e) => Err(e),
        },
        Value::Tuple(items) => match encode_items(items) {
            Ok(ts) => Ok(Term::Tuple(ts)),
            Err(e) => Err(e),
        },
        Value::Mapping(entries) => match encode_value_entries(entries) {
            Ok(ps) => Ok(Term::Mapping(ps)),
            Err(e) => Err(e),
        },
        Value::Record(fields) => match encode_value_fields(fields) {
            Ok(ps) => Ok(Term::Mapping(ps)),
            Err(e) => Err(e),
        },
        Value::UnitVariant(name) => Ok(encode_unit_variant(name.as_str())),
        Value::NewtypeVariant(name, inner) => match encode_value(&**inner) {
            Ok(payload) => Ok(encode_newtype_variant(name.as_str(), payload)),
            Err(e) => Err(e),
        },
        Value::TupleVariant(name, items) => match encode_items(items) {
            Ok(ts) => Ok(encode_newtype_variant(name.as_str(), Term::Tuple(ts))),
            Err(e) => Err(e),
        },
        Value::RecordVariant(name, fields) => match encode_value_fields(fields) {
            Ok(ps) => Ok(encode_newtype_variant(name.as_str(), Term::Mapping(ps))),
            Err(e) => Err(e),
        },
    }
}

/// Encodes the elements of a sequence or fixed tuple in order; the first
/// failure wins.
fn encode_items(items: &Vec<Value>) -> (r: Result<Vec<Term>, Error>)
    ensures
        match r {
            Ok(ts) => encode_seq_m(values_view(items@)) == Ok::<_, ErrorV>(terms_view(ts@)),
            Err(e) => encode_seq_m(values_view(items@)) == Err::<Seq<TermV>, _>(e@),
        },
    decreases items@,
{
    let mut out: Vec<Term> = Vec::new();
    let ghost vs = values_view(items@);
    proof {
        lemma_values_view(items@);
    }
    let mut i: usize = 0;
    proof {
        assert(vs.skip(0) =~= vs);
        assert forall|rest: Seq<TermV>|
            encode_seq_m(vs.skip(0)) == Ok::<_, ErrorV>(rest) implies encode_seq_m(vs)
            == Ok::<_, ErrorV>(terms_view(out@) + rest) by {
            assert(terms_view(out@) + rest =~= rest);
        }
    }
    while i < items.len()
        invariant
            0 <= i <= items.len(),
            vs == values_view(items@),
            vs.len() == items@.len(),
            forall|j: int| 0 <= j < items@.len() ==> vs[j] == #[trigger] items@[j]@,
            forall|rest: Seq<TermV>|
                encode_seq_m(vs.skip(i as int)) == Ok::<_, ErrorV>(rest) ==> encode_seq_m(vs)
                    == Ok::<_, ErrorV>(terms_view(out@) + rest),
            forall|e2: ErrorV|
                encode_seq_m(vs.skip(i as int)) == Err::<Seq<TermV>, _>(e2) ==> encode_seq_m(vs)
                    == Err::<Seq<TermV>, _>(e2),
        decreases items@.len() - i,
    {
        let ghost suffix = vs.skip(i as int);
        proof {
            assert(suffix[0] == vs[i as int]);
            assert(suffix.subrange(1, suffix.len() as int) =~= vs.skip(i as int + 1));
        }
        let t = match encode_value(&items[i]) {
            Ok(t) => t,
            Err(e) => {
                proof {
                    assert(encode_seq_m(suffix) == Err::<Seq<TermV>, _>(e@));
                }
                return Err(e);
            },
        };
        let ghost t_model = t@;
        let ghost out_before = out@;
        out.push(t);
        proof {
            lemma_push_terms_view(out_before, t_model, out@);
            assert forall|rest: Seq<TermV>|
                encode_seq_m(vs.skip(i as int + 1)) == Ok::<_, ErrorV>(rest) implies encode_seq_m(
                vs,
            ) == Ok::<_, ErrorV>(terms_view(out@) + rest) by {
                assert(encode_seq_m(suffix) == Ok::<_, ErrorV>(seq![t_model] + rest));
                assert(terms_view(out_before) + (seq![t_model] + rest)
                    =~= terms_view(out@) + rest);
            }
            assert forall|e2: ErrorV|
                encode_seq_m(vs.skip(i as int + 1)) == Err::<Seq<TermV>, _>(e2)
                    implies encode_seq_m(vs) == Err::<Seq<TermV>, _>(e2) by {
                assert(encode_seq_m(suffix) == Err::<Seq<TermV>, _>(e2));
            }
        }
        i += 1;
    }
    proof {
        assert(vs.skip(items@.len() as int) =~= Seq::<ValueV>::empty());
        assert(terms_view(out@) + Seq::<TermV>::empty() =~= terms_view(out@));
    }
    Ok(out)
}

/// Encodes the key-value entries of a map in order, the key of each entry
/// before its value; the first failure wins.
fn encode_value_entries(entries: &Vec<(Value, Value)>) -> (r: Result<Vec<(Term, Term)>, Error>)
    ensures
        match r {
            Ok(ps) => encode_entries_m(value_entries_view(entries@))
                == Ok::<_, ErrorV>(entries_view(ps@)),
            Err(e) => encode_entries_m(value_entries_view(entries@))
                == Err::<Seq<(TermV, TermV)>, _>(e@),
        },
    decreases entries@,
{
    let mut out: Vec<(Term, Term)> = Vec::new();
    let ghost ps = value_entries_view(entries@);
    proof {
        lemma_value_entries_view(entries@);
    }
    let mut i: usize = 0;
    proof {
        assert(ps.skip(0) =~= ps);
        assert forall|rest: Seq<(TermV, TermV)>|
            encode_entries_m(ps.skip(0)) == Ok::<_, ErrorV>(rest) implies encode_entries_m(ps)
            == Ok::<_, ErrorV>(entries_view(out@) + rest) by {
            assert(entries_view(out@) + rest =~= rest);
        }
    }
    while i < entries.len()
        invariant
            0 <= i <= entries.len(),
            ps == value_entries_view(entries@),
            ps.len() == entries@.len(),
            forall|j: int| 0 <= j < entries@.len() ==> ps[j] == (
                #[trigger] entries@[j].0@,
                entries@[j].1@,
            ),
            forall|rest: Seq<(TermV, TermV)>|
                encode_entries_m(ps.skip(i as int)) == Ok::<_, ErrorV>(rest) ==> encode_entries_m(
                    ps,
                ) == Ok::<_, ErrorV>(entries_view(out@) + rest),
            forall|e2: ErrorV|
                encode_entries_m(ps.skip(i as int)) == Err::<Seq<(TermV, TermV)>, _>(e2)
                    ==> encode_entries_m(ps) == Err::<Seq<(TermV, TermV)>, _>(e2),
        decreases entries@.len() - i,
    {
        let ghost suffix = ps.skip(i as int);
        proof {
            assert(suffix[0] == ps[i as int]);
            assert(suffix.subrange(1, suffix.len() as int) =~= ps.skip(i as int + 1));
        }
        let key = match encode_value(&entries[i].0) {
            Ok(k) => k,
            Err(e) => {
                proof {
                    assert(encode_entries_m(suffix) == Err::<Seq<(TermV, TermV)>, _>(e@));
                }
                return Err(e);
            },
        };
        let val = match encode_value(&entries[i].1) {
            Ok(t) => t,
            Err(e) => {
                proof {
                    assert(encode_entries_m(suffix) == Err::<Seq<(TermV, TermV)>, _>(e@));
                }
                return Err(e);
            },
        };
        let ghost pair_model = (key@, val@);
        let ghost out_before = out@;
        out.push((key, val));
        proof {
            lemma_push_entries_view(out_before, pair_model, out@);
            assert forall|rest: Seq<(TermV, TermV)>|
                encode_entries_m(ps.skip(i as int + 1)) == Ok::<_, ErrorV>(rest)
                    implies encode_entries_m(ps) == Ok::<_, ErrorV>(entries_view(out@) + rest) by {
                assert(encode_entries_m(suffix) == Ok::<_, ErrorV>(seq![pair_model] + rest));
                assert(entries_view(out_before) + (seq![pair_model] + rest)
                    =~= entries_view(out@) + rest);
            }
            assert forall|e2: ErrorV|
                encode_entries_m(ps.skip(i as int + 1)) == Err::<Seq<(TermV, TermV)>, _>(e2)
                    implies encode_entries_m(ps) == Err::<Seq<(TermV, TermV)>, _>(e2) by {
                assert(encode_entries_m(suffix) == Err::<Seq<(TermV, TermV)>, _>(e2));
            }
        }
        i += 1;
    }
    proof {
        assert(ps.skip(entries@.len() as int) =~= Seq::<(ValueV, ValueV)>::empty());
        assert(entries_view(out@) + Seq::<(TermV, TermV)>::empty() =~= entries_view(out@));
    }
    Ok(out)
}

/// Encodes the named fields of a record in order: each field name becomes
/// an atom key, spelled verbatim; the first failure wins.
fn encode_value_fields(fields: &Vec<(String, Value)>) -> (r: Result<Vec<(Term, Term)>, Error>)
    ensures
        match r {
            Ok(ps) => encode_fields_m(fields_view(fields@)) == Ok::<_, ErrorV>(entries_view(ps@)),
            Err(e) => encode_fields_m(fields_view(fields@)) == Err::<Seq<(TermV, TermV)>, _>(e@),
        },
    decreases fields@,
{
    let mut out: Vec<(Term, Term)> = Vec::new();
    let ghost fs = fields_view(fields@);
    proof {
        lemma_fields_view(fields@);
    }
    let mut i: usize = 0;
    proof {
        assert(fs.skip(0) =~= fs);
        assert forall|rest: Seq<(TermV, TermV)>|
            encode_fields_m(fs.skip(0)) == Ok::<_, ErrorV>(rest) implies encode_fields_m(fs)
            == Ok::<_, ErrorV>(entries_view(out@) + rest) by {
            assert(entries_view(out@) + rest =~= rest);
        }
    }
    while i < fields.len()
        invariant
            0 <= i <= fields.len(),
            fs == fields_view(fields@),
            fs.len() == fields@.len(),
            forall|j: int| 0 <= j < fields@.len() ==> fs[j] == (
                #[trigger] fields@[j].0@,
                fields@[j].1@,
            ),
            forall|rest: Seq<(TermV, TermV)>|
                encode_fields_m(fs.skip(i as int)) == Ok::<_, ErrorV>(rest) ==> encode_fields_m(
                    fs,
                ) == Ok::<_, ErrorV>(entries_view(out@) + rest),
            forall|e2: ErrorV|
                encode_fields_m(fs.skip(i as int)) == Err::<Seq<(TermV, TermV)>, _>(e2)
                    ==> encode_fields_m(fs) == Err::<Seq<(TermV, TermV)>, _>(e2),
        decreases fields@.len() - i,
    {
        let ghost suffix = fs.skip(i as int);
        proof {
            assert(fs[i as int] == (fields@[i as int].0@, fields@[i as int].1@));
            assert(suffix[0] == fs[i as int]);
            assert(suffix.subrange(1, suffix.len() as int) =~= fs.skip(i as int + 1));
        }
        let val = match encode_value(&fields[i].1) {
            Ok(t) => t,
            Err(e) => {
                proof {
                    assert(encode_fields_m(suffix) == Err::<Seq<(TermV, TermV)>, _>(e@));
                }
                return Err(e);
            },
        };
        let key = Term::Atom(String::from_str(fields[i].0.as_str()));
        let ghost pair_model = (key@, val@);
        let ghost out_before = out@;
        out.push((key, val));
        proof {
            lemma_push_entries_view(out_before, pair_model, out@);
            assert forall|rest: Seq<(TermV, TermV)>|
                encode_fields_m(fs.skip(i as int + 1)) == Ok::<_, ErrorV>(rest)
                    implies encode_fields_m(fs) == Ok::<_, ErrorV>(entries_view(out@) + rest) by {
                assert(encode_fields_m(suffix) == Ok::<_, ErrorV>(seq![pair_model] + rest));
                assert(entries_view(out_before) + (seq![pair_model] + rest)
                    =~= entries_view(out@) + rest);
            }
            assert forall|e2: ErrorV|
                encode_fields_m(fs.skip(i as int + 1)) == Err::<Seq<(TermV, TermV)>, _>(e2)
                    implies encode_fields_m(fs) == Err::<Seq<(TermV, TermV)>, _>(e2) by {
                assert(encode_fields_m(suffix) == Err::<Seq<(TermV, TermV)>, _>(e2));
            }
        }
        i += 1;
    }
    proof {
        assert(fs.skip(fields@.len() as int) =~= Seq::<(Seq<char>, ValueV)>::empty());
        assert(entries_view(out@) + Seq::<(TermV, TermV)>::empty() =~= entries_view(out@));
    }
    Ok(out)
}

/// Pushing one node onto a node sequence appends its model to the model
/// sequence.
proof fn lemma_push_terms_view(before: Seq<Term>, t_model: TermV, after: Seq<Term>)
    requires
        after == before.push(after[after.len() - 1]),
        after.len() == before.len() + 1,
        after[after.len() - 1]@ == t_model,
    ensures
        terms_view(after) =~= terms_view(before).push(t_model),
{
    lemma_terms_view(before);
    lemma_terms_view(after);
    assert forall|i: int| 0 <= i < after.len() implies terms_view(after)[i]
        == terms_view(before).push(t_model)[i] by {
        assert(terms_view(after)[i] == after[i]@);
        if i < before.len() {
            assert(after[i] == before[i]);
            assert(terms_view(before)[i] == before[i]@);
        }
    }
}

/// Pushing one key-value pair onto an entry sequence appends its model to
/// the model sequence.
proof fn lemma_push_entries_view(
    before: Seq<(Term, Term)>,
    pair_model: (TermV, TermV),
    after: Seq<(Term, Term)>,
)
    requires
        after == before.push(after[after.len() - 1]),
        after.len() == before.len() + 1,
        after[after.len() - 1].0@ == pair_model.0,
        after[after.len() - 1].1@ == pair_model.1,
    ensures
        entries_view(after) =~= entries_view(before).push(pair_model),
{
    lemma_entries_view(before);
    lemma_entries_view(after);
    assert forall|i: int| 0 <= i < after.len() implies entries_view(after)[i]
        == entries_view(before).push(pair_model)[i] by {
        assert(entries_view(after)[i] == (after[i].0@, after[i].1@));
        if i < before.len() {
            assert(after[i] == before[i]);
            assert(entries_view(before)[i] == (before[i].0@, before[i].1@));
        }
    }
}

} // verus!
