//! The host-side data model: the typed values that the codec understands.
use vstd::prelude::*;

verus! {

/// A typed value, as reported by a capability-dispatch value description.
///
/// This is the generic shape vocabulary of the codec: every concrete host
/// type that wants to cross the wire is described as one of these.  Floats
/// are carried as the raw bits of the widened 64-bit float, so that the
/// codec itself never computes on floating point.
#[derive(Debug, PartialEq)]
pub enum Value {
    Bool(bool),
    I8(i8),
    I16(i16),
    I32(i32),
    I64(i64),
    U8(u8),
    U16(u16),
    U32(u32),
    U64(u64),
    Float(u64),
    Char(char),
    Text(String),
    Bytes(Vec<u8>),
    OptNone,
    OptSome(Box<Value>),
    Unit,
    UnitStruct(String),
    Newtype(Box<Value>),
    Sequence(Vec<Value>),
    Tuple(Vec<Value>),
    Mapping(Vec<(Value, Value)>),
    Record(Vec<(String, Value)>),
    UnitVariant(String),
    NewtypeVariant(String, Box<Value>),
    TupleVariant(String, Vec<Value>),
    RecordVariant(String, Vec<(String, Value)>),
}

/// The mathematical model of a [`Value`].
#[verifier::ext_equal]
pub enum ValueV {
    Bool(bool),
    I8(i8),
    I16(i16),
    I32(i32),
    I64(i64),
    U8(u8),
    U16(u16),
    U32(u32),
    U64(u64),
    Float(u64),
    Char(char),
    Text(Seq<char>),
    Bytes(Seq<u8>),
    OptNone,
    OptSome(Box<ValueV>),
    Unit,
    UnitStruct(Seq<char>),
    Newtype(Box<ValueV>),
    Sequence(Seq<ValueV>),
    Tuple(Seq<ValueV>),
    Mapping(Seq<(ValueV, ValueV)>),
    Record(Seq<(Seq<char>, ValueV)>),
    UnitVariant(Seq<char>),
    NewtypeVariant(Seq<char>, Box<ValueV>),
    TupleVariant(Seq<char>, Seq<ValueV>),
    RecordVariant(Seq<char>, Seq<(Seq<char>, ValueV)>),
}

/// The model of one typed value.
pub open spec fn value_view(v: Value) -> ValueV
    decreases v,
{
    match v {
        Value::Bool(b) => ValueV::Bool(b),
        Value::I8(x) => ValueV::I8(x),
        Value::I16(x) => ValueV::I16(x),
        Value::I32(x) => ValueV::I32(x),
        Value::I64(x) => ValueV::I64(x),
        Value::U8(x) => ValueV::U8(x),
        Value::U16(x) => ValueV::U16(x),
        Value::U32(x) => ValueV::U32(x),
        Value::U64(x) => ValueV::U64(x),
        Value::Float(bits) => ValueV::Float(bits),
        Value::Char(c) => ValueV::Char(c),
        Value::Text(s) => ValueV::Text(s@),
        Value::Bytes(b) => ValueV::Bytes(b@),
        Value::OptNone => ValueV::OptNone,
        Value::OptSome(inner) => ValueV::OptSome(Box::new(value_view(*inner))),
        Value::Unit => ValueV::Unit,
        Value::UnitStruct(name) => ValueV::UnitStruct(name@),
        Value::Newtype(inner) => ValueV::Newtype(Box::new(value_view(*inner))),
        Value::Sequence(items) => ValueV::Sequence(values_view(items@)),
        Value::Tuple(items) => ValueV::Tuple(values_view(items@)),
        Value::Mapping(entries) => ValueV::Mapping(value_entries_view(entries@)),
        Value::Record(fields) => ValueV::Record(fields_view(fields@)),
        Value::UnitVariant(name) => ValueV::UnitVariant(name@),
        Value::NewtypeVariant(name, inner) => ValueV::NewtypeVariant(
            name@,
            Box::new(value_view(*inner)),
        ),
        Value::TupleVariant(name, items) => ValueV::TupleVariant(name@, values_view(items@)),
        Value::RecordVariant(name, fields) => ValueV::RecordVariant(name@, fields_view(fields@)),
    }
}

/// The models of a sequence of typed values, in order.
pub open spec fn values_view(vs: Seq<Value>) -> Seq<ValueV>
    decreases vs,
{
    if vs.len() == 0 {
        Seq::empty()
    } else {
        seq![value_view(vs[0])] + values_view(vs.subrange(1, vs.len() as int))
    }
}

/// The models of a sequence of key-value pairs of typed values, in order.
pub open spec fn value_entries_view(ps: Seq<(Value, Value)>) -> Seq<(ValueV, ValueV)>
    decreases ps,
{
    if ps.len() == 0 {
        Seq::empty()
    } else {
        seq![(value_view(ps[0].0), value_view(ps[0].1))]
            + value_entries_view(ps.subrange(1, ps.len() as int))
    }
}

/// The models of a sequence of named fields, in order.
pub open spec fn fields_view(fs: Seq<(String, Value)>) -> Seq<(Seq<char>, ValueV)>
    decreases fs,
{
    if fs.len() == 0 {
        Seq::empty()
    } else {
        seq![(fs[0].0@, value_view(fs[0].1))] + fields_view(fs.subrange(1, fs.len() as int))
    }
}

impl View for Value {
    type V = ValueV;

    open spec fn view(&self) -> ValueV {
        value_view(*self)
    }
}

/// A sequence of values is modelled pointwise, in order.
pub proof fn lemma_values_view(vs: Seq<Value>)
    ensures
        values_view(vs).len() == vs.len(),
        forall|i: int| 0 <= i < vs.len() ==> values_view(vs)[i] == #[trigger] vs[i]@,
    decreases vs,
{
    if vs.len() > 0 {
        lemma_values_view(vs.subrange(1, vs.len() as int));
        assert forall|i: int| 0 <= i < vs.len() implies values_view(vs)[i]
            == #[trigger] vs[i]@ by {
            if i > 0 {
                assert(vs.subrange(1, vs.len() as int)[i - 1] == vs[i]);
            }
        }
    }
}

/// A sequence of key-value pairs of values is modelled pointwise, in order.
pub proof fn lemma_value_entries_view(ps: Seq<(Value, Value)>)
    ensures
        value_entries_view(ps).len() == ps.len(),
        forall|i: int| 0 <= i < ps.len() ==> value_entries_view(ps)[i]
            == (#[trigger] ps[i].0@, ps[i].1@),
    decreases ps,
{
    if ps.len() > 0 {
        lemma_value_entries_view(ps.subrange(1, ps.len() as int));
        assert forall|i: int| 0 <= i < ps.len() implies value_entries_view(ps)[i]
            == (#[trigger] ps[i].0@, ps[i].1@) by {
            if i > 0 {
                assert(ps.subrange(1, ps.len() as int)[i - 1] == ps[i]);
            }
        }
    }
}

/// A sequence of named fields is modelled pointwise, in order.
pub proof fn lemma_fields_view(fs: Seq<(String, Value)>)
    ensures
        fields_view(fs).len() == fs.len(),
        forall|i: int| 0 <= i < fs.len() ==> fields_view(fs)[i]
            == (#[trigger] fs[i].0@, fs[i].1@),
    decreases fs,
{
    if fs.len() > 0 {
        lemma_fields_view(fs.subrange(1, fs.len() as int));
        assert forall|i: int| 0 <= i < fs.len() implies fields_view(fs)[i]
            == (#[trigger] fs[i].0@, fs[i].1@) by {
            if i > 0 {
                assert(fs.subrange(1, fs.len() as int)[i - 1] == fs[i]);
            }
        }
    }
}

/// Pushing one value onto a value sequence appends its model to the model
/// sequence.
pub proof fn lemma_push_values_view(before: Seq<Value>, v_model: ValueV, after: Seq<Value>)
    requires
        after == before.push(after[after.len() - 1]),
        after.len() == before.len() + 1,
        after[after.len() - 1]@ == v_model,
    ensures
        values_view(after) =~= values_view(before).push(v_model),
{
    lemma_values_view(before);
    lemma_values_view(after);
    assert forall|i: int| 0 <= i < after.len() implies values_view(after)[i]
        == values_view(before).push(v_model)[i] by {
        assert(values_view(after)[i] == after[i]@);
        if i < before.len() {
            assert(after[i] == before[i]);
            assert(values_view(before)[i] == before[i]@);
        }
    }
}

/// Pushing one key-value pair onto a pair sequence appends its model to
/// the model sequence.
pub proof fn lemma_push_value_entries_view(
    before: Seq<(Value, Value)>,
    pair_model: (ValueV, ValueV),
    after: Seq<(Value, Value)>,
)
    requires
        after == before.push(after[after.len() - 1]),
        after.len() == before.len() + 1,
        after[after.len() - 1].0@ == pair_model.0,
        after[after.len() - 1].1@ == pair_model.1,
    ensures
        value_entries_view(after) =~= value_entries_view(before).push(pair_model),
{
    lemma_value_entries_view(before);
    lemma_value_entries_view(after);
    assert forall|i: int| 0 <= i < after.len() implies value_entries_view(after)[i]
        == value_entries_view(before).push(pair_model)[i] by {
        assert(value_entries_view(after)[i] == (after[i].0@, after[i].1@));
        if i < before.len() {
            assert(after[i] == before[i]);
            assert(value_entries_view(before)[i] == (before[i].0@, before[i].1@));
        }
    }
}

/// Pushing one named field onto a field sequence appends its model to the
/// model sequence.
pub proof fn lemma_push_fields_view(
    before: Seq<(String, Value)>,
    field_model: (Seq<char>, ValueV),
    after: Seq<(String, Value)>,
)
    requires
        after == before.push(after[after.len() - 1]),
        after.len() == before.len() + 1,
        after[after.len() - 1].0@ == field_model.0,
        after[after.len() - 1].1@ == field_model.1,
    ensures
        fields_view(after) =~= fields_view(before).push(field_model),
{
    lemma_fields_view(before);
    lemma_fields_view(after);
    assert forall|i: int| 0 <= i < after.len() implies fields_view(after)[i]
        == fields_view(before).push(field_model)[i] by {
        assert(fields_view(after)[i] == (after[i].0@, after[i].1@));
        if i < before.len() {
            assert(after[i] == before[i]);
            assert(fields_view(before)[i] == (before[i].0@, before[i].1@));
        }
    }
}

} // verus!
