//! Target-shape hints: what the caller's type description expects.
use vstd::prelude::*;

verus! {

/// The expected target kind for a decode, supplied by the caller's type
/// description.  Wire terms are not self-describing enough to recover host
/// types unaided, so every typed decode is driven by one of these.
pub enum Shape {
    Bool,
    I8,
    I16,
    I32,
    I64,
    U8,
    U16,
    U32,
    U64,
    Float,
    Char,
    Text,
    Bytes,
    Optional(Box<Shape>),
    Unit,
    UnitStruct(String),
    Newtype(Box<Shape>),
    Sequence(Box<Shape>),
    Tuple(Vec<Shape>),
    Mapping(Box<Shape>, Box<Shape>),
    Record(Vec<(String, Shape)>),
    Enum(Vec<Variant>),
}

/// One variant of an enum shape: its wire tag and its payload shape.
pub struct Variant {
    pub name: String,
    pub kind: VariantKind,
}

/// The payload shape of one enum variant.
pub enum VariantKind {
    Unit,
    Newtype(Box<Shape>),
    Tuple(Vec<Shape>),
    Record(Vec<(String, Shape)>),
}

/// The mathematical model of a [`Shape`].
#[verifier::ext_equal]
pub enum ShapeV {
    Bool,
    I8,
    I16,
    I32,
    I64,
    U8,
    U16,
    U32,
    U64,
    Float,
    Char,
    Text,
    Bytes,
    Optional(Box<ShapeV>),
    Unit,
    UnitStruct(Seq<char>),
    Newtype(Box<ShapeV>),
    Sequence(Box<ShapeV>),
    Tuple(Seq<ShapeV>),
    Mapping(Box<ShapeV>, Box<ShapeV>),
    Record(Seq<(Seq<char>, ShapeV)>),
    Enum(Seq<VariantV>),
}

/// The mathematical model of a [`Variant`].
#[verifier::ext_equal]
pub struct VariantV {
    pub name: Seq<char>,
    pub kind: VariantKindV,
}

/// The mathematical model of a [`VariantKind`].
#[verifier::ext_equal]
pub enum VariantKindV {
    Unit,
    Newtype(Box<ShapeV>),
    Tuple(Seq<ShapeV>),
    Record(Seq<(Seq<char>, ShapeV)>),
}

/// The model of one shape hint.
pub open spec fn shape_view(s: Shape) -> ShapeV
    decreases s,
{
    match s {
        Shape::Bool => ShapeV::Bool,
        Shape::I8 => ShapeV::I8,
        Shape::I16 => ShapeV::I16,
        Shape::I32 => ShapeV::I32,
        Shape::I64 => ShapeV::I64,
        Shape::U8 => ShapeV::U8,
        Shape::U16 => ShapeV::U16,
        Shape::U32 => ShapeV::U32,
        Shape::U64 => ShapeV::U64,
        Shape::Float => ShapeV::Float,
        Shape::Char => ShapeV::Char,
        Shape::Text => ShapeV::Text,
        Shape::Bytes => ShapeV::Bytes,
        Shape::Optional(inner) => ShapeV::Optional(Box::new(shape_view(*inner))),
        Shape::Unit => ShapeV::Unit,
        Shape::UnitStruct(name) => ShapeV::UnitStruct(name@),
        Shape::Newtype(inner) => ShapeV::Newtype(Box::new(shape_view(*inner))),
        Shape::Sequence(elem) => ShapeV::Sequence(Box::new(shape_view(*elem))),
        Shape::Tuple(elems) => ShapeV::Tuple(shapes_view(elems@)),
        Shape::Mapping(key, val) => ShapeV::Mapping(
            Box::new(shape_view(*key)),
            Box::new(shape_view(*val)),
        ),
        Shape::Record(fields) => ShapeV::Record(field_shapes_view(fields@)),
        Shape::Enum(variants) => ShapeV::Enum(variants_view(variants@)),
    }
}

/// The models of a sequence of shapes, in order.
pub open spec fn shapes_view(ss: Seq<Shape>) -> Seq<ShapeV>
    decreases ss,
{
    if ss.len() == 0 {
        Seq::empty()
    } else {
        seq![shape_view(ss[0])] + shapes_view(ss.subrange(1, ss.len() as int))
    }
}

/// The models of a sequence of named field shapes, in order.
pub open spec fn field_shapes_view(fs: Seq<(String, Shape)>) -> Seq<(Seq<char>, ShapeV)>
    decreases fs,
{
    if fs.len() == 0 {
        Seq::empty()
    } else {
        seq![(fs[0].0@, shape_view(fs[0].1))] + field_shapes_view(fs.subrange(1, fs.len() as int))
    }
}

/// The models of a sequence of variants, in order.
pub open spec fn variants_view(vs: Seq<Variant>) -> Seq<VariantV>
    decreases vs,
{
    if vs.len() == 0 {
        Seq::empty()
    } else {
        seq![variant_view(vs[0])] + variants_view(vs.subrange(1, vs.len() as int))
    }
}

/// The model of one variant.
pub open spec fn variant_view(v: Variant) -> VariantV
    decreases v,
{
    VariantV { name: v.name@, kind: variant_kind_view(v.kind) }
}

/// The model of one variant payload shape.
pub open spec fn variant_kind_view(k: VariantKind) -> VariantKindV
    decreases k,
{
    match k {
        VariantKind::Unit => VariantKindV::Unit,
        VariantKind::Newtype(inner) => VariantKindV::Newtype(Box::new(shape_view(*inner))),
        VariantKind::Tuple(elems) => VariantKindV::Tuple(shapes_view(elems@)),
        VariantKind::Record(fields) => VariantKindV::Record(field_shapes_view(fields@)),
    }
}

impl View for Shape {
    type V = ShapeV;

    open spec fn view(&self) -> ShapeV {
        shape_view(*self)
    }
}

impl View for Variant {
    type V = VariantV;

    open spec fn view(&self) -> VariantV {
        variant_view(*self)
    }
}

impl View for VariantKind {
    type V = VariantKindV;

    open spec fn view(&self) -> VariantKindV {
        variant_kind_view(*self)
    }
}

/// A sequence of shapes is modelled pointwise, in order.
pub proof fn lemma_shapes_view(ss: Seq<Shape>)
    ensures
        shapes_view(ss).len() == ss.len(),
        forall|i: int| 0 <= i < ss.len() ==> shapes_view(ss)[i] == #[trigger] ss[i]@,
    decreases ss,
{
    if ss.len() > 0 {
        lemma_shapes_view(ss.subrange(1, ss.len() as int));
        assert forall|i: int| 0 <= i < ss.len() implies shapes_view(ss)[i]
            == #[trigger] ss[i]@ by {
            if i > 0 {
                assert(ss.subrange(1, ss.len() as int)[i - 1] == ss[i]);
            }
        }
    }
}

/// A sequence of named field shapes is modelled pointwise, in order.
pub proof fn lemma_field_shapes_view(fs: Seq<(String, Shape)>)
    ensures
        field_shapes_view(fs).len() == fs.len(),
        forall|i: int| 0 <= i < fs.len() ==> field_shapes_view(fs)[i]
            == (#[trigger] fs[i].0@, fs[i].1@),
    decreases fs,
{
    if fs.len() > 0 {
        lemma_field_shapes_view(fs.subrange(1, fs.len() as int));
        assert forall|i: int| 0 <= i < fs.len() implies field_shapes_view(fs)[i]
            == (#[trigger] fs[i].0@, fs[i].1@) by {
            if i > 0 {
                assert(fs.subrange(1, fs.len() as int)[i - 1] == fs[i]);
            }
        }
    }
}

/// A sequence of variants is modelled pointwise, in order.
pub proof fn lemma_variants_view(vs: Seq<Variant>)
    ensures
        variants_view(vs).len() == vs.len(),
        forall|i: int| 0 <= i < vs.len() ==> variants_view(vs)[i] == #[trigger] vs[i]@,
    decreases vs,
{
    if vs.len() > 0 {
        lemma_variants_view(vs.subrange(1, vs.len() as int));
        assert forall|i: int| 0 <= i < vs.len() implies variants_view(vs)[i]
            == #[trigger] vs[i]@ by {
            if i > 0 {
                assert(vs.subrange(1, vs.len() as int)[i - 1] == vs[i]);
            }
        }
    }
}

} // verus!
