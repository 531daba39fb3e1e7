//! The term tree: the wire-side data model.
//!
//! A `Term` is the fully materialized Erlang-term tree that the encoder
//! produces and the decoder consumes.  The byte-level wire layout is owned by
//! an external term library; this crate only ever works on the tree.
use vstd::prelude::*;

verus! {

/// One node of an Erlang term tree.
///
/// Big integers are held as 128-bit values, which covers every integer this
/// codec can produce (64-bit signed and unsigned both fit).  Floats are held
/// as the raw bits of the 64-bit wire float.  The wire kinds that carry
/// process-level data (pids, ports, references, funs, bit binaries, improper
/// lists) are opaque to the codec: they are accepted as input but every typed
/// decode path rejects them, and the encoder never builds one.
#[derive(Debug, PartialEq)]
pub enum Term {
    Atom(String),
    FixInteger(i32),
    BigInteger(i128),
    Float(u64),
    Binary(Vec<u8>),
    List(Vec<Term>),
    Tuple(Vec<Term>),
    Mapping(Vec<(Term, Term)>),
    Pid,
    Port,
    Reference,
    Fun,
    BitBinary,
    ImproperList,
}

/// The mathematical model of a term tree node.
#[verifier::ext_equal]
pub enum TermV {
    Atom(Seq<char>),
    FixInteger(int),
    BigInteger(int),
    Float(u64),
    Binary(Seq<u8>),
    List(Seq<TermV>),
    Tuple(Seq<TermV>),
    Mapping(Seq<(TermV, TermV)>),
    Pid,
    Port,
    Reference,
    Fun,
    BitBinary,
    ImproperList,
}

/// The model of one term tree node.
pub open spec fn term_view(t: Term) -> TermV
    decreases t,
{
    match t {
        Term::Atom(name) => TermV::Atom(name@),
        Term::FixInteger(v) => TermV::FixInteger(v as int),
        Term::BigInteger(v) => TermV::BigInteger(v as int),
        Term::Float(bits) => TermV::Float(bits),
        Term::Binary(bytes) => TermV::Binary(bytes@),
        Term::List(elements) => TermV::List(terms_view(elements@)),
        Term::Tuple(elements) => TermV::Tuple(terms_view(elements@)),
        Term::Mapping(entries) => TermV::Mapping(entries_view(entries@)),
        Term::Pid => TermV::Pid,
        Term::Port => TermV::Port,
        Term::Reference => TermV::Reference,
        Term::Fun => TermV::Fun,
        Term::BitBinary => TermV::BitBinary,
        Term::ImproperList => TermV::ImproperList,
    }
}

/// The models of a sequence of term tree nodes, in order.
pub open spec fn terms_view(ts: Seq<Term>) -> Seq<TermV>
    decreases ts,
{
    if ts.len() == 0 {
        Seq::empty()
    } else {
        seq![term_view(ts[0])] + terms_view(ts.subrange(1, ts.len() as int))
    }
}

/// The models of a sequence of key-value pairs of term tree nodes, in order.
pub open spec fn entries_view(ps: Seq<(Term, Term)>) -> Seq<(TermV, TermV)>
    decreases ps,
{
    if ps.len() == 0 {
        Seq::empty()
    } else {
        seq![(term_view(ps[0].0), term_view(ps[0].1))]
            + entries_view(ps.subrange(1, ps.len() as int))
    }
}

impl View for Term {
    type V = TermV;

    open spec fn view(&self) -> TermV {
        term_view(*self)
    }
}

/// A sequence of nodes is modelled pointwise, in order.
pub proof fn lemma_terms_view(ts: Seq<Term>)
    ensures
        terms_view(ts).len() == ts.len(),
        forall|i: int| 0 <= i < ts.len() ==> terms_view(ts)[i] == #[trigger] ts[i]@,
    decreases ts,
{
    if ts.len() > 0 {
        lemma_terms_view(ts.subrange(1, ts.len() as int));
        assert forall|i: int| 0 <= i < ts.len() implies terms_view(ts)[i] == #[trigger] ts[i]@ by {
            if i > 0 {
                assert(ts.subrange(1, ts.len() as int)[i - 1] == ts[i]);
            }
        }
    }
}

/// A sequence of key-value pairs is modelled pointwise, in order.
pub proof fn lemma_entries_view(ps: Seq<(Term, Term)>)
    ensures
        entries_view(ps).len() == ps.len(),
        forall|i: int| 0 <= i < ps.len() ==> entries_view(ps)[i]
            == (#[trigger] ps[i].0@, ps[i].1@),
    decreases ps,
{
    if ps.len() > 0 {
        lemma_entries_view(ps.subrange(1, ps.len() as int));
        assert forall|i: int| 0 <= i < ps.len() implies entries_view(ps)[i]
            == (#[trigger] ps[i].0@, ps[i].1@) by {
            if i > 0 {
                assert(ps.subrange(1, ps.len() as int)[i - 1] == ps[i]);
            }
        }
    }
}

} // verus!
