//! The closed set of parameter types.
use vstd::prelude::*;

verus! {

/// A parameter type as seen in contracts.
pub enum Kind {
    Address,
    Bytes,
    FixedBytes(nat),
    Int(nat),
    Uint(nat),
    Bool,
    String,
    Array(Box<Kind>),
    FixedArray(Box<Kind>, nat),
    Tuple(Seq<Kind>),
}

/// A parameter type.
#[derive(Debug, PartialEq, Eq)]
pub enum ParamType {
    /// Address.
    Address,
    /// Bytes of dynamic length.
    Bytes,
    /// Bytes of the given length.
    FixedBytes(usize),
    /// Signed integer of the given bit width.
    Int(usize),
    /// Unsigned integer of the given bit width.
    Uint(usize),
    /// Boolean.
    Bool,
    /// String.
    String,
    /// Array of dynamic length.
    Array(Box<ParamType>),
    /// Array of the given length.
    FixedArray(Box<ParamType>, usize),
    /// Tuple of the given element types.
    Tuple(Vec<Box<ParamType>>),
}

/// The kind that a parameter type stands for.
pub open spec fn kind_of(t: ParamType) -> Kind
    decreases t,
{
    match t {
        ParamType::Address => Kind::Address,
        ParamType::Bytes => Kind::Bytes,
        ParamType::FixedBytes(n) => Kind::FixedBytes(n as nat),
        ParamType::Int(n) => Kind::Int(n as nat),
        ParamType::Uint(n) => Kind::Uint(n as nat),
        ParamType::Bool => Kind::Bool,
        ParamType::String => Kind::String,
        ParamType::Array(e) => Kind::Array(Box::new(kind_of(*e))),
        ParamType::FixedArray(e, n) => Kind::FixedArray(Box::new(kind_of(*e)), n as nat),
        ParamType::Tuple(v) => Kind::Tuple(
            Seq::new(v.len() as nat, |i: int| if 0 <= i < v.len() { kind_of(*v[i]) } else { Kind::Bool }),
        ),
    }
}

impl View for ParamType {
    type V = Kind;

    open spec fn view(&self) -> Kind {
        kind_of(*self)
    }
}

/// The kinds of a list of element types.
pub open spec fn elems(v: Seq<Box<ParamType>>) -> Seq<Kind> {
    Seq::new(v.len(), |i: int| (*v[i])@)
}

/// The kind of a tuple is the tuple of its elements' kinds.
pub proof fn lemma_tuple_view(v: Vec<Box<ParamType>>)
    ensures
        ParamType::Tuple(v)@ == Kind::Tuple(elems(v@)),
{
    if let Kind::Tuple(es) = kind_of(ParamType::Tuple(v)) {
        assert forall|i: int| 0 <= i < v.len() implies #[trigger] es[i] == (*v[i])@ by {}
        assert(es =~= elems(v@));
    }
}

} // verus!
