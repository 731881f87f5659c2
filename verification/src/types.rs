//! Resolved semantic types: what a surface type expression becomes once the
//! scope chain has been consulted.

use vstd::prelude::*;
use crate::ast::IntegerType;

verus! {

/// A resolved semantic type. Unlike a surface type expression it never
/// contains an unresolved alias or a multi-dimensional array marker: those
/// are eliminated during resolution.
#[derive(Debug, PartialEq, Eq)]
pub enum Type {
    Address,
    Boolean,
    Char,
    Field,
    Group,
    /// The placeholder carried through from an already reported error.
    ErrType,
    Integer(IntegerType),
    /// A fixed-size array: element type and element count.
    Array(Box<Type>, u32),
    /// An array whose size is not yet known; it is inferred by a later pass
    /// in the positions that allow it, such as function parameters.
    ArrayWithoutSize(Box<Type>),
    /// A tuple of element types, in order.
    Tuple(Vec<Type>),
    /// A reference to a circuit node, by its identity in the graph arena.
    Circuit(u64),
}

/// The mathematical shape of a resolved type, with tuples as sequences;
/// contracts about resolved types are stated over this form.
#[verifier::ext_equal]
pub enum TypeView {
    Address,
    Boolean,
    Char,
    Field,
    Group,
    ErrType,
    Integer(IntegerType),
    Array(Box<TypeView>, u32),
    ArrayWithoutSize(Box<TypeView>),
    Tuple(Seq<TypeView>),
    Circuit(u64),
}

/// The mathematical shapes of a sequence of resolved types, in order.
pub open spec fn types_view(s: Seq<Type>) -> Seq<TypeView>
    decreases s,
    via types_view_decreases
{
    if s.len() == 0 {
        Seq::empty()
    } else {
        seq![s[0].view_spec()] + types_view(s.subrange(1, s.len() as int))
    }
}

#[via_fn]
proof fn types_view_decreases(s: Seq<Type>) {
    if s.len() > 0 {
        assert(decreases_to!(s => s[0]));
        assert(decreases_to!(s => s.subrange(1, s.len() as int)));
    }
}

/// Element by element, `types_view` is the shape of each type.
pub proof fn lemma_types_view_index(s: Seq<Type>)
    ensures
        types_view(s).len() == s.len(),
        forall|i: int| 0 <= i < s.len() ==> types_view(s)[i] == s[i].view_spec(),
    decreases s.len(),
{
    if s.len() > 0 {
        lemma_types_view_index(s.subrange(1, s.len() as int));
    }
}

impl Type {
    /// The mathematical shape of this type.
    pub open spec fn view_spec(self) -> TypeView
        decreases self,
        via Self::view_spec_decreases
    {
        match self {
            Type::Address => TypeView::Address,
            Type::Boolean => TypeView::Boolean,
            Type::Char => TypeView::Char,
            Type::Field => TypeView::Field,
            Type::Group => TypeView::Group,
            Type::ErrType => TypeView::ErrType,
            Type::Integer(it) => TypeView::Integer(it),
            Type::Array(item, n) => TypeView::Array(Box::new(item.view_spec()), n),
            Type::ArrayWithoutSize(item) => TypeView::ArrayWithoutSize(Box::new(item.view_spec())),
            Type::Tuple(items) => TypeView::Tuple(types_view(items@)),
            Type::Circuit(c) => TypeView::Circuit(c),
        }
    }

    #[via_fn]
    proof fn view_spec_decreases(self) {
        match self {
            Type::Tuple(items) => {
                assert(decreases_to!(self => items));
                assert(decreases_to!(items => items@));
            },
            _ => {},
        }
    }

    /// An equal copy of this type; aliases hand out their stored type by
    /// value through this.
    pub fn duplicate(&self) -> (r: Type)
        ensures
            r.view_spec() == self.view_spec(),
        decreases *self,
    {
        match self {
            Type::Address => Type::Address,
            Type::Boolean => Type::Boolean,
            Type::Char => Type::Char,
            Type::Field => Type::Field,
            Type::Group => Type::Group,
            Type::ErrType => Type::ErrType,
            Type::Integer(it) => Type::Integer(*it),
            Type::Array(item, n) => Type::Array(Box::new(item.duplicate()), *n),
            Type::ArrayWithoutSize(item) => Type::ArrayWithoutSize(Box::new(item.duplicate())),
            Type::Tuple(items) => {
                let mut out: Vec<Type> = Vec::new();
                let mut i: usize = 0;
                while i < items.len()
                    invariant
                        0 <= i <= items@.len(),
                        out@.len() == i,
                        forall|j: int|
                            0 <= j < i ==> (#[trigger] out@[j].view_spec())
                                == items@[j].view_spec(),
                        *self is Tuple,
                        items == self->Tuple_0,
                    decreases items@.len() - i,
                {
                    proof {
                        assert(decreases_to!(*self => items@[i as int]));
                    }
                    let dup = items[i].duplicate();
                    out.push(dup);
                    i = i + 1;
                }
                let r = Type::Tuple(out);
                proof {
                    lemma_types_view_index(out@);
                    lemma_types_view_index(items@);
                    assert(types_view(out@) =~= types_view(items@));
                }
                r
            },
            Type::Circuit(c) => Type::Circuit(*c),
        }
    }
}

} // verus!
