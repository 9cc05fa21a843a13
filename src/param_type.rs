//! Type descriptors and their mathematical model.

use vstd::prelude::*;

verus! {

/// A parsed type descriptor.
#[derive(Debug, PartialEq, Eq)]
pub enum ParamType {
    /// Address.
    Address,
    /// Variable-length bytes.
    Bytes,
    /// Signed integer of the given bit width.
    Int(usize),
    /// Unsigned integer of the given bit width.
    Uint(usize),
    /// Boolean.
    Bool,
    /// String.
    String,
    /// Array of unknown size.
    Array(Box<ParamType>),
    /// Bytes of the given length.
    FixedBytes(usize),
    /// Array of the given size.
    FixedArray(Box<ParamType>, usize),
    /// Tuple of the given field types, in order.
    Tuple(Vec<ParamType>),
}

/// The mathematical model of a `ParamType`: the same tree, with the tuple
/// fields held as a sequence.
pub enum TypeModel {
    Address,
    Bytes,
    Int(usize),
    Uint(usize),
    Bool,
    String,
    Array(Box<TypeModel>),
    FixedBytes(usize),
    FixedArray(Box<TypeModel>, usize),
    Tuple(Seq<TypeModel>),
}

impl ParamType {
    pub open spec fn model(self) -> TypeModel
        decreases self,
    {
        match self {
            ParamType::Address => TypeModel::Address,
            ParamType::Bytes => TypeModel::Bytes,
            ParamType::Int(n) => TypeModel::Int(n),
            ParamType::Uint(n) => TypeModel::Uint(n),
            ParamType::Bool => TypeModel::Bool,
            ParamType::String => TypeModel::String,
            ParamType::Array(inner) => TypeModel::Array(Box::new(inner.model())),
            ParamType::FixedBytes(n) => TypeModel::FixedBytes(n),
            ParamType::FixedArray(inner, n) => TypeModel::FixedArray(Box::new(inner.model()), n),
            ParamType::Tuple(fields) => TypeModel::Tuple(models_of(fields@)),
        }
    }
}

impl ParamType {
    /// Whether this descriptor is a tuple.
    pub fn is_tuple(&self) -> (r: bool)
        ensures
            r == (self.model() is Tuple),
    {
        match self {
            ParamType::Tuple(_) => true,
            _ => false,
        }
    }

    /// A copy of this descriptor, with the same model.
    fn copy_tree(&self) -> (r: ParamType)
        ensures
            r.model() == self.model(),
        decreases self,
    {
        match self {
            ParamType::Address => ParamType::Address,
            ParamType::Bytes => ParamType::Bytes,
            ParamType::Int(n) => ParamType::Int(*n),
            ParamType::Uint(n) => ParamType::Uint(*n),
            ParamType::Bool => ParamType::Bool,
            ParamType::String => ParamType::String,
            ParamType::Array(inner) => ParamType::Array(Box::new(inner.copy_tree())),
            ParamType::FixedBytes(n) => ParamType::FixedBytes(*n),
            ParamType::FixedArray(inner, n) => ParamType::FixedArray(Box::new(inner.copy_tree()), *n),
            ParamType::Tuple(fields) => {
                let mut out: Vec<ParamType> = Vec::new();
                let mut i: usize = 0;
                while i < fields.len()
                    invariant
                        *self == ParamType::Tuple(*fields),
                        i <= fields@.len(),
                        out@.len() == i,
                        forall|j: int| 0 <= j < i ==> (#[trigger] out@[j]).model() == fields@[j].model(),
                    decreases fields@.len() - i,
                {
                    assert(decreases_to!(*self => self->Tuple_0));
                    assert(decreases_to!(*fields => fields@));
                    assert(decreases_to!(fields@ => fields@[i as int]));
                    let t = fields[i].copy_tree();
                    out.push(t);
                    i = i + 1;
                }
                assert(models_of(out@) =~= models_of(fields@));
                ParamType::Tuple(out)
            },
        }
    }
}

impl Clone for ParamType {
    fn clone(&self) -> (r: ParamType)
        ensures
            r.model() == self.model(),
    {
        self.copy_tree()
    }
}

/// The models of a sequence of descriptors, position by position.
pub open spec fn models_of(ts: Seq<ParamType>) -> Seq<TypeModel>
    decreases ts,
{
    Seq::new(
        ts.len(),
        |i: int|
            if 0 <= i < ts.len() {
                ts[i].model()
            } else {
                TypeModel::Bool
            },
    )
}

/// A descriptor is tuple-shaped when it is a tuple, or an array or a fixed
/// array whose element type is a tuple.
pub open spec fn is_tuple_shaped(t: TypeModel) -> bool {
    match t {
        TypeModel::Tuple(_) => true,
        TypeModel::Array(inner) => *inner is Tuple,
        TypeModel::FixedArray(inner, _) => *inner is Tuple,
        _ => false,
    }
}

/// `t` with its tuple's fields replaced by `fields`; a descriptor that is not
/// tuple-shaped is returned as it is.
pub open spec fn with_tuple_fields(t: TypeModel, fields: Seq<TypeModel>) -> TypeModel {
    if !is_tuple_shaped(t) {
        t
    } else {
        match t {
            TypeModel::Array(_) => TypeModel::Array(Box::new(TypeModel::Tuple(fields))),
            TypeModel::FixedArray(_, n) => TypeModel::FixedArray(
                Box::new(TypeModel::Tuple(fields)),
                n,
            ),
            _ => TypeModel::Tuple(fields),
        }
    }
}

} // verus!
