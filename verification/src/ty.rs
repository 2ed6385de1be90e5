//! The types of the source language, as the pass knows them.

use vstd::prelude::*;
use crate::ast::{IntSign, IntTy, IntTyKind};
use crate::span::Symbol;

verus! {

/// A canonical type: a handle to a type descriptor that an interner keeps.
///
/// `id` is the identity of the handle: the position of the descriptor among
/// those that the interner has seen, in order of first occurrence. Two handles
/// of one interner stand for the same type exactly when their `id`s are equal.
#[derive(Debug, Clone, Copy)]
pub struct Ty<'cx> {
    pub id: usize,
    pub kind: &'cx TyKind<'cx>,
}

/// What a type is.
#[derive(Debug, Clone, Copy)]
pub enum TyKind<'cx> {
    Void,
    Char,
    SChar,
    UChar,
    Integer(IntTy),
    Float,
    Double,
    LongDouble,
    Bool,
    Struct(Symbol),
    Union(Symbol),
    Enum(Symbol),
    Ptr(Ty<'cx>),
}

/// The distance between the keys of two payload-carrying shapes: more than any
/// payload can be.
pub const KEY_STRIDE: u128 = 0x1_0000_0000_0000_0000;

/// The position of a signedness among the two.
pub open spec fn sign_index(sign: IntSign) -> nat {
    match sign {
        IntSign::Signed => 0,
        IntSign::Unsigned => 1,
    }
}

/// The position of a width class among the six.
pub open spec fn width_index(kind: IntTyKind) -> nat {
    match kind {
        IntTyKind::Bool => 0,
        IntTyKind::Char => 1,
        IntTyKind::Short => 2,
        IntTyKind::Int => 3,
        IntTyKind::Long => 4,
        IntTyKind::LongLong => 5,
    }
}

impl<'cx> TyKind<'cx> {
    /// The number under which a descriptor is filed. It is made of the shape of
    /// the descriptor and of its payload; a pointer is filed under the identity
    /// of its pointee.
    pub open spec fn key(self) -> nat {
        match self {
            TyKind::Void => 0,
            TyKind::Char => 1,
            TyKind::SChar => 2,
            TyKind::UChar => 3,
            TyKind::Float => 4,
            TyKind::Double => 5,
            TyKind::LongDouble => 6,
            TyKind::Bool => 7,
            TyKind::Integer(ity) => 8 + 6 * sign_index(ity.0) + width_index(ity.1),
            TyKind::Struct(name) => (KEY_STRIDE + name.0) as nat,
            TyKind::Union(name) => (2 * KEY_STRIDE + name.0) as nat,
            TyKind::Enum(name) => (3 * KEY_STRIDE + name.0) as nat,
            TyKind::Ptr(pointee) => (4 * KEY_STRIDE + pointee.id) as nat,
        }
    }

    /// Whether two descriptors are alike: equal, or pointers to pointees of one
    /// identity.
    pub open spec fn alike(self, other: TyKind<'cx>) -> bool {
        match (self, other) {
            (TyKind::Ptr(a), TyKind::Ptr(b)) => a.id == b.id,
            _ => self == other,
        }
    }

    /// Two descriptors are filed under the same number only if they are alike.
    pub proof fn lemma_key_injective(self, other: TyKind<'cx>)
        requires
            self.key() == other.key(),
        ensures
            self.alike(other),
    {
    }

    /// Whether this is a struct, a union or an enum.
    pub open spec fn is_aggregate(self) -> bool {
        self is Struct || self is Union || self is Enum
    }

    /// The number under which this descriptor is filed.
    pub fn compute_key(&self) -> (key: u128)
        ensures
            key == self.key(),
    {
        match self {
            TyKind::Void => 0,
            TyKind::Char => 1,
            TyKind::SChar => 2,
            TyKind::UChar => 3,
            TyKind::Float => 4,
            TyKind::Double => 5,
            TyKind::LongDouble => 6,
            TyKind::Bool => 7,
            TyKind::Integer(ity) => {
                let sign: u128 = match ity.0 {
                    IntSign::Signed => 0,
                    IntSign::Unsigned => 1,
                };
                let width: u128 = match ity.1 {
                    IntTyKind::Bool => 0,
                    IntTyKind::Char => 1,
                    IntTyKind::Short => 2,
                    IntTyKind::Int => 3,
                    IntTyKind::Long => 4,
                    IntTyKind::LongLong => 5,
                };
                8 + 6 * sign + width
            },
            TyKind::Struct(name) => KEY_STRIDE + name.0 as u128,
            TyKind::Union(name) => 2 * KEY_STRIDE + name.0 as u128,
            TyKind::Enum(name) => 3 * KEY_STRIDE + name.0 as u128,
            TyKind::Ptr(pointee) => 4 * KEY_STRIDE + pointee.id as u128,
        }
    }
}

} // verus!
