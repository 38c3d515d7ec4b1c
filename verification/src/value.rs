//! Runtime values: a tagged union over numbers, booleans, nil and references
//! to heap objects, together with the handle types that stand for heap
//! allocations.
//!
//! Heap objects live in an append-only arena owned by `Memory`; a handle is
//! the index of an arena slot. Nothing is ever freed, so a handle stays valid
//! for the life of the arena. Equality on values is structural for numbers,
//! booleans and nil, and identity (same arena slot) for object references;
//! after interning, identity coincides with content equality for strings.

use vstd::prelude::*;
use vstd::slice::slice_to_vec;

verus! {

/// A language number: a 32-bit signed integer.
pub type Number = i32;

/// Handle to an interned string: the index of its slot in the heap arena.
#[derive(Clone, Copy, Debug, PartialEq, Eq, Structural)]
pub struct StringPointer(pub usize);

impl StringPointer {
    /// Wraps an arena index as a handle.
    pub fn new(idx: usize) -> (r: Self)
        ensures
            r.0 == idx,
    {
        StringPointer(idx)
    }
}

/// Handle to a heap object of any kind; strings are the only kind.
#[derive(Clone, Copy, Debug, PartialEq, Eq, Structural)]
pub enum ObjectPointer {
    String(StringPointer),
}

/// Heap-resident string payload: the raw content bytes.
#[derive(Clone, Debug)]
pub struct ObjString {
    chars: Vec<u8>,
}

impl View for ObjString {
    type V = Seq<u8>;

    closed spec fn view(&self) -> Seq<u8> {
        self.chars@
    }
}

impl ObjString {
    /// Copies the given bytes into a fresh string payload.
    pub fn new(message: &[u8]) -> (r: Self)
        ensures
            r@ == message@,
    {
        ObjString { chars: slice_to_vec(message) }
    }

    /// Length of the content in bytes.
    pub fn len(&self) -> (r: usize)
        ensures
            r == self@.len(),
    {
        self.chars.len()
    }

    /// Borrows the content bytes.
    pub fn bytes(&self) -> (r: &Vec<u8>)
        ensures
            r@ == self@,
    {
        &self.chars
    }
}

/// A heap object; only string payloads exist in this core.
#[derive(Clone, Debug)]
pub enum Object {
    String(ObjString),
}

/// The kind of a value, without its payload.
#[derive(Clone, Copy, Debug, PartialEq, Eq, Structural)]
pub enum TypeId {
    Number,
    Bool,
    String,
    Module,
    Nil,
    Custom(StringPointer),
}

/// A runtime value: number, boolean, heap-object reference, or nil.
#[derive(Clone, Copy, Debug, PartialEq, Eq, Structural)]
pub enum Type {
    Number(Number),
    Bool(bool),
    Object(ObjectPointer),
    Nil,
}

/// The falsy set: nil and false. Every other value is truthy, including 0.
pub open spec fn spec_falsy(t: Type) -> bool {
    match t {
        Type::Nil => true,
        Type::Bool(b) => !b,
        Type::Number(_) => false,
        Type::Object(_) => false,
    }
}

/// Whether a value of the first kind may be overwritten by one of the second:
/// kinds must match, except that a slot currently holding nil accepts any
/// new value.
pub open spec fn spec_types_equal(old_val: Type, new_val: Type) -> bool {
    match (old_val, new_val) {
        (Type::Bool(_), Type::Bool(_)) => true,
        (Type::Number(_), Type::Number(_)) => true,
        (Type::Nil, _) => true,
        (Type::Object(ObjectPointer::String(_)), Type::Object(ObjectPointer::String(_))) => true,
        _ => false,
    }
}

impl Type {
    /// Whether this value counts as false in a boolean position.
    pub fn is_falsy(&self) -> (r: bool)
        ensures
            r == spec_falsy(*self),
    {
        match self {
            Type::Nil => true,
            Type::Bool(b) => !*b,
            Type::Number(_) => false,
            Type::Object(_) => false,
        }
    }

    /// Whether a slot holding `self` accepts an assignment of `other`.
    pub fn types_equal(&self, other: &Type) -> (r: bool)
        ensures
            r == spec_types_equal(*self, *other),
    {
        match (self, other) {
            (Type::Bool(_), Type::Bool(_)) => true,
            (Type::Number(_), Type::Number(_)) => true,
            (Type::Nil, _) => true,
            (Type::Object(ObjectPointer::String(_)), Type::Object(ObjectPointer::String(_))) => true,
            _ => false,
        }
    }

    /// The kind of this value.
    pub fn type_id(&self) -> (r: TypeId)
        ensures
            r == match *self {
                Type::Number(_) => TypeId::Number,
                Type::Bool(_) => TypeId::Bool,
                Type::Object(_) => TypeId::String,
                Type::Nil => TypeId::Nil,
            },
    {
        match self {
            Type::Number(_) => TypeId::Number,
            Type::Bool(_) => TypeId::Bool,
            Type::Object(_) => TypeId::String,
            Type::Nil => TypeId::Nil,
        }
    }
}

} // verus!
