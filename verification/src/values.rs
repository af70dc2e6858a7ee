//! The domain of values that cross the marshaling boundary.
//!
//! A value living in a stack slot of the machine is either a scalar
//! (nil, boolean, integer, byte string) or a reference into one of the
//! machine's heaps: a table or a loaded chunk, identified by its index
//! in the corresponding heap.

use vstd::prelude::*;

verus! {

/// A value held in one slot of the machine's shared evaluation stack.
pub enum LuaValue {
    Nil,
    Boolean(bool),
    Number(i64),
    Str(Vec<u8>),
    Table(usize),
    Fun(usize),
}

/// The mathematical shape of a stack value.
pub ghost enum ValView {
    Nil,
    Bool(bool),
    Num(int),
    Str(Seq<u8>),
    Table(int),
    Fun(int),
}

impl View for LuaValue {
    type V = ValView;

    open spec fn view(&self) -> ValView {
        match self {
            LuaValue::Nil => ValView::Nil,
            LuaValue::Boolean(b) => ValView::Bool(*b),
            LuaValue::Number(n) => ValView::Num(*n as int),
            LuaValue::Str(s) => ValView::Str(s@),
            LuaValue::Table(t) => ValView::Table(*t as int),
            LuaValue::Fun(f) => ValView::Fun(*f as int),
        }
    }
}

/// A scalar is a value that may serve as a table key or as a marshaled
/// host value: a boolean, a number or a byte string.
pub open spec fn is_scalar(v: ValView) -> bool {
    v is Bool || v is Num || v is Str
}

/// Copies a byte string.
pub fn clone_bytes(v: &Vec<u8>) -> (r: Vec<u8>)
    ensures
        r@ == v@,
{
    let mut r: Vec<u8> = Vec::new();
    let mut i: usize = 0;
    while i < v.len()
        invariant
            i <= v.len(),
            r@ == v@.subrange(0, i as int),
        decreases v.len() - i,
    {
        r.push(v[i]);
        assert(r@ =~= v@.subrange(0, i + 1 as int));
        i = i + 1;
    }
    assert(r@ =~= v@);
    r
}

/// Compares two byte strings for equality.
pub fn bytes_eq(a: &Vec<u8>, b: &Vec<u8>) -> (r: bool)
    ensures
        r == (a@ == b@),
{
    if a.len() != b.len() {
        return false;
    }
    let mut i: usize = 0;
    while i < a.len()
        invariant
            i <= a.len(),
            a@.len() == b@.len(),
            forall|j: int| 0 <= j < i ==> a@[j] == b@[j],
        decreases a.len() - i,
    {
        if a[i] != b[i] {
            return false;
        }
        i = i + 1;
    }
    assert(a@ =~= b@);
    true
}

impl LuaValue {
    /// Copies a stack value; heap references are copied by identity.
    pub fn duplicate(&self) -> (r: LuaValue)
        ensures
            r@ == self@,
    {
        match self {
            LuaValue::Nil => LuaValue::Nil,
            LuaValue::Boolean(b) => LuaValue::Boolean(*b),
            LuaValue::Number(n) => LuaValue::Number(*n),
            LuaValue::Str(s) => LuaValue::Str(clone_bytes(s)),
            LuaValue::Table(t) => LuaValue::Table(*t),
            LuaValue::Fun(f) => LuaValue::Fun(*f),
        }
    }

    /// Structural equality of stack values.
    pub fn same_value(&self, other: &LuaValue) -> (r: bool)
        ensures
            r == (self@ == other@),
    {
        match (self, other) {
            (LuaValue::Nil, LuaValue::Nil) => true,
            (LuaValue::Boolean(a), LuaValue::Boolean(b)) => a == b,
            (LuaValue::Number(a), LuaValue::Number(b)) => a == b,
            (LuaValue::Str(a), LuaValue::Str(b)) => bytes_eq(a, b),
            (LuaValue::Table(a), LuaValue::Table(b)) => a == b,
            (LuaValue::Fun(a), LuaValue::Fun(b)) => a == b,
            _ => false,
        }
    }
}

} // verus!
