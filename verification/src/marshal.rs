//! The value marshaling capabilities.
//!
//! Three capabilities move host values across the stack boundary:
//! `Push` writes a host value onto the top of the stack and reports how
//! many slots it wrote; `CopyRead` inspects a slot without consuming it
//! and without altering the stack depth, yielding no value when the
//! slot does not hold the requested shape; `ConsumeRead` attempts to
//! reinterpret the top of an owned region as a richer handle, handing
//! the untouched region back on mismatch so that no slot is ever lost.
//! `Index` marks the pushable values that may serve as table keys.

use vstd::prelude::*;

use crate::state::LoadedVariable;
use crate::state::Lua;
use crate::values::LuaValue;
use crate::values::ValView;
use crate::values::clone_bytes;
use crate::values::is_scalar;

verus! {

/// How a host value appears once marshaled into a stack slot.
pub trait LuaRepr {
    spec fn lua_view(&self) -> ValView;
}

/// Writing a host value onto the stack. Every implementation writes
/// exactly one scalar slot and reports the count, which lets composite
/// callers track the true size of the region they own.
pub trait Push: LuaRepr + Sized {
    fn push_to_lua(&self, lua: &mut Lua) -> (n: usize)
        requires
            old(lua).wf(),
        ensures
            final(lua).wf(),
            final(lua).stack_view() == old(lua).stack_view().push(self.lua_view()),
            final(lua).tables_view() == old(lua).tables_view(),
            final(lua).chunks_view() == old(lua).chunks_view(),
            is_scalar(self.lua_view()),
            n == 1,
    ;
}

/// A pushable value that may serve as a table index.
pub trait Index: Push {

}

/// Reading a stack slot without consuming it: yields the host value
/// when the slot holds the requested shape, and no value otherwise.
/// Taking the capability by shared borrow, it cannot alter the stack.
pub trait CopyRead: LuaRepr + Sized {
    /// The slot shapes this host type reads.
    spec fn accepts(v: ValView) -> bool;

    /// Reads the slot `off` positions below the top.
    fn read_from_lua(lua: &Lua, off: usize) -> (r: Option<Self>)
        requires
            (off as nat) < lua.depth(),
        ensures
            match r {
                Some(x) => Self::accepts(lua.slot_from_top(off as nat)) && x.lua_view()
                    == lua.slot_from_top(off as nat),
                None => !Self::accepts(lua.slot_from_top(off as nat)),
            },
    ;
}

/// Reinterpreting the top of an owned stack region as a richer
/// handle. On mismatch the untouched region comes back to the caller,
/// so a failed attempt loses no value and no stack slot.
pub trait ConsumeRead: Sized {
    /// The slot shapes this handle stands for.
    spec fn accepts_handle(v: ValView) -> bool;

    /// The region the handle owns.
    spec fn region(&self) -> LoadedVariable;

    fn read_from_variable(var: LoadedVariable, lua: &Lua) -> (r: Result<Self, LoadedVariable>)
        requires
            lua.depth() >= 1,
            var.size >= 1,
        ensures
            match r {
                Ok(h) => Self::accepts_handle(lua.slot_from_top(0)) && h.region() == var,
                Err(v) => !Self::accepts_handle(lua.slot_from_top(0)) && v == var,
            },
    ;
}

impl LuaRepr for bool {
    open spec fn lua_view(&self) -> ValView {
        ValView::Bool(*self)
    }
}

impl Push for bool {
    fn push_to_lua(&self, lua: &mut Lua) -> (n: usize) {
        lua.push_value(LuaValue::Boolean(*self));
        1
    }
}

impl Index for bool {

}

impl CopyRead for bool {
    open spec fn accepts(v: ValView) -> bool {
        v is Bool
    }

    fn read_from_lua(lua: &Lua, off: usize) -> (r: Option<bool>) {
        match lua.borrow_slot(off) {
            LuaValue::Boolean(b) => Some(*b),
            _ => None,
        }
    }
}

impl LuaRepr for i64 {
    open spec fn lua_view(&self) -> ValView {
        ValView::Num(*self as int)
    }
}

impl Push for i64 {
    fn push_to_lua(&self, lua: &mut Lua) -> (n: usize) {
        lua.push_value(LuaValue::Number(*self));
        1
    }
}

impl Index for i64 {

}

impl CopyRead for i64 {
    open spec fn accepts(v: ValView) -> bool {
        v is Num
    }

    fn read_from_lua(lua: &Lua, off: usize) -> (r: Option<i64>) {
        match lua.borrow_slot(off) {
            LuaValue::Number(x) => Some(*x),
            _ => None,
        }
    }
}

impl LuaRepr for Vec<u8> {
    open spec fn lua_view(&self) -> ValView {
        ValView::Str(self@)
    }
}

impl Push for Vec<u8> {
    fn push_to_lua(&self, lua: &mut Lua) -> (n: usize) {
        lua.push_value(LuaValue::Str(clone_bytes(self)));
        1
    }
}

impl Index for Vec<u8> {

}

impl CopyRead for Vec<u8> {
    open spec fn accepts(v: ValView) -> bool {
        v is Str
    }

    fn read_from_lua(lua: &Lua, off: usize) -> (r: Option<Vec<u8>>) {
        match lua.borrow_slot(off) {
            LuaValue::Str(s) => Some(clone_bytes(s)),
            _ => None,
        }
    }
}

} // verus!
