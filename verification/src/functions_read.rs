//! Loading chunks from a streaming byte source, and calling them.
//!
//! `load_from_reader` bridges a host byte stream into the machine's
//! pull-based compiler through the reader bridge, then translates the
//! outcome into the error taxonomy: a stream failure surfaces as a
//! `ReadError` and takes precedence over any compile-time diagnostic,
//! since a syntax complaint about truncated input would be spurious; a
//! compile failure surfaces as a `SyntaxError` carrying the diagnostic
//! the machine left on the stack (popped before returning); success
//! yields a callable owning one stack slot.

use vstd::prelude::*;

use crate::chunk::ChunkView;
use crate::chunk::compile_spec;
use crate::chunk::syntax_msg;
use crate::errors::LuaError;
use crate::errors::STATUS_OK;
use crate::marshal::ConsumeRead;
use crate::marshal::CopyRead;
use crate::state::LoadedVariable;
use crate::state::Lua;
use crate::stream::ByteSource;
use crate::stream::ReadData;
use crate::stream::reader;
use crate::values::LuaValue;
use crate::values::ValView;

verus! {

/// A loaded chunk: an owned stack region of size one whose slot holds
/// a callable. The slot is popped exactly once, when the handle is
/// released, whether or not the chunk was invoked.
pub struct LuaFunction {
    variable: LoadedVariable,
}

impl LuaFunction {
    /// The stack region the handle owns.
    pub closed spec fn spec_region(&self) -> LoadedVariable {
        self.variable
    }

    /// Loads a chunk by pulling `code` through the reader bridge.
    ///
    /// A failing source always yields `ReadError` wrapping the
    /// source's own error, never a spurious `SyntaxError`, and leaves
    /// the stack untouched. A source that ends normally is compiled:
    /// a compile failure yields `SyntaxError` with a non-empty
    /// diagnostic and leaves the stack balanced; success pushes one
    /// slot, owned by the returned callable.
    pub fn load_from_reader(lua: &mut Lua, code: ByteSource) -> (r: Result<LuaFunction, LuaError>)
        requires
            old(lua).wf(),
            code.wf(),
        ensures
            final(lua).wf(),
            final(lua).tables_view() == old(lua).tables_view(),
            code.fails() ==> (r matches Err(e) && e matches LuaError::ReadError(se) && se
                == code.fail_error() && final(lua).stack_view() == old(lua).stack_view() && final(lua).chunks_view() == old(lua).chunks_view()),
            !code.fails() ==> match compile_spec(code.remaining()) {
                Some(cv) => r matches Ok(f) && f.spec_region().size == 1 && final(lua).stack_view() == old(lua).stack_view().push(
                    ValView::Fun(old(lua).chunks_view().len() as int),
                ) && final(lua).chunks_view() == old(lua).chunks_view().push(cv),
                None => r matches Err(e) && e matches LuaError::SyntaxError(m) && m@
                    == syntax_msg() && m@.len() > 0 && final(lua).stack_view() == old(lua).stack_view() && final(lua).chunks_view() == old(lua).chunks_view(),
            },
    {
        let mut data = ReadData { reader: code, triggered_error: None };
        let mut collected: Vec<u8> = Vec::new();
        let mut done = false;
        proof {
            assert(collected@ =~= code.spec_data().subrange(
                code.spec_pos() as int,
                code.spec_pos() as int,
            ));
        }
        while !done
            invariant
                code.wf(),
                data.reader.wf(),
                data.reader.spec_data() == code.spec_data(),
                data.reader.fails() == code.fails(),
                code.fails() ==> data.reader.fail_pos() == code.fail_pos()
                    && data.reader.fail_error() == code.fail_error(),
                code.spec_pos() <= data.reader.spec_pos() <= code.limit(),
                match data.triggered_error {
                    None => collected@ == code.spec_data().subrange(
                        code.spec_pos() as int,
                        data.reader.spec_pos() as int,
                    ),
                    Some(e) => code.fails() && e == code.fail_error(),
                },
                done ==> match data.triggered_error {
                    None => !code.fails() && data.reader.spec_pos() == code.limit(),
                    Some(e) => code.fails() && e == code.fail_error(),
                },
            decreases (code.limit() - data.reader.spec_pos()) + if done {
                0int
            } else {
                1int
            },
        {
            let ghost prepos = data.reader.spec_pos();
            let mut chunk = reader(&mut data);
            if chunk.len() == 0 {
                done = true;
            } else {
                proof {
                    assert(data.triggered_error is None);
                }
                collected.append(&mut chunk);
                proof {
                    assert(collected@ =~= code.spec_data().subrange(
                        code.spec_pos() as int,
                        data.reader.spec_pos() as int,
                    ));
                }
            }
        }
        match data.triggered_error {
            Some(e) => {
                return Err(LuaError::ReadError(e));
            },
            None => {
            },
        }
        proof {
            assert(collected@ == code.remaining());
        }
        let status = lua.load_chunk(&collected);
        if status == STATUS_OK {
            return Ok(LuaFunction { variable: LoadedVariable { size: 1 } });
        }
        // The diagnostic the machine left on the stack; popped before
        // returning, so the depth is as it was before the load.
        let msg = match <Vec<u8> as CopyRead>::read_from_lua(lua, 0) {
            Some(m) => m,
            None => {
                proof {
                    assert(false);
                }
                Vec::new()
            },
        };
        lua.pop_n(1);
        proof {
            assert(final(lua).stack_view() =~= old(lua).stack_view());
        }
        Err(LuaError::SyntaxError(msg))
    }

    /// Loads a chunk from an in-memory byte string.
    pub fn load(lua: &mut Lua, code: Vec<u8>) -> (r: Result<LuaFunction, LuaError>)
        requires
            old(lua).wf(),
        ensures
            final(lua).wf(),
            final(lua).tables_view() == old(lua).tables_view(),
            match compile_spec(code@) {
                Some(cv) => r matches Ok(f) && f.spec_region().size == 1 && final(lua).stack_view() == old(lua).stack_view().push(
                    ValView::Fun(old(lua).chunks_view().len() as int),
                ) && final(lua).chunks_view() == old(lua).chunks_view().push(cv),
                None => r matches Err(e) && e matches LuaError::SyntaxError(m) && m@
                    == syntax_msg() && m@.len() > 0 && final(lua).stack_view() == old(lua).stack_view() && final(lua).chunks_view() == old(lua).chunks_view(),
            },
    {
        let source = ByteSource::from_bytes(code);
        LuaFunction::load_from_reader(lua, source)
    }

    /// Invokes the chunk through a protected call with no arguments
    /// and one expected result. (Passing arguments — a count of values
    /// already pushed atop the callable — would be a natural
    /// generalization; this core fixes that count at zero.)
    ///
    /// On success the machine replaces the callable's slot with the
    /// result, which is copy-read: a slot of the wrong shape yields
    /// `WrongType`, with the region still owning the result slot. A
    /// runtime failure yields `ExecutionError` carrying the diagnostic
    /// (popped from the stack); the machine consumed the callable's
    /// slot, so the region's count drops to zero and its release pops
    /// nothing.
    pub fn call<V: CopyRead>(&mut self, lua: &mut Lua) -> (r: Result<V, LuaError>)
        requires
            old(lua).wf(),
            old(lua).depth() >= 1,
            old(lua).slot_from_top(0) is Fun,
            old(self).spec_region().size == 1,
        ensures
            final(lua).wf(),
            final(lua).tables_view() == old(lua).tables_view(),
            final(lua).chunks_view() == old(lua).chunks_view(),
            ({
                let c = old(lua).chunks_view()[old(lua).slot_from_top(0)->Fun_0];
                match c {
                    ChunkView::Returns(v) => final(lua).stack_view() == old(lua).stack_view().update(old(lua).depth() - 1, v) && final(self).spec_region().size
                        == 1 && (if V::accepts(v) {
                        r matches Ok(x) && x.lua_view() == v
                    } else {
                        r matches Err(e) && e is WrongType
                    }),
                    ChunkView::Fails(m) => r matches Err(e) && e
                        matches LuaError::ExecutionError(msg) && msg@ == m && final(self).spec_region().size == 0 && final(lua).stack_view() == old(lua).stack_view().take(old(lua).depth() - 1),
                }
            }),
    {
        let status = lua.pcall_top();
        if status == STATUS_OK {
            // The callable's slot now holds the result; the region
            // keeps owning it.
            match V::read_from_lua(lua, 0) {
                None => Err(LuaError::WrongType),
                Some(x) => Ok(x),
            }
        } else {
            // A runtime failure: the machine consumed the callable and
            // left the diagnostic, which is popped here. The model
            // never reports the fatal allocation status.
            let msg = match <Vec<u8> as CopyRead>::read_from_lua(lua, 0) {
                Some(m) => m,
                None => {
                    proof {
                        assert(false);
                    }
                    Vec::new()
                },
            };
            lua.pop_n(1);
            self.variable.size = 0;
            proof {
                assert(final(lua).stack_view() =~= old(lua).stack_view().take(
                    old(lua).depth() - 1,
                ));
            }
            Err(LuaError::ExecutionError(msg))
        }
    }

    /// Releases the owned region, popping its slots.
    pub fn pop_and_release(self, lua: &mut Lua)
        requires
            old(lua).wf(),
            self.spec_region().size as nat <= old(lua).depth(),
        ensures
            final(lua).wf(),
            final(lua).stack_view() == old(lua).stack_view().take(
                old(lua).depth() - self.spec_region().size as nat,
            ),
            final(lua).tables_view() == old(lua).tables_view(),
            final(lua).chunks_view() == old(lua).chunks_view(),
    {
        self.variable.pop_and_release(lua);
    }
}

impl ConsumeRead for LuaFunction {
    open spec fn accepts_handle(v: ValView) -> bool {
        v is Fun
    }

    closed spec fn region(&self) -> LoadedVariable {
        self.variable
    }

    fn read_from_variable(var: LoadedVariable, lua: &Lua) -> (r: Result<LuaFunction, LoadedVariable>) {
        match lua.borrow_slot(0) {
            LuaValue::Fun(_) => Ok(LuaFunction { variable: var }),
            _ => Err(var),
        }
    }
}

} // verus!
