//! Access to the machine's global table: reading, writing and loading
//! named values, and creating fresh tables reachable by name. These
//! are the entry points through which a host obtains its first table
//! handle; everything else chains from there.

use vstd::prelude::*;

use crate::marshal::ConsumeRead;
use crate::marshal::CopyRead;
use crate::marshal::Index;
use crate::marshal::Push;
use crate::state::LoadedVariable;
use crate::state::Lua;
use crate::state::TableView;
use crate::state::lookup_or_nil;
use crate::state::tbl_set;
use crate::values::LuaValue;
use crate::values::ValView;

verus! {

impl Lua {
    /// Reads the global bound to `index`; the stack depth ends
    /// exactly where it began.
    pub fn get<R: CopyRead, I: Index>(&mut self, index: I) -> (r: Option<R>)
        requires
            old(self).wf(),
        ensures
            final(self).wf(),
            final(self).stack_view() == old(self).stack_view(),
            final(self).tables_view() == old(self).tables_view(),
            final(self).chunks_view() == old(self).chunks_view(),
            ({
                let slot = lookup_or_nil(old(self).tables_view()[0].entries, index.lua_view());
                match r {
                    Some(x) => R::accepts(slot) && x.lua_view() == slot,
                    None => !R::accepts(slot),
                }
            }),
    {
        let ghost pre: Lua = *self;
        self.push_value(LuaValue::Table(0));
        let _n = index.push_to_lua(self);
        self.get_table();
        let r = R::read_from_lua(self, 0);
        self.pop_n(2);
        proof {
            assert(final(self).stack_view() =~= pre.stack_view());
        }
        r
    }

    /// Binds the global `index` to `value`; the stack depth ends
    /// exactly where it began.
    pub fn set<I: Index, V: Push>(&mut self, index: I, value: V)
        requires
            old(self).wf(),
        ensures
            final(self).wf(),
            final(self).stack_view() == old(self).stack_view(),
            final(self).chunks_view() == old(self).chunks_view(),
            final(self).tables_view() == old(self).tables_view().update(
                0,
                (TableView {
                    entries: tbl_set(
                        old(self).tables_view()[0].entries,
                        index.lua_view(),
                        value.lua_view(),
                    ),
                    meta: old(self).tables_view()[0].meta,
                }),
            ),
    {
        let ghost pre: Lua = *self;
        self.push_value(LuaValue::Table(0));
        let _n1 = index.push_to_lua(self);
        let _n2 = value.push_to_lua(self);
        self.set_table();
        self.pop_n(1);
        proof {
            assert(final(self).stack_view() =~= pre.stack_view());
        }
    }

    /// Loads the global bound to `index` as an owned region of size
    /// one, reinterpreted as an `R` handle; on shape mismatch the
    /// region is released and the stack is as it was.
    pub fn load<R: ConsumeRead, I: Index>(&mut self, index: I) -> (r: Option<R>)
        requires
            old(self).wf(),
        ensures
            final(self).wf(),
            final(self).tables_view() == old(self).tables_view(),
            final(self).chunks_view() == old(self).chunks_view(),
            ({
                let slot = lookup_or_nil(old(self).tables_view()[0].entries, index.lua_view());
                match r {
                    Some(h) => R::accepts_handle(slot) && h.region().size == 1 && final(self).stack_view() == old(self).stack_view().push(slot),
                    None => !R::accepts_handle(slot) && final(self).stack_view() == old(self).stack_view(),
                }
            }),
    {
        let ghost pre: Lua = *self;
        self.push_value(LuaValue::Table(0));
        let _n = index.push_to_lua(self);
        self.get_table();
        self.remove_below_top();
        let var = LoadedVariable { size: 1 };
        match R::read_from_variable(var, self) {
            Ok(h) => {
                proof {
                    assert(final(self).stack_view() =~= pre.stack_view().push(
                        lookup_or_nil(pre.tables_view()[0].entries, index.lua_view()),
                    ));
                }
                Some(h)
            },
            Err(v) => {
                v.pop_and_release(self);
                proof {
                    assert(final(self).stack_view() =~= pre.stack_view());
                }
                None
            },
        }
    }

    /// Creates a fresh empty table and binds it to the global
    /// `index`; the stack depth ends exactly where it began, and the
    /// new table sits at the end of the heap.
    pub fn create_global_table<I: Index>(&mut self, index: I)
        requires
            old(self).wf(),
        ensures
            final(self).wf(),
            final(self).stack_view() == old(self).stack_view(),
            final(self).chunks_view() == old(self).chunks_view(),
            final(self).tables_view() == old(self).tables_view().push(
                (TableView { entries: Seq::<(ValView, ValView)>::empty(), meta: None }),
            ).update(
                0,
                (TableView {
                    entries: tbl_set(
                        old(self).tables_view()[0].entries,
                        index.lua_view(),
                        ValView::Table(old(self).tables_view().len() as int),
                    ),
                    meta: old(self).tables_view()[0].meta,
                }),
            ),
    {
        let ghost pre: Lua = *self;
        self.push_value(LuaValue::Table(0));
        let _n = index.push_to_lua(self);
        self.new_table();
        self.set_table();
        self.pop_n(1);
        proof {
            assert(final(self).stack_view() =~= pre.stack_view());
        }
    }
}

} // verus!
