//! Structured access into a table value sitting on the stack, and a
//! restartable key-value iteration protocol.
//!
//! A `LuaTable` owns the stack region holding the table. `get` and
//! `set` are depth-neutral; `load` leaves the looked-up value as a new
//! owned region of size one, releasing it correctly when the target
//! shape does not match; `get_or_create_metatable` grows the owned
//! region by one slot. The iterator owns one extra slot — the current
//! key — for its lifetime, and releases it on destruction unless the
//! traversal already removed it.

use vstd::prelude::*;

use crate::marshal::ConsumeRead;
use crate::marshal::CopyRead;
use crate::marshal::Index;
use crate::marshal::Push;
use crate::state::LoadedVariable;
use crate::state::Lua;
use crate::state::TableView;
use crate::state::keys_unique;
use crate::state::lemma_find_key_at;
use crate::state::lemma_tbl_set;
use crate::state::lookup_or_nil;
use crate::state::next_pos;
use crate::state::table_ok_in;
use crate::state::tbl_has_key;
use crate::state::tbl_set;
use crate::values::LuaValue;
use crate::values::ValView;

verus! {

/// A table value in a stack slot the handle owns.
pub struct LuaTable {
    variable: LoadedVariable,
}

impl ConsumeRead for LuaTable {
    open spec fn accepts_handle(v: ValView) -> bool {
        v is Table
    }

    closed spec fn region(&self) -> LoadedVariable {
        self.variable
    }

    fn read_from_variable(var: LoadedVariable, lua: &Lua) -> (r: Result<LuaTable, LoadedVariable>) {
        match lua.borrow_slot(0) {
            LuaValue::Table(_) => Ok(LuaTable { variable: var }),
            _ => Err(var),
        }
    }
}

/// The metatable index `get_or_create_metatable` hands back: the
/// existing one, or the freshly created table at the end of the heap.
pub open spec fn gocm_meta(tables: Seq<TableView>, t: int) -> int {
    match tables[t].meta {
        Some(m) => m,
        None => tables.len() as int,
    }
}

/// The table heap after `get_or_create_metatable`: unchanged when a
/// metatable existed, else grown by an empty table attached to `t`.
pub open spec fn gocm_tables(tables: Seq<TableView>, t: int) -> Seq<TableView> {
    match tables[t].meta {
        Some(m) => tables,
        None => tables.push(
            (TableView { entries: Seq::<(ValView, ValView)>::empty(), meta: None }),
        ).update(t, (TableView { entries: tables[t].entries, meta: Some(tables.len() as int) })),
    }
}

/// Obtaining a metatable is idempotent: done twice in a row on the
/// same table, the second pass finds the metatable the first one
/// attached (or found), and changes nothing further.
pub proof fn lemma_metatable_idempotent(tables: Seq<TableView>, t: int)
    requires
        0 <= t < tables.len(),
    ensures
        gocm_meta(gocm_tables(tables, t), t) == gocm_meta(tables, t),
        gocm_tables(gocm_tables(tables, t), t) == gocm_tables(tables, t),
{
    match tables[t].meta {
        Some(m) => {
        },
        None => {
            let after = gocm_tables(tables, t);
            assert(after[t].meta == Some(tables.len() as int));
            assert(gocm_tables(after, t) =~= after);
        },
    }
}

/// The get/set round trip: in a table with unique keys, binding a key
/// and reading it back yields exactly the bound value; the binding of
/// every other key is untouched; and a key never bound reads as nil —
/// the no-value the machine leaves for an absent key.
pub proof fn lemma_set_get_round_trip(
    e: Seq<(ValView, ValView)>,
    k: ValView,
    v: ValView,
    k2: ValView,
)
    requires
        keys_unique(e),
        k2 != k,
    ensures
        lookup_or_nil(tbl_set(e, k, v), k) == v,
        lookup_or_nil(tbl_set(e, k, v), k2) == lookup_or_nil(e, k2),
        !tbl_has_key(e, k2) ==> lookup_or_nil(e, k2) is Nil,
{
    lemma_tbl_set(e, k, v);
}

impl LuaTable {
    /// The stack region the handle owns.
    pub closed spec fn spec_region(&self) -> LoadedVariable {
        self.variable
    }

    /// Reads the value bound to `index` in the table on top of the
    /// stack: push the key, table lookup, copy-read, pop — the stack
    /// depth ends exactly where it began. Yields no value when the key
    /// is absent (the machine leaves nil) or the slot does not hold an
    /// `R`.
    pub fn get<R: CopyRead, I: Index>(&mut self, lua: &mut Lua, index: I) -> (r: Option<R>)
        requires
            old(lua).wf(),
            old(lua).depth() >= 1,
            old(lua).slot_from_top(0) is Table,
        ensures
            final(lua).wf(),
            final(lua).stack_view() == old(lua).stack_view(),
            final(lua).tables_view() == old(lua).tables_view(),
            final(lua).chunks_view() == old(lua).chunks_view(),
            ({
                let slot = lookup_or_nil(
                    old(lua).tables_view()[old(lua).slot_from_top(0)->Table_0].entries,
                    index.lua_view(),
                );
                match r {
                    Some(x) => R::accepts(slot) && x.lua_view() == slot,
                    None => !R::accepts(slot),
                }
            }),
    {
        let ghost pre: Lua = *lua;
        let _n = index.push_to_lua(lua);
        proof {
            assert(lua.slot_from_top(1) == pre.slot_from_top(0));
        }
        lua.get_table();
        let r = R::read_from_lua(lua, 0);
        lua.pop_n(1);
        proof {
            assert(final(lua).stack_view() =~= pre.stack_view());
        }
        r
    }

    /// Binds `index` to `value` in the table on top of the stack:
    /// push the key, push the value, table write — the machine
    /// consumes both pushed slots, so the stack depth ends exactly
    /// where it began.
    pub fn set<I: Index, V: Push>(&mut self, lua: &mut Lua, index: I, value: V)
        requires
            old(lua).wf(),
            old(lua).depth() >= 1,
            old(lua).slot_from_top(0) is Table,
        ensures
            final(lua).wf(),
            final(lua).stack_view() == old(lua).stack_view(),
            final(lua).chunks_view() == old(lua).chunks_view(),
            final(lua).tables_view() == old(lua).tables_view().update(
                old(lua).slot_from_top(0)->Table_0,
                (TableView {
                    entries: tbl_set(
                        old(lua).tables_view()[old(lua).slot_from_top(0)->Table_0].entries,
                        index.lua_view(),
                        value.lua_view(),
                    ),
                    meta: old(lua).tables_view()[old(lua).slot_from_top(0)->Table_0].meta,
                }),
            ),
    {
        let ghost pre: Lua = *lua;
        let _n1 = index.push_to_lua(lua);
        let _n2 = value.push_to_lua(lua);
        proof {
            assert(lua.slot_from_top(2) == pre.slot_from_top(0));
        }
        lua.set_table();
        proof {
            assert(final(lua).stack_view() =~= pre.stack_view());
        }
    }

    /// Looks `index` up and keeps the looked-up value as a new owned
    /// region of size one, reinterpreted as an `R` handle — enabling
    /// chained access into nested structures. On shape mismatch the
    /// owned region is released, so nothing leaks and the stack is as
    /// it was.
    pub fn load<R: ConsumeRead, I: Index>(&mut self, lua: &mut Lua, index: I) -> (r: Option<R>)
        requires
            old(lua).wf(),
            old(lua).depth() >= 1,
            old(lua).slot_from_top(0) is Table,
        ensures
            final(lua).wf(),
            final(lua).tables_view() == old(lua).tables_view(),
            final(lua).chunks_view() == old(lua).chunks_view(),
            ({
                let slot = lookup_or_nil(
                    old(lua).tables_view()[old(lua).slot_from_top(0)->Table_0].entries,
                    index.lua_view(),
                );
                match r {
                    Some(h) => R::accepts_handle(slot) && h.region().size == 1 && final(lua).stack_view() == old(lua).stack_view().push(slot),
                    None => !R::accepts_handle(slot) && final(lua).stack_view() == old(lua).stack_view(),
                }
            }),
    {
        let ghost pre: Lua = *lua;
        let _n = index.push_to_lua(lua);
        proof {
            assert(lua.slot_from_top(1) == pre.slot_from_top(0));
        }
        lua.get_table();
        let var = LoadedVariable { size: 1 };
        match R::read_from_variable(var, lua) {
            Ok(h) => Some(h),
            Err(v) => {
                v.pop_and_release(lua);
                proof {
                    assert(final(lua).stack_view() =~= pre.stack_view());
                }
                None
            },
        }
    }

    /// Looks `index` up as a nested table.
    pub fn load_table<I: Index>(&mut self, lua: &mut Lua, index: I) -> (r: Option<LuaTable>)
        requires
            old(lua).wf(),
            old(lua).depth() >= 1,
            old(lua).slot_from_top(0) is Table,
        ensures
            final(lua).wf(),
            final(lua).tables_view() == old(lua).tables_view(),
            final(lua).chunks_view() == old(lua).chunks_view(),
            ({
                let slot = lookup_or_nil(
                    old(lua).tables_view()[old(lua).slot_from_top(0)->Table_0].entries,
                    index.lua_view(),
                );
                match r {
                    Some(h) => slot is Table && h.spec_region().size == 1 && final(lua).stack_view() == old(lua).stack_view().push(slot),
                    None => !(slot is Table) && final(lua).stack_view() == old(lua).stack_view(),
                }
            }),
    {
        let r: Option<LuaTable> = self.load(lua, index);
        r
    }

    /// Obtains the metatable of the table on top, creating and
    /// attaching an empty one first when none exists; the handle comes
    /// back owning one more slot — the metatable now sitting above the
    /// table.
    pub fn get_or_create_metatable(self, lua: &mut Lua) -> (r: LuaTable)
        requires
            old(lua).wf(),
            old(lua).depth() >= 1,
            old(lua).slot_from_top(0) is Table,
            self.spec_region().size as nat <= old(lua).depth(),
        ensures
            final(lua).wf(),
            final(lua).chunks_view() == old(lua).chunks_view(),
            r.spec_region().size == self.spec_region().size + 1,
            ({
                let t = old(lua).slot_from_top(0)->Table_0;
                &&& final(lua).tables_view() == gocm_tables(old(lua).tables_view(), t)
                &&& final(lua).stack_view() == old(lua).stack_view().push(
                    ValView::Table(gocm_meta(old(lua).tables_view(), t)),
                )
                &&& final(lua).tables_view()[t].meta == Some(
                    gocm_meta(old(lua).tables_view(), t),
                )
            }),
    {
        let mut handle = self;
        let ghost pre: Lua = *lua;
        let found = lua.get_metatable_top();
        if !found {
            lua.new_table();
            proof {
                assert(lua.slot_from_top(1) == pre.slot_from_top(0));
            }
            lua.set_metatable();
            let got = lua.get_metatable_top();
            proof {
                assert(got);
                assert(lua.stack_view() =~= pre.stack_view().push(
                    ValView::Table(gocm_meta(pre.tables_view(), pre.slot_from_top(0)->Table_0)),
                ));
                assert(lua.tables_view() =~= gocm_tables(
                    pre.tables_view(),
                    pre.slot_from_top(0)->Table_0,
                ));
            }
        }
        let d = lua.stack_size();
        proof {
            assert(handle.variable.size < d);
        }
        handle.variable.size = handle.variable.size + 1;
        handle
    }

    /// Starts an iteration: pushes the nil sentinel as the current
    /// key, the one extra slot the iterator owns for its lifetime.
    pub fn iter(&mut self, lua: &mut Lua) -> (it: LuaTableIterator)
        requires
            old(lua).wf(),
            old(lua).depth() >= 1,
            old(lua).slot_from_top(0) is Table,
        ensures
            final(lua).wf(),
            final(lua).stack_view() == old(lua).stack_view().push(ValView::Nil),
            final(lua).tables_view() == old(lua).tables_view(),
            final(lua).chunks_view() == old(lua).chunks_view(),
            !it.spec_finished(),
            it.spec_pos() == 0,
            it.valid(*final(lua)),
    {
        lua.push_value(LuaValue::Nil);
        LuaTableIterator { finished: false, pos: Ghost(0nat) }
    }

    /// Releases the owned region, popping its slots.
    pub fn pop_and_release(self, lua: &mut Lua)
        requires
            old(lua).wf(),
            self.spec_region().size as nat <= old(lua).depth(),
        ensures
            final(lua).wf(),
            final(lua).stack_view() == old(lua).stack_view().take(
                old(lua).depth() - self.spec_region().size as nat,
            ),
            final(lua).tables_view() == old(lua).tables_view(),
            final(lua).chunks_view() == old(lua).chunks_view(),
    {
        self.variable.pop_and_release(lua);
    }
}

/// A one-pass traversal of a table's entries. While active, the
/// current key constantly sits right above the table; once the
/// underlying primitive reports the end, the key slot is already gone
/// and the iterator is finished for good.
pub struct LuaTableIterator {
    finished: bool,
    pos: Ghost<nat>,
}

impl LuaTableIterator {
    /// Whether the traversal has ended and the key slot is gone.
    pub closed spec fn spec_finished(&self) -> bool {
        self.finished
    }

    /// How many entries have been produced so far.
    pub closed spec fn spec_pos(&self) -> nat {
        self.pos@
    }

    /// While active, the slot on top is the nil sentinel before the
    /// first step, and afterwards the key of the entry last produced.
    pub open spec fn valid(&self, lua: Lua) -> bool {
        !self.spec_finished() ==> {
            &&& lua.depth() >= 2
            &&& lua.slot_from_top(1) is Table
            &&& 0 <= lua.slot_from_top(1)->Table_0 < lua.tables_view().len()
            &&& {
                let e = lua.tables_view()[lua.slot_from_top(1)->Table_0].entries;
                &&& self.spec_pos() <= e.len()
                &&& (self.spec_pos() == 0 ==> lua.slot_from_top(0) is Nil)
                &&& (self.spec_pos() > 0 ==> lua.slot_from_top(0) == e[self.spec_pos() - 1].0)
            }
        }
    }

    /// One step of the traversal: produces the next entry as a
    /// key-value pair, a present-but-unreadable marker when either
    /// copy-read fails, or the end of the sequence. Stepping pushes
    /// the next key and value, copy-reads both, and pops only the
    /// value, leaving the new key as the sole extra slot; at the end
    /// the primitive already removed the key slot.
    pub fn next<K: CopyRead, V: CopyRead>(&mut self, lua: &mut Lua) -> (r: Option<
        Option<(K, V)>,
    >)
        requires
            old(lua).wf(),
            old(self).valid(*old(lua)),
        ensures
            final(lua).wf(),
            final(lua).tables_view() == old(lua).tables_view(),
            final(lua).chunks_view() == old(lua).chunks_view(),
            old(self).spec_finished() ==> r is None && *final(lua) == *old(lua) && *final(self)
                == *old(self),
            !old(self).spec_finished() ==> ({
                let t = old(lua).slot_from_top(1)->Table_0;
                let e = old(lua).tables_view()[t].entries;
                let p = old(self).spec_pos();
                if p < e.len() {
                    &&& final(lua).stack_view() == old(lua).stack_view().update(
                        old(lua).depth() - 1,
                        e[p as int].0,
                    )
                    &&& !final(self).spec_finished()
                    &&& final(self).spec_pos() == p + 1
                    &&& final(self).valid(*final(lua))
                    &&& (if K::accepts(e[p as int].0) && V::accepts(e[p as int].1) {
                        r matches Some(q) && q matches Some(kv) && kv.0.lua_view() == e[
                            p as int
                        ].0 && kv.1.lua_view() == e[p as int].1
                    } else {
                        r matches Some(q) && q is None
                    })
                } else {
                    &&& final(lua).stack_view() == old(lua).stack_view().take(
                        old(lua).depth() - 1,
                    )
                    &&& final(self).spec_finished()
                    &&& r is None
                }
            }),
    {
        if self.finished {
            return None;
        }
        let ghost pre: Lua = *lua;
        let ghost t = pre.slot_from_top(1)->Table_0;
        let ghost e = pre.tables_view()[t].entries;
        let ghost p = self.pos@;
        proof {
            assert(table_ok_in(
                pre.tables_view()[t],
                pre.tables_view().len() as int,
                pre.chunks_view().len() as int,
            ));
            if p > 0 {
                lemma_find_key_at(e, p - 1);
                assert(tbl_has_key(e, pre.slot_from_top(0)));
            }
        }
        let more = lua.next_entry();
        proof {
            if p > 0 {
                lemma_find_key_at(e, p - 1);
            }
            assert(next_pos(e, pre.slot_from_top(0)) == p);
        }
        if !more {
            self.finished = true;
            None
        } else {
            let value = V::read_from_lua(lua, 0);
            let key = K::read_from_lua(lua, 1);
            lua.pop_n(1);
            proof {
                assert(final(lua).stack_view() =~= pre.stack_view().update(
                    pre.depth() - 1,
                    e[p as int].0,
                ));
            }
            self.pos = Ghost((p + 1) as nat);
            match (key, value) {
                (Some(k), Some(v)) => Some(Some((k, v))),
                _ => Some(None),
            }
        }
    }

    /// Destroys the iterator: while still active, pops exactly the
    /// one dangling key slot, restoring the table's stack balance;
    /// once finished, there is nothing to clean up.
    pub fn drop(self, lua: &mut Lua)
        requires
            old(lua).wf(),
            self.valid(*old(lua)),
        ensures
            final(lua).wf(),
            final(lua).tables_view() == old(lua).tables_view(),
            final(lua).chunks_view() == old(lua).chunks_view(),
            self.spec_finished() ==> final(lua).stack_view() == old(lua).stack_view(),
            !self.spec_finished() ==> final(lua).stack_view() == old(lua).stack_view().take(
                old(lua).depth() - 1,
            ),
    {
        if !self.finished {
            lua.pop_n(1);
        }
    }
}

} // verus!
