//! The host-visible slice of the machine's execution state, and the
//! primitive operations the marshaling layer drives it with.
//!
//! A `Lua` value is the stack capability: exclusive mutable access to
//! the shared evaluation stack, the table heap and the loaded chunks.
//! Every operation that touches the stack borrows it mutably, so only
//! one component can manipulate the stack at a time, and nested scoped
//! regions are released in LIFO order by construction of the contracts:
//! each operation states exactly which top-of-stack slots it consumes
//! and produces.

use vstd::prelude::*;

use crate::chunk::ChunkOutcome;
use crate::chunk::ChunkView;
use crate::chunk::compile;
use crate::chunk::compile_spec;
use crate::chunk::syntax_msg;
use crate::chunk::syntax_message;
use crate::errors::LUA_ERRRUN;
use crate::errors::LUA_ERRSYNTAX;
use crate::errors::STATUS_OK;
use crate::values::LuaValue;
use crate::values::ValView;
use crate::values::is_scalar;

verus! {

/// The mathematical shape of one table: its entries in traversal
/// order, and the index of its metatable if one is attached.
pub ghost struct TableView {
    pub entries: Seq<(ValView, ValView)>,
    pub meta: Option<int>,
}

/// The first value bound to key `k`, walking the entries in order.
/// With unique keys this is the value of the one entry holding `k`.
pub open spec fn tbl_lookup(e: Seq<(ValView, ValView)>, k: ValView) -> Option<ValView>
    decreases e.len(),
{
    if e.len() == 0 {
        None
    } else if e[0].0 == k {
        Some(e[0].1)
    } else {
        tbl_lookup(e.drop_first(), k)
    }
}

pub open spec fn tbl_has_key(e: Seq<(ValView, ValView)>, k: ValView) -> bool {
    tbl_lookup(e, k) is Some
}

/// The position of the first entry holding key `k`, or the length of
/// the table when no entry does.
pub open spec fn find_key(e: Seq<(ValView, ValView)>, k: ValView) -> int
    decreases e.len(),
{
    if e.len() == 0 {
        0
    } else if e[0].0 == k {
        0
    } else {
        1 + find_key(e.drop_first(), k)
    }
}

/// No two entries bind the same key.
pub open spec fn keys_unique(e: Seq<(ValView, ValView)>) -> bool {
    forall|i: int, j: int|
        #![trigger e[i], e[j]]
        0 <= i < j < e.len() ==> e[i].0 != e[j].0
}

/// The entries after binding `k` to `v`: the entry holding `k` is
/// replaced in place, or a new entry is appended.
pub open spec fn tbl_set(e: Seq<(ValView, ValView)>, k: ValView, v: ValView) -> Seq<
    (ValView, ValView),
> {
    if tbl_has_key(e, k) {
        e.update(find_key(e, k), (k, v))
    } else {
        e.push((k, v))
    }
}

/// The position the iteration primitive resumes from: the start for
/// the nil sentinel, otherwise just past the entry holding the key.
pub open spec fn next_pos(e: Seq<(ValView, ValView)>, k: ValView) -> int {
    if k is Nil {
        0
    } else {
        find_key(e, k) + 1
    }
}

pub proof fn lemma_find_key_spec(e: Seq<(ValView, ValView)>, k: ValView)
    ensures
        0 <= find_key(e, k) <= e.len(),
        tbl_has_key(e, k) <==> find_key(e, k) < e.len(),
        find_key(e, k) < e.len() ==> e[find_key(e, k)].0 == k && tbl_lookup(e, k) == Some(
            e[find_key(e, k)].1,
        ),
        forall|j: int| 0 <= j < find_key(e, k) ==> (#[trigger] e[j]).0 != k,
    decreases e.len(),
{
    if e.len() > 0 && e[0].0 != k {
        lemma_find_key_spec(e.drop_first(), k);
        assert forall|j: int| 0 <= j < find_key(e, k) implies (#[trigger] e[j]).0 != k by {
            if j > 0 {
                assert(e.drop_first()[j - 1] == e[j]);
            }
        }
    }
}

/// With unique keys, the entry at position `i` is the one `find_key`
/// finds for its key, and lookup returns its value.
pub proof fn lemma_find_key_at(e: Seq<(ValView, ValView)>, i: int)
    requires
        keys_unique(e),
        0 <= i < e.len(),
    ensures
        find_key(e, e[i].0) == i,
        tbl_lookup(e, e[i].0) == Some(e[i].1),
    decreases e.len(),
{
    lemma_find_key_spec(e, e[i].0);
    let f = find_key(e, e[i].0);
    if f < i {
        assert(e[f].0 == e[i].0);
    }
}

pub proof fn lemma_lookup_update(e: Seq<(ValView, ValView)>, i: int, p: (ValView, ValView))
    requires
        0 <= i < e.len(),
        e[i].0 == p.0,
        forall|j: int| 0 <= j < i ==> (#[trigger] e[j]).0 != p.0,
    ensures
        tbl_lookup(e.update(i, p), p.0) == Some(p.1),
        forall|k2: ValView| k2 != p.0 ==> #[trigger] tbl_lookup(e.update(i, p), k2) == tbl_lookup(
            e,
            k2,
        ),
    decreases e.len(),
{
    let s = e.update(i, p);
    if i == 0 {
        assert(s[0] == p);
        assert(s.drop_first() =~= e.drop_first());
    } else {
        assert(s[0] == e[0]);
        assert(e[0].0 != p.0);
        assert(s.drop_first() =~= e.drop_first().update(i - 1, p));
        assert forall|j: int| 0 <= j < i - 1 implies (#[trigger] e.drop_first()[j]).0 != p.0 by {
            assert(e.drop_first()[j] == e[j + 1]);
        }
        lemma_lookup_update(e.drop_first(), i - 1, p);
        assert forall|k2: ValView| k2 != p.0 implies #[trigger] tbl_lookup(s, k2) == tbl_lookup(
            e,
            k2,
        ) by {
            assert(tbl_lookup(e.drop_first().update(i - 1, p), k2) == tbl_lookup(
                e.drop_first(),
                k2,
            ));
        }
    }
}

pub proof fn lemma_lookup_push(e: Seq<(ValView, ValView)>, p: (ValView, ValView))
    ensures
        tbl_lookup(e.push(p), p.0) == if tbl_has_key(e, p.0) {
            tbl_lookup(e, p.0)
        } else {
            Some(p.1)
        },
        forall|k2: ValView| k2 != p.0 ==> #[trigger] tbl_lookup(e.push(p), k2) == tbl_lookup(
            e,
            k2,
        ),
    decreases e.len(),
{
    let s = e.push(p);
    if e.len() == 0 {
        assert(s[0] == p);
        assert(s.drop_first() =~= Seq::<(ValView, ValView)>::empty());
        assert forall|k2: ValView| k2 != p.0 implies #[trigger] tbl_lookup(s, k2) == tbl_lookup(
            e,
            k2,
        ) by {
            assert(tbl_lookup(s.drop_first(), k2) is None);
        }
    } else {
        assert(s[0] == e[0]);
        assert(s.drop_first() =~= e.drop_first().push(p));
        lemma_lookup_push(e.drop_first(), p);
        assert forall|k2: ValView| k2 != p.0 implies #[trigger] tbl_lookup(s, k2) == tbl_lookup(
            e,
            k2,
        ) by {
            assert(tbl_lookup(e.drop_first().push(p), k2) == tbl_lookup(e.drop_first(), k2));
        }
    }
}

/// Binding a key leaves a table whose keys are still unique, where the
/// bound key maps to the new value and every other key is untouched.
pub proof fn lemma_tbl_set(e: Seq<(ValView, ValView)>, k: ValView, v: ValView)
    requires
        keys_unique(e),
    ensures
        keys_unique(tbl_set(e, k, v)),
        tbl_lookup(tbl_set(e, k, v), k) == Some(v),
        forall|k2: ValView| k2 != k ==> #[trigger] tbl_lookup(tbl_set(e, k, v), k2) == tbl_lookup(
            e,
            k2,
        ),
{
    lemma_find_key_spec(e, k);
    if tbl_has_key(e, k) {
        let i = find_key(e, k);
        lemma_lookup_update(e, i, (k, v));
        let s = e.update(i, (k, v));
        assert forall|a: int, b: int|
            #![trigger s[a], s[b]]
            0 <= a < b < s.len() implies s[a].0 != s[b].0 by {
            assert(s[a].0 == e[a].0);
            assert(s[b].0 == e[b].0);
        }
    } else {
        lemma_lookup_push(e, (k, v));
        let s = e.push((k, v));
        assert forall|a: int, b: int|
            #![trigger s[a], s[b]]
            0 <= a < b < s.len() implies s[a].0 != s[b].0 by {
            if b == e.len() {
                assert(s[b] == (k, v));
                assert(s[a] == e[a]);
                assert(e[a].0 != k);
            } else {
                assert(s[a].0 == e[a].0);
                assert(s[b].0 == e[b].0);
            }
        }
    }
}

/// One table of the machine's table heap.
struct TableData {
    entries: Vec<(LuaValue, LuaValue)>,
    meta: Option<usize>,
}

impl View for TableData {
    type V = TableView;

    closed spec fn view(&self) -> TableView {
        TableView {
            entries: Seq::new(self.entries@.len(), |i: int| (self.entries@[i].0@, self.entries@[i].1@)),
            meta: match self.meta {
                Some(m) => Some(m as int),
                None => None,
            },
        }
    }
}

impl TableData {
    fn empty() -> (r: TableData)
        ensures
            r@.entries =~= Seq::<(ValView, ValView)>::empty(),
            r@.meta is None,
    {
        TableData { entries: Vec::new(), meta: None }
    }

    /// The position of the entry holding `key`, or the number of
    /// entries when no entry does.
    fn find(&self, key: &LuaValue) -> (i: usize)
        ensures
            i == find_key(self@.entries, key@),
            i <= self@.entries.len(),
    {
        let ghost e = self@.entries;
        let mut i: usize = 0;
        while i < self.entries.len()
            invariant
                e == self@.entries,
                e.len() == self.entries@.len(),
                0 <= i <= e.len(),
                forall|j: int| 0 <= j < i ==> (#[trigger] e[j]).0 != key@,
            decreases self.entries@.len() - i,
        {
            let hit = self.entries[i].0.same_value(key);
            if hit {
                proof {
                    lemma_find_key_spec(e, key@);
                    let f = find_key(e, key@);
                    if f < i {
                        assert(e[f].0 == key@);
                    }
                    assert(e[i as int].0 == key@);
                }
                return i;
            }
            proof {
                assert(e[i as int].0 == self.entries@[i as int].0@);
            }
            i = i + 1;
        }
        proof {
            lemma_find_key_spec(e, key@);
            let f = find_key(e, key@);
            if f < e.len() {
                assert(e[f].0 == key@);
            }
        }
        i
    }

    /// A copy of the entry at position `i`.
    fn entry_at(&self, i: usize) -> (r: (LuaValue, LuaValue))
        requires
            i < self@.entries.len(),
        ensures
            r.0@ == self@.entries[i as int].0,
            r.1@ == self@.entries[i as int].1,
    {
        let p = &self.entries[i];
        (p.0.duplicate(), p.1.duplicate())
    }

    /// A copy of the value bound to `key`, if any entry holds it.
    fn lookup(&self, key: &LuaValue) -> (r: Option<LuaValue>)
        ensures
            match tbl_lookup(self@.entries, key@) {
                Some(v) => r matches Some(x) && x@ == v,
                None => r is None,
            },
    {
        let i = self.find(key);
        proof {
            lemma_find_key_spec(self@.entries, key@);
        }
        if i < self.entries.len() {
            Some(self.entries[i].1.duplicate())
        } else {
            None
        }
    }

    /// Binds `key` to `value`, replacing in place or appending.
    fn set(&mut self, key: LuaValue, value: LuaValue)
        ensures
            final(self)@.entries == tbl_set(old(self)@.entries, key@, value@),
            final(self)@.meta == old(self)@.meta,
    {
        let ghost e = self@.entries;
        let i = self.find(&key);
        proof {
            lemma_find_key_spec(e, key@);
        }
        if i < self.entries.len() {
            let slot = &mut self.entries[i];
            *slot = (key, value);
            proof {
                assert(self@.entries =~= e.update(i as int, (key@, value@)));
            }
        } else {
            self.entries.push((key, value));
            proof {
                assert(self@.entries =~= e.push((key@, value@)));
            }
        }
    }

    /// Attaches the table at heap position `m` as the metatable.
    fn set_meta(&mut self, m: usize)
        ensures
            final(self)@.entries == old(self)@.entries,
            final(self)@.meta == Some(m as int),
    {
        self.meta = Some(m);
        proof {
            assert(self@.entries =~= old(self)@.entries);
        }
    }
}

/// A value may sit on the stack or in a table only if the heap indices
/// it carries point into the current heaps.
pub open spec fn val_ok_in(v: ValView, ntables: int, nchunks: int) -> bool {
    &&& (v is Table ==> 0 <= v->Table_0 < ntables)
    &&& (v is Fun ==> 0 <= v->Fun_0 < nchunks)
}

/// A table holds uniquely keyed entries, scalar keys, well-placed
/// non-nil values, and a metatable index inside the heap if any.
pub open spec fn table_ok_in(t: TableView, ntables: int, nchunks: int) -> bool {
    &&& keys_unique(t.entries)
    &&& forall|j: int|
        0 <= j < t.entries.len() ==> is_scalar((#[trigger] t.entries[j]).0) && val_ok_in(
            t.entries[j].1,
            ntables,
            nchunks,
        ) && !(t.entries[j].1 is Nil)
    &&& (t.meta matches Some(m) ==> 0 <= m < ntables)
}

/// A chunk that returns a value returns a well-placed one.
pub open spec fn chunk_ok_in(c: ChunkView, ntables: int, nchunks: int) -> bool {
    c matches ChunkView::Returns(v) ==> val_ok_in(v, ntables, nchunks)
}

/// The value bound to `k`, or nil when no entry holds `k` — what the
/// machine's table-read primitive leaves on the stack.
pub open spec fn lookup_or_nil(e: Seq<(ValView, ValView)>, k: ValView) -> ValView {
    match tbl_lookup(e, k) {
        Some(v) => v,
        None => ValView::Nil,
    }
}

pub proof fn lemma_table_ok_grow(t: TableView, nt: int, nc: int, nt2: int, nc2: int)
    requires
        table_ok_in(t, nt, nc),
        nt <= nt2,
        nc <= nc2,
    ensures
        table_ok_in(t, nt2, nc2),
{
}

/// The stack capability: exclusive access to the machine's shared
/// evaluation stack, its table heap and its loaded chunks.
pub struct Lua {
    stack: Vec<LuaValue>,
    tables: Vec<TableData>,
    chunks: Vec<ChunkOutcome>,
}

impl Lua {
    /// The stack, bottom first.
    pub closed spec fn stack_view(&self) -> Seq<ValView> {
        Seq::new(self.stack@.len(), |i: int| self.stack@[i]@)
    }

    /// The table heap; position 0 holds the globals table.
    pub closed spec fn tables_view(&self) -> Seq<TableView> {
        Seq::new(self.tables@.len(), |i: int| self.tables@[i]@)
    }

    /// The loaded chunks.
    pub closed spec fn chunks_view(&self) -> Seq<ChunkView> {
        Seq::new(self.chunks@.len(), |i: int| self.chunks@[i]@)
    }

    /// The current stack depth.
    pub open spec fn depth(&self) -> nat {
        self.stack_view().len()
    }

    /// The stack slot `off` positions below the top.
    pub open spec fn slot_from_top(&self, off: nat) -> ValView {
        self.stack_view()[self.depth() - 1 - off]
    }

    pub open spec fn val_ok(&self, v: ValView) -> bool {
        val_ok_in(v, self.tables_view().len() as int, self.chunks_view().len() as int)
    }

    /// Every value in sight points into the heaps, every table is
    /// soundly built, and the globals table exists.
    pub open spec fn wf(&self) -> bool {
        &&& self.tables_view().len() >= 1
        &&& forall|i: int|
            0 <= i < self.stack_view().len() ==> val_ok_in(
                #[trigger] self.stack_view()[i],
                self.tables_view().len() as int,
                self.chunks_view().len() as int,
            )
        &&& forall|i: int|
            0 <= i < self.tables_view().len() ==> table_ok_in(
                #[trigger] self.tables_view()[i],
                self.tables_view().len() as int,
                self.chunks_view().len() as int,
            )
        &&& forall|i: int|
            0 <= i < self.chunks_view().len() ==> chunk_ok_in(
                #[trigger] self.chunks_view()[i],
                self.tables_view().len() as int,
                self.chunks_view().len() as int,
            )
    }

    /// A fresh machine: empty stack, an empty globals table, no chunks.
    pub fn new() -> (r: Lua)
        ensures
            r.wf(),
            r.stack_view() == Seq::<ValView>::empty(),
            r.tables_view().len() == 1,
            r.tables_view()[0].entries == Seq::<(ValView, ValView)>::empty(),
            r.tables_view()[0].meta is None,
            r.chunks_view() == Seq::<ChunkView>::empty(),
    {
        let mut tables: Vec<TableData> = Vec::new();
        tables.push(TableData::empty());
        let r = Lua { stack: Vec::new(), tables, chunks: Vec::new() };
        proof {
            assert(r.stack_view() =~= Seq::<ValView>::empty());
            assert(r.chunks_view() =~= Seq::<ChunkView>::empty());
            assert(r.tables_view()[0].entries =~= Seq::<(ValView, ValView)>::empty());
        }
        r
    }

    /// How many slots the stack currently holds.
    pub fn stack_size(&self) -> (n: usize)
        ensures
            n as nat == self.depth(),
    {
        self.stack.len()
    }

    /// How many tables the heap currently holds.
    pub fn table_count(&self) -> (n: usize)
        ensures
            n as nat == self.tables_view().len(),
    {
        self.tables.len()
    }

    /// Pushes one value; the machine's basic write primitive.
    pub fn push_value(&mut self, v: LuaValue)
        requires
            old(self).wf(),
            old(self).val_ok(v@),
        ensures
            final(self).wf(),
            final(self).stack_view() == old(self).stack_view().push(v@),
            final(self).tables_view() == old(self).tables_view(),
            final(self).chunks_view() == old(self).chunks_view(),
    {
        self.stack.push(v);
        proof {
            assert(self.stack_view() =~= old(self).stack_view().push(v@));
            assert(self.tables_view() =~= old(self).tables_view());
            assert(self.chunks_view() =~= old(self).chunks_view());
        }
    }

    /// Pops `n` slots; the machine's basic removal primitive.
    pub fn pop_n(&mut self, n: usize)
        requires
            old(self).wf(),
            n as nat <= old(self).depth(),
        ensures
            final(self).wf(),
            final(self).stack_view() == old(self).stack_view().take(
                old(self).depth() - n as nat,
            ),
            final(self).tables_view() == old(self).tables_view(),
            final(self).chunks_view() == old(self).chunks_view(),
    {
        let newlen = self.stack.len() - n;
        self.stack.truncate(newlen);
        proof {
            assert(self.stack_view() =~= old(self).stack_view().take(
                old(self).depth() - n as nat,
            ));
            assert(self.tables_view() =~= old(self).tables_view());
            assert(self.chunks_view() =~= old(self).chunks_view());
        }
    }

    /// Reads the slot `off` positions below the top without consuming
    /// it; never changes the stack.
    pub fn borrow_slot(&self, off: usize) -> (v: &LuaValue)
        requires
            (off as nat) < self.depth(),
        ensures
            v@ == self.slot_from_top(off as nat),
    {
        let idx = self.stack.len() - 1 - off;
        &self.stack[idx]
    }

    /// The heap index of the table sitting `off` slots below the top.
    fn table_id_at(&self, off: usize) -> (t: usize)
        requires
            (off as nat) < self.depth(),
            self.slot_from_top(off as nat) is Table,
        ensures
            t as int == self.slot_from_top(off as nat)->Table_0,
    {
        let idx = self.stack.len() - 1 - off;
        match &self.stack[idx] {
            LuaValue::Table(t) => *t,
            _ => {
                proof {
                    assert(false);
                }
                0
            },
        }
    }

    /// The heap index of the chunk sitting `off` slots below the top.
    fn fun_id_at(&self, off: usize) -> (c: usize)
        requires
            (off as nat) < self.depth(),
            self.slot_from_top(off as nat) is Fun,
        ensures
            c as int == self.slot_from_top(off as nat)->Fun_0,
    {
        let idx = self.stack.len() - 1 - off;
        match &self.stack[idx] {
            LuaValue::Fun(c) => *c,
            _ => {
                proof {
                    assert(false);
                }
                0
            },
        }
    }

    /// Removes the slot just below the top, keeping the top value;
    /// the machine's slot-removal primitive.
    pub fn remove_below_top(&mut self)
        requires
            old(self).wf(),
            old(self).depth() >= 2,
        ensures
            final(self).wf(),
            final(self).tables_view() == old(self).tables_view(),
            final(self).chunks_view() == old(self).chunks_view(),
            final(self).stack_view() == old(self).stack_view().take(old(self).depth() - 2).push(
                old(self).slot_from_top(0),
            ),
    {
        let a = match self.stack.pop() {
            Some(x) => x,
            None => {
                proof {
                    assert(false);
                }
                LuaValue::Nil
            },
        };
        let _below = self.stack.pop();
        self.stack.push(a);
        proof {
            assert(self.stack_view() =~= old(self).stack_view().take(
                old(self).depth() - 2,
            ).push(old(self).slot_from_top(0)));
            assert(self.tables_view() =~= old(self).tables_view());
            assert(self.chunks_view() =~= old(self).chunks_view());
        }
    }

    /// The table-read primitive: consumes the key on top, with the
    /// table one slot below it, and leaves the bound value — or nil —
    /// in the key's place. Net stack depth change: zero.
    pub fn get_table(&mut self)
        requires
            old(self).wf(),
            old(self).depth() >= 2,
            old(self).slot_from_top(1) is Table,
            is_scalar(old(self).slot_from_top(0)),
        ensures
            final(self).wf(),
            final(self).tables_view() == old(self).tables_view(),
            final(self).chunks_view() == old(self).chunks_view(),
            final(self).stack_view() == old(self).stack_view().update(
                old(self).depth() - 1,
                lookup_or_nil(
                    old(self).tables_view()[old(self).slot_from_top(1)->Table_0].entries,
                    old(self).slot_from_top(0),
                ),
            ),
    {
        let ghost pre: Lua = *self;
        let t = self.table_id_at(1);
        proof {
            assert(pre.stack_view()[pre.depth() - 2] == pre.slot_from_top(1));
            assert(val_ok_in(
                pre.slot_from_top(1),
                pre.tables_view().len() as int,
                pre.chunks_view().len() as int,
            ));
        }
        let key = match self.stack.pop() {
            Some(k) => k,
            None => {
                proof {
                    assert(false);
                }
                LuaValue::Nil
            },
        };
        let ghost e = pre.tables_view()[t as int].entries;
        let r = self.tables[t].lookup(&key);
        proof {
            assert(self.tables@[t as int]@ == pre.tables_view()[t as int]);
            lemma_find_key_spec(e, key@);
        }
        let out = match r {
            Some(v) => v,
            None => LuaValue::Nil,
        };
        proof {
            if tbl_lookup(e, key@) is Some {
                let f = find_key(e, key@);
                assert(table_ok_in(
                    pre.tables_view()[t as int],
                    pre.tables_view().len() as int,
                    pre.chunks_view().len() as int,
                ));
                assert(val_ok_in(
                    e[f].1,
                    pre.tables_view().len() as int,
                    pre.chunks_view().len() as int,
                ));
            }
        }
        self.stack.push(out);
        proof {
            assert(self.stack_view() =~= pre.stack_view().update(
                pre.depth() - 1,
                lookup_or_nil(e, pre.slot_from_top(0)),
            ));
            assert(self.tables_view() =~= pre.tables_view());
            assert(self.chunks_view() =~= pre.chunks_view());
        }
    }

    /// The table-write primitive: consumes the value on top and the
    /// key below it, and binds the key in the table two slots below.
    pub fn set_table(&mut self)
        requires
            old(self).wf(),
            old(self).depth() >= 3,
            old(self).slot_from_top(2) is Table,
            is_scalar(old(self).slot_from_top(1)),
            old(self).val_ok(old(self).slot_from_top(0)),
            !(old(self).slot_from_top(0) is Nil),
        ensures
            final(self).wf(),
            final(self).chunks_view() == old(self).chunks_view(),
            final(self).stack_view() == old(self).stack_view().take(old(self).depth() - 2),
            final(self).tables_view() == old(self).tables_view().update(
                old(self).slot_from_top(2)->Table_0,
                (TableView {
                    entries: tbl_set(
                        old(self).tables_view()[old(self).slot_from_top(2)->Table_0].entries,
                        old(self).slot_from_top(1),
                        old(self).slot_from_top(0),
                    ),
                    meta: old(self).tables_view()[old(self).slot_from_top(2)->Table_0].meta,
                }),
            ),
    {
        let ghost pre: Lua = *self;
        let t = self.table_id_at(2);
        proof {
            assert(pre.stack_view()[pre.depth() - 3] == pre.slot_from_top(2));
            assert(val_ok_in(
                pre.slot_from_top(2),
                pre.tables_view().len() as int,
                pre.chunks_view().len() as int,
            ));
        }
        let value = match self.stack.pop() {
            Some(v) => v,
            None => {
                proof {
                    assert(false);
                }
                LuaValue::Nil
            },
        };
        let key = match self.stack.pop() {
            Some(k) => k,
            None => {
                proof {
                    assert(false);
                }
                LuaValue::Nil
            },
        };
        let ghost e = pre.tables_view()[t as int].entries;
        proof {
            assert(self.tables@[t as int]@ == pre.tables_view()[t as int]);
            assert(table_ok_in(
                pre.tables_view()[t as int],
                pre.tables_view().len() as int,
                pre.chunks_view().len() as int,
            ));
        }
        let td = &mut self.tables[t];
        td.set(key, value);
        proof {
            let nt = pre.tables_view().len() as int;
            let nc = pre.chunks_view().len() as int;
            lemma_tbl_set_ok(e, pre.slot_from_top(1), pre.slot_from_top(0), nt, nc);
            assert(self.stack_view() =~= pre.stack_view().take(pre.depth() - 2));
            assert(self.chunks_view() =~= pre.chunks_view());
            assert(self.tables_view() =~= pre.tables_view().update(
                t as int,
                (TableView { entries: tbl_set(e, pre.slot_from_top(1), pre.slot_from_top(0)), meta: pre.tables_view()[t as int].meta }),
            ));
        }
    }
}

impl Lua {
    /// The iteration primitive: consumes the key on top (nil to start,
    /// else a present key) with the table one slot below, and either
    /// pushes the following entry's key and value (reporting `true`),
    /// or pushes nothing (reporting `false`) when the traversal is
    /// done — the key slot is gone either way.
    pub fn next_entry(&mut self) -> (more: bool)
        requires
            old(self).wf(),
            old(self).depth() >= 2,
            old(self).slot_from_top(1) is Table,
            old(self).slot_from_top(0) is Nil || tbl_has_key(
                old(self).tables_view()[old(self).slot_from_top(1)->Table_0].entries,
                old(self).slot_from_top(0),
            ),
        ensures
            final(self).wf(),
            final(self).tables_view() == old(self).tables_view(),
            final(self).chunks_view() == old(self).chunks_view(),
            ({
                let e = old(self).tables_view()[old(self).slot_from_top(1)->Table_0].entries;
                let pos = next_pos(e, old(self).slot_from_top(0));
                if pos < e.len() {
                    more && final(self).stack_view() == old(self).stack_view().update(
                        old(self).depth() - 1,
                        e[pos].0,
                    ).push(e[pos].1)
                } else {
                    !more && final(self).stack_view() == old(self).stack_view().take(
                        old(self).depth() - 1,
                    )
                }
            }),
    {
        let ghost pre: Lua = *self;
        let t = self.table_id_at(1);
        proof {
            assert(pre.stack_view()[pre.depth() - 2] == pre.slot_from_top(1));
            assert(val_ok_in(
                pre.slot_from_top(1),
                pre.tables_view().len() as int,
                pre.chunks_view().len() as int,
            ));
        }
        let key = match self.stack.pop() {
            Some(k) => k,
            None => {
                proof {
                    assert(false);
                }
                LuaValue::Nil
            },
        };
        let ghost e = pre.tables_view()[t as int].entries;
        proof {
            assert(self.tables@[t as int]@ == pre.tables_view()[t as int]);
            assert(table_ok_in(
                pre.tables_view()[t as int],
                pre.tables_view().len() as int,
                pre.chunks_view().len() as int,
            ));
            lemma_find_key_spec(e, key@);
        }
        let is_first = match &key {
            LuaValue::Nil => true,
            _ => false,
        };
        let pos: usize;
        if is_first {
            pos = 0;
        } else {
            proof {
                assert(key@ == pre.slot_from_top(0));
                assert(tbl_has_key(e, key@));
            }
            let elen = self.tables[t].entries.len();
            let f = self.tables[t].find(&key);
            proof {
                assert(e.len() == elen as nat);
                assert(f < elen);
            }
            pos = f + 1;
        }
        if pos < self.tables[t].entries.len() {
            let pair = self.tables[t].entry_at(pos);
            proof {
                assert(is_scalar(e[pos as int].0));
                assert(val_ok_in(
                    e[pos as int].1,
                    pre.tables_view().len() as int,
                    pre.chunks_view().len() as int,
                ));
            }
            self.stack.push(pair.0);
            self.stack.push(pair.1);
            proof {
                assert(self.stack_view() =~= pre.stack_view().update(
                    pre.depth() - 1,
                    e[next_pos(e, pre.slot_from_top(0))].0,
                ).push(e[next_pos(e, pre.slot_from_top(0))].1));
                assert(self.tables_view() =~= pre.tables_view());
                assert(self.chunks_view() =~= pre.chunks_view());
            }
            true
        } else {
            proof {
                assert(self.stack_view() =~= pre.stack_view().take(pre.depth() - 1));
                assert(self.tables_view() =~= pre.tables_view());
                assert(self.chunks_view() =~= pre.chunks_view());
            }
            false
        }
    }

    /// The metatable-read primitive: if the table on top has a
    /// metatable, pushes it and reports `true`; otherwise leaves the
    /// stack unchanged and reports `false`.
    pub fn get_metatable_top(&mut self) -> (found: bool)
        requires
            old(self).wf(),
            old(self).depth() >= 1,
            old(self).slot_from_top(0) is Table,
        ensures
            final(self).wf(),
            final(self).tables_view() == old(self).tables_view(),
            final(self).chunks_view() == old(self).chunks_view(),
            ({
                let m = old(self).tables_view()[old(self).slot_from_top(0)->Table_0].meta;
                match m {
                    Some(mi) => found && final(self).stack_view() == old(self).stack_view().push(
                        ValView::Table(mi),
                    ),
                    None => !found && final(self).stack_view() == old(self).stack_view(),
                }
            }),
    {
        let ghost pre: Lua = *self;
        let t = self.table_id_at(0);
        proof {
            assert(pre.stack_view()[pre.depth() - 1] == pre.slot_from_top(0));
            assert(val_ok_in(
                pre.slot_from_top(0),
                pre.tables_view().len() as int,
                pre.chunks_view().len() as int,
            ));
            assert(self.tables@[t as int]@ == pre.tables_view()[t as int]);
            assert(table_ok_in(
                pre.tables_view()[t as int],
                pre.tables_view().len() as int,
                pre.chunks_view().len() as int,
            ));
        }
        let m = self.tables[t].meta;
        match m {
            Some(mi) => {
                self.stack.push(LuaValue::Table(mi));
                proof {
                    assert(self.stack_view() =~= pre.stack_view().push(
                        ValView::Table(mi as int),
                    ));
                    assert(self.tables_view() =~= pre.tables_view());
                    assert(self.chunks_view() =~= pre.chunks_view());
                }
                true
            },
            None => {
                proof {
                    assert(self.stack_view() =~= pre.stack_view());
                    assert(self.tables_view() =~= pre.tables_view());
                    assert(self.chunks_view() =~= pre.chunks_view());
                }
                false
            },
        }
    }

    /// The metatable-write primitive: consumes the table on top and
    /// attaches it as the metatable of the table one slot below.
    pub fn set_metatable(&mut self)
        requires
            old(self).wf(),
            old(self).depth() >= 2,
            old(self).slot_from_top(1) is Table,
            old(self).slot_from_top(0) is Table,
        ensures
            final(self).wf(),
            final(self).chunks_view() == old(self).chunks_view(),
            final(self).stack_view() == old(self).stack_view().take(old(self).depth() - 1),
            final(self).tables_view() == old(self).tables_view().update(
                old(self).slot_from_top(1)->Table_0,
                (TableView {
                    entries: old(self).tables_view()[old(self).slot_from_top(1)->Table_0].entries,
                    meta: Some(old(self).slot_from_top(0)->Table_0),
                }),
            ),
    {
        let ghost pre: Lua = *self;
        let m = self.table_id_at(0);
        let t = self.table_id_at(1);
        proof {
            assert(pre.stack_view()[pre.depth() - 1] == pre.slot_from_top(0));
            assert(pre.stack_view()[pre.depth() - 2] == pre.slot_from_top(1));
            assert(val_ok_in(
                pre.slot_from_top(0),
                pre.tables_view().len() as int,
                pre.chunks_view().len() as int,
            ));
            assert(val_ok_in(
                pre.slot_from_top(1),
                pre.tables_view().len() as int,
                pre.chunks_view().len() as int,
            ));
            assert(self.tables@[t as int]@ == pre.tables_view()[t as int]);
            assert(table_ok_in(
                pre.tables_view()[t as int],
                pre.tables_view().len() as int,
                pre.chunks_view().len() as int,
            ));
        }
        let _dropped = self.stack.pop();
        let td = &mut self.tables[t];
        td.set_meta(m);
        proof {
            assert(self.stack_view() =~= pre.stack_view().take(pre.depth() - 1));
            assert(self.chunks_view() =~= pre.chunks_view());
            assert(self.tables_view() =~= pre.tables_view().update(
                t as int,
                (TableView { entries: pre.tables_view()[t as int].entries, meta: Some(m as int) }),
            ));
        }
    }

    /// The table-creation primitive: allocates a fresh empty table and
    /// pushes a reference to it.
    pub fn new_table(&mut self)
        requires
            old(self).wf(),
        ensures
            final(self).wf(),
            final(self).chunks_view() == old(self).chunks_view(),
            final(self).tables_view() == old(self).tables_view().push(
                (TableView { entries: Seq::<(ValView, ValView)>::empty(), meta: None }),
            ),
            final(self).stack_view() == old(self).stack_view().push(
                ValView::Table(old(self).tables_view().len() as int),
            ),
    {
        let ghost pre: Lua = *self;
        let id = self.tables.len();
        self.tables.push(TableData::empty());
        self.stack.push(LuaValue::Table(id));
        proof {
            assert(self.chunks_view() =~= pre.chunks_view());
            assert(self.tables_view() =~= pre.tables_view().push(
                (TableView { entries: Seq::<(ValView, ValView)>::empty(), meta: None }),
            ));
            assert(self.stack_view() =~= pre.stack_view().push(
                ValView::Table(pre.tables_view().len() as int),
            ));
            let nt = pre.tables_view().len() as int;
            let nc = pre.chunks_view().len() as int;
            assert forall|i: int|
                0 <= i < self.tables_view().len() implies table_ok_in(
                #[trigger] self.tables_view()[i],
                nt + 1,
                nc,
            ) by {
                if i < nt {
                    assert(self.tables_view()[i] == pre.tables_view()[i]);
                    lemma_table_ok_grow(pre.tables_view()[i], nt, nc, nt + 1, nc);
                }
            }
        }
    }

    /// The protected-call primitive on a chunk: consumes the chunk
    /// reference on top and leaves either the value it returns
    /// (status `STATUS_OK`) or its diagnostic (status `LUA_ERRRUN`).
    /// Net stack depth change: zero. Allocation exhaustion never
    /// arises in the model, so `LUA_ERRMEM` is never reported.
    pub fn pcall_top(&mut self) -> (status: i32)
        requires
            old(self).wf(),
            old(self).depth() >= 1,
            old(self).slot_from_top(0) is Fun,
        ensures
            final(self).wf(),
            final(self).tables_view() == old(self).tables_view(),
            final(self).chunks_view() == old(self).chunks_view(),
            ({
                let c = old(self).chunks_view()[old(self).slot_from_top(0)->Fun_0];
                match c {
                    ChunkView::Returns(v) => status == STATUS_OK && final(self).stack_view()
                        == old(self).stack_view().update(old(self).depth() - 1, v),
                    ChunkView::Fails(m) => status == LUA_ERRRUN && final(self).stack_view()
                        == old(self).stack_view().update(old(self).depth() - 1, ValView::Str(m)),
                }
            }),
    {
        let ghost pre: Lua = *self;
        let c = self.fun_id_at(0);
        proof {
            assert(pre.stack_view()[pre.depth() - 1] == pre.slot_from_top(0));
            assert(val_ok_in(
                pre.slot_from_top(0),
                pre.tables_view().len() as int,
                pre.chunks_view().len() as int,
            ));
            assert(self.chunks@[c as int]@ == pre.chunks_view()[c as int]);
            assert(chunk_ok_in(
                pre.chunks_view()[c as int],
                pre.tables_view().len() as int,
                pre.chunks_view().len() as int,
            ));
        }
        let outcome = self.chunks[c].duplicate();
        let _dropped = self.stack.pop();
        match outcome {
            ChunkOutcome::Returns(v) => {
                self.stack.push(v);
                proof {
                    assert(self.stack_view() =~= pre.stack_view().update(
                        pre.depth() - 1,
                        pre.chunks_view()[c as int]->Returns_0,
                    ));
                    assert(self.tables_view() =~= pre.tables_view());
                    assert(self.chunks_view() =~= pre.chunks_view());
                }
                STATUS_OK
            },
            ChunkOutcome::Fails(m) => {
                self.stack.push(LuaValue::Str(m));
                proof {
                    assert(self.stack_view() =~= pre.stack_view().update(
                        pre.depth() - 1,
                        ValView::Str(pre.chunks_view()[c as int]->Fails_0),
                    ));
                    assert(self.tables_view() =~= pre.tables_view());
                    assert(self.chunks_view() =~= pre.chunks_view());
                }
                LUA_ERRRUN
            },
        }
    }

    /// The chunk-load primitive on an already collected byte sequence:
    /// on success pushes a reference to the newly loaded chunk (status
    /// `STATUS_OK`), otherwise pushes the compile-time diagnostic
    /// (status `LUA_ERRSYNTAX`). Allocation exhaustion never arises in
    /// the model, so `LUA_ERRMEM` is never reported.
    pub fn load_chunk(&mut self, bytes: &Vec<u8>) -> (status: i32)
        requires
            old(self).wf(),
        ensures
            final(self).wf(),
            final(self).tables_view() == old(self).tables_view(),
            ({
                match compile_spec(bytes@) {
                    Some(cv) => status == STATUS_OK && final(self).chunks_view() == old(
                        self,
                    ).chunks_view().push(cv) && final(self).stack_view() == old(
                        self,
                    ).stack_view().push(ValView::Fun(old(self).chunks_view().len() as int)),
                    None => status == LUA_ERRSYNTAX && final(self).chunks_view() == old(
                        self,
                    ).chunks_view() && final(self).stack_view() == old(self).stack_view().push(
                        ValView::Str(syntax_msg()),
                    ),
                }
            }),
    {
        let ghost pre: Lua = *self;
        let compiled = compile(bytes);
        match compiled {
            Some(c) => {
                let id = self.chunks.len();
                self.chunks.push(c);
                self.stack.push(LuaValue::Fun(id));
                proof {
                    let nt = pre.tables_view().len() as int;
                    let nc = pre.chunks_view().len() as int;
                    assert(self.tables_view() =~= pre.tables_view());
                    assert(self.chunks_view() =~= pre.chunks_view().push(
                        compile_spec(bytes@)->Some_0,
                    ));
                    assert(self.stack_view() =~= pre.stack_view().push(ValView::Fun(nc)));
                    assert forall|i: int|
                        0 <= i < self.tables_view().len() implies table_ok_in(
                        #[trigger] self.tables_view()[i],
                        nt,
                        nc + 1,
                    ) by {
                        lemma_table_ok_grow(pre.tables_view()[i], nt, nc, nt, nc + 1);
                    }
                    assert(chunk_ok_in(compile_spec(bytes@)->Some_0, nt, nc + 1));
                }
                STATUS_OK
            },
            None => {
                let msg = syntax_message();
                self.stack.push(LuaValue::Str(msg));
                proof {
                    assert(self.tables_view() =~= pre.tables_view());
                    assert(self.chunks_view() =~= pre.chunks_view());
                    assert(self.stack_view() =~= pre.stack_view().push(
                        ValView::Str(syntax_msg()),
                    ));
                }
                LUA_ERRSYNTAX
            },
        }
    }
}

/// An ownership guard for a contiguous range of slots the current
/// scope pushed onto the shared stack: its `size` top-most slots.
/// Releasing it pops exactly `size` slots, once.
#[derive(Clone, Copy, Debug, PartialEq, Eq, Structural)]
pub struct LoadedVariable {
    pub size: usize,
}

impl LoadedVariable {
    /// Releases the region: pops exactly the slots it owns, restoring
    /// the depth the surrounding scope saw before the region existed.
    pub fn pop_and_release(self, lua: &mut Lua)
        requires
            old(lua).wf(),
            self.size as nat <= old(lua).depth(),
        ensures
            final(lua).wf(),
            final(lua).stack_view() == old(lua).stack_view().take(
                old(lua).depth() - self.size as nat,
            ),
            final(lua).tables_view() == old(lua).tables_view(),
            final(lua).chunks_view() == old(lua).chunks_view(),
    {
        lua.pop_n(self.size);
    }
}

/// The balance invariant behind every scoped region: whatever slots a
/// scope pushes atop the stack, releasing them — truncating back to
/// the old length — restores the stack word for word, so the depth
/// after a fully unwound call equals the depth before it.
pub proof fn lemma_region_balance(s: Seq<ValView>, pushed: Seq<ValView>)
    ensures
        (s + pushed).take(s.len() as int) == s,
{
    assert((s + pushed).take(s.len() as int) =~= s);
}

/// Binding a sound key and value in a sound table leaves the table
/// sound.
pub proof fn lemma_tbl_set_ok(e: Seq<(ValView, ValView)>, k: ValView, v: ValView, nt: int, nc: int)
    requires
        keys_unique(e),
        forall|j: int|
            0 <= j < e.len() ==> is_scalar((#[trigger] e[j]).0) && val_ok_in(e[j].1, nt, nc) && !(
            e[j].1 is Nil),
        is_scalar(k),
        val_ok_in(v, nt, nc),
        !(v is Nil),
    ensures
        keys_unique(tbl_set(e, k, v)),
        forall|j: int|
            0 <= j < tbl_set(e, k, v).len() ==> is_scalar((#[trigger] tbl_set(e, k, v)[j]).0)
                && val_ok_in(tbl_set(e, k, v)[j].1, nt, nc) && !(tbl_set(e, k, v)[j].1 is Nil),
        tbl_lookup(tbl_set(e, k, v), k) == Some(v),
        forall|k2: ValView| k2 != k ==> #[trigger] tbl_lookup(tbl_set(e, k, v), k2) == tbl_lookup(
            e,
            k2,
        ),
{
    lemma_tbl_set(e, k, v);
    lemma_find_key_spec(e, k);
    let s = tbl_set(e, k, v);
    assert forall|j: int|
        0 <= j < s.len() implies is_scalar((#[trigger] s[j]).0) && val_ok_in(s[j].1, nt, nc) && !(
    s[j].1 is Nil) by {
        if tbl_has_key(e, k) {
            if j != find_key(e, k) {
                assert(s[j] == e[j]);
            } else {
                assert(s[j] == (k, v));
            }
        } else {
            if j < e.len() {
                assert(s[j] == e[j]);
            } else {
                assert(s[j] == (k, v));
            }
        }
    }
}

} // verus!
