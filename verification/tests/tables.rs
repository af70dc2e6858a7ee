use hl_lua::Lua;
use hl_lua::LuaTable;

#[test]
fn set_then_get_round_trip() {
    let mut lua = Lua::new();
    lua.create_global_table(b"t".to_vec());
    let mut t: LuaTable = lua.load(b"t".to_vec()).unwrap();
    t.set(&mut lua, b"a".to_vec(), 17i64);
    let got: Option<i64> = t.get(&mut lua, b"a".to_vec());
    assert_eq!(got, Some(17));
    t.pop_and_release(&mut lua);
    assert_eq!(lua.stack_size(), 0);
}

#[test]
fn round_trip_over_the_value_domain() {
    let mut lua = Lua::new();
    lua.create_global_table(b"t".to_vec());
    let mut t: LuaTable = lua.load(b"t".to_vec()).unwrap();
    t.set(&mut lua, 1i64, b"one".to_vec());
    t.set(&mut lua, b"flag".to_vec(), true);
    t.set(&mut lua, false, 0i64);
    let s: Option<Vec<u8>> = t.get(&mut lua, 1i64);
    assert_eq!(s, Some(b"one".to_vec()));
    let b: Option<bool> = t.get(&mut lua, b"flag".to_vec());
    assert_eq!(b, Some(true));
    let z: Option<i64> = t.get(&mut lua, false);
    assert_eq!(z, Some(0));
    t.pop_and_release(&mut lua);
    assert_eq!(lua.stack_size(), 0);
}

#[test]
fn overwriting_a_key_keeps_one_binding() {
    let mut lua = Lua::new();
    lua.create_global_table(b"t".to_vec());
    let mut t: LuaTable = lua.load(b"t".to_vec()).unwrap();
    t.set(&mut lua, b"k".to_vec(), 1i64);
    t.set(&mut lua, b"k".to_vec(), 2i64);
    let got: Option<i64> = t.get(&mut lua, b"k".to_vec());
    assert_eq!(got, Some(2));
    let mut it = t.iter(&mut lua);
    let mut count = 0;
    while let Some(_) = it.next::<Vec<u8>, i64>(&mut lua) {
        count += 1;
    }
    assert_eq!(count, 1);
    t.pop_and_release(&mut lua);
    assert_eq!(lua.stack_size(), 0);
}

#[test]
fn absent_key_reads_as_no_value() {
    let mut lua = Lua::new();
    lua.create_global_table(b"t".to_vec());
    let mut t: LuaTable = lua.load(b"t".to_vec()).unwrap();
    let before = lua.stack_size();
    let got: Option<i64> = t.get(&mut lua, b"missing".to_vec());
    assert_eq!(got, None);
    assert_eq!(lua.stack_size(), before);
    t.pop_and_release(&mut lua);
    assert_eq!(lua.stack_size(), 0);
}

#[test]
fn mismatched_value_shape_reads_as_no_value() {
    let mut lua = Lua::new();
    lua.create_global_table(b"t".to_vec());
    let mut t: LuaTable = lua.load(b"t".to_vec()).unwrap();
    t.set(&mut lua, b"a".to_vec(), 5i64);
    let got: Option<bool> = t.get(&mut lua, b"a".to_vec());
    assert_eq!(got, None);
    t.pop_and_release(&mut lua);
    assert_eq!(lua.stack_size(), 0);
}

#[test]
fn iteration_produces_each_entry_once() {
    let mut lua = Lua::new();
    lua.create_global_table(b"t".to_vec());
    let mut t: LuaTable = lua.load(b"t".to_vec()).unwrap();
    t.set(&mut lua, b"a".to_vec(), 1i64);
    t.set(&mut lua, b"b".to_vec(), 2i64);
    let mut it = t.iter(&mut lua);
    let mut seen = Vec::new();
    while let Some(entry) = it.next::<Vec<u8>, i64>(&mut lua) {
        let (k, v) = entry.expect("every entry lies in the readable domain");
        seen.push((k, v));
    }
    assert_eq!(seen.len(), 2);
    assert!(seen.contains(&(b"a".to_vec(), 1i64)));
    assert!(seen.contains(&(b"b".to_vec(), 2i64)));
    // The primitive removed the key slot when it reported the end.
    assert_eq!(lua.stack_size(), 1);
    t.pop_and_release(&mut lua);
    assert_eq!(lua.stack_size(), 0);
}

#[test]
fn abandoning_an_iterator_restores_the_stack() {
    let mut lua = Lua::new();
    lua.create_global_table(b"t".to_vec());
    let mut t: LuaTable = lua.load(b"t".to_vec()).unwrap();
    t.set(&mut lua, b"a".to_vec(), 1i64);
    t.set(&mut lua, b"b".to_vec(), 2i64);
    let mut it = t.iter(&mut lua);
    let first = it.next::<Vec<u8>, i64>(&mut lua);
    assert!(first.is_some());
    // Abandon after one step: the dangling key slot must be popped.
    assert_eq!(lua.stack_size(), 2);
    it.drop(&mut lua);
    assert_eq!(lua.stack_size(), 1);
    t.pop_and_release(&mut lua);
    assert_eq!(lua.stack_size(), 0);
}

#[test]
fn metatable_is_created_once_and_found_again() {
    let mut lua = Lua::new();
    lua.create_global_table(b"t".to_vec());
    let t: LuaTable = lua.load(b"t".to_vec()).unwrap();
    let tables_before = lua.table_count();
    let mut meta = t.get_or_create_metatable(&mut lua);
    // Creating the metatable allocated exactly one fresh table.
    assert_eq!(lua.table_count(), tables_before + 1);
    meta.set(&mut lua, b"marker".to_vec(), 42i64);
    // The handle owns both the table and its metatable.
    meta.pop_and_release(&mut lua);
    assert_eq!(lua.stack_size(), 0);
    let t2: LuaTable = lua.load(b"t".to_vec()).unwrap();
    let mut meta2 = t2.get_or_create_metatable(&mut lua);
    // The second pass finds the same metatable: nothing new is
    // allocated, and the marker written through the first handle is
    // still there.
    assert_eq!(lua.table_count(), tables_before + 1);
    let marker: Option<i64> = meta2.get(&mut lua, b"marker".to_vec());
    assert_eq!(marker, Some(42));
    meta2.pop_and_release(&mut lua);
    assert_eq!(lua.stack_size(), 0);
}

#[test]
fn load_table_rejects_a_scalar() {
    let mut lua = Lua::new();
    lua.create_global_table(b"t".to_vec());
    let mut t: LuaTable = lua.load(b"t".to_vec()).unwrap();
    t.set(&mut lua, b"n".to_vec(), 9i64);
    let before = lua.stack_size();
    let nested = t.load_table(&mut lua, b"n".to_vec());
    // The looked-up value was not a table; the owned region was
    // released, so nothing leaked.
    assert!(nested.is_none());
    assert_eq!(lua.stack_size(), before);
    t.pop_and_release(&mut lua);
    assert_eq!(lua.stack_size(), 0);
}

#[test]
fn global_scalars_round_trip() {
    let mut lua = Lua::new();
    lua.set(b"answer".to_vec(), 41i64);
    lua.set(b"answer".to_vec(), 42i64);
    let got: Option<i64> = lua.get(b"answer".to_vec());
    assert_eq!(got, Some(42));
    let missing: Option<i64> = lua.get(b"other".to_vec());
    assert_eq!(missing, None);
    assert_eq!(lua.stack_size(), 0);
}

#[test]
fn iterating_an_empty_table_terminates_immediately() {
    let mut lua = Lua::new();
    lua.create_global_table(b"t".to_vec());
    let mut t: LuaTable = lua.load(b"t".to_vec()).unwrap();
    let mut it = t.iter(&mut lua);
    assert_eq!(lua.stack_size(), 2);
    let step = it.next::<Vec<u8>, i64>(&mut lua);
    assert!(step.is_none());
    // The primitive removed the sentinel key slot.
    assert_eq!(lua.stack_size(), 1);
    t.pop_and_release(&mut lua);
    assert_eq!(lua.stack_size(), 0);
}

#[test]
fn nested_regions_release_in_reverse_order() {
    let mut lua = Lua::new();
    lua.create_global_table(b"outer".to_vec());
    lua.create_global_table(b"inner".to_vec());
    let outer: LuaTable = lua.load(b"outer".to_vec()).unwrap();
    let inner: LuaTable = lua.load(b"inner".to_vec()).unwrap();
    assert_eq!(lua.stack_size(), 2);
    inner.pop_and_release(&mut lua);
    assert_eq!(lua.stack_size(), 1);
    outer.pop_and_release(&mut lua);
    assert_eq!(lua.stack_size(), 0);
}

#[test]
fn global_load_rejects_a_scalar() {
    let mut lua = Lua::new();
    lua.set(b"n".to_vec(), 1i64);
    let t: Option<LuaTable> = lua.load(b"n".to_vec());
    // The looked-up slot was not a table; the region came back and
    // was released, leaving the stack balanced.
    assert!(t.is_none());
    assert_eq!(lua.stack_size(), 0);
}
