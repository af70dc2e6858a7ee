use hl_lua::ByteSource;
use hl_lua::Lua;
use hl_lua::LuaError;
use hl_lua::LuaFunction;
use hl_lua::StreamError;

#[test]
fn load_and_call_number_chunk() {
    let mut lua = Lua::new();
    let mut f = LuaFunction::load(&mut lua, b"N5".to_vec()).unwrap();
    let r: Result<i64, LuaError> = f.call(&mut lua);
    assert_eq!(r.unwrap(), 5);
    f.pop_and_release(&mut lua);
    assert_eq!(lua.stack_size(), 0);
}

#[test]
fn load_and_call_negative_number_chunk() {
    let mut lua = Lua::new();
    let mut f = LuaFunction::load(&mut lua, b"N-12345".to_vec()).unwrap();
    let r: Result<i64, LuaError> = f.call(&mut lua);
    assert_eq!(r.unwrap(), -12345);
    f.pop_and_release(&mut lua);
    assert_eq!(lua.stack_size(), 0);
}

#[test]
fn load_and_call_large_number_chunk() {
    let mut lua = Lua::new();
    let mut f = LuaFunction::load(&mut lua, b"N999999999999999999".to_vec()).unwrap();
    let r: Result<i64, LuaError> = f.call(&mut lua);
    assert_eq!(r.unwrap(), 999_999_999_999_999_999);
    f.pop_and_release(&mut lua);
    assert_eq!(lua.stack_size(), 0);
}

#[test]
fn load_and_call_boolean_chunks() {
    let mut lua = Lua::new();
    let mut f = LuaFunction::load(&mut lua, b"B1".to_vec()).unwrap();
    let r: Result<bool, LuaError> = f.call(&mut lua);
    assert_eq!(r.unwrap(), true);
    f.pop_and_release(&mut lua);
    let mut g = LuaFunction::load(&mut lua, b"B0".to_vec()).unwrap();
    let r: Result<bool, LuaError> = g.call(&mut lua);
    assert_eq!(r.unwrap(), false);
    g.pop_and_release(&mut lua);
    assert_eq!(lua.stack_size(), 0);
}

#[test]
fn load_and_call_string_chunk() {
    let mut lua = Lua::new();
    let mut f = LuaFunction::load(&mut lua, b"Shello".to_vec()).unwrap();
    let r: Result<Vec<u8>, LuaError> = f.call(&mut lua);
    assert_eq!(r.unwrap(), b"hello".to_vec());
    f.pop_and_release(&mut lua);
    assert_eq!(lua.stack_size(), 0);
}

#[test]
fn syntax_error_carries_diagnostic_and_balances_stack() {
    let mut lua = Lua::new();
    let r = LuaFunction::load(&mut lua, b"Zreturn 2+".to_vec());
    match r {
        Err(LuaError::SyntaxError(msg)) => assert!(!msg.is_empty()),
        _ => panic!("expected a syntax failure"),
    }
    assert_eq!(lua.stack_size(), 0);
}

#[test]
fn empty_chunk_is_a_syntax_error() {
    let mut lua = Lua::new();
    let r = LuaFunction::load(&mut lua, Vec::new());
    assert!(matches!(r, Err(LuaError::SyntaxError(_))));
    assert_eq!(lua.stack_size(), 0);
}

#[test]
fn malformed_number_chunks_are_syntax_errors() {
    let mut lua = Lua::new();
    for code in [&b"N"[..], &b"N12x"[..], &b"N-"[..], &b"N1234567890123456789"[..]] {
        let r = LuaFunction::load(&mut lua, code.to_vec());
        assert!(matches!(r, Err(LuaError::SyntaxError(_))));
        assert_eq!(lua.stack_size(), 0);
    }
}

#[test]
fn failing_source_yields_read_error_not_syntax_error() {
    let mut lua = Lua::new();
    // The first two bytes alone would also be a syntactically valid
    // chunk, and the truncation point makes the prefix invalid either
    // way; the stream failure must win over any compile diagnostic.
    let data = b"N12345".to_vec();
    let source = ByteSource::failing_at(data, 4, StreamError::new(77));
    let r = LuaFunction::load_from_reader(&mut lua, source);
    match r {
        Err(LuaError::ReadError(e)) => assert_eq!(e.code, 77),
        _ => panic!("expected a read failure"),
    }
    assert_eq!(lua.stack_size(), 0);
}

#[test]
fn source_failing_before_any_byte_yields_read_error() {
    let mut lua = Lua::new();
    let source = ByteSource::failing_at(b"N5".to_vec(), 0, StreamError::new(3));
    let r = LuaFunction::load_from_reader(&mut lua, source);
    match r {
        Err(LuaError::ReadError(e)) => assert_eq!(e.code, 3),
        _ => panic!("expected a read failure"),
    }
    assert_eq!(lua.stack_size(), 0);
}

#[test]
fn long_chunk_streams_through_many_pulls() {
    let mut lua = Lua::new();
    let mut code = b"S".to_vec();
    let mut payload = Vec::new();
    for i in 0..300u32 {
        payload.push((i % 251) as u8);
    }
    code.extend_from_slice(&payload);
    let source = ByteSource::from_bytes(code);
    let mut f = LuaFunction::load_from_reader(&mut lua, source).unwrap();
    let r: Result<Vec<u8>, LuaError> = f.call(&mut lua);
    assert_eq!(r.unwrap(), payload);
    f.pop_and_release(&mut lua);
    assert_eq!(lua.stack_size(), 0);
}

#[test]
fn runtime_failure_yields_execution_error_and_balances_stack() {
    let mut lua = Lua::new();
    let mut f = LuaFunction::load(&mut lua, b"Eboom".to_vec()).unwrap();
    assert_eq!(lua.stack_size(), 1);
    let r: Result<i64, LuaError> = f.call(&mut lua);
    match r {
        Err(LuaError::ExecutionError(msg)) => assert_eq!(msg, b"boom".to_vec()),
        _ => panic!("expected a runtime failure"),
    }
    // The machine consumed the callable's slot during the failed
    // call, so the region owns nothing and release pops nothing.
    f.pop_and_release(&mut lua);
    assert_eq!(lua.stack_size(), 0);
}

#[test]
fn wrong_result_shape_yields_wrong_type() {
    let mut lua = Lua::new();
    let mut f = LuaFunction::load(&mut lua, b"Sfive".to_vec()).unwrap();
    let r: Result<i64, LuaError> = f.call(&mut lua);
    assert!(matches!(r, Err(LuaError::WrongType)));
    // The result slot still belongs to the region.
    f.pop_and_release(&mut lua);
    assert_eq!(lua.stack_size(), 0);
}

#[test]
fn host_functions_compute() {
    assert_eq!(hl_lua::host_functions::function1(2, 3), 5);
    assert_eq!(hl_lua::host_functions::function2(7), 12);
}
