//! Marshaling core of a host binding to an embedded, stack-based scripting
//! machine.
//!
//! The library models the host-visible slice of the machine's state — the
//! shared evaluation stack, the table heap and the loaded chunks — and
//! verifies the marshaling discipline built on it: scoped stack regions
//! that are popped exactly once in LIFO order, value marshaling through
//! push / copy-read / consume-read capabilities, chunk loading through a
//! streaming reader bridge, protected calls, and structured table access
//! with a restartable iterator.

pub mod chunk;
pub mod errors;
pub mod functions_read;
pub mod globals;
pub mod host_functions;
pub mod lua_tables;
pub mod marshal;
pub mod state;
pub mod stream;
pub mod values;

pub use errors::LuaError;
pub use errors::StreamError;
pub use functions_read::LuaFunction;
pub use lua_tables::LuaTable;
pub use lua_tables::LuaTableIterator;
pub use state::LoadedVariable;
pub use state::Lua;
pub use stream::ByteSource;
pub use values::LuaValue;
pub use values::ValView;
