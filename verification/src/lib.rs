//! Resolves named functions inside a compiled native binary to runtime
//! addresses through its debug symbol database, reconstructs source-level
//! type signatures from compiler-mangled names, and drives the protocol that
//! installs a function-entry interception at the resolved address.

pub mod convention;
pub mod database;
pub mod demangle;
pub mod hook;
pub mod signature;
pub mod text;
