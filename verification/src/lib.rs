//! RC++ transpiler core: the line-oriented front end that splits an `.rcx`
//! source file into imports, external modules, an interface block and the
//! rest of the code, and the code generator that turns those parts into a
//! C++ header and source file, with module naming and hashing.
pub mod text;
pub mod parser;
pub mod error;
pub mod strmap;
pub mod codegen;
pub mod rewrite;
pub mod cli;
pub mod rpc;

