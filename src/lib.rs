//! A small S-expression interface definition language for RPC: its tokenizer and
//! parser, the self-describing data values carried on the wire, and the lowering of
//! declarations into struct descriptions for code generation.
pub mod text;
pub mod expr;
pub mod parser;
pub mod data;
pub mod generator;
pub mod def_msg;
pub mod def_rpc;
pub mod def_package;
pub mod spec_file;
pub mod rpc_libs;
pub mod round_trip;
