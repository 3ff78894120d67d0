//! Thunder: a small blockchain core — hashing and Merkle trees, transactions
//! and blocks, a stack-based virtual machine with gas metering, the
//! ThunderScript language (lexer, parser, compiler), and the DAG-based
//! proof-of-stake consensus engine.

pub mod crypto;
pub mod merkle;
pub mod transaction;
pub mod block;
pub mod opcode;
pub mod gas;
pub mod keymap;
pub mod vm;
pub mod lexer;
pub mod ast;
pub mod text;
pub mod names;
pub mod grammar;
pub mod parser;
pub mod codegen;
pub mod expr_eval;
pub mod compiler;
pub mod consensus_types;
pub mod pos;
pub mod dag;
pub mod abft;
pub mod state;
pub mod peer;
pub mod node;
pub mod protocol;
pub mod query;
pub mod rpc;

pub use compiler::CompiledContract;
