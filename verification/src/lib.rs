//! A small native-code compiler: it lowers an arithmetic statement language
//! into a linear intermediate representation and emits textual x86-64
//! assembly, handling register allocation, stack spilling and the stack
//! alignment demanded by the foreign-call ABI.

pub mod text;
pub mod lexer;
pub mod ast;
pub mod frontend;
pub mod codegen;
pub mod regalloc;
pub mod x86_64;
pub mod backend;
