//! A bytecode compiler and stack virtual machine for the Lox scripting
//! language: a Pratt parser that emits bytecode directly into chunks, a heap
//! of interned strings with classes, closures and upvalues, a mark-sweep
//! garbage collector, and a dispatch loop that interprets the chunks.
pub mod chunk;
pub mod compiler;
pub mod error;
pub mod frame;
pub mod heap;
pub mod memory;
pub mod scanner;
pub mod token;
pub mod value;
pub mod vm;
