//! An Immix-style block heap over a simulated address space, with the object
//! headers, tagged pointers and scope-bound pointers that a small Lisp
//! runtime builds on it.

pub mod constants;
pub mod blockalloc;
pub mod allocator;
pub mod blockmeta;
pub mod bumpblock;
pub mod rawptr;
pub mod heap;
pub mod layout;
pub mod headers;
pub mod pointerops;
pub mod error;
pub mod strings;
pub mod lexer;
pub mod report;
pub mod taggedptr;
pub mod safeptr;
pub mod symbol;
pub mod pair;
pub mod rawarray;
pub mod containers;
pub mod array;
pub mod list;
pub mod text;
pub mod number;
pub mod dict;
pub mod bytecode;
pub mod function;
pub mod vm;
pub mod arena;
pub mod symbolmap;
pub mod memory;
pub mod sexpr;
pub mod printer;
pub mod parser;
