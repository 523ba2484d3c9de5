//! A bytecode compiler and stack virtual machine for a small dynamically
//! typed expression language. An already-parsed program (`ast`) is lowered
//! into a flat instruction stream plus a constant pool (`compiler`, `code`),
//! which a stack machine then executes (`vm`). Identifiers live in a single
//! global namespace (`symbol_table`); runtime values are modelled in
//! `object`.

pub mod ast;
pub mod code;
pub mod compiler;
pub mod laws;
pub mod object;
pub mod symbol_table;
pub mod vm;
