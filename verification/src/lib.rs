//! A verified core for a MyBatis-style dynamic SQL runtime: tagged SQL AST
//! nodes rendered against a parameter environment, a small expression
//! language for `test=` guards and placeholders, a mapper registry, a
//! dialect-aware parameter binder, and a transaction manager.
pub mod dialect;
pub mod expr;
pub mod laws;
pub mod node;
pub mod parse;
pub mod rbatis;
pub mod registry;
pub mod render;
pub mod text;
pub mod tx;
pub mod value;
