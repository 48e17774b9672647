//! A small interpreted-language engine: S-expression values held in an
//! append-only object store, a symbol interner, chained mutable environments,
//! an eval/apply evaluator with built-in primitives, and two front-end
//! readers (a canonical one and a sugared one) that feed one canonical tree
//! form.

pub mod obj;
pub mod eval;
pub mod read;
pub mod sugar;
pub mod render;
pub mod session;

pub use obj::{Engine, Object, Op, Prim};
pub use eval::Error as EvalError;
pub use read::Error as ParseError;
pub use read::{BaseReader, Reader};
pub use sugar::SugarReader;
pub use session::Session;
