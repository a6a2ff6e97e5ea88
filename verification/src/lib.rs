//! Verified core of a scripting-language playground: a committed program
//! input with session persistence, an execution coordinator that normalizes
//! the interpreter's outcome, and pure renderers that turn the token stream
//! and the parsed syntax tree into display structures.

pub mod coordinator;
pub mod ids;
pub mod input;
pub mod persist;
pub mod node;
pub mod strutil;
pub mod tokens;
pub mod tree;

pub use node::SyntaxNode;
