mod text;
pub mod state;
pub mod tokens;
pub mod literal;
pub mod lexer;
pub mod structure;
pub mod balancer;
pub mod laws;

pub use balancer::{CharError, Error, JSONBalancer};
pub mod document;
