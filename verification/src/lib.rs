pub mod diag;
pub mod types;
pub mod text;
pub mod env;
pub mod token;
pub mod lexer;
pub mod ast;
pub mod grammar;
pub mod parser;
pub mod suggest;
pub mod ir;
pub mod check;
pub mod lower;
pub mod eval;
pub mod state;
pub mod specialise;
pub mod emit;
pub mod analysis;
pub mod unit;
pub mod typing;
pub mod said;
pub mod phase;
pub mod totality;
pub mod names;
pub mod stretch;
