pub mod ast;
pub mod compile;
pub mod config;
pub mod engine;
pub mod error;
pub mod expression;
pub mod statement;
pub mod syntax;
pub mod template;
pub mod value;
pub mod utils;
