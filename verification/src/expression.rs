pub mod compile;
pub mod groups;
pub mod link;
pub mod manager;
pub mod output;
pub mod parse;
pub mod primitive;
pub mod reduce;
pub mod run;
pub mod runner;
pub mod specs;
pub mod stack;
pub mod tag;
