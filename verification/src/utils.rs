pub mod chars;
pub mod strings;
pub mod tree;
pub mod debug;
