pub mod alphanum;
pub mod char;
pub mod keyword;
pub mod mark;
pub mod text;
pub mod infra;
pub mod name;
pub mod types;
pub mod preprocess;
pub mod expr;
pub mod define;
pub mod ast;
