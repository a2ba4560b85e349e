pub mod parser;
pub mod scanner;
pub mod text;
pub mod token;
