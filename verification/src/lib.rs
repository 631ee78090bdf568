pub mod parser;
pub mod text;
pub mod window;
