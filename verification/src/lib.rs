pub mod environment;
pub mod errors;
pub mod expr;
pub mod interpreter;
pub mod parser;
pub mod resolver;
pub mod scanner;
pub mod scope;
pub mod stmt;
pub mod text;
pub mod token;
pub mod tools;
pub mod value;

pub use errors::{Error, Result};
pub use interpreter::Interpreter;
pub use parser::Parser;
pub use resolver::Resolver;
pub use scanner::Scanner;
pub use token::{Token, TokenType};
