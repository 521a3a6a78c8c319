//! SQL/JSON path: parsing and evaluation of path expressions over JSON values.

pub mod ast;
pub mod compare;
pub mod datetime;
pub mod dtparse;
pub mod error;
pub mod chains;
pub mod first;
pub mod eval;
pub mod grammar;
pub mod item;
pub mod item_laws;
pub mod json;
pub mod laws;
pub mod number;
pub mod parser;
pub mod printer;
pub mod quoting;
pub mod sem;
pub mod like_regex;
pub mod methods;
pub mod strings;
pub mod text;
pub mod truth;

pub use ast::JsonPath;
pub use error::EvalError;
pub use parser::ParseError;
pub use truth::Truth;
