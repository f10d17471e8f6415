pub mod ast_rs;
pub mod parse_rs;
pub mod visitor_ast;
pub mod format;
