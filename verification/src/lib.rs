pub mod commons;
pub mod make_parsable;
pub mod parsing_cocci;
pub mod parsing_rs;
pub mod engine;

pub mod interface;
