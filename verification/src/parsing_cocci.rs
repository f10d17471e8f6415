pub mod ast0;
pub mod visitor_ast0;
pub mod parse_cocci;
pub mod get_constants;
pub mod cocci_grep;
pub mod cleanup_rules;
pub mod free_vars;
pub mod test_exps;
pub mod logical_lines;
