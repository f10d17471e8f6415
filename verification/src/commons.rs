pub mod info;
pub mod pattern;
pub mod syntax;
pub mod util;
pub mod syntax_kind;
pub mod text;
