pub mod cocci_vs_rs;
pub mod disjunctions;
pub mod transformation;
