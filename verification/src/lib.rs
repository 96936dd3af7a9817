pub mod context;
pub mod display;
pub mod laws;
pub mod model;
pub mod parse;
pub mod raw_expr;
