pub mod ast;
pub mod flat;
pub mod rt;
pub mod span;
pub mod telda;
pub mod ttype;
