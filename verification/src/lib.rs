use vstd::prelude::*;

pub mod text;
pub mod decimal;
pub mod pool;
pub mod worker;
pub mod reader;
pub mod launch;
