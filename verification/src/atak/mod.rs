pub mod bridge;
pub mod control;
pub mod cot;
pub mod diagnostics;
pub mod interface;
