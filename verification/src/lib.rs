pub mod arith;
pub mod constants;
pub mod liquidation;
pub mod storage;
pub mod oracle;
pub mod model;
pub mod pool;
pub mod laws;
