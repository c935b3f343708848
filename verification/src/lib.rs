pub mod demos;
pub mod fixed;
pub mod heap;
pub mod mmio;
pub mod printer;
