pub mod term;
