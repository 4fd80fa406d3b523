pub mod bst;
pub mod bst_iter;
pub mod game;
pub mod hanoi;
pub mod json;
pub mod list;
pub mod msg;
pub mod parser;
pub mod primes;
pub mod rpn;
pub mod slices;
pub mod text;
