pub mod balance;
pub mod chunk;
pub mod compiler;
pub mod debug;
pub mod hashtable;
pub mod heap;
pub mod laws;
pub mod locals;
pub mod programs;
pub mod report;
pub mod scanner;
pub mod semantics;
pub mod stack;
pub mod value;
pub mod vm;
