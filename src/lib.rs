//! A register-free, stack-based bytecode virtual machine: value model,
//! bounded stacks, region heap, global repository, bytecode loader and the
//! instruction dispatcher.
pub mod argsdef;
pub mod bytesize;
pub mod dispatch;
pub mod errdef;
pub mod immediates;
pub mod instructions;
pub mod loader;
pub mod text;
pub mod stack;
pub mod return_stack;
pub mod heap;
pub mod repository;
pub mod vm;
pub mod vm_threads;
