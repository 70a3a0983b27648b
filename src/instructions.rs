//! Opcodes of the instruction set.
use vstd::prelude::*;

verus! {

/// Halts the unit.
pub const HALT: u8 = 0x00;
/// Adds two integers from the stack.
pub const I_ADD: u8 = 0x01;
/// Subtracts two integers from the stack.
pub const I_SUB: u8 = 0x02;
/// Multiplies two integers from the stack.
pub const I_MUL: u8 = 0x03;
/// Divides two integers from the stack: an integer when exact, else a float.
pub const I_DVD: u8 = 0x04;
/// Divides two integers from the stack, truncating.
pub const F_I_DVD: u8 = 0x05;
/// Adds two floats from the stack.
pub const F_ADD: u8 = 0x06;
/// Subtracts two floats from the stack.
pub const F_SUB: u8 = 0x07;
/// Multiplies two floats from the stack.
pub const F_MUL: u8 = 0x08;
/// Divides two floats from the stack.
pub const F_DVD: u8 = 0x09;
/// Puts the operand on the stack.
pub const PDTS: u8 = 0x0A;
/// Pops the stack into the operand register.
pub const PDFS: u8 = 0x0B;
/// Jumps to the address in the operand.
pub const JMPFD: u8 = 0x0C;
/// Jumps to the address popped from the stack.
pub const JMPFS: u8 = 0x0D;
/// Pops and prints.
pub const PRTFS: u8 = 0x0E;
/// Prints the operand.
pub const PRTFD: u8 = 0x0F;
/// Integer exponentiation.
pub const I_EXP: u8 = 0x10;
/// Float exponentiation.
pub const F_EXP: u8 = 0x11;
/// Float to an integer power.
pub const F_I_EXP: u8 = 0x12;
/// Adds a variable pointer to the repository.
pub const AVP: u8 = 0x15;
/// Prints the pointer of the variable named by the operand.
pub const D_VFD: u8 = 0x16;
/// Prints the pointer of the variable named by the stack.
pub const D_VFS: u8 = 0x17;
/// Opens a window.
pub const NTW: u8 = 0x18;
/// Creates a new task.
pub const NTASK: u8 = 0x19;
/// Creates a new thread.
pub const NTHRD: u8 = 0x1A;
/// Panics the current unit.
pub const PANIC: u8 = 0x1B;
/// Copies the top of the stack into the data register.
pub const PEEK: u8 = 0x1C;
/// Exchanges the two top values of the stack.
pub const SWAP: u8 = 0x1D;

} // verus!
