//! The execution core shared by every execution unit: one instruction applied
//! to an execution context and the global repository.
use vstd::prelude::*;
use vstd::string::*;

use crate::immediates::{text_of, ImmView, Immediates};
use crate::instructions::{
    AVP, D_VFD, D_VFS, F_ADD, F_DVD, F_EXP, F_I_DVD, F_I_EXP, F_MUL, F_SUB, HALT, I_ADD, I_DVD, I_EXP,
    I_MUL, I_SUB, JMPFD, JMPFS, NTASK, NTHRD, NTW, PANIC, PDFS, PDTS, PEEK, PRTFD, PRTFS, SWAP,
};
use crate::repository::{RepoError, VMRepository};
use crate::stack::{stack_error_text, StackError, VMStack, STACK_SIZE};
use crate::text::{nat_digits, push_decimal};

verus! {

/// A message for the output channel.
pub enum PrintMessage {
    Error(String),
    Warn(String),
    Trace(String),
    Print(String),
    PrintLine(String),
    DevPrint(String),
    /// Print a float, given by its bits, in its decimal form.
    PrintFloat(u64),
    /// A diagnostic dump of an operand stack: its values bottom first, its
    /// capacity and its depth. The consumer renders it, floats in decimal form.
    StackDump { contents: Vec<Immediates>, capacity: usize, top: usize },
    /// Stops the consumer.
    End,
}

/// The model of an output message.
pub enum MessageView {
    Error(Seq<char>),
    Warn(Seq<char>),
    Trace(Seq<char>),
    Print(Seq<char>),
    PrintLine(Seq<char>),
    DevPrint(Seq<char>),
    PrintFloat(u64),
    StackDump(Seq<ImmView>, usize, usize),
    End,
}

impl View for PrintMessage {
    type V = MessageView;

    open spec fn view(&self) -> MessageView {
        match self {
            PrintMessage::Error(s) => MessageView::Error(s@),
            PrintMessage::Warn(s) => MessageView::Warn(s@),
            PrintMessage::Trace(s) => MessageView::Trace(s@),
            PrintMessage::Print(s) => MessageView::Print(s@),
            PrintMessage::PrintLine(s) => MessageView::PrintLine(s@),
            PrintMessage::DevPrint(s) => MessageView::DevPrint(s@),
            PrintMessage::PrintFloat(b) => MessageView::PrintFloat(*b),
            PrintMessage::StackDump { contents, capacity, top } => MessageView::StackDump(
                Seq::new(contents@.len(), |i: int| contents@[i]@),
                *capacity,
                *top,
            ),
            PrintMessage::End => MessageView::End,
        }
    }
}

/// Float arithmetic that an instruction hands to the caller; the caller pushes
/// the result with the unit's `resume_float`.
#[derive(PartialEq, Eq, Structural, Clone, Copy, Debug)]
pub enum FloatRequest {
    /// `lhs op rhs` on two floats (bits), where `op` is F_ADD, F_SUB, F_MUL,
    /// F_DVD or F_EXP (`lhs` to the power `rhs`).
    Binary { op: u8, lhs: u64, rhs: u64 },
    /// A float (bits) to an integer power, the exponent taken as a 32-bit integer.
    PowInt { base: u64, exp: i64 },
    /// The float quotient of two integers whose division is not exact.
    Quotient { num: i64, den: i64 },
}

/// The kind of unit a spawning instruction asks for.
#[derive(PartialEq, Eq, Structural, Clone, Copy, Debug)]
pub enum SpawnKind {
    Task,
    Thread,
}

/// Why an instruction failed.
#[derive(PartialEq, Eq, Structural, Clone, Copy, Debug)]
pub enum Fault {
    Stack(StackError),
    NoIntegers,
    NoFloats,
    WrongAddress,
    InvalidVarName,
    InvalidVarPointer,
    WrongVariableName,
    DivisionByZero,
    IntegerOverflow,
    Repository(RepoError),
    Unknown,
}

/// What an instruction leaves for the caller.
#[derive(PartialEq, Eq, Structural, Clone, Copy, Debug)]
pub enum Outcome {
    /// The instruction completed.
    Done,
    /// The instruction waits for a float result.
    Float(FloatRequest),
    /// A new unit is to be spawned.
    Spawn(SpawnKind),
    /// The instruction failed.
    Fault(Fault),
}

/// The diagnostic text of a fault.
pub open spec fn fault_text(f: Fault) -> Seq<char> {
    match f {
        Fault::Stack(e) => stack_error_text(e),
        Fault::NoIntegers => "[ NO INTEGERS ]"@,
        Fault::NoFloats => "[ NO FLOATS ]"@,
        Fault::WrongAddress => "[ WRONG ADDRESS ]"@,
        Fault::InvalidVarName => "[ INVALID VAR NAME ]"@,
        Fault::InvalidVarPointer => "[ INVALID VAR POINTER ]"@,
        Fault::WrongVariableName => "[ WRONG VARIABLE NAME ]"@,
        Fault::DivisionByZero => "[ DIVISION BY ZERO ]"@,
        Fault::IntegerOverflow => "[ INTEGER OVERFLOW ]"@,
        Fault::Repository(RepoError::CapacityExceeded) => "[ HEAP OVERFLOW ]"@,
        Fault::Repository(RepoError::UndefinedVariable) => "Variable don't exist!"@,
        Fault::Repository(RepoError::Empty) => "[ HEAP UNDERFLOW ]"@,
        Fault::Unknown => "[ UNKNOWN INSTRUCTION ]"@,
    }
}

impl Fault {
    /// The diagnostic text of the fault.
    pub fn message(&self) -> (r: String)
        ensures
            r@ == fault_text(*self),
    {
        match self {
            Fault::Stack(e) => e.message(),
            Fault::NoIntegers => String::from_str("[ NO INTEGERS ]"),
            Fault::NoFloats => String::from_str("[ NO FLOATS ]"),
            Fault::WrongAddress => String::from_str("[ WRONG ADDRESS ]"),
            Fault::InvalidVarName => String::from_str("[ INVALID VAR NAME ]"),
            Fault::InvalidVarPointer => String::from_str("[ INVALID VAR POINTER ]"),
            Fault::WrongVariableName => String::from_str("[ WRONG VARIABLE NAME ]"),
            Fault::DivisionByZero => String::from_str("[ DIVISION BY ZERO ]"),
            Fault::IntegerOverflow => String::from_str("[ INTEGER OVERFLOW ]"),
            Fault::Repository(RepoError::CapacityExceeded) => String::from_str("[ HEAP OVERFLOW ]"),
            Fault::Repository(RepoError::UndefinedVariable) => String::from_str("Variable don't exist!"),
            Fault::Repository(RepoError::Empty) => String::from_str("[ HEAP UNDERFLOW ]"),
            Fault::Unknown => String::from_str("[ UNKNOWN INSTRUCTION ]"),
        }
    }
}

/// The execution context of one unit.
pub struct Context {
    /// False once the unit has halted.
    pub running: bool,
    /// The program counter.
    pub pc: usize,
    /// The operand register.
    pub data: Immediates,
    /// The operand stack.
    pub stack: VMStack,
    /// The register that PEEK fills.
    pub data_register: Immediates,
    /// Messages for the output channel, oldest first.
    pub output: Vec<PrintMessage>,
}

/// The model of an execution context.
pub struct UnitView {
    pub running: bool,
    pub pc: usize,
    pub data: ImmView,
    pub stack: Seq<ImmView>,
    pub register: ImmView,
    pub output: Seq<MessageView>,
}

impl View for Context {
    type V = UnitView;

    open spec fn view(&self) -> UnitView {
        UnitView {
            running: self.running,
            pc: self.pc,
            data: self.data@,
            stack: self.stack@,
            register: self.data_register@,
            output: Seq::new(self.output@.len(), |i: int| self.output@[i]@),
        }
    }
}

/// The message that prints a value.
pub open spec fn value_message(v: ImmView) -> MessageView {
    match v {
        ImmView::Float(b) => MessageView::PrintFloat(b),
        _ => MessageView::Print(text_of(v)),
    }
}

/// The message that reports a variable's pointer.
pub open spec fn pointer_message(p: usize) -> MessageView {
    MessageView::PrintLine(seq!['P', 'o', 'i', 'n', 't', 'e', 'r', ':', ' '] + nat_digits(p as nat))
}

/// The warning of a PEEK on an empty stack.
pub open spec fn peek_warning() -> MessageView {
    MessageView::Warn("Stack is empty, can't peek"@)
}

pub open spec fn with_stack(u: UnitView, s: Seq<ImmView>) -> UnitView {
    UnitView { stack: s, ..u }
}

/// `b` to the power `e`.
pub open spec fn int_pow(b: int, e: nat) -> int
    decreases e,
{
    if e == 0 {
        1
    } else {
        b * int_pow(b, (e - 1) as nat)
    }
}

/// The integer an integer instruction computes from `a` (deeper) and `b` (top),
/// or what it leaves for the caller instead.
pub open spec fn int_arith(op: u8, a: i64, b: i64) -> Result<i64, Outcome> {
    if op == I_ADD {
        match a.checked_add(b) {
            Some(r) => Ok(r),
            None => Err(Outcome::Fault(Fault::IntegerOverflow)),
        }
    } else if op == I_SUB {
        match a.checked_sub(b) {
            Some(r) => Ok(r),
            None => Err(Outcome::Fault(Fault::IntegerOverflow)),
        }
    } else if op == I_MUL {
        match a.checked_mul(b) {
            Some(r) => Ok(r),
            None => Err(Outcome::Fault(Fault::IntegerOverflow)),
        }
    } else if b == 0 {
        Err(Outcome::Fault(Fault::DivisionByZero))
    } else {
        match a.checked_div(b) {
            None => Err(Outcome::Fault(Fault::IntegerOverflow)),
            Some(q) => if op == F_I_DVD || q * b == a {
                Ok(q)
            } else {
                Err(Outcome::Float(FloatRequest::Quotient { num: a, den: b }))
            },
        }
    }
}

/// Whether `op` is one of the integer instructions on two integers.
pub open spec fn is_int_op(op: u8) -> bool {
    op == I_ADD || op == I_SUB || op == I_MUL || op == I_DVD || op == F_I_DVD
}

/// Whether `op` is one of the float instructions on two floats.
pub open spec fn is_float_op(op: u8) -> bool {
    op == F_ADD || op == F_SUB || op == F_MUL || op == F_DVD || op == F_EXP
}

/// The exponent I_EXP uses: the low 32 bits of the popped unsigned integer.
pub open spec fn exp_of(e: u64) -> nat {
    (e % 0x1_0000_0000) as nat
}

/// The effect of one instruction (other than PANIC, which each unit handles
/// itself) on a context whose stack holds at most `cap` values, and on the
/// repository, which holds at most `rcap` entries: the new context, the new
/// repository entries and the outcome.
pub open spec fn core_step(op: u8, u: UnitView, cap: nat, repo: Map<usize, usize>, rcap: nat) -> (
    UnitView,
    Map<usize, usize>,
    Outcome,
) {
    let s = u.stack;
    let n = s.len();
    let underflow = (with_stack(u, Seq::empty()), repo, Outcome::Fault(Fault::Stack(StackError::Underflow)));
    if op == HALT {
        (UnitView { running: false, ..u }, repo, Outcome::Done)
    } else if is_int_op(op) || is_float_op(op) || op == I_EXP || op == F_I_EXP || op == AVP || op == SWAP {
        if n < 2 {
            underflow
        } else {
            let b = s[n - 1];
            let a = s[n - 2];
            let rest = s.subrange(0, n - 2);
            let popped = with_stack(u, rest);
            if is_int_op(op) {
                match (a, b) {
                    (ImmView::Integer(x), ImmView::Integer(y)) => match int_arith(op, x, y) {
                        Ok(r) => (with_stack(u, rest.push(ImmView::Integer(r))), repo, Outcome::Done),
                        Err(o) => (popped, repo, o),
                    },
                    _ => (popped, repo, Outcome::Fault(Fault::NoIntegers)),
                }
            } else if is_float_op(op) {
                match (a, b) {
                    (ImmView::Float(x), ImmView::Float(y)) => (
                        popped,
                        repo,
                        Outcome::Float(FloatRequest::Binary { op, lhs: x, rhs: y }),
                    ),
                    _ => (popped, repo, Outcome::Fault(Fault::NoFloats)),
                }
            } else if op == I_EXP {
                match (a, b) {
                    (ImmView::Integer(x), ImmView::UInteger(e)) => {
                        let p = int_pow(x as int, exp_of(e));
                        if i64::MIN <= p <= i64::MAX {
                            (with_stack(u, rest.push(ImmView::Integer(p as i64))), repo, Outcome::Done)
                        } else {
                            (popped, repo, Outcome::Fault(Fault::IntegerOverflow))
                        }
                    },
                    _ => (popped, repo, Outcome::Fault(Fault::NoIntegers)),
                }
            } else if op == F_I_EXP {
                match (a, b) {
                    (ImmView::Float(x), ImmView::Integer(e)) => (
                        popped,
                        repo,
                        Outcome::Float(FloatRequest::PowInt { base: x, exp: e }),
                    ),
                    _ => (popped, repo, Outcome::Fault(Fault::NoFloats)),
                }
            } else if op == AVP {
                match (a, b) {
                    (ImmView::UInteger(name), ImmView::UInteger(ptr)) => if name > usize::MAX {
                        (popped, repo, Outcome::Fault(Fault::InvalidVarName))
                    } else if ptr > usize::MAX {
                        (popped, repo, Outcome::Fault(Fault::InvalidVarPointer))
                    } else if repo.len() == rcap {
                        (popped, repo, Outcome::Fault(Fault::Repository(RepoError::CapacityExceeded)))
                    } else {
                        (popped, repo.insert(name as usize, ptr as usize), Outcome::Done)
                    },
                    (ImmView::UInteger(_), _) => (popped, repo, Outcome::Fault(Fault::InvalidVarPointer)),
                    _ => (popped, repo, Outcome::Fault(Fault::InvalidVarName)),
                }
            } else {
                (with_stack(u, rest.push(b).push(a)), repo, Outcome::Done)
            }
        }
    } else if op == PDTS {
        if n < cap {
            (with_stack(u, s.push(u.data)), repo, Outcome::Done)
        } else {
            (u, repo, Outcome::Fault(Fault::Stack(StackError::Overflow { capacity: cap as usize, size: n as usize })))
        }
    } else if op == PDFS || op == JMPFS || op == PRTFS || op == D_VFS {
        if n == 0 {
            underflow
        } else {
            let top = s[n - 1];
            let popped = with_stack(u, s.drop_last());
            if op == PDFS {
                (UnitView { data: top, ..popped }, repo, Outcome::Done)
            } else if op == JMPFS {
                jump_to(popped, top, repo)
            } else if op == PRTFS {
                (UnitView { output: u.output.push(value_message(top)), ..popped }, repo, Outcome::Done)
            } else {
                report_pointer(popped, top, repo)
            }
        }
    } else if op == JMPFD {
        jump_to(u, u.data, repo)
    } else if op == PRTFD {
        (UnitView { output: u.output.push(value_message(u.data)), ..u }, repo, Outcome::Done)
    } else if op == D_VFD {
        report_pointer(u, u.data, repo)
    } else if op == NTW {
        (u, repo, Outcome::Done)
    } else if op == NTASK || op == NTHRD {
        if u.data == ImmView::Boolean(true) {
            (u, repo, Outcome::Spawn(if op == NTASK { SpawnKind::Task } else { SpawnKind::Thread }))
        } else {
            (u, repo, Outcome::Done)
        }
    } else if op == PEEK {
        if n == 0 {
            (UnitView { output: u.output.push(peek_warning()), ..u }, repo, Outcome::Done)
        } else {
            (UnitView { register: s[n - 1], ..u }, repo, Outcome::Done)
        }
    } else {
        (u, repo, Outcome::Fault(Fault::Unknown))
    }
}

/// A jump to the address `v` holds.
pub open spec fn jump_to(u: UnitView, v: ImmView, repo: Map<usize, usize>) -> (UnitView, Map<usize, usize>, Outcome) {
    match v {
        ImmView::UInteger(i) => if i <= usize::MAX {
            (UnitView { pc: i as usize, ..u }, repo, Outcome::Done)
        } else {
            (u, repo, Outcome::Fault(Fault::WrongAddress))
        },
        _ => (u, repo, Outcome::Fault(Fault::WrongAddress)),
    }
}

/// The report of the pointer stored under the variable `v` names.
pub open spec fn report_pointer(u: UnitView, v: ImmView, repo: Map<usize, usize>) -> (UnitView, Map<usize, usize>, Outcome) {
    match v {
        ImmView::UInteger(name) => if name <= usize::MAX && repo.contains_key(name as usize) {
            (
                UnitView { output: u.output.push(pointer_message(repo[name as usize])), ..u },
                repo,
                Outcome::Done,
            )
        } else {
            (u, repo, Outcome::Fault(Fault::Repository(RepoError::UndefinedVariable)))
        },
        _ => (u, repo, Outcome::Fault(Fault::WrongVariableName)),
    }
}

impl Context {
    pub open spec fn wf(&self) -> bool {
        self.stack.wf()
    }

    /// A fresh running context at address 0 with an empty stack of `stack_size` values.
    pub fn new(stack_size: usize) -> (r: Context)
        requires
            stack_size <= STACK_SIZE,
        ensures
            r.wf(),
            r.stack.stack_capacity == stack_size,
            r@.running,
            r@.pc == 0,
            r@.stack.len() == 0,
            r@.output.len() == 0,
            r@.data == ImmView::Null,
    {
        Context {
            running: true,
            pc: 0,
            data: Immediates::Null,
            stack: VMStack::new(stack_size),
            data_register: Immediates::Null,
            output: Vec::new(),
        }
    }

    /// Appends a message to the output.
    pub fn emit(&mut self, m: PrintMessage)
        ensures
            final(self).stack == old(self).stack,
            final(self)@ == (UnitView { output: old(self)@.output.push(m@), ..old(self)@ }),
    {
        let ghost m_v = m@;
        self.output.push(m);
        assert(final(self)@.output =~= old(self)@.output.push(m_v));
    }

    /// Pops the top value.
    fn pop_value(&mut self) -> (r: Option<Immediates>)
        requires
            old(self).wf(),
        ensures
            final(self).wf(),
            final(self).stack.stack_capacity == old(self).stack.stack_capacity,
            old(self)@.stack.len() == 0 ==> r is None && final(self)@ == old(self)@,
            old(self)@.stack.len() > 0 ==> (r matches Some(v) && v@ == old(self)@.stack.last()
                && final(self)@ == with_stack(old(self)@, old(self)@.stack.drop_last())),
    {
        match self.stack.pop() {
            Ok(v) => {
                assert(final(self)@.stack =~= old(self)@.stack.drop_last());
                Some(v)
            },
            Err(_) => None,
        }
    }

    /// Pops the two top values: the deeper one first in the result.
    fn pop_pair(&mut self) -> (r: Option<(Immediates, Immediates)>)
        requires
            old(self).wf(),
        ensures
            final(self).wf(),
            final(self).stack.stack_capacity == old(self).stack.stack_capacity,
            old(self)@.stack.len() < 2 ==> r is None && final(self)@ == with_stack(
                old(self)@,
                Seq::empty(),
            ),
            old(self)@.stack.len() >= 2 ==> (r matches Some((a, b)) && a@ == old(self)@.stack[old(
                self,
            )@.stack.len() - 2] && b@ == old(self)@.stack[old(self)@.stack.len() - 1] && final(self)@
                == with_stack(old(self)@, old(self)@.stack.subrange(0, old(self)@.stack.len() - 2))),
    {
        let ghost s = old(self)@.stack;
        let b = match self.pop_value() {
            Some(v) => v,
            None => {
                assert(final(self)@.stack =~= Seq::<ImmView>::empty());
                return None;
            },
        };
        let a = match self.pop_value() {
            Some(v) => v,
            None => {
                assert(final(self)@.stack =~= Seq::<ImmView>::empty());
                return None;
            },
        };
        assert(final(self)@.stack =~= s.subrange(0, s.len() - 2));
        Some((a, b))
    }

    /// Pushes a value onto a stack with room for it.
    pub fn push_value(&mut self, v: Immediates)
        requires
            old(self).wf(),
            old(self)@.stack.len() < old(self).stack.stack_capacity,
        ensures
            final(self).wf(),
            final(self).stack.stack_capacity == old(self).stack.stack_capacity,
            final(self)@ == with_stack(old(self)@, old(self)@.stack.push(v@)),
    {
        let ghost vv = v@;
        let r = self.stack.push(v);
        assert(final(self)@.stack =~= old(self)@.stack.push(vv));
    }
}

/// The message that prints `v`.
fn value_msg(v: &Immediates) -> (r: PrintMessage)
    ensures
        r@ == value_message(v@),
{
    match v {
        Immediates::Float(b) => PrintMessage::PrintFloat(*b),
        _ => PrintMessage::Print(v.to_text()),
    }
}

/// The message that reports the pointer `p`.
fn pointer_msg(p: usize) -> (r: PrintMessage)
    ensures
        r@ == pointer_message(p),
{
    proof {
        reveal_strlit("Pointer: ");
    }
    let mut s = String::from_str("Pointer: ");
    push_decimal(&mut s, p as u64);
    assert(s@ =~= seq!['P', 'o', 'i', 'n', 't', 'e', 'r', ':', ' '] + nat_digits(p as nat));
    PrintMessage::PrintLine(s)
}

/// The integer result of an integer instruction, or what it leaves instead.
fn int_arith_exec(op: u8, a: i64, b: i64) -> (r: Result<i64, Outcome>)
    requires
        is_int_op(op),
    ensures
        r == int_arith(op, a, b),
{
    if op == I_ADD {
        match a.checked_add(b) {
            Some(r) => Ok(r),
            None => Err(Outcome::Fault(Fault::IntegerOverflow)),
        }
    } else if op == I_SUB {
        match a.checked_sub(b) {
            Some(r) => Ok(r),
            None => Err(Outcome::Fault(Fault::IntegerOverflow)),
        }
    } else if op == I_MUL {
        match a.checked_mul(b) {
            Some(r) => Ok(r),
            None => Err(Outcome::Fault(Fault::IntegerOverflow)),
        }
    } else if b == 0 {
        Err(Outcome::Fault(Fault::DivisionByZero))
    } else {
        match a.checked_div(b) {
            None => Err(Outcome::Fault(Fault::IntegerOverflow)),
            Some(q) => {
                proof {
                    let qi = q as int;
                    let bi = b as int;
                    assert(-0x4000_0000_0000_0000_0000_0000_0000_0000 <= qi * bi <= 0x4000_0000_0000_0000_0000_0000_0000_0000)
                        by (nonlinear_arith)
                        requires
                            -0x8000_0000_0000_0000 <= qi <= 0x7fff_ffff_ffff_ffff,
                            -0x8000_0000_0000_0000 <= bi <= 0x7fff_ffff_ffff_ffff,
                    ;
                }
                if op == F_I_DVD || q as i128 * b as i128 == a as i128 {
                    Ok(q)
                } else {
                    Err(Outcome::Float(FloatRequest::Quotient { num: a, den: b }))
                }
            },
        }
    }
}

proof fn lemma_pow_small(b: int, e: nat)
    ensures
        b == 0 ==> int_pow(b, e) == if e == 0 { 1int } else { 0int },
        b == 1 ==> int_pow(b, e) == 1,
        b == -1 ==> int_pow(b, e) == if e % 2 == 0 { 1int } else { -1int },
    decreases e,
{
    if e > 0 {
        lemma_pow_small(b, (e - 1) as nat);
    }
}

proof fn lemma_pow_grows(b: int, e: nat)
    requires
        b >= 2 || b <= -2,
    ensures
        int_pow(b, e) >= e + 1 || int_pow(b, e) <= -(e + 1),
    decreases e,
{
    if e > 0 {
        lemma_pow_grows(b, (e - 1) as nat);
        let p = int_pow(b, (e - 1) as nat);
        assert(b * p >= e + 1 || b * p <= -(e + 1)) by (nonlinear_arith)
            requires
                b >= 2 || b <= -2,
                p >= e || p <= -e,
                e >= 1,
        ;
    }
}

/// `x` to the power `e`, when it fits an `i64`.
fn checked_pow(x: i64, e: u32) -> (r: Option<i64>)
    ensures
        i64::MIN <= int_pow(x as int, e as nat) <= i64::MAX ==> r == Some(int_pow(x as int, e as nat) as i64),
        !(i64::MIN <= int_pow(x as int, e as nat) <= i64::MAX) ==> r is None,
{
    proof {
        lemma_pow_small(x as int, e as nat);
    }
    if x == 0 {
        return if e == 0 { Some(1) } else { Some(0) };
    }
    if x == 1 {
        return Some(1);
    }
    if x == -1 {
        return if e % 2 == 0 { Some(1) } else { Some(-1) };
    }
    let mut acc: i64 = 1;
    let mut i: u32 = 0;
    while i < e
        invariant
            i <= e,
            acc as int == int_pow(x as int, i as nat),
            x >= 2 || x <= -2,
        decreases e - i,
    {
        match acc.checked_mul(x) {
            Some(v) => {
                acc = v;
            },
            None => {
                proof {
                    assert(int_pow(x as int, (i + 1) as nat) == x * int_pow(x as int, i as nat));
                    lemma_pow_beyond(x as int, (i + 1) as nat, e as nat);
                }
                return None;
            },
        }
        i = i + 1;
    }
    Some(acc)
}

proof fn lemma_pow_beyond(b: int, i: nat, e: nat)
    requires
        b >= 2 || b <= -2,
        i <= e,
        !(i64::MIN <= int_pow(b, i) <= i64::MAX),
    ensures
        !(i64::MIN <= int_pow(b, e) <= i64::MAX),
    decreases e - i,
{
    if i < e {
        let p = int_pow(b, i);
        assert(b * p > i64::MAX || b * p < i64::MIN) by (nonlinear_arith)
            requires
                b >= 2 || b <= -2,
                p > i64::MAX || p < i64::MIN,
        ;
        assert(int_pow(b, (i + 1) as nat) == b * p);
        lemma_pow_beyond(b, (i + 1) as nat, e);
    }
}

/// Applies one instruction (PANIC excepted: each unit handles it) to a context
/// and the repository, as `core_step` describes.
pub fn execute(ctx: &mut Context, op: u8, repo: &mut VMRepository) -> (r: Outcome)
    requires
        old(ctx).wf(),
        old(repo).wf(),
    ensures
        final(ctx).wf(),
        final(repo).wf(),
        final(ctx).stack.stack_capacity == old(ctx).stack.stack_capacity,
        final(repo).repo_capacity == old(repo).repo_capacity,
        (final(ctx)@, final(repo)@, r) == core_step(
            op,
            old(ctx)@,
            old(ctx).stack.stack_capacity as nat,
            old(repo)@,
            old(repo).repo_capacity as nat,
        ),
{
    let ghost u = old(ctx)@;
    let ghost cap = old(ctx).stack.stack_capacity as nat;
    let ghost rm = old(repo)@;
    let ghost rcap = old(repo).repo_capacity as nat;
    if op == HALT {
        ctx.running = false;
        assert(ctx@.output =~= u.output);
        return Outcome::Done;
    }
    if op == I_ADD || op == I_SUB || op == I_MUL || op == I_DVD || op == F_I_DVD || op == F_ADD || op
        == F_SUB || op == F_MUL || op == F_DVD || op == F_EXP || op == I_EXP || op == F_I_EXP || op
        == AVP || op == SWAP {
        let (a, b) = match ctx.pop_pair() {
            Some(p) => p,
            None => {
                return Outcome::Fault(Fault::Stack(StackError::Underflow));
            },
        };
        if op == I_ADD || op == I_SUB || op == I_MUL || op == I_DVD || op == F_I_DVD {
            match (&a, &b) {
                (Immediates::Integer(x), Immediates::Integer(y)) => {
                    match int_arith_exec(op, *x, *y) {
                        Ok(v) => {
                            ctx.push_value(Immediates::Integer(v));
                            return Outcome::Done;
                        },
                        Err(o) => {
                            return o;
                        },
                    }
                },
                _ => {
                    return Outcome::Fault(Fault::NoIntegers);
                },
            }
        } else if op == F_ADD || op == F_SUB || op == F_MUL || op == F_DVD || op == F_EXP {
            match (&a, &b) {
                (Immediates::Float(x), Immediates::Float(y)) => {
                    return Outcome::Float(FloatRequest::Binary { op, lhs: *x, rhs: *y });
                },
                _ => {
                    return Outcome::Fault(Fault::NoFloats);
                },
            }
        } else if op == I_EXP {
            match (&a, &b) {
                (Immediates::Integer(x), Immediates::UInteger(e)) => {
                    let e32 = (*e % 0x1_0000_0000) as u32;
                    match checked_pow(*x, e32) {
                        Some(v) => {
                            ctx.push_value(Immediates::Integer(v));
                            return Outcome::Done;
                        },
                        None => {
                            return Outcome::Fault(Fault::IntegerOverflow);
                        },
                    }
                },
                _ => {
                    return Outcome::Fault(Fault::NoIntegers);
                },
            }
        } else if op == F_I_EXP {
            match (&a, &b) {
                (Immediates::Float(x), Immediates::Integer(e)) => {
                    return Outcome::Float(FloatRequest::PowInt { base: *x, exp: *e });
                },
                _ => {
                    return Outcome::Fault(Fault::NoFloats);
                },
            }
        } else if op == AVP {
            match (&a, &b) {
                (Immediates::UInteger(name), Immediates::UInteger(ptr)) => {
                    if *name > usize::MAX as u64 {
                        return Outcome::Fault(Fault::InvalidVarName);
                    }
                    if *ptr > usize::MAX as u64 {
                        return Outcome::Fault(Fault::InvalidVarPointer);
                    }
                    match repo.add_var(*name as usize, *ptr as usize) {
                        Ok(()) => {
                            return Outcome::Done;
                        },
                        Err(e) => {
                            return Outcome::Fault(Fault::Repository(e));
                        },
                    }
                },
                (Immediates::UInteger(_), _) => {
                    return Outcome::Fault(Fault::InvalidVarPointer);
                },
                _ => {
                    return Outcome::Fault(Fault::InvalidVarName);
                },
            }
        } else {
            ctx.push_value(b);
            ctx.push_value(a);
            return Outcome::Done;
        }
    }
    if op == PDTS {
        if ctx.stack.top == ctx.stack.stack_capacity {
            return Outcome::Fault(
                Fault::Stack(StackError::Overflow { capacity: ctx.stack.stack_capacity, size: ctx.stack.top }),
            );
        }
        let v = ctx.data.duplicate();
        ctx.push_value(v);
        return Outcome::Done;
    }
    if op == PDFS || op == JMPFS || op == PRTFS || op == D_VFS {
        let top = match ctx.pop_value() {
            Some(v) => v,
            None => {
                assert(ctx@.stack =~= Seq::<ImmView>::empty());
                return Outcome::Fault(Fault::Stack(StackError::Underflow));
            },
        };
        if op == PDFS {
            ctx.data = top;
            return Outcome::Done;
        } else if op == JMPFS {
            return jump_exec(ctx, &top);
        } else if op == PRTFS {
            let m = value_msg(&top);
            ctx.emit(m);
            return Outcome::Done;
        } else {
            return report_exec(ctx, &top, repo);
        }
    }
    if op == JMPFD {
        let d = ctx.data.duplicate();
        return jump_exec(ctx, &d);
    }
    if op == PRTFD {
        let m = value_msg(&ctx.data);
        ctx.emit(m);
        return Outcome::Done;
    }
    if op == D_VFD {
        let d = ctx.data.duplicate();
        return report_exec(ctx, &d, repo);
    }
    if op == NTW {
        return Outcome::Done;
    }
    if op == NTASK || op == NTHRD {
        match &ctx.data {
            Immediates::Boolean(true) => {
                return Outcome::Spawn(if op == NTASK { SpawnKind::Task } else { SpawnKind::Thread });
            },
            _ => {
                return Outcome::Done;
            },
        }
    }
    if op == PEEK {
        match ctx.stack.peek() {
            Some(v) => {
                let c = v.duplicate();
                ctx.data_register = c;
                return Outcome::Done;
            },
            None => {
                proof {
                    reveal_strlit("Stack is empty, can't peek");
                }
                ctx.emit(PrintMessage::Warn(String::from_str("Stack is empty, can't peek")));
                return Outcome::Done;
            },
        }
    }
    Outcome::Fault(Fault::Unknown)
}

/// A jump to the address `v` holds.
fn jump_exec(ctx: &mut Context, v: &Immediates) -> (r: Outcome)
    requires
        old(ctx).wf(),
    ensures
        final(ctx).wf(),
        final(ctx).stack.stack_capacity == old(ctx).stack.stack_capacity,
        forall|m: Map<usize, usize>| (final(ctx)@, m, r) == #[trigger] jump_to(old(ctx)@, v@, m),
{
    match v {
        Immediates::UInteger(i) => {
            if *i <= usize::MAX as u64 {
                ctx.pc = *i as usize;
                Outcome::Done
            } else {
                Outcome::Fault(Fault::WrongAddress)
            }
        },
        _ => Outcome::Fault(Fault::WrongAddress),
    }
}

/// The report of the pointer stored under the variable `v` names.
fn report_exec(ctx: &mut Context, v: &Immediates, repo: &VMRepository) -> (r: Outcome)
    requires
        old(ctx).wf(),
    ensures
        final(ctx).wf(),
        final(ctx).stack.stack_capacity == old(ctx).stack.stack_capacity,
        (final(ctx)@, repo@, r) == report_pointer(old(ctx)@, v@, repo@),
{
    match v {
        Immediates::UInteger(name) => {
            if *name > usize::MAX as u64 {
                return Outcome::Fault(Fault::Repository(RepoError::UndefinedVariable));
            }
            match repo.get_var(*name as usize) {
                Ok(p) => {
                    let m = pointer_msg(p);
                    ctx.emit(m);
                    Outcome::Done
                },
                Err(e) => Outcome::Fault(Fault::Repository(e)),
            }
        },
        _ => Outcome::Fault(Fault::WrongVariableName),
    }
}

/// HALT stops a unit: it clears the running flag and changes nothing else, so
/// the interpreter executes no further opcode.
pub proof fn lemma_halt_stops(u: UnitView, cap: nat, repo: Map<usize, usize>, rcap: nat)
    ensures
        !core_step(HALT, u, cap, repo, rcap).0.running,
        core_step(HALT, u, cap, repo, rcap).0.stack == u.stack,
        core_step(HALT, u, cap, repo, rcap).0.output == u.output,
        core_step(HALT, u, cap, repo, rcap).0.pc == u.pc,
        core_step(HALT, u, cap, repo, rcap).1 == repo,
        core_step(HALT, u, cap, repo, rcap).2 == Outcome::Done,
{
}

} // verus!
