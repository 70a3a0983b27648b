//! The primary execution unit: runs the loaded program, reports faults through
//! its panic path, and hands float arithmetic and spawning to its caller.
use vstd::prelude::*;
use vstd::string::*;

use crate::dispatch::{
    core_step, execute, fault_text, is_float_op, with_stack, Context, Fault, FloatRequest, MessageView, Outcome,
    PrintMessage, SpawnKind, UnitView,
};
use crate::errdef::{STACK_OVERFLOW_ERR, STACK_UNDERFLOW_ERR};
use crate::immediates::{ImmView, Immediates};
use crate::instructions::{F_I_EXP, I_DVD, JMPFD, JMPFS, NTASK, NTHRD, PANIC, PRTFS, SWAP};
use crate::loader::{views, FileReader};
use crate::repository::VMRepository;
use crate::stack::{stack_error_text, StackError, VMStack, STACK_SIZE};
use crate::text::{nat_digits, push_decimal};

verus! {

/// An error that ends the process, with its exit code.
pub struct Fatal {
    pub code: i32,
    pub message: String,
}

/// The exit code of a stack error in the primary unit.
pub open spec fn fatal_code(e: StackError) -> i32 {
    match e {
        StackError::Underflow => STACK_UNDERFLOW_ERR,
        StackError::Overflow { .. } => STACK_OVERFLOW_ERR,
    }
}

/// Why the interpreter handed control back.
#[derive(PartialEq, Eq, Structural, Clone, Copy, Debug)]
pub enum Interrupt {
    /// The end of the program was reached, or the unit halted.
    Finished,
    /// Float arithmetic is needed; push its result with `resume_float`.
    Float(FloatRequest),
    /// A unit of `kind` is to be spawned; `number` counts the earlier ones of that kind.
    Spawn { kind: SpawnKind, number: usize },
    /// A jump was taken; call the interpreter again to go on.
    Jumped,
}

pub open spec fn hex_digit(d: nat) -> char {
    if d < 10 {
        crate::text::digit_char(d)
    } else if d == 10 {
        'A'
    } else if d == 11 {
        'B'
    } else if d == 12 {
        'C'
    } else if d == 13 {
        'D'
    } else if d == 14 {
        'E'
    } else {
        'F'
    }
}

fn push_hex_digit(s: &mut String, d: u8)
    requires
        d < 16,
    ensures
        final(s)@ == old(s)@.push(hex_digit(d as nat)),
{
    proof {
        reveal_strlit("0");
        reveal_strlit("1");
        reveal_strlit("2");
        reveal_strlit("3");
        reveal_strlit("4");
        reveal_strlit("5");
        reveal_strlit("6");
        reveal_strlit("7");
        reveal_strlit("8");
        reveal_strlit("9");
        reveal_strlit("A");
        reveal_strlit("B");
        reveal_strlit("C");
        reveal_strlit("D");
        reveal_strlit("E");
        reveal_strlit("F");
    }
    let t = if d == 0 {
        "0"
    } else if d == 1 {
        "1"
    } else if d == 2 {
        "2"
    } else if d == 3 {
        "3"
    } else if d == 4 {
        "4"
    } else if d == 5 {
        "5"
    } else if d == 6 {
        "6"
    } else if d == 7 {
        "7"
    } else if d == 8 {
        "8"
    } else if d == 9 {
        "9"
    } else if d == 10 {
        "A"
    } else if d == 11 {
        "B"
    } else if d == 12 {
        "C"
    } else if d == 13 {
        "D"
    } else if d == 14 {
        "E"
    } else {
        "F"
    };
    s.append(t);
    assert(final(s)@ =~= old(s)@.push(hex_digit(d as nat)));
}

/// The messages a panic of the primary unit sends: the header, the stack
/// dump, the program counter and, when the counter is past an instruction, the
/// opcode of that instruction in two hexadecimal digits.
pub open spec fn panic_messages(u: UnitView, cap: nat, ops: Seq<u8>) -> Seq<MessageView> {
    seq![
        MessageView::Error("Main thread panicked"@),
        MessageView::StackDump(u.stack, cap as usize, u.stack.len() as usize),
        MessageView::Trace("Program Counter: "@ + nat_digits(u.pc as nat)),
    ] + if 1 <= u.pc <= ops.len() {
        seq![
            MessageView::Trace(
                "Last instruction: 0x"@ + seq![
                    hex_digit((ops[u.pc - 1] / 16) as nat),
                    hex_digit((ops[u.pc - 1] % 16) as nat),
                ],
            ),
        ]
    } else {
        Seq::empty()
    }
}

/// The context after the primary unit's panic path: the report is sent and the
/// unit halts.
pub open spec fn panicked(u: UnitView, cap: nat, ops: Seq<u8>) -> UnitView {
    UnitView { running: false, output: u.output + panic_messages(u, cap, ops), ..u }
}

/// The context after a fault of the primary unit that does not end the process:
/// an unknown opcode pushes its diagnostic string when there is room, any other
/// fault sends its text as an error; then the unit panics.
pub open spec fn fault_effect(v: UnitView, f: Fault, cap: nat, ops: Seq<u8>) -> UnitView {
    if f == Fault::Unknown {
        let w = if v.stack.len() < cap {
            with_stack(v, v.stack.push(ImmView::MutStr(fault_text(Fault::Unknown))))
        } else {
            v
        };
        panicked(w, cap, ops)
    } else {
        panicked(UnitView { output: v.output.push(MessageView::Error(fault_text(f))), ..v }, cap, ops)
    }
}

/// The context once the instruction at the program counter is fetched: its
/// operand loaded and the counter moved past it.
pub open spec fn fetched(data: Seq<ImmView>, u: UnitView) -> UnitView {
    UnitView { data: data[u.pc as int], pc: (u.pc + 1) as usize, ..u }
}

/// One step of the primary unit, from state `a` to state `b` (context and
/// repository entries), for a program of opcodes `ops` and operands `data`, a
/// stack of at most `cap` values and a repository of at most `rcap` entries:
/// the instruction at the program counter, or the panic of a counter past the
/// end. A stack error that ends the process is no step.
pub open spec fn main_step(
    ops: Seq<u8>,
    data: Seq<ImmView>,
    cap: nat,
    rcap: nat,
    a: (UnitView, Map<usize, usize>),
    b: (UnitView, Map<usize, usize>),
) -> bool {
    let u = a.0;
    &&& u.running
    &&& if u.pc < ops.len() {
        let f = fetched(data, u);
        let op = ops[u.pc as int];
        &&& u.pc < data.len()
        &&& if op == PANIC {
            b == (panicked(f, cap, ops), a.1)
        } else {
            let (v, m, o) = core_step(op, f, cap, a.1, rcap);
            &&& b.1 == m
            &&& match o {
                Outcome::Fault(Fault::Stack(e)) => (op == PRTFS || op == SWAP) && b.0 == fault_effect(
                    v,
                    Fault::Stack(e),
                    cap,
                    ops,
                ),
                Outcome::Fault(g) => b.0 == fault_effect(v, g, cap, ops),
                _ => b.0 == v,
            }
        }
    } else if u.pc > ops.len() {
        b == (panicked(u, cap, ops), a.1)
    } else {
        false
    }
}

/// Whether the instruction at the program counter hands control back to the
/// caller: a jump, float arithmetic or a spawn.
pub open spec fn interrupting(
    ops: Seq<u8>,
    data: Seq<ImmView>,
    cap: nat,
    rcap: nat,
    a: (UnitView, Map<usize, usize>),
) -> bool {
    &&& a.0.pc < ops.len()
    &&& {
        let op = ops[a.0.pc as int];
        op == JMPFD || op == JMPFS || (op != PANIC && {
            let o = core_step(op, fetched(data, a.0), cap, a.1, rcap).2;
            o is Float || o is Spawn
        })
    }
}

/// Whether `n` consecutive steps of the primary unit, none of which hands
/// control back, lead from `a` to `b`.
pub open spec fn reaches(
    ops: Seq<u8>,
    data: Seq<ImmView>,
    cap: nat,
    rcap: nat,
    a: (UnitView, Map<usize, usize>),
    b: (UnitView, Map<usize, usize>),
    n: nat,
) -> bool
    decreases n,
{
    if n == 0 {
        a == b
    } else {
        exists|mid: (UnitView, Map<usize, usize>)|
            reaches(ops, data, cap, rcap, a, mid, (n - 1) as nat) && #[trigger] main_step(
                ops,
                data,
                cap,
                rcap,
                mid,
                b,
            ) && !interrupting(ops, data, cap, rcap, mid)
    }
}

/// The primary execution unit.
pub struct VMStarter {
    /// The execution context.
    pub ctx: Context,
    /// The instruction being executed.
    pub instruction: u8,
    /// The program's opcodes.
    pub instructions: Vec<u8>,
    /// The program's operands.
    pub data_vault: Vec<Immediates>,
    /// The return-address stack.
    pub return_stack: VMStack,
    /// Operand stacks of the enclosing call frames.
    pub function_stack: Vec<VMStack>,
    /// Tasks spawned so far.
    pub tasks: usize,
    /// Threads spawned so far.
    pub threads: usize,
}

impl VMStarter {
    pub open spec fn wf(&self) -> bool {
        &&& self.ctx.wf()
        &&& self.instructions@.len() == self.data_vault@.len()
        &&& forall|i: int| 0 <= i < self.function_stack@.len() ==> (#[trigger] self.function_stack@[i]).wf()
    }

    /// A running unit with an empty program and an operand stack of `stack_size` values.
    pub fn new(stack_size: usize) -> (r: VMStarter)
        requires
            stack_size <= STACK_SIZE,
        ensures
            r.wf(),
            r.ctx@.running,
            r.ctx@.pc == 0,
            r.ctx@.stack.len() == 0,
            r.ctx@.output.len() == 0,
            r.ctx.stack.stack_capacity == stack_size,
    {
        VMStarter {
            ctx: Context::new(stack_size),
            instruction: 0,
            instructions: Vec::new(),
            data_vault: Vec::new(),
            return_stack: VMStack::new(100),
            function_stack: Vec::new(),
            tasks: 0,
            threads: 0,
        }
    }

    /// Enters a call frame: the operand stack is set aside and a fresh one of
    /// `capacity` values takes its place.
    pub fn push_frame(&mut self, capacity: usize)
        requires
            old(self).wf(),
            capacity <= STACK_SIZE,
        ensures
            final(self).wf(),
            final(self).function_stack@ == old(self).function_stack@.push(old(self).ctx.stack),
            final(self).ctx.stack.stack_capacity == capacity,
            final(self).ctx@.stack.len() == 0,
            final(self).ctx@ == with_stack(old(self).ctx@, Seq::empty()),
    {
        let mut fresh = VMStack::new(capacity);
        std::mem::swap(&mut self.ctx.stack, &mut fresh);
        self.function_stack.push(fresh);
        assert(self.ctx@.stack =~= Seq::<ImmView>::empty());
    }

    /// Leaves the innermost call frame: its operand stack is dropped and the one
    /// set aside comes back. Returns false, changing nothing, outside any frame.
    pub fn pop_frame(&mut self) -> (r: bool)
        requires
            old(self).wf(),
        ensures
            final(self).wf(),
            r == (old(self).function_stack@.len() > 0),
            !r ==> *final(self) == *old(self),
            r ==> final(self).function_stack@ == old(self).function_stack@.drop_last()
                && final(self).ctx.stack == old(self).function_stack@.last(),
    {
        if self.function_stack.len() == 0 {
            return false;
        }
        match self.function_stack.pop() {
            Some(mut saved) => {
                std::mem::swap(&mut self.ctx.stack, &mut saved);
                true
            },
            None => false,
        }
    }

    /// Whether the unit still runs.
    pub fn running(&self) -> (r: bool)
        ensures
            r == self.ctx.running,
    {
        self.ctx.running
    }

    /// Reports the stack, the program counter and the last instruction, and halts.
    pub fn panic(&mut self)
        requires
            old(self).wf(),
        ensures
            final(self).wf(),
            final(self).instructions == old(self).instructions,
            final(self).data_vault == old(self).data_vault,
            final(self).tasks == old(self).tasks,
            final(self).threads == old(self).threads,
            final(self).ctx.stack == old(self).ctx.stack,
            final(self).ctx@ == panicked(
                old(self).ctx@,
                old(self).ctx.stack.stack_capacity as nat,
                old(self).instructions@,
            ),
    {
        let ghost u = self.ctx@;
        let ghost ops = self.instructions@;
        let ghost cap = self.ctx.stack.stack_capacity as nat;
        self.ctx.emit(PrintMessage::Error(String::from_str("Main thread panicked")));
        let ghost m1 = MessageView::Error("Main thread panicked"@);
        assert(self.ctx@.output == u.output.push(m1));
        let mut contents: Vec<Immediates> = Vec::new();
        let mut i: usize = 0;
        while i < self.ctx.stack.top
            invariant
                self.ctx.stack.wf(),
                self.ctx@.stack == u.stack,
                i <= self.ctx.stack.top,
                contents@.len() == i,
                forall|j: int| 0 <= j < i ==> #[trigger] contents@[j]@ == u.stack[j],
            decreases self.ctx.stack.top - i,
        {
            let v = self.ctx.stack.get(i).duplicate();
            contents.push(v);
            i = i + 1;
        }
        let ghost dump = Seq::new(contents@.len(), |j: int| contents@[j]@);
        assert(dump =~= u.stack);
        let m = PrintMessage::StackDump {
            contents,
            capacity: self.ctx.stack.stack_capacity,
            top: self.ctx.stack.top,
        };
        let ghost m2 = MessageView::StackDump(u.stack, cap as usize, u.stack.len() as usize);
        assert(m@ == m2);
        self.ctx.emit(m);
        let mut pc_line = String::from_str("Program Counter: ");
        push_decimal(&mut pc_line, self.ctx.pc as u64);
        let ghost m3 = MessageView::Trace("Program Counter: "@ + nat_digits(u.pc as nat));
        assert(pc_line@ == "Program Counter: "@ + nat_digits(u.pc as nat));
        self.ctx.emit(PrintMessage::Trace(pc_line));
        assert(self.ctx@.output == u.output.push(m1).push(m2).push(m3));
        if self.ctx.pc >= 1 && self.ctx.pc <= self.instructions.len() {
            let op = self.instructions[self.ctx.pc - 1];
            let mut last = String::from_str("Last instruction: 0x");
            push_hex_digit(&mut last, op / 16);
            push_hex_digit(&mut last, op % 16);
            let ghost m4 = MessageView::Trace(
                "Last instruction: 0x"@ + seq![hex_digit((op / 16) as nat), hex_digit((op % 16) as nat)],
            );
            assert(last@ =~= "Last instruction: 0x"@ + seq![hex_digit((op / 16) as nat), hex_digit((op % 16) as nat)]);
            self.ctx.emit(PrintMessage::Trace(last));
            assert(self.ctx@.output =~= u.output + panic_messages(u, cap, ops));
        } else {
            assert(self.ctx@.output =~= u.output + panic_messages(u, cap, ops));
        }
        self.ctx.running = false;
    }

    /// Executes one instruction. A stack error ends the process (exit codes
    /// 11 and 12), except in PRTFS and SWAP; every other fault reports through
    /// the panic path and halts this unit; an unknown opcode first pushes a
    /// diagnostic string.
    pub fn instructor(&mut self, instruction: u8, repo: &mut VMRepository) -> (r: Result<Outcome, Fatal>)
        requires
            old(self).wf(),
            old(repo).wf(),
        ensures
            final(self).wf(),
            final(repo).wf(),
            final(repo).repo_capacity == old(repo).repo_capacity,
            final(self).ctx.stack.stack_capacity == old(self).ctx.stack.stack_capacity,
            final(self).instructions == old(self).instructions,
            final(self).data_vault == old(self).data_vault,
            final(self).tasks == old(self).tasks,
            final(self).threads == old(self).threads,
            !(instruction == JMPFD || instruction == JMPFS) ==> final(self).ctx.pc == old(self).ctx.pc,
            instruction == PANIC ==> (r matches Ok(Outcome::Done) && final(repo)@ == old(repo)@
                && final(self).ctx@ == panicked(
                old(self).ctx@,
                old(self).ctx.stack.stack_capacity as nat,
                old(self).instructions@,
            )),
            instruction != PANIC ==> ({
                let cap = old(self).ctx.stack.stack_capacity as nat;
                let (u, m, o) = core_step(instruction, old(self).ctx@, cap, old(repo)@, old(repo).repo_capacity as nat);
                &&& final(repo)@ == m
                &&& match o {
                    Outcome::Fault(Fault::Stack(e)) => if instruction != PRTFS && instruction != SWAP {
                        r matches Err(f) && f.code == fatal_code(e) && f.message@ == "Stack error: "@
                            + stack_error_text(e) && final(self).ctx@ == u
                    } else {
                        r matches Ok(Outcome::Done) && final(self).ctx@ == fault_effect(
                            u,
                            Fault::Stack(e),
                            cap,
                            old(self).instructions@,
                        )
                    },
                    Outcome::Fault(g) => r matches Ok(Outcome::Done) && final(self).ctx@ == fault_effect(
                        u,
                        g,
                        cap,
                        old(self).instructions@,
                    ),
                    _ => r == Ok::<Outcome, Fatal>(o) && final(self).ctx@ == u,
                }
            }),
    {
        if instruction == PANIC {
            self.panic();
            return Ok(Outcome::Done);
        }
        let o = execute(&mut self.ctx, instruction, repo);
        match o {
            Outcome::Fault(f) => {
                match f {
                    Fault::Stack(e) => {
                        if instruction != PRTFS && instruction != SWAP {
                            let mut message = String::from_str("Stack error: ");
                            let text = e.message();
                            message.append(text.as_str());
                            let code = match e {
                                StackError::Underflow => STACK_UNDERFLOW_ERR,
                                StackError::Overflow { .. } => STACK_OVERFLOW_ERR,
                            };
                            return Err(Fatal { code, message });
                        }
                    },
                    _ => {},
                }
                if f == Fault::Unknown {
                    if self.ctx.stack.top < self.ctx.stack.stack_capacity {
                        let diag = f.message();
                        self.ctx.push_value(Immediates::MutStr(diag));
                    }
                } else {
                    let m = f.message();
                    self.ctx.emit(PrintMessage::Error(m));
                }
                self.panic();
                Ok(Outcome::Done)
            },
            _ => Ok(o),
        }
    }

    /// Pushes the result of the float arithmetic an instruction asked for.
    pub fn resume_float(&mut self, bits: u64) -> (r: Result<(), Fatal>)
        requires
            old(self).wf(),
        ensures
            final(self).wf(),
            final(self).instructions == old(self).instructions,
            final(self).data_vault == old(self).data_vault,
            final(self).ctx.stack.stack_capacity == old(self).ctx.stack.stack_capacity,
            final(self).tasks == old(self).tasks,
            final(self).threads == old(self).threads,
            old(self).ctx@.stack.len() < old(self).ctx.stack.stack_capacity ==> r is Ok
                && final(self).ctx@ == with_stack(old(self).ctx@, old(self).ctx@.stack.push(ImmView::Float(bits))),
            old(self).ctx@.stack.len() >= old(self).ctx.stack.stack_capacity ==> (r matches Err(f) && f.code
                == STACK_OVERFLOW_ERR),
    {
        if self.ctx.stack.top == self.ctx.stack.stack_capacity {
            let mut message = String::from_str("Stack error: ");
            let e = StackError::Overflow { capacity: self.ctx.stack.stack_capacity, size: self.ctx.stack.top };
            let text = e.message();
            message.append(text.as_str());
            return Err(Fatal { code: STACK_OVERFLOW_ERR, message });
        }
        self.ctx.push_value(Immediates::Float(bits));
        Ok(())
    }

    /// Runs the program from the current program counter until it ends, the
    /// unit halts, a jump is taken, or the caller is needed (float arithmetic,
    /// spawning). At the end of the program the counter moves one past the
    /// end; past the end, the unit panics. A halted unit does nothing.
    pub fn interpreter(&mut self, file_reader: FileReader, repo: &mut VMRepository) -> (r: Result<
        Interrupt,
        Fatal,
    >)
        requires
            old(self).wf(),
            old(repo).wf(),
            file_reader.wf(),
        ensures
            final(self).wf(),
            final(repo).wf(),
            final(repo).repo_capacity == old(repo).repo_capacity,
            final(self).ctx.stack.stack_capacity == old(self).ctx.stack.stack_capacity,
            final(self).instructions@ == file_reader.instructions@,
            r matches Ok(Interrupt::Finished) ==> exists|n: nat, mid: (UnitView, Map<usize, usize>)|
                #[trigger] reaches(
                    file_reader.instructions@,
                    views(file_reader.data@),
                    old(self).ctx.stack.stack_capacity as nat,
                    old(repo).repo_capacity as nat,
                    (old(self).ctx@, old(repo)@),
                    mid,
                    n,
                ) && (!mid.0.running || mid.0.pc == file_reader.instructions@.len()) && final(repo)@
                    == mid.1 && final(self).ctx@ == (UnitView {
                    pc: if mid.0.pc < usize::MAX {
                        (mid.0.pc + 1) as usize
                    } else {
                        mid.0.pc
                    },
                    ..mid.0
                }),
            (r is Ok && r->Ok_0 != Interrupt::Finished) ==> exists|
                n: nat,
                mid: (UnitView, Map<usize, usize>),
            |
                #[trigger] reaches(
                    file_reader.instructions@,
                    views(file_reader.data@),
                    old(self).ctx.stack.stack_capacity as nat,
                    old(repo).repo_capacity as nat,
                    (old(self).ctx@, old(repo)@),
                    mid,
                    n,
                ) && main_step(
                    file_reader.instructions@,
                    views(file_reader.data@),
                    old(self).ctx.stack.stack_capacity as nat,
                    old(repo).repo_capacity as nat,
                    mid,
                    (final(self).ctx@, final(repo)@),
                ) && interrupting(
                    file_reader.instructions@,
                    views(file_reader.data@),
                    old(self).ctx.stack.stack_capacity as nat,
                    old(repo).repo_capacity as nat,
                    mid,
                ) && ({
                    let op = file_reader.instructions@[mid.0.pc as int];
                    let o = core_step(
                        op,
                        fetched(views(file_reader.data@), mid.0),
                        old(self).ctx.stack.stack_capacity as nat,
                        mid.1,
                        old(repo).repo_capacity as nat,
                    ).2;
                    &&& (r->Ok_0 == Interrupt::Jumped <==> (op == JMPFD || op == JMPFS))
                    &&& r->Ok_0 matches Interrupt::Float(q) ==> o == Outcome::Float(q)
                    &&& r->Ok_0 matches Interrupt::Spawn { kind, number } ==> o == Outcome::Spawn(kind)
                }),
            r matches Err(f) ==> exists|n: nat, mid: (UnitView, Map<usize, usize>)|
                #[trigger] reaches(
                    file_reader.instructions@,
                    views(file_reader.data@),
                    old(self).ctx.stack.stack_capacity as nat,
                    old(repo).repo_capacity as nat,
                    (old(self).ctx@, old(repo)@),
                    mid,
                    n,
                ) && mid.0.running && mid.0.pc < file_reader.instructions@.len() && ({
                    let op = file_reader.instructions@[mid.0.pc as int];
                    let o = core_step(
                        op,
                        fetched(views(file_reader.data@), mid.0),
                        old(self).ctx.stack.stack_capacity as nat,
                        mid.1,
                        old(repo).repo_capacity as nat,
                    ).2;
                    &&& op != PRTFS && op != SWAP && op != PANIC
                    &&& o matches Outcome::Fault(Fault::Stack(e)) && f.code == fatal_code(e)
                }),
            r matches Ok(Interrupt::Spawn { kind, number }) ==> ({
                &&& kind == SpawnKind::Task ==> number == old(self).tasks && final(self).threads == old(
                    self,
                ).threads && final(self).tasks == if old(self).tasks < usize::MAX {
                    (old(self).tasks + 1) as usize
                } else {
                    old(self).tasks
                }
                &&& kind == SpawnKind::Thread ==> number == old(self).threads && final(self).tasks == old(
                    self,
                ).tasks && final(self).threads == if old(self).threads < usize::MAX {
                    (old(self).threads + 1) as usize
                } else {
                    old(self).threads
                }
            }),
            !(r matches Ok(Interrupt::Spawn { .. })) ==> final(self).tasks == old(self).tasks
                && final(self).threads == old(self).threads,
    {
        self.instructions = file_reader.instructions;
        self.data_vault = file_reader.data;
        let len = self.instructions.len();
        let ghost start = self.ctx@;
        let ghost repo0 = repo@;
        let ghost ops = file_reader.instructions@;
        let ghost data = views(file_reader.data@);
        let ghost cap = old(self).ctx.stack.stack_capacity as nat;
        let ghost rcap = old(repo).repo_capacity as nat;
        let ghost mut steps: nat = 0;
        proof {
            assert(reaches(ops, data, cap, rcap, (start, repo0), (self.ctx@, repo@), 0));
        }
        while self.ctx.pc < len && self.ctx.running
            invariant
                ops == file_reader.instructions@,
                data == views(file_reader.data@),
                cap == self.ctx.stack.stack_capacity,
                cap == old(self).ctx.stack.stack_capacity,
                rcap == repo.repo_capacity,
                start == old(self).ctx@,
                repo0 == old(repo)@,
                reaches(ops, data, cap, rcap, (start, repo0), (self.ctx@, repo@), steps),
                self.wf(),
                repo.wf(),
                repo.repo_capacity == old(repo).repo_capacity,
                self.ctx.stack.stack_capacity == old(self).ctx.stack.stack_capacity,
                len == self.instructions@.len(),
                self.instructions@ == file_reader.instructions@,
                views(self.data_vault@) == views(file_reader.data@),
                self.tasks == old(self).tasks,
                self.threads == old(self).threads,
            decreases len - self.ctx.pc,
        {
            let pc = self.ctx.pc;
            let ghost before = (self.ctx@, repo@);
            let op = self.instructions[pc];
            self.ctx.data = self.data_vault[pc].duplicate();
            self.instruction = op;
            self.ctx.pc = pc + 1;
            assert(self.ctx@.data == views(file_reader.data@)[pc as int]);
            assert(self.ctx@ == fetched(data, before.0));
            let res = self.instructor(op, repo);
            match res {
                Err(f) => {
                    return Err(f);
                },
                Ok(o) => {
                    proof {
                        assert(main_step(ops, data, cap, rcap, before, (self.ctx@, repo@)));
                    }
                    match o {
                        Outcome::Float(q) => {
                            return Ok(Interrupt::Float(q));
                        },
                        Outcome::Spawn(kind) => {
                            let number = match kind {
                                SpawnKind::Task => self.tasks,
                                SpawnKind::Thread => self.threads,
                            };
                            match kind {
                                SpawnKind::Task => {
                                    if self.tasks < usize::MAX {
                                        self.tasks = self.tasks + 1;
                                    }
                                },
                                SpawnKind::Thread => {
                                    if self.threads < usize::MAX {
                                        self.threads = self.threads + 1;
                                    }
                                },
                            }
                            return Ok(Interrupt::Spawn { kind, number });
                        },
                        _ => {
                            if op == JMPFD || op == JMPFS {
                                return Ok(Interrupt::Jumped);
                            }
                            proof {
                                assert(!interrupting(ops, data, cap, rcap, before));
                                steps = steps + 1;
                            }
                        },
                    }
                },
            }
        }
        if self.ctx.running && self.ctx.pc > len {
            let ghost before = (self.ctx@, repo@);
            self.panic();
            proof {
                assert(main_step(ops, data, cap, rcap, before, (self.ctx@, repo@)));
                assert(!interrupting(ops, data, cap, rcap, before));
                steps = steps + 1;
            }
        }
        let ghost mid = (self.ctx@, repo@);
        if self.ctx.pc < usize::MAX {
            self.ctx.pc = self.ctx.pc + 1;
        }
        proof {
            assert(reaches(ops, data, cap, rcap, (start, repo0), mid, steps));
        }
        Ok(Interrupt::Finished)
    }
}

} // verus!
