//! Spawned execution units: each runs its own program against its own context
//! and the shared repository, and reports its failure at join time.
use vstd::prelude::*;
use vstd::string::*;

use crate::immediates::{ImmView, Immediates};
use crate::instructions::{HALT, I_ADD, JMPFD, JMPFS, NTASK, NTHRD, PANIC, PDTS};
use crate::loader::{views, FileReader};
use crate::repository::VMRepository;
use crate::stack::STACK_SIZE;
use crate::text::push_decimal;
use crate::dispatch::{
    core_step, execute, fault_text, with_stack, Context, Fault, FloatRequest, Outcome, SpawnKind, UnitView,
};
use crate::vm::fetched;

verus! {

/// Why a spawned unit handed control back.
pub enum Progress {
    /// The unit is done: `Err` holds its failure report.
    Finished(Result<(), String>),
    /// Float arithmetic is needed; push its result with `resume_float`.
    Float(FloatRequest),
    /// A jump was taken; call `advance` again to go on.
    Jumped,
}

/// A spawned execution unit.
pub struct VMThread {
    pub ctx: Context,
    pub instruction: u8,
    pub instructions: Vec<u8>,
    pub data_vault: Vec<Immediates>,
    /// Task or thread.
    pub kind: SpawnKind,
    /// Its number among the units of its kind.
    pub number: usize,
    /// The failure report, once the unit failed.
    pub error: Option<String>,
}

/// Length of the built-in program a spawned unit of `kind` runs.
pub open spec fn demo_len(kind: SpawnKind) -> int {
    match kind {
        SpawnKind::Task => 18,
        SpawnKind::Thread => 22,
    }
}

/// The opcodes of the built-in program: four times `PDTS, PDTS, I_ADD, 0x14`,
/// then `I_ADD` (once for a task, five times for a thread), then HALT.
pub open spec fn demo_opcodes(kind: SpawnKind) -> Seq<u8> {
    Seq::new(
        demo_len(kind) as nat,
        |j: int|
            if j < 16 {
                seq![PDTS, PDTS, I_ADD, 0x14u8][j % 4]
            } else if j == demo_len(kind) - 1 {
                HALT
            } else {
                I_ADD
            },
    )
}

/// The operands of the built-in program: `Integer(1)` for each PDTS, `Null` elsewhere.
pub open spec fn demo_operands(kind: SpawnKind) -> Seq<ImmView> {
    Seq::new(
        demo_len(kind) as nat,
        |j: int|
            if j < 16 {
                seq![ImmView::Integer(1), ImmView::Integer(1), ImmView::Null, ImmView::Null][j % 4]
            } else {
                ImmView::Null
            },
    )
}

/// The built-in program that a spawned unit of `kind` runs.
pub fn demo_program(kind: SpawnKind) -> (r: FileReader)
    ensures
        r.wf(),
        r.instructions@ == demo_opcodes(kind),
        views(r.data@) == demo_operands(kind),
{
    let mut instructions: Vec<u8> = Vec::new();
    let mut data: Vec<Immediates> = Vec::new();
    let mut k: usize = 0;
    while k < 4
        invariant
            k <= 4,
            instructions@.len() == 4 * k,
            data@.len() == 4 * k,
            forall|j: int| 0 <= j < 4 * k ==> instructions@[j] == seq![PDTS, PDTS, I_ADD, 0x14u8][j % 4],
            forall|j: int| 0 <= j < 4 * k ==> data@[j]@ == seq![ImmView::Integer(1), ImmView::Integer(1), ImmView::Null, ImmView::Null][j % 4],
        decreases 4 - k,
    {
        instructions.push(PDTS);
        instructions.push(PDTS);
        instructions.push(I_ADD);
        instructions.push(0x14);
        data.push(Immediates::Integer(1));
        data.push(Immediates::Integer(1));
        data.push(Immediates::Null);
        data.push(Immediates::Null);
        k = k + 1;
    }
    let tail: usize = match kind {
        SpawnKind::Task => 1,
        SpawnKind::Thread => 5,
    };
    let mut t: usize = 0;
    while t < tail
        invariant
            t <= tail,
            tail <= 5,
            instructions@.len() == 16 + t,
            data@.len() == 16 + t,
            forall|j: int| 0 <= j < 16 ==> instructions@[j] == seq![PDTS, PDTS, I_ADD, 0x14u8][j % 4],
            forall|j: int| 0 <= j < 16 ==> data@[j]@ == seq![ImmView::Integer(1), ImmView::Integer(1), ImmView::Null, ImmView::Null][j % 4],
            forall|j: int| 16 <= j < 16 + t ==> instructions@[j] == I_ADD,
            forall|j: int| 16 <= j < 16 + t ==> #[trigger] data@[j]@ == ImmView::Null,
        decreases tail - t,
    {
        instructions.push(I_ADD);
        data.push(Immediates::Null);
        t = t + 1;
    }
    instructions.push(HALT);
    data.push(Immediates::Null);
    let r = FileReader { instructions, data };
    assert(r.instructions@ =~= demo_opcodes(kind));
    assert forall|j: int| 0 <= j < r.data@.len() implies views(r.data@)[j] == demo_operands(kind)[j] by {
        if j < 16 {
            assert(r.data@[j]@ == seq![ImmView::Integer(1), ImmView::Integer(1), ImmView::Null, ImmView::Null][j % 4]);
        } else if j < r.data@.len() - 1 {
            assert(r.data@[j]@ == ImmView::Null);
        }
    }
    assert(views(r.data@) =~= demo_operands(kind));
    r
}

/// The report of a spawned unit's failure.
pub open spec fn failure_prefix(kind: SpawnKind) -> Seq<char> {
    match kind {
        SpawnKind::Task => "Task "@,
        SpawnKind::Thread => "Thread "@,
    }
}

/// One instruction of a spawned unit, from state `a` to state `b` (context and
/// repository entries). An instruction a spawned unit may not run, or a fault,
/// stops the unit.
pub open spec fn unit_step(
    ops: Seq<u8>,
    data: Seq<ImmView>,
    cap: nat,
    rcap: nat,
    a: (UnitView, Map<usize, usize>),
    b: (UnitView, Map<usize, usize>),
) -> bool {
    let u = a.0;
    &&& u.running
    &&& u.pc < ops.len()
    &&& u.pc < data.len()
    &&& {
        let f = fetched(data, u);
        let op = ops[u.pc as int];
        if op == NTHRD || op == NTASK || op == PANIC {
            b.0 == (UnitView { running: false, ..f }) && b.1 == a.1
        } else {
            let (v, m, o) = core_step(op, f, cap, a.1, rcap);
            &&& b.1 == m
            &&& match o {
                Outcome::Fault(_) => b.0 == (UnitView { running: false, ..v }),
                _ => b.0 == v,
            }
        }
    }
}

/// Whether `n` consecutive instructions of a spawned unit lead from `a` to `b`.
pub open spec fn unit_reaches(
    ops: Seq<u8>,
    data: Seq<ImmView>,
    cap: nat,
    rcap: nat,
    a: (UnitView, Map<usize, usize>),
    b: (UnitView, Map<usize, usize>),
    n: nat,
) -> bool
    decreases n,
{
    if n == 0 {
        a == b
    } else {
        exists|mid: (UnitView, Map<usize, usize>)|
            unit_reaches(ops, data, cap, rcap, a, mid, (n - 1) as nat) && #[trigger] unit_step(
                ops,
                data,
                cap,
                rcap,
                mid,
                b,
            )
    }
}

impl VMThread {
    pub open spec fn wf(&self) -> bool {
        &&& self.ctx.wf()
        &&& self.instructions@.len() == self.data_vault@.len()
    }

    /// A running unit of `kind`, numbered `number`, over a program.
    pub fn new(program: FileReader, stack_size: usize, kind: SpawnKind, number: usize) -> (r: VMThread)
        requires
            program.wf(),
            stack_size <= STACK_SIZE,
        ensures
            r.wf(),
            r.ctx@.running,
            r.ctx@.pc == 0,
            r.ctx@.stack.len() == 0,
            r.instructions@ == program.instructions@,
            r.error is None,
    {
        VMThread {
            ctx: Context::new(stack_size),
            instruction: 0,
            instructions: program.instructions,
            data_vault: program.data,
            kind,
            number,
            error: None,
        }
    }

    /// Executes one instruction; a spawned unit cannot spawn threads, and has
    /// no task spawning or panic instruction. A fault is returned as its text.
    pub fn instructor(&mut self, instruction: u8, repo: &mut VMRepository) -> (r: Result<Outcome, String>)
        requires
            old(self).wf(),
            old(repo).wf(),
        ensures
            final(self).wf(),
            final(repo).wf(),
            final(repo).repo_capacity == old(repo).repo_capacity,
            final(self).ctx.stack.stack_capacity == old(self).ctx.stack.stack_capacity,
            final(self).instructions == old(self).instructions,
            final(self).data_vault == old(self).data_vault,
            final(self).error == old(self).error,
            !(instruction == JMPFD || instruction == JMPFS) ==> final(self).ctx.pc == old(self).ctx.pc,
            instruction == NTHRD ==> (r matches Err(m) && m@
                == "Threads cannot be created inside other tasks/threads!"@),
            instruction == NTASK || instruction == PANIC ==> (r matches Err(m) && m@ == fault_text(
                Fault::Unknown,
            )),
            instruction == NTHRD || instruction == NTASK || instruction == PANIC ==> (final(self).ctx@
                == old(self).ctx@ && final(repo)@ == old(repo)@),
            !(instruction == NTHRD || instruction == NTASK || instruction == PANIC) ==> ({
                let (u, m, o) = core_step(
                    instruction,
                    old(self).ctx@,
                    old(self).ctx.stack.stack_capacity as nat,
                    old(repo)@,
                    old(repo).repo_capacity as nat,
                );
                &&& final(self).ctx@ == u
                &&& final(repo)@ == m
                &&& match o {
                    Outcome::Fault(f) => r matches Err(m) && m@ == fault_text(f),
                    _ => r == Ok::<Outcome, String>(o),
                }
            }),
    {
        if instruction == NTHRD {
            return Err(String::from_str("Threads cannot be created inside other tasks/threads!"));
        }
        if instruction == NTASK || instruction == PANIC {
            return Err(Fault::Unknown.message());
        }
        match execute(&mut self.ctx, instruction, repo) {
            Outcome::Fault(f) => Err(f.message()),
            o => Ok(o),
        }
    }

    /// Records a failure and stops the unit.
    fn fail(&mut self, message: String)
        requires
            old(self).wf(),
        ensures
            final(self).wf(),
            final(self).instructions == old(self).instructions,
            final(self).data_vault == old(self).data_vault,
            final(self).ctx.stack == old(self).ctx.stack,
            final(self).ctx.pc == old(self).ctx.pc,
            !final(self).ctx.running,
            final(self).ctx@ == (UnitView { running: false, ..old(self).ctx@ }),
            final(self).error matches Some(e) && e@ == failure_prefix(old(self).kind)
                + crate::text::nat_digits(old(self).number as nat) + " error: "@ + message@,
    {
        proof {
            reveal_strlit("Task ");
            reveal_strlit("Thread ");
        }
        let mut e = match self.kind {
            SpawnKind::Task => String::from_str("Task "),
            SpawnKind::Thread => String::from_str("Thread "),
        };
        push_decimal(&mut e, self.number as u64);
        e.append(" error: ");
        e.append(message.as_str());
        self.error = Some(e);
        self.ctx.running = false;
    }

    /// Pushes the result of the float arithmetic an instruction asked for; a
    /// full stack fails the unit.
    pub fn resume_float(&mut self, bits: u64)
        requires
            old(self).wf(),
        ensures
            final(self).wf(),
            final(self).instructions == old(self).instructions,
            old(self).ctx@.stack.len() < old(self).ctx.stack.stack_capacity ==> final(self).ctx@
                == with_stack(old(self).ctx@, old(self).ctx@.stack.push(ImmView::Float(bits))),
            old(self).ctx@.stack.len() >= old(self).ctx.stack.stack_capacity ==> !final(self).ctx.running
                && final(self).error is Some,
    {
        match self.ctx.stack.push(Immediates::Float(bits)) {
            Ok(()) => {
                assert(self.ctx@.stack =~= old(self).ctx@.stack.push(ImmView::Float(bits)));
            },
            Err(e) => {
                let m = e.message();
                self.fail(m);
            },
        }
    }

    /// Runs the unit until it halts, fails or reaches the end of its program,
    /// or until a jump is taken or float arithmetic is needed. A unit that
    /// reaches the end of its program without halting fails.
    pub fn advance(&mut self, repo: &mut VMRepository) -> (r: Progress)
        requires
            old(self).wf(),
            old(repo).wf(),
        ensures
            final(self).wf(),
            final(repo).wf(),
            final(repo).repo_capacity == old(repo).repo_capacity,
            final(self).instructions == old(self).instructions,
            r matches Progress::Finished(res) ==> (!final(self).ctx.running && (res is Ok <==> final(self).error is None)),
            r matches Progress::Float(_) ==> final(self).ctx.running,
            !old(self).ctx.running ==> (r matches Progress::Finished(_) && final(self).ctx@.stack == old(
                self,
            ).ctx@.stack && final(self).ctx@.output == old(self).ctx@.output && final(repo)@ == old(repo)@),
            exists|n: nat, mid: (UnitView, Map<usize, usize>)|
                #[trigger] unit_reaches(
                    old(self).instructions@,
                    views(old(self).data_vault@),
                    old(self).ctx.stack.stack_capacity as nat,
                    old(repo).repo_capacity as nat,
                    (old(self).ctx@, old(repo)@),
                    mid,
                    n,
                ) && final(repo)@ == mid.1 && if r is Finished {
                    &&& !mid.0.running || mid.0.pc >= old(self).instructions@.len()
                    &&& final(self).ctx@ == (UnitView { running: false, ..mid.0 })
                } else {
                    n > 0 && final(self).ctx@ == mid.0
                },
    {
        let len = self.instructions.len();
        let ghost start = self.ctx@;
        let ghost repo0 = repo@;
        let ghost ops = self.instructions@;
        let ghost data = views(self.data_vault@);
        let ghost cap = old(self).ctx.stack.stack_capacity as nat;
        let ghost rcap = old(repo).repo_capacity as nat;
        let ghost mut steps: nat = 0;
        proof {
            assert(unit_reaches(ops, data, cap, rcap, (start, repo0), (self.ctx@, repo@), 0));
        }
        while self.ctx.pc < len && self.ctx.running
            invariant
                self.wf(),
                repo.wf(),
                repo.repo_capacity == old(repo).repo_capacity,
                len == self.instructions@.len(),
                self.instructions == old(self).instructions,
                self.data_vault == old(self).data_vault,
                ops == self.instructions@,
                data == views(self.data_vault@),
                cap == self.ctx.stack.stack_capacity,
                cap == old(self).ctx.stack.stack_capacity,
                rcap == repo.repo_capacity,
                start == old(self).ctx@,
                repo0 == old(repo)@,
                unit_reaches(ops, data, cap, rcap, (start, repo0), (self.ctx@, repo@), steps),
                !old(self).ctx.running ==> !self.ctx.running && self.ctx@.stack == start.stack
                    && self.ctx@.output == start.output && repo@ == repo0,
            decreases len - self.ctx.pc,
        {
            let pc = self.ctx.pc;
            let ghost before = (self.ctx@, repo@);
            let op = self.instructions[pc];
            self.ctx.data = self.data_vault[pc].duplicate();
            self.instruction = op;
            self.ctx.pc = pc + 1;
            let ghost before_v = self.ctx@;
            assert(self.ctx@ == fetched(data, before.0));
            let res = self.instructor(op, repo);
            match res {
                Err(e) => {
                    let ghost mid_v = self.ctx@;
                    self.fail(e);
                    proof {
                        if !(op == NTHRD || op == NTASK || op == PANIC) {
                            let (v, m, o) = core_step(op, before_v, cap, before.1, rcap);
                            assert(o is Fault);
                            assert(mid_v == v);
                            assert(repo@ == m);
                        }
                        assert(unit_step(ops, data, cap, rcap, before, (self.ctx@, repo@)));
                        steps = steps + 1;
                    }
                },
                Ok(o) => {
                    proof {
                        assert(unit_step(ops, data, cap, rcap, before, (self.ctx@, repo@)));
                        assert(unit_reaches(ops, data, cap, rcap, (start, repo0), before, steps));
                        steps = steps + 1;
                        assert(unit_reaches(ops, data, cap, rcap, (start, repo0), (self.ctx@, repo@), steps));
                    }
                    match o {
                        Outcome::Float(q) => {
                            return Progress::Float(q);
                        },
                        _ => {
                            if op == JMPFD || op == JMPFS {
                                return Progress::Jumped;
                            }
                        },
                    }
                },
            }
        }
        if self.ctx.running {
            proof {
                reveal_strlit("[ PROGRAM COUNTER OUT OF RANGE ]");
            }
            self.fail(String::from_str("[ PROGRAM COUNTER OUT OF RANGE ]"));
        }
        match &self.error {
            Some(e) => Progress::Finished(Err(e.clone())),
            None => Progress::Finished(Ok(())),
        }
    }
}

} // verus!
