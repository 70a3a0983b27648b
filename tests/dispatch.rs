use squid_vm::immediates::Immediates;
use squid_vm::instructions::{
    AVP, D_VFD, F_ADD, HALT, I_ADD, I_DVD, JMPFD, NTASK, PANIC, PDTS, PEEK, PRTFS, SWAP,
};
use squid_vm::loader::FileReader;
use squid_vm::repository::VMRepository;
use squid_vm::dispatch::{FloatRequest, PrintMessage, SpawnKind};
use squid_vm::vm::{Interrupt, VMStarter};
use squid_vm::vm_threads::{demo_program, Progress, VMThread};

fn prog(items: Vec<(u8, Immediates)>) -> FileReader {
    let mut instructions = Vec::new();
    let mut data = Vec::new();
    for (op, v) in items {
        instructions.push(op);
        data.push(v);
    }
    FileReader { instructions, data }
}

fn float_result(q: FloatRequest) -> u64 {
    let r: f64 = match q {
        FloatRequest::Binary { op, lhs, rhs } => {
            let (a, b) = (f64::from_bits(lhs), f64::from_bits(rhs));
            match op {
                0x06 => a + b,
                0x07 => a - b,
                0x08 => a * b,
                0x09 => a / b,
                _ => a.powf(b),
            }
        }
        FloatRequest::PowInt { base, exp } => f64::from_bits(base).powi(exp as i32),
        FloatRequest::Quotient { num, den } => num as f64 / den as f64,
    };
    r.to_bits()
}

/// Runs the primary unit to the end; returns the spawn requests met on the way.
fn run(vm: &mut VMStarter, p: &FileReader, repo: &mut VMRepository) -> Vec<(SpawnKind, usize)> {
    let mut spawned = Vec::new();
    while vm.running() {
        let copy = p.duplicate();
        match vm.interpreter(copy, repo) {
            Ok(Interrupt::Float(q)) => {
                vm.resume_float(float_result(q)).ok().unwrap();
            }
            Ok(Interrupt::Spawn { kind, number }) => spawned.push((kind, number)),
            Ok(_) => {}
            Err(f) => panic!("fatal {}: {}", f.code, f.message),
        }
    }
    spawned
}

fn printed(vm: &VMStarter) -> Vec<String> {
    vm.ctx
        .output
        .iter()
        .filter_map(|m| match m {
            PrintMessage::Print(s) => Some(s.clone()),
            PrintMessage::PrintFloat(b) => Some(f64::from_bits(*b).to_string()),
            _ => None,
        })
        .collect()
}

#[test]
fn add_then_print_then_halt() {
    let p = prog(vec![
        (PDTS, Immediates::Integer(10)),
        (PDTS, Immediates::Integer(12)),
        (I_ADD, Immediates::Null),
        (PRTFS, Immediates::Null),
        (HALT, Immediates::Null),
    ]);
    let mut vm = VMStarter::new(16);
    let mut repo = VMRepository::new(4);
    run(&mut vm, &p, &mut repo);
    assert!(!vm.running());
    assert_eq!(printed(&vm), vec!["22".to_string()]);
    assert_eq!(vm.ctx.stack.top, 0);
}

#[test]
fn add_then_null_then_print() {
    let p = prog(vec![
        (PDTS, Immediates::Integer(10)),
        (PDTS, Immediates::Integer(12)),
        (I_ADD, Immediates::Null),
        (PDTS, Immediates::Null),
        (PRTFS, Immediates::Null),
        (HALT, Immediates::Null),
    ]);
    let mut vm = VMStarter::new(16);
    let mut repo = VMRepository::new(4);
    run(&mut vm, &p, &mut repo);
    assert!(!vm.running());
    assert_eq!(printed(&vm), vec!["Null".to_string()]);
    assert!(matches!(vm.ctx.stack.get(0), Immediates::Integer(22)));
}

#[test]
fn integer_division_exact_or_float() {
    let p = prog(vec![
        (PDTS, Immediates::Integer(7)),
        (PDTS, Immediates::Integer(2)),
        (I_DVD, Immediates::Null),
        (PDTS, Immediates::Integer(6)),
        (PDTS, Immediates::Integer(2)),
        (I_DVD, Immediates::Null),
        (HALT, Immediates::Null),
    ]);
    let mut vm = VMStarter::new(16);
    let mut repo = VMRepository::new(4);
    run(&mut vm, &p, &mut repo);
    assert_eq!(vm.ctx.stack.top, 2);
    assert!(matches!(vm.ctx.stack.get(0), Immediates::Float(b) if f64::from_bits(*b) == 3.5));
    assert!(matches!(vm.ctx.stack.get(1), Immediates::Integer(3)));
}

#[test]
fn float_addition_goes_through_caller() {
    let p = prog(vec![
        (PDTS, Immediates::Float(1.25f64.to_bits())),
        (PDTS, Immediates::Float(2.0f64.to_bits())),
        (F_ADD, Immediates::Null),
        (PRTFS, Immediates::Null),
        (HALT, Immediates::Null),
    ]);
    let mut vm = VMStarter::new(16);
    let mut repo = VMRepository::new(4);
    run(&mut vm, &p, &mut repo);
    assert_eq!(printed(&vm), vec!["3.25".to_string()]);
}

#[test]
fn halt_stops_before_the_end() {
    let p = prog(vec![
        (PDTS, Immediates::Integer(1)),
        (HALT, Immediates::Null),
        (PRTFS, Immediates::Null),
        (PDTS, Immediates::Integer(2)),
    ]);
    let mut vm = VMStarter::new(16);
    let mut repo = VMRepository::new(4);
    run(&mut vm, &p, &mut repo);
    assert!(!vm.running());
    assert!(printed(&vm).is_empty());
    assert_eq!(vm.ctx.stack.top, 1);
    let r = vm.interpreter(p.duplicate(), &mut repo);
    assert!(matches!(r, Ok(Interrupt::Finished)));
    assert_eq!(vm.ctx.stack.top, 1);
    assert!(vm.ctx.output.is_empty());
}

#[test]
fn unknown_opcode_panics_the_unit() {
    let p = prog(vec![(0x14, Immediates::Null), (PDTS, Immediates::Integer(5))]);
    let mut vm = VMStarter::new(16);
    let mut repo = VMRepository::new(4);
    run(&mut vm, &p, &mut repo);
    assert!(!vm.running());
    assert!(matches!(vm.ctx.stack.get(0), Immediates::MutStr(s) if s == "[ UNKNOWN INSTRUCTION ]"));
    assert!(matches!(&vm.ctx.output[0], PrintMessage::Error(s) if s == "Main thread panicked"));
    assert!(matches!(&vm.ctx.output[1], PrintMessage::StackDump { top: 1, .. }));
    assert!(matches!(&vm.ctx.output[2], PrintMessage::Trace(s) if s == "Program Counter: 1"));
    assert!(matches!(&vm.ctx.output[3], PrintMessage::Trace(s) if s == "Last instruction: 0x14"));
}

#[test]
fn underflow_in_primary_unit_is_fatal() {
    let p = prog(vec![(I_ADD, Immediates::Null)]);
    let mut vm = VMStarter::new(16);
    let mut repo = VMRepository::new(4);
    match vm.interpreter(p, &mut repo) {
        Err(f) => {
            assert_eq!(f.code, 11);
            assert_eq!(f.message, "Stack error: [ STACK UNDERFLOW ]");
        }
        _ => panic!("expected a fatal error"),
    }
}

#[test]
fn print_on_empty_stack_panics_without_exit() {
    let p = prog(vec![(PRTFS, Immediates::Null)]);
    let mut vm = VMStarter::new(16);
    let mut repo = VMRepository::new(4);
    run(&mut vm, &p, &mut repo);
    assert!(matches!(&vm.ctx.output[0], PrintMessage::Error(s) if s == "[ STACK UNDERFLOW ]"));
    assert!(matches!(&vm.ctx.output[1], PrintMessage::Error(s) if s == "Main thread panicked"));
}

#[test]
fn swap_peek_and_variables() {
    let p = prog(vec![
        (PDTS, Immediates::UInteger(3)),
        (PDTS, Immediates::UInteger(40)),
        (AVP, Immediates::Null),
        (D_VFD, Immediates::UInteger(3)),
        (PEEK, Immediates::Null),
        (PDTS, Immediates::Integer(1)),
        (PDTS, Immediates::Integer(2)),
        (SWAP, Immediates::Null),
        (PEEK, Immediates::Null),
        (HALT, Immediates::Null),
    ]);
    let mut vm = VMStarter::new(16);
    let mut repo = VMRepository::new(4);
    run(&mut vm, &p, &mut repo);
    assert_eq!(repo.get_var(3), Ok(40));
    assert!(matches!(&vm.ctx.output[0], PrintMessage::PrintLine(s) if s == "Pointer: 40"));
    assert!(matches!(&vm.ctx.output[1], PrintMessage::Warn(s) if s == "Stack is empty, can't peek"));
    assert!(matches!(vm.ctx.stack.get(0), Immediates::Integer(2)));
    assert!(matches!(vm.ctx.stack.get(1), Immediates::Integer(1)));
    assert!(matches!(vm.ctx.data_register, Immediates::Integer(1)));
}

#[test]
fn jump_skips_instructions() {
    let p = prog(vec![
        (JMPFD, Immediates::UInteger(2)),
        (PDTS, Immediates::Integer(9)),
        (PDTS, Immediates::Integer(4)),
        (PRTFS, Immediates::Null),
        (HALT, Immediates::Null),
    ]);
    let mut vm = VMStarter::new(16);
    let mut repo = VMRepository::new(4);
    run(&mut vm, &p, &mut repo);
    assert_eq!(printed(&vm), vec!["4".to_string()]);
}

#[test]
fn panic_instruction_halts() {
    let p = prog(vec![(PDTS, Immediates::Integer(1)), (PANIC, Immediates::Null), (PRTFS, Immediates::Null)]);
    let mut vm = VMStarter::new(16);
    let mut repo = VMRepository::new(4);
    run(&mut vm, &p, &mut repo);
    assert!(!vm.running());
    assert!(printed(&vm).is_empty());
    match &vm.ctx.output[1] {
        PrintMessage::StackDump { contents, capacity, top } => {
            assert_eq!((*capacity, *top), (16, 1));
            assert!(matches!(contents[0], Immediates::Integer(1)));
        }
        _ => panic!("expected a stack dump"),
    }
    assert!(matches!(&vm.ctx.output[2], PrintMessage::Trace(s) if s == "Program Counter: 2"));
    assert!(matches!(&vm.ctx.output[3], PrintMessage::Trace(s) if s == "Last instruction: 0x1B"));
}

fn run_unit(mut unit: VMThread, repo: &mut VMRepository) -> Result<(), String> {
    loop {
        match unit.advance(repo) {
            Progress::Finished(r) => return r,
            Progress::Float(q) => unit.resume_float(float_result(q)),
            Progress::Jumped => {}
        }
    }
}

#[test]
fn two_spawned_tasks_join_in_order() {
    let p = prog(vec![
        (NTASK, Immediates::Boolean(true)),
        (NTASK, Immediates::Boolean(false)),
        (NTASK, Immediates::Boolean(true)),
        (HALT, Immediates::Null),
    ]);
    let mut vm = VMStarter::new(16);
    let mut repo = VMRepository::new(4);
    let spawned = run(&mut vm, &p, &mut repo);
    assert_eq!(spawned, vec![(SpawnKind::Task, 0), (SpawnKind::Task, 1)]);
    let repo = std::sync::Arc::new(std::sync::RwLock::new(repo));
    let mut handles = Vec::new();
    for (kind, number) in spawned.iter().rev() {
        let repo = std::sync::Arc::clone(&repo);
        let (kind, number) = (*kind, *number);
        handles.push(async_std::task::spawn(async move {
            let unit = VMThread::new(demo_program(kind), 100, kind, number);
            let mut guard = repo.write().unwrap();
            run_unit(unit, &mut guard)
        }));
    }
    handles.reverse();
    let results: Vec<Result<(), String>> = async_std::task::block_on(async {
        let mut out = Vec::new();
        for h in handles {
            out.push(h.await);
        }
        out
    });
    assert_eq!(
        results,
        vec![
            Err("Task 0 error: [ UNKNOWN INSTRUCTION ]".to_string()),
            Err("Task 1 error: [ UNKNOWN INSTRUCTION ]".to_string()),
        ]
    );
}

#[test]
fn past_the_end_jump_panics() {
    let p = prog(vec![(JMPFD, Immediates::UInteger(9)), (HALT, Immediates::Null)]);
    let mut vm = VMStarter::new(16);
    let mut repo = VMRepository::new(4);
    run(&mut vm, &p, &mut repo);
    assert!(!vm.running());
    assert!(matches!(&vm.ctx.output[0], PrintMessage::Error(s) if s == "Main thread panicked"));
    assert!(matches!(&vm.ctx.output[2], PrintMessage::Trace(s) if s == "Program Counter: 9"));
    assert_eq!(vm.ctx.output.len(), 3);
}

#[test]
fn spawned_unit_error_texts() {
    let mut repo = VMRepository::new(4);
    let mut t = VMThread::new(prog(vec![(HALT, Immediates::Null)]), 10, SpawnKind::Task, 0);
    assert_eq!(t.instructor(I_ADD, &mut repo), Err("[ STACK UNDERFLOW ]".to_string()));
    assert_eq!(t.instructor(0x14, &mut repo), Err("[ UNKNOWN INSTRUCTION ]".to_string()));
    assert_eq!(
        t.instructor(0x1A, &mut repo),
        Err("Threads cannot be created inside other tasks/threads!".to_string())
    );
    t.ctx.data = Immediates::Boolean(true);
    assert!(t.instructor(PDTS, &mut repo).is_ok());
    t.ctx.data = Immediates::Integer(1);
    assert!(t.instructor(PDTS, &mut repo).is_ok());
    assert_eq!(t.instructor(I_ADD, &mut repo), Err("[ NO INTEGERS ]".to_string()));
}

#[test]
fn spawned_unit_cannot_spawn_threads() {
    let p = prog(vec![(0x1A, Immediates::Boolean(true)), (HALT, Immediates::Null)]);
    let mut repo = VMRepository::new(4);
    let unit = VMThread::new(p, 10, SpawnKind::Thread, 3);
    assert_eq!(
        run_unit(unit, &mut repo),
        Err("Thread 3 error: Threads cannot be created inside other tasks/threads!".to_string())
    );
    let ok = prog(vec![(PDTS, Immediates::Integer(1)), (HALT, Immediates::Null)]);
    assert_eq!(run_unit(VMThread::new(ok, 10, SpawnKind::Task, 0), &mut repo), Ok(()));
    let no_halt = prog(vec![(PDTS, Immediates::Integer(1))]);
    assert_eq!(
        run_unit(VMThread::new(no_halt, 10, SpawnKind::Task, 1), &mut repo),
        Err("Task 1 error: [ PROGRAM COUNTER OUT OF RANGE ]".to_string())
    );
}

#[test]
fn call_frames_swap_stacks() {
    let mut vm = VMStarter::new(16);
    assert!(!vm.pop_frame());
    vm.push_frame(4);
    assert_eq!(vm.ctx.stack.stack_capacity, 4);
    assert_eq!(vm.function_stack.len(), 1);
    assert!(vm.pop_frame());
    assert_eq!(vm.ctx.stack.stack_capacity, 16);
    assert!(vm.function_stack.is_empty());
}

#[test]
fn built_in_programs() {
    let t = demo_program(SpawnKind::Task);
    assert_eq!(
        t.instructions,
        vec![0x0A, 0x0A, 0x01, 0x14, 0x0A, 0x0A, 0x01, 0x14, 0x0A, 0x0A, 0x01, 0x14, 0x0A, 0x0A, 0x01, 0x14, 0x01, 0]
    );
    let th = demo_program(SpawnKind::Thread);
    assert_eq!(th.instructions.len(), 22);
    assert_eq!(th.data.len(), 22);
    assert!(matches!(th.data[0], Immediates::Integer(1)));
}
