use squid_vm::heap::Pointer;
use squid_vm::immediates::Immediates;
use squid_vm::return_stack::{ReturnStack, ReturnType};
use squid_vm::stack::{StackError, VMStack};

#[test]
fn stack_is_last_in_first_out() {
    let mut s = VMStack::new(3);
    assert!(s.push(Immediates::Integer(1)).is_ok());
    assert!(s.push(Immediates::Integer(2)).is_ok());
    assert!(s.push(Immediates::Integer(3)).is_ok());
    assert_eq!(s.get_length(), 3);
    for expected in [3i64, 2, 1] {
        match s.pop() {
            Ok(Immediates::Integer(i)) => assert_eq!(i, expected),
            _ => panic!("wrong pop"),
        }
    }
    assert!(s.check_empty());
    assert_eq!(s.pop().err(), Some(StackError::Underflow));
}

#[test]
fn stack_overflow_reports_capacity() {
    let mut s = VMStack::new(1);
    assert!(s.push(Immediates::Null).is_ok());
    let e = s.push(Immediates::Null).unwrap_err();
    assert_eq!(e, StackError::Overflow { capacity: 1, size: 1 });
    assert_eq!(e.message(), "[ STACK OVERFLOW ] Stack Capacity: 1, Stack Size: 1");
    assert_eq!(StackError::Underflow.message(), "[ STACK UNDERFLOW ]");
    assert!(matches!(s.peek(), Some(Immediates::Null)));
}

#[test]
fn return_stack_round_trip() {
    let mut r = ReturnStack::new();
    assert!(r.check_empty());
    assert!(r.push(ReturnType::WithoutPointer(7)).is_ok());
    let p = Pointer { point_to: 4, is_fn: true, thread: None };
    assert!(r.push(ReturnType::WithPointer(p)).is_ok());
    assert_eq!(r.get_length(), 2);
    match r.pop() {
        Ok(ReturnType::WithPointer(q)) => assert_eq!(q, p),
        _ => panic!("wrong pop"),
    }
    match r.pop() {
        Ok(ReturnType::WithoutPointer(a)) => assert_eq!(a, 7),
        _ => panic!("wrong pop"),
    }
    assert!(matches!(r.pop(), Err(StackError::Underflow)));
}

#[test]
fn return_stack_fills_at_five_hundred() {
    let mut r = ReturnStack::new();
    for i in 0..500 {
        assert!(r.push(ReturnType::WithoutPointer(i)).is_ok());
    }
    assert!(matches!(
        r.push(ReturnType::WithoutPointer(0)),
        Err(StackError::Overflow { capacity: 500, size: 500 })
    ));
}
