use squid_vm::heap::{read_value, Colors, HeapError, VMHeap};
use squid_vm::immediates::{Immediates, ImmediatesType};
use squid_vm::repository::{RepoError, VMRepository};

#[test]
fn heap_round_trip_keeps_bytes() {
    let mut h = VMHeap::new(1024);
    let a = h.malloc(0, &Immediates::Integer(-5)).unwrap();
    assert_eq!(a.size, 8);
    assert_eq!(a.immediate_type, ImmediatesType::Integer);
    assert_eq!(h.free, 1016);
    let o = h.get_obj(a).unwrap();
    assert_eq!(o.data, (-5i64).to_le_bytes().to_vec());
    assert_eq!(o.marked, Colors::White);
    let b = h.malloc(0, &Immediates::Boolean(true)).unwrap();
    assert_eq!(b.size, 1);
    assert_eq!(h.get_obj(b).unwrap().data, vec![1u8]);
    let c = h.malloc(0, &Immediates::MutStr("abc".to_string())).unwrap();
    assert_eq!(h.get_obj(c).unwrap().data, b"abc".to_vec());
    assert_eq!(h.free, 1024 - 8 - 1 - 3);
}

#[test]
fn heap_overflow_and_free() {
    let mut h = VMHeap::new(10);
    let a = h.malloc(0, &Immediates::UInteger(1)).unwrap();
    assert_eq!(h.free, 2);
    assert_eq!(h.malloc(0, &Immediates::UInteger(2)).err(), Some(HeapError::Overflow));
    assert_eq!(h.malloc(5, &Immediates::Null).err(), Some(HeapError::UnknownRegion));
    h.free(a);
    assert_eq!(h.free, 10);
    assert!(h.get_obj(a).is_none());
    h.free(a);
    assert_eq!(h.free, 10);
}

#[test]
fn heap_regions_get_fresh_keys() {
    let mut h = VMHeap::new_empty(64);
    assert_eq!(h.allocate_global_region(), 0);
    assert_eq!(h.allocate_thread_region(), 1);
    assert_eq!(h.allocate_task_region(), 2);
    assert_eq!(h.threads, 1);
    assert_eq!(h.tasks, 1);
    assert_eq!(h.heap[1].as_ref().unwrap().assigned_thread, Some(1));
    assert_eq!(h.find_first_index(), (3, 3));
    let a = h.malloc(2, &Immediates::Null).unwrap();
    assert_eq!(a.size, 32);
    assert_eq!(a.region, 2);
}

#[test]
fn repository_operations() {
    let mut r = VMRepository::new(2);
    assert_eq!(r.get_var(1), Err(RepoError::UndefinedVariable));
    assert_eq!(r.pop_var(1), Err(RepoError::Empty));
    assert!(r.add_var(1, 100).is_ok());
    assert!(r.add_var(1, 101).is_ok());
    assert_eq!(r.get_var(1), Ok(101));
    assert!(r.add_var(2, 200).is_ok());
    assert_eq!(r.add_var(3, 300), Err(RepoError::CapacityExceeded));
    assert_eq!(r.add_var(1, 5), Err(RepoError::CapacityExceeded));
    assert_eq!(r.pop_var(9), Err(RepoError::UndefinedVariable));
    assert_eq!(r.pop_var(2), Ok(200));
    assert_eq!(r.remove_var(2), Err(RepoError::UndefinedVariable));
    assert!(r.remove_var(1).is_ok());
    assert!(r.add_var(4, 4).is_ok());
    r.clear_repo();
    assert_eq!(r.get_var(4), Err(RepoError::UndefinedVariable));
}

#[test]
fn stored_bytes_decode_to_the_value() {
    let mut h = VMHeap::new(4096);
    let values = vec![
        Immediates::Integer(-123456789),
        Immediates::UInteger(u64::MAX),
        Immediates::Float(6.25f64.to_bits()),
        Immediates::Boolean(false),
        Immediates::Null,
        Immediates::MutStr("héllo".to_string()),
        Immediates::StaticStr("s".to_string()),
        Immediates::Binary(vec![0, 7, 255]),
    ];
    for v in values {
        let a = h.malloc(0, &v).unwrap();
        let o = h.get_obj(a).unwrap();
        let back = read_value(a.immediate_type, &o.data).unwrap();
        assert_eq!(back.to_text(), v.to_text());
        assert_eq!(a.size, o.data.len());
    }
    assert!(read_value(ImmediatesType::Integer, &vec![1, 2, 3]).is_none());
    assert!(read_value(ImmediatesType::MutStr, &vec![0xC0]).is_none());
    assert!(read_value(ImmediatesType::Boolean, &vec![2]).is_none());
    assert!(read_value(ImmediatesType::Array, &vec![]).is_none());
}
