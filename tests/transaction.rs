use comm::address::Address;
use comm::transaction::TransactionTable;

fn peer() -> Address {
    Address::from_str("8b45e4bd1c6acb88bebf6407d16205f567e62a3e").unwrap()
}

#[test]
fn begin_hands_out_fresh_ids() {
    let mut table: TransactionTable<&str> = TransactionTable::new();
    let a = table.begin(peer(), "first", 10).unwrap();
    let b = table.begin(peer(), "second", 10).unwrap();
    assert_ne!(a, b);
    assert_eq!(table.len(), 2);
    assert!(table.is_pending(a));
    assert!(table.is_pending(b));
}

#[test]
fn complete_resumes_once() {
    let mut table: TransactionTable<&str> = TransactionTable::new();
    let id = table.begin(peer(), "resume", 10).unwrap();
    let t = table.complete(id).unwrap();
    assert_eq!(t.continuation, "resume");
    assert_eq!(t.id, id);
    assert_eq!(t.destination, peer());
    assert!(table.complete(id).is_none());
    assert_eq!(table.len(), 0);
}

#[test]
fn complete_with_unknown_id_is_ignored() {
    let mut table: TransactionTable<u8> = TransactionTable::new();
    table.begin(peer(), 1, 10).unwrap();
    assert!(table.complete(999).is_none());
    assert_eq!(table.len(), 1);
}

#[test]
fn expire_overdue_times_out_once() {
    let mut table: TransactionTable<&str> = TransactionTable::new();
    let late = table.begin(peer(), "late", 10).unwrap();
    let fresh = table.begin(peer(), "fresh", 50).unwrap();
    assert_eq!(table.expire_overdue(10).len(), 0);
    let expired = table.expire_overdue(11);
    assert_eq!(expired.len(), 1);
    assert_eq!(expired[0].id, late);
    assert_eq!(expired[0].continuation, "late");
    assert!(table.complete(late).is_none());
    assert_eq!(table.expire_overdue(11).len(), 0);
    assert!(table.is_pending(fresh));
    assert_eq!(table.complete(fresh).unwrap().continuation, "fresh");
}

#[test]
fn continuations_may_be_closures() {
    let mut table: TransactionTable<Box<dyn FnOnce(u32) -> u32>> = TransactionTable::new();
    let id = table.begin(peer(), Box::new(|x| x + 1), 10).unwrap();
    let t = table.complete(id).unwrap();
    assert_eq!((t.continuation)(41), 42);
}

#[test]
fn freed_ids_are_reused_round_robin() {
    let mut table: TransactionTable<u8> = TransactionTable::new();
    let a = table.begin(peer(), 1, 10).unwrap();
    let b = table.begin(peer(), 2, 10).unwrap();
    assert_eq!((a, b), (0, 1));
    assert!(table.complete(a).is_some());
    let c = table.begin(peer(), 3, 10).unwrap();
    assert_eq!(c, 2);
    assert!(table.is_pending(b));
    assert!(table.is_pending(c));
}
