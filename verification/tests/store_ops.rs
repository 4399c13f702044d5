//! The allow-list store on its own: lookup, upsert, remove, snapshot.
use mortis::store::Allowlist;
use mortis::Addr;

#[test]
fn empty_store_has_nothing() {
    let s = Allowlist::new();
    assert_eq!(s.len(), 0);
    assert_eq!(s.lookup(Addr { bits: 1 }), None);
    assert!(!s.contains(Addr { bits: 1 }));
    assert!(s.snapshot().is_empty());
}

#[test]
fn upsert_then_lookup() {
    let mut s = Allowlist::new();
    let a = Addr { bits: 10 };
    s.upsert(a, 100);
    assert_eq!(s.lookup(a), Some(100));
    assert!(s.contains(a));
    assert_eq!(s.len(), 1);
}

#[test]
fn upsert_refreshes_in_place() {
    let mut s = Allowlist::new();
    let a = Addr { bits: 10 };
    s.upsert(a, 100);
    s.upsert(a, 250);
    assert_eq!(s.lookup(a), Some(250));
    assert_eq!(s.len(), 1);
}

#[test]
fn remove_drops_only_its_key() {
    let mut s = Allowlist::new();
    let a = Addr { bits: 10 };
    let b = Addr { bits: 20 };
    s.upsert(a, 1);
    s.upsert(b, 2);
    s.remove(a);
    assert_eq!(s.lookup(a), None);
    assert_eq!(s.lookup(b), Some(2));
    assert_eq!(s.len(), 1);
}

#[test]
fn remove_absent_is_a_no_op() {
    let mut s = Allowlist::new();
    s.upsert(Addr { bits: 10 }, 1);
    s.remove(Addr { bits: 99 });
    assert_eq!(s.len(), 1);
}

#[test]
fn snapshot_lists_every_entry() {
    let mut s = Allowlist::new();
    s.upsert(Addr { bits: 10 }, 1);
    s.upsert(Addr { bits: 20 }, 2);
    let snap = s.snapshot();
    assert_eq!(snap.len(), 2);
    assert!(snap.iter().any(|e| e.addr.bits == 10 && e.last_seen == 1));
    assert!(snap.iter().any(|e| e.addr.bits == 20 && e.last_seen == 2));
}
