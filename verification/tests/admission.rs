//! Admission gate behavior, driven as the surrounding binary drives it: ask
//! for a decision, perform the (simulated) external membership call, then
//! commit. The simulated external set lets each test check that store and
//! set membership agree after every operation and count membership calls.
use mortis::gate::Controller;
use mortis::gate::Decision;
use mortis::Addr;

fn drive(
    c: &mut Controller,
    ext: &mut Vec<u32>,
    adds: &mut usize,
    removes: &mut usize,
    addr: Addr,
    now: u64,
    trusted: bool,
) -> bool {
    loop {
        match c.decide(addr, now, trusted) {
            Decision::Reject => return false,
            Decision::Refresh => {
                c.commit_refresh(addr, now);
                return true;
            }
            Decision::Admit => {
                ext.push(addr.bits);
                *adds += 1;
                c.commit_admit(addr, now);
                return true;
            }
            Decision::Evict => {
                ext.retain(|b| *b != addr.bits);
                *removes += 1;
                c.commit_evict(addr);
            }
        }
    }
}

fn agree(c: &Controller, ext: &[u32], addr: Addr) -> bool {
    let in_store = c.contains(addr);
    let in_mirror = c.is_member(addr);
    let in_ext = ext.contains(&addr.bits);
    in_store == in_mirror && in_mirror == in_ext
}

#[test]
fn admit_new_address() {
    let mut c = Controller::new();
    let mut ext: Vec<u32> = Vec::new();
    let (mut adds, mut removes) = (0, 0);
    let a = Addr { bits: 0x0a00_0001 };
    assert!(drive(&mut c, &mut ext, &mut adds, &mut removes, a, 7, true));
    assert!(c.contains(a));
    assert!(c.is_member(a));
    assert_eq!(c.last_seen(a), Some(7));
    assert_eq!(adds, 1);
    assert_eq!(removes, 0);
    assert!(agree(&c, &ext, a));
}

#[test]
fn untrusted_signal_rejected() {
    let mut c = Controller::new();
    let mut ext: Vec<u32> = Vec::new();
    let (mut adds, mut removes) = (0, 0);
    let b = Addr { bits: 0x0a00_0002 };
    assert!(!drive(&mut c, &mut ext, &mut adds, &mut removes, b, 5, false));
    assert!(!c.contains(b));
    assert!(!c.is_member(b));
    assert_eq!(c.last_seen(b), None);
    assert_eq!(adds, 0);
    assert_eq!(removes, 0);
    assert!(ext.is_empty());
}

#[test]
fn refresh_within_ttl_adds_once() {
    let mut c = Controller::new();
    let mut ext: Vec<u32> = Vec::new();
    let (mut adds, mut removes) = (0, 0);
    let a = Addr { bits: 0x0a00_0003 };
    assert!(drive(&mut c, &mut ext, &mut adds, &mut removes, a, 0, true));
    for now in [60, 120, 250, 300] {
        assert!(drive(&mut c, &mut ext, &mut adds, &mut removes, a, now, true));
        assert_eq!(c.last_seen(a), Some(now));
        assert!(agree(&c, &ext, a));
    }
    assert_eq!(adds, 1);
    assert_eq!(removes, 0);
    assert_eq!(ext.len(), 1);
}

#[test]
fn readmission_after_expiry() {
    let mut c = Controller::new();
    let mut ext: Vec<u32> = Vec::new();
    let (mut adds, mut removes) = (0, 0);
    let a = Addr { bits: 0x0a00_0004 };
    assert!(drive(&mut c, &mut ext, &mut adds, &mut removes, a, 0, true));
    assert!(drive(&mut c, &mut ext, &mut adds, &mut removes, a, 301, true));
    assert_eq!(removes, 1);
    assert_eq!(adds, 2);
    assert_eq!(c.last_seen(a), Some(301));
    assert_eq!(c.admitted_count(), 1);
    assert_eq!(ext.len(), 1);
    assert!(agree(&c, &ext, a));
}

#[test]
fn repeated_signals_one_membership() {
    let mut c = Controller::new();
    let mut ext: Vec<u32> = Vec::new();
    let (mut adds, mut removes) = (0, 0);
    let a = Addr { bits: 0x0a00_0005 };
    for _ in 0..5 {
        assert!(drive(&mut c, &mut ext, &mut adds, &mut removes, a, 42, true));
    }
    assert_eq!(adds, 1);
    assert_eq!(removes, 0);
    assert_eq!(c.admitted_count(), 1);
    assert_eq!(ext.len(), 1);
    assert!(agree(&c, &ext, a));
}

#[test]
fn store_and_set_agree_throughout() {
    let mut c = Controller::new();
    let mut ext: Vec<u32> = Vec::new();
    let (mut adds, mut removes) = (0, 0);
    let a = Addr { bits: 1 };
    let b = Addr { bits: 2 };
    drive(&mut c, &mut ext, &mut adds, &mut removes, a, 0, true);
    assert!(agree(&c, &ext, a) && agree(&c, &ext, b));
    drive(&mut c, &mut ext, &mut adds, &mut removes, b, 10, true);
    assert!(agree(&c, &ext, a) && agree(&c, &ext, b));
    drive(&mut c, &mut ext, &mut adds, &mut removes, a, 100, true);
    assert!(agree(&c, &ext, a) && agree(&c, &ext, b));
    drive(&mut c, &mut ext, &mut adds, &mut removes, a, 500, true);
    assert!(agree(&c, &ext, a) && agree(&c, &ext, b));
    drive(&mut c, &mut ext, &mut adds, &mut removes, b, 700, false);
    assert!(agree(&c, &ext, a) && agree(&c, &ext, b));
}
