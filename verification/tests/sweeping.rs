//! Expiry sweep behavior, with the external set simulated so evictions and
//! their mirror calls can be counted, and a sweep failure can be injected.
use mortis::gate::Controller;
use mortis::gate::Decision;
use mortis::sweep::stale_addresses;
use mortis::Addr;

fn enroll(c: &mut Controller, ext: &mut Vec<u32>, addr: Addr, now: u64) {
    assert!(matches!(c.decide(addr, now, true), Decision::Admit));
    ext.push(addr.bits);
    c.commit_admit(addr, now);
}

fn sweep(c: &mut Controller, ext: &mut Vec<u32>, removes: &mut usize, now: u64) {
    for a in stale_addresses(c, now) {
        ext.retain(|b| *b != a.bits);
        *removes += 1;
        c.commit_evict(a);
    }
}

#[test]
fn fresh_entry_not_swept() {
    let mut c = Controller::new();
    let mut ext: Vec<u32> = Vec::new();
    let a = Addr { bits: 9 };
    enroll(&mut c, &mut ext, a, 0);
    assert!(stale_addresses(&c, 0).is_empty());
    assert!(stale_addresses(&c, 150).is_empty());
    assert!(stale_addresses(&c, 300).is_empty());
}

#[test]
fn stale_entry_swept() {
    let mut c = Controller::new();
    let mut ext: Vec<u32> = Vec::new();
    let mut removes = 0;
    let a = Addr { bits: 9 };
    enroll(&mut c, &mut ext, a, 0);
    let stale = stale_addresses(&c, 301);
    assert_eq!(stale.len(), 1);
    assert_eq!(stale[0], a);
    sweep(&mut c, &mut ext, &mut removes, 301);
    assert!(!c.contains(a));
    assert!(!c.is_member(a));
    assert!(ext.is_empty());
    assert_eq!(removes, 1);
}

#[test]
fn refresh_defers_sweep_timeline() {
    let mut c = Controller::new();
    let mut ext: Vec<u32> = Vec::new();
    let mut removes = 0;
    let a = Addr { bits: 9 };
    enroll(&mut c, &mut ext, a, 0);
    assert!(matches!(c.decide(a, 250, true), Decision::Refresh));
    c.commit_refresh(a, 250);
    assert_eq!(c.last_seen(a), Some(250));
    sweep(&mut c, &mut ext, &mut removes, 310);
    assert!(c.contains(a));
    assert_eq!(removes, 0);
    sweep(&mut c, &mut ext, &mut removes, 560);
    assert!(!c.contains(a));
    assert!(!c.is_member(a));
    assert!(ext.is_empty());
    assert_eq!(removes, 1);
}

#[test]
fn sweep_evicts_only_the_stale() {
    let mut c = Controller::new();
    let mut ext: Vec<u32> = Vec::new();
    let mut removes = 0;
    let old = Addr { bits: 1 };
    let fresh = Addr { bits: 2 };
    enroll(&mut c, &mut ext, old, 0);
    enroll(&mut c, &mut ext, fresh, 200);
    sweep(&mut c, &mut ext, &mut removes, 350);
    assert!(!c.contains(old));
    assert!(c.contains(fresh));
    assert!(c.is_member(fresh));
    assert_eq!(ext, vec![fresh.bits]);
    assert_eq!(removes, 1);
}

#[test]
fn sweep_continues_past_a_failed_removal() {
    let mut c = Controller::new();
    let mut ext: Vec<u32> = Vec::new();
    let old_a = Addr { bits: 1 };
    let old_b = Addr { bits: 2 };
    let old_c = Addr { bits: 3 };
    enroll(&mut c, &mut ext, old_a, 0);
    enroll(&mut c, &mut ext, old_b, 0);
    enroll(&mut c, &mut ext, old_c, 0);
    // the external remove for old_b fails: nothing is committed for it,
    // the remaining stale addresses are still evicted
    for a in stale_addresses(&c, 400) {
        if a == old_b {
            continue;
        }
        ext.retain(|x| *x != a.bits);
        c.commit_evict(a);
    }
    assert!(!c.contains(old_a));
    assert!(c.contains(old_b));
    assert!(c.is_member(old_b));
    assert!(!c.contains(old_c));
    assert_eq!(ext, vec![old_b.bits]);
}
