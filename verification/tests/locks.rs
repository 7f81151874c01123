//! The advisory per-key lock.

use flock::locks::LockMap;

#[test]
fn unheld_key_always_locks() {
    let mut m = LockMap::new();
    let g = m.lock("account-1");
    assert!(g.is_some());
    assert_eq!(g.unwrap().key(), "account-1");
}

#[test]
fn held_key_refuses_a_second_lock() {
    let mut m = LockMap::new();
    let g = m.lock("account-1").unwrap();
    assert!(m.lock("account-1").is_none());
    // Still held: a third attempt fails too.
    assert!(m.lock("account-1").is_none());
    m.unlock(g);
}

#[test]
fn released_key_locks_again() {
    let mut m = LockMap::new();
    let g = m.lock("account-1").unwrap();
    assert!(m.lock("account-1").is_none());
    m.unlock(g);
    let g2 = m.lock("account-1");
    assert!(g2.is_some());
}

#[test]
fn distinct_keys_do_not_interfere() {
    let mut m = LockMap::with_capacity(4);
    let ga = m.lock("account-1").unwrap();
    let gl = m.lock("link-7");
    assert!(gl.is_some());
    assert!(m.lock("account-1").is_none());
    m.unlock(ga);
    assert!(m.lock("link-7").is_none());
    m.unlock(gl.unwrap());
    assert!(m.lock("link-7").is_some());
}

#[test]
fn lock_cycles_accumulate_entries_harmlessly() {
    let mut m = LockMap::new();
    for round in 0..3 {
        let _ = round;
        let g = m.lock("k").unwrap();
        m.unlock(g);
    }
    assert!(m.lock("k").is_some());
}
