use docker_proxy::rules::{AuthLimiter, RateLimiter};

const SEC: u64 = 1_000_000_000;

#[test]
fn integration_auth_limiter_locks_out_brute_force() {
    let mut al = AuthLimiter::new();
    let key = "10.20.30.40";
    for _ in 0..10 {
        al.record_failure(key, 10, 60, 60, 0);
    }
    assert!(al.is_blocked(key, 0));

    let other = "10.20.30.41";
    assert!(!al.is_blocked(other, 0));
}

#[test]
fn lockout_ends() {
    let mut al = AuthLimiter::new();
    assert!(!al.record_failure("k", 2, 60, 300, 0));
    assert!(al.record_failure("k", 2, 60, 300, 60 * SEC));
    assert!(al.is_blocked("k", 60 * SEC));
    assert!(!al.record_failure("k", 2, 60, 300, 61 * SEC));
    assert!(al.is_blocked("k", 359 * SEC));
    assert!(!al.is_blocked("k", 360 * SEC));
    assert!(!al.record_failure("k", 2, 60, 300, 360 * SEC));
}

#[test]
fn failures_outside_the_window_do_not_count() {
    let mut al = AuthLimiter::new();
    assert!(!al.record_failure("k", 2, 60, 300, 0));
    assert!(!al.record_failure("k", 2, 60, 300, 60 * SEC + 1));
    assert!(!al.is_blocked("k", 60 * SEC + 1));
}

#[test]
fn success_clears_failures() {
    let mut al = AuthLimiter::new();
    al.record_failure("k", 2, 60, 300, 0);
    al.record_success("k");
    assert!(!al.record_failure("k", 2, 60, 300, 0));
    assert!(al.record_failure("k", 2, 60, 300, 0));
    al.record_success("k");
    assert!(!al.is_blocked("k", 0));
}

#[test]
fn forgotten_records_make_room() {
    let mut al = AuthLimiter::new();
    for i in 0..16_384u32 {
        al.record_failure(&i.to_string(), 2, 60, 300, 0);
    }
    assert!(!al.record_failure("new", 1, 60, 300, 0));
    assert!(!al.is_blocked("new", 0));
    al.cleanup(30 * SEC);
    assert!(!al.record_failure("new", 1, 60, 300, 30 * SEC));
    al.cleanup(61 * SEC);
    assert!(al.record_failure("new", 1, 60, 300, 61 * SEC));
    assert!(al.is_blocked("new", 61 * SEC));
}

#[test]
fn bucket_empties_closes_and_fills() {
    let mut rl = RateLimiter::new();
    assert!(rl.check("k", 2, 10, 30, 0));
    assert!(rl.check("k", 2, 10, 30, 0));
    assert!(!rl.check("k", 2, 10, 30, 0));
    assert!(!rl.check("k", 2, 10, 30, 30 * SEC - 1));
    assert!(rl.check("k", 2, 10, 30, 30 * SEC));
    assert!(rl.check("k", 2, 10, 30, 30 * SEC));
    assert!(!rl.check("k", 2, 10, 30, 30 * SEC));
}

#[test]
fn tokens_come_in_continuously() {
    let mut rl = RateLimiter::new();
    assert!(rl.check("k", 2, 10, 30, 0));
    assert!(rl.check("k", 2, 10, 30, 0));
    assert!(rl.check("k", 2, 10, 30, 5 * SEC));
    assert!(!rl.check("k", 2, 10, 30, 10 * SEC - 1));
    let mut slow = RateLimiter::new();
    assert!(slow.check("k", 1, 3, 30, 0));
    assert!(slow.check("k", 1, 3, 30, 3 * SEC));
    assert!(!slow.check("k", 1, 3, 30, 3 * SEC));
}

#[test]
fn fractions_add_up() {
    let mut rl = RateLimiter::new();
    for _ in 0..3 {
        assert!(rl.check("k", 3, 9, 30, 0));
    }
    assert!(rl.check("k", 3, 9, 30, 4 * SEC));
    assert!(rl.check("k", 3, 9, 30, 6 * SEC));
    assert!(!rl.check("k", 3, 9, 30, 9 * SEC - 1));
}

#[test]
fn fractions_survive_a_change_of_period() {
    let mut rl = RateLimiter::new();
    assert!(rl.check("k", 1, 10, 30, 0));
    assert!(!rl.check("k", 1, 10, 0, 5 * SEC));
    let mut other = RateLimiter::new();
    assert!(other.check("k", 2, 10, 30, 0));
    assert!(other.check("k", 2, 10, 30, 0));
    assert!(other.check("k", 2, 10, 30, 7 * SEC + SEC / 2));
    assert!(other.check("k", 2, 20, 30, 12 * SEC + SEC / 2));
}

#[test]
fn bucket_without_a_period_is_always_full() {
    let mut rl = RateLimiter::new();
    for _ in 0..10 {
        assert!(rl.check("k", 1, 0, 30, 0));
    }
    assert!(!rl.check("none", 0, 0, 30, 0));
}

#[test]
fn new_clients_are_refused_while_the_limiter_is_full() {
    let mut rl = RateLimiter::new();
    for i in 0..16_384u32 {
        assert!(rl.check(&i.to_string(), 2, 10, 30, 0));
    }
    assert!(!rl.check("new", 2, 10, 30, 0));
    assert!(rl.check("0", 2, 10, 30, 0));
    rl.cleanup(0);
    assert!(!rl.check("new", 2, 10, 30, 0));
    rl.cleanup(10 * SEC);
    assert!(rl.check("new", 2, 10, 30, 10 * SEC));
}

#[test]
fn closed_buckets_are_kept_until_the_penalty_ends() {
    let mut rl = RateLimiter::new();
    assert!(rl.check("k", 1, 10, 30, 0));
    assert!(!rl.check("k", 1, 10, 30, 0));
    rl.cleanup(29 * SEC);
    assert!(!rl.check("k", 1, 10, 30, 29 * SEC));
    rl.cleanup(30 * SEC);
    assert!(rl.check("k", 1, 10, 30, 30 * SEC));
}
