use do_good::actor::ActorId;
use do_good::state::{DoGood, Error};

fn actor(bytes: &[u8]) -> ActorId {
    ActorId::from_bytes(bytes.to_vec())
}

fn log_ok(g: &mut DoGood, who: &ActorId, description: &str) {
    let r = g.log_action(who.duplicate(), String::from(description), true);
    assert!(r.is_ok());
}

#[test]
fn fresh_state_has_all_defaults() {
    let g = DoGood::new();
    assert_eq!(g.get_total_actions(), 0);
    assert_eq!(g.get_user_impact(&actor(b"anyone")), 0);
    assert!(g.get_last_contributor().is_none());
}

#[test]
fn total_counts_each_successful_log() {
    let mut g = DoGood::new();
    let a = actor(b"alice");
    for i in 0..5u32 {
        log_ok(&mut g, &a, "helped");
        assert_eq!(g.get_total_actions(), i + 1);
    }
}

#[test]
fn scenario_two_actors_three_logs() {
    let mut g = DoGood::new();
    let a = actor(b"alice");
    let b = actor(b"bob");
    log_ok(&mut g, &a, "first");
    log_ok(&mut g, &b, "second");
    log_ok(&mut g, &a, "third");
    assert_eq!(g.get_total_actions(), 3);
    assert_eq!(g.get_user_impact(&a), 2);
    assert_eq!(g.get_user_impact(&b), 1);
    let last = g.get_last_contributor().expect("a contributor was recorded");
    assert!(last.same_as(&a));
}

#[test]
fn last_contributor_follows_each_log() {
    let mut g = DoGood::new();
    let a = actor(b"alice");
    let b = actor(b"bob");
    log_ok(&mut g, &a, "one");
    assert!(g.get_last_contributor().expect("set").same_as(&a));
    log_ok(&mut g, &b, "two");
    assert!(g.get_last_contributor().expect("set").same_as(&b));
}

#[test]
fn unlogged_actor_has_zero_impact() {
    let mut g = DoGood::new();
    let a = actor(b"alice");
    log_ok(&mut g, &a, "one");
    log_ok(&mut g, &a, "two");
    assert_eq!(g.get_user_impact(&actor(b"bob")), 0);
}

#[test]
fn impacts_sum_to_total() {
    let mut g = DoGood::new();
    let actors = [actor(b"a"), actor(b"b"), actor(b"c")];
    log_ok(&mut g, &actors[0], "x");
    log_ok(&mut g, &actors[1], "x");
    log_ok(&mut g, &actors[0], "x");
    log_ok(&mut g, &actors[2], "x");
    log_ok(&mut g, &actors[0], "x");
    let sum: u32 = actors.iter().map(|a| g.get_user_impact(a)).sum();
    assert_eq!(sum, g.get_total_actions());
}

#[test]
fn unauthorized_log_changes_nothing() {
    let mut g = DoGood::new();
    let a = actor(b"alice");
    let b = actor(b"bob");
    log_ok(&mut g, &a, "real");
    let r = g.log_action(b.duplicate(), String::from("forged"), false);
    match r {
        Err(e) => assert_eq!(e, Error::Unauthorized),
        Ok(_) => panic!("an unauthorized log must fail"),
    }
    assert_eq!(g.get_total_actions(), 1);
    assert_eq!(g.get_user_impact(&a), 1);
    assert_eq!(g.get_user_impact(&b), 0);
    assert!(g.get_last_contributor().expect("set").same_as(&a));
}

#[test]
fn event_carries_the_description() {
    let mut g = DoGood::new();
    let r = g.log_action(actor(b"alice"), String::from("planted a tree"), true);
    match r {
        Ok(ev) => assert_eq!(ev.description, "planted a tree"),
        Err(_) => panic!("an authorized log must succeed"),
    }
}

#[test]
fn from_parts_of_nothing_is_fresh() {
    let g = DoGood::from_parts(None, None, None).expect("empty records are consistent");
    assert_eq!(g.get_total_actions(), 0);
    assert!(g.get_last_contributor().is_none());
}

#[test]
fn from_parts_accepts_consistent_records() {
    let a = actor(b"alice");
    let b = actor(b"bob");
    let g = DoGood::from_parts(
        Some(3),
        Some(a.duplicate()),
        Some(vec![(a.duplicate(), 2), (b.duplicate(), 1)]),
    )
    .expect("records are consistent");
    assert_eq!(g.get_total_actions(), 3);
    assert_eq!(g.get_user_impact(&a), 2);
    assert_eq!(g.get_user_impact(&b), 1);
    assert!(g.get_last_contributor().expect("set").same_as(&a));
}

#[test]
fn from_parts_rejects_total_mismatch() {
    let a = actor(b"alice");
    let r = DoGood::from_parts(Some(5), None, Some(vec![(a, 2)]));
    assert!(r.is_none());
}

#[test]
fn from_parts_rejects_duplicate_actors() {
    let a = actor(b"alice");
    let r = DoGood::from_parts(
        Some(3),
        None,
        Some(vec![(a.duplicate(), 2), (a, 1)]),
    );
    assert!(r.is_none());
}

#[test]
fn from_parts_rejects_oversized_sum() {
    let a = actor(b"alice");
    let b = actor(b"bob");
    let r = DoGood::from_parts(
        Some(u32::MAX),
        None,
        Some(vec![(a, u32::MAX), (b, 1)]),
    );
    assert!(r.is_none());
}

#[test]
fn from_parts_at_counter_limit() {
    let a = actor(b"alice");
    let g = DoGood::from_parts(Some(u32::MAX), None, Some(vec![(a.duplicate(), u32::MAX)]))
        .expect("records are consistent");
    assert_eq!(g.get_total_actions(), u32::MAX);
    assert_eq!(g.get_user_impact(&a), u32::MAX);
}

#[test]
fn records_round_trip_through_parts() {
    let mut g = DoGood::new();
    let a = actor(b"alice");
    let b = actor(b"bob");
    log_ok(&mut g, &a, "one");
    log_ok(&mut g, &b, "two");
    let total = Some(g.get_total_actions());
    let last = g.get_last_contributor().map(|x| x.duplicate());
    let entries = g
        .impact_entries()
        .map(|v| v.iter().map(|(who, n)| (who.duplicate(), *n)).collect::<Vec<_>>());
    let h = DoGood::from_parts(total, last, entries).expect("written records are consistent");
    assert_eq!(h.get_total_actions(), g.get_total_actions());
    assert_eq!(h.get_user_impact(&a), g.get_user_impact(&a));
    assert_eq!(h.get_user_impact(&b), g.get_user_impact(&b));
    assert!(h.get_last_contributor().expect("set").same_as(&b));
}
