use sample_range::animation::{push_trail_point, Phase, Transition, TRAIL_CAPACITY};

#[test]
fn initial_phase_by_mode() {
    assert_eq!(Phase::initial(true), Phase::Aerial);
    assert_eq!(Phase::initial(false), Phase::Idle);
}

#[test]
fn idle_waits_then_flies() {
    let t = Phase::Idle.tick(false, false, true);
    assert_eq!(t.next, Phase::Idle);
    assert!(!t.accept_shot && !t.back_to_tee);
    let t = Phase::Idle.tick(false, true, false);
    assert_eq!(
        t,
        Transition { next: Phase::Aerial, accept_shot: true, reset_elapsed: true, reset_pause_timer: false, back_to_tee: true }
    );
}

#[test]
fn flight_roll_pause_cycle() {
    assert_eq!(Phase::Aerial.tick(true, true, false).next, Phase::Aerial);
    let t = Phase::Aerial.tick(true, true, true);
    assert_eq!(t.next, Phase::Roll);
    assert!(t.reset_elapsed && !t.accept_shot);
    let t = Phase::Roll.tick(true, false, true);
    assert_eq!(t.next, Phase::Pause);
    assert!(t.reset_pause_timer);
    let t = Phase::Pause.tick(true, false, true);
    assert_eq!(t.next, Phase::Aerial);
    assert!(t.back_to_tee && t.reset_elapsed);
    let t = Phase::Pause.tick(false, true, true);
    assert_eq!(t.next, Phase::Idle);
    assert!(t.back_to_tee && !t.accept_shot);
}

#[test]
fn replay_never_reaches_idle_on_example_run() {
    let mut p = Phase::initial(true);
    for k in 0..100u32 {
        p = p.tick(true, k % 3 == 0, k % 2 == 0).next;
        assert_ne!(p, Phase::Idle);
    }
}

#[test]
fn go_live_resets_to_tee() {
    let t = Phase::go_live();
    assert_eq!(t.next, Phase::Idle);
    assert!(t.back_to_tee);
}

#[test]
fn phase_predicates() {
    assert!(Phase::Aerial.ball_in_motion() && Phase::Roll.ball_in_motion());
    assert!(!Phase::Idle.ball_in_motion() && !Phase::Pause.ball_in_motion());
    assert!(!Phase::Aerial.distances_final());
    assert!(Phase::Roll.distances_final() && Phase::Idle.distances_final());
}

#[test]
fn trail_keeps_most_recent_points() {
    let mut pts: Vec<u32> = Vec::new();
    for k in 0..300u32 {
        push_trail_point(&mut pts, k);
    }
    assert_eq!(pts.len(), TRAIL_CAPACITY);
    assert_eq!(pts[0], 44);
    assert_eq!(*pts.last().unwrap(), 299);
    let mut small = vec![1u32, 2];
    push_trail_point(&mut small, 3);
    assert_eq!(small, vec![1, 2, 3]);
}

#[test]
fn shot_waits_during_animation() {
    for p in [Phase::Aerial, Phase::Roll, Phase::Pause] {
        for done in [false, true] {
            assert!(!p.tick(false, true, done).accept_shot);
        }
    }
}

#[test]
fn waiting_ball_is_on_tee_with_empty_trail() {
    // Mirrors the program: a live run, with shots and timers at varying ticks.
    let mut phase = Phase::initial(false);
    let mut trail: Vec<u32> = Vec::new();
    let mut at_tee = true;
    assert_eq!(Phase::go_live().next, Phase::Idle);
    for k in 0..2000u32 {
        if phase.ball_in_motion() {
            push_trail_point(&mut trail, k);
            at_tee = false;
        }
        let t = phase.tick(false, k % 37 == 0, k % 5 == 0);
        if t.back_to_tee {
            trail.clear();
            at_tee = true;
        }
        phase = t.next;
        if phase == Phase::Idle {
            assert!(trail.is_empty() && at_tee);
        }
        assert!(trail.len() <= TRAIL_CAPACITY);
    }
}
