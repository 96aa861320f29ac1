//! The ball animation: its phases, what each tick decides, and the trail of
//! recent ball positions.
use vstd::prelude::*;

verus! {

/// Where the ball animation stands.
#[derive(Clone, Copy, PartialEq, Eq, Debug, Structural)]
pub enum Phase {
    /// The ball waits on the tee for a live shot.
    Idle,
    /// The ball flies along its arc.
    Aerial,
    /// The ball rolls out after landing.
    Roll,
    /// The finished shot stays on screen for a moment.
    Pause,
}

/// What one tick decides besides the next phase.
#[derive(Clone, Copy, PartialEq, Eq, Debug, Structural)]
pub struct Transition {
    /// The phase after this tick.
    pub next: Phase,
    /// Take the shot that has just arrived as the current shot.
    pub accept_shot: bool,
    /// Restart the flight clock.
    pub reset_elapsed: bool,
    /// Restart the pause clock.
    pub reset_pause_timer: bool,
    /// Empty the trail and put the ball back on the tee.
    pub back_to_tee: bool,
}

/// A tick that changes nothing.
pub open spec fn stay(p: Phase) -> Transition {
    Transition {
        next: p,
        accept_shot: false,
        reset_elapsed: false,
        reset_pause_timer: false,
        back_to_tee: false,
    }
}

/// The decision of one tick. In `loop_mode` (a recorded shot) the
/// animation replays forever; otherwise (live mode) it waits on the tee for
/// each new shot. `shot_arrived` says that a live shot is waiting;
/// `timer_done` says that the clock of the current phase has run out: the
/// flight time in `Aerial`, the roll time in `Roll`, the pause in `Pause`.
pub open spec fn tick_spec(p: Phase, loop_mode: bool, shot_arrived: bool, timer_done: bool) -> Transition {
    match p {
        Phase::Idle => if shot_arrived {
            Transition {
                next: Phase::Aerial,
                accept_shot: true,
                reset_elapsed: true,
                reset_pause_timer: false,
                back_to_tee: true,
            }
        } else {
            stay(p)
        },
        Phase::Aerial => if timer_done {
            Transition { next: Phase::Roll, reset_elapsed: true, ..stay(p) }
        } else {
            stay(p)
        },
        Phase::Roll => if timer_done {
            Transition { next: Phase::Pause, reset_pause_timer: true, ..stay(p) }
        } else {
            stay(p)
        },
        Phase::Pause => if !timer_done {
            stay(p)
        } else if loop_mode {
            Transition {
                next: Phase::Aerial,
                accept_shot: false,
                reset_elapsed: true,
                reset_pause_timer: false,
                back_to_tee: true,
            }
        } else {
            Transition { next: Phase::Idle, back_to_tee: true, ..stay(p) }
        },
    }
}

impl Phase {
    /// The phase the animation starts in: flying at once for a recorded
    /// shot, waiting on the tee in live mode.
    pub fn initial(loop_mode: bool) -> (p: Phase)
        ensures
            p == (if loop_mode { Phase::Aerial } else { Phase::Idle }),
    {
        if loop_mode {
            Phase::Aerial
        } else {
            Phase::Idle
        }
    }

    /// Whether the ball moves, and leaves a trail, in this phase.
    pub fn ball_in_motion(self) -> (b: bool)
        ensures
            b <==> (self == Phase::Aerial || self == Phase::Roll),
    {
        match self {
            Phase::Aerial | Phase::Roll => true,
            _ => false,
        }
    }

    /// Whether the final carry, roll and total distances are shown; while
    /// the ball flies the carry grows and the roll is not known yet.
    pub fn distances_final(self) -> (b: bool)
        ensures
            b <==> self != Phase::Aerial,
    {
        match self {
            Phase::Aerial => false,
            _ => true,
        }
    }

    /// The decision of one animation tick (see `tick_spec`).
    pub fn tick(self, loop_mode: bool, shot_arrived: bool, timer_done: bool) -> (t: Transition)
        ensures
            t == tick_spec(self, loop_mode, shot_arrived, timer_done),
    {
        let still = Transition {
            next: self,
            accept_shot: false,
            reset_elapsed: false,
            reset_pause_timer: false,
            back_to_tee: false,
        };
        match self {
            Phase::Idle => if shot_arrived {
                Transition {
                    next: Phase::Aerial,
                    accept_shot: true,
                    reset_elapsed: true,
                    reset_pause_timer: false,
                    back_to_tee: true,
                }
            } else {
                still
            },
            Phase::Aerial => if timer_done {
                Transition { next: Phase::Roll, reset_elapsed: true, ..still }
            } else {
                still
            },
            Phase::Roll => if timer_done {
                Transition { next: Phase::Pause, reset_pause_timer: true, ..still }
            } else {
                still
            },
            Phase::Pause => if !timer_done {
                still
            } else if loop_mode {
                Transition {
                    next: Phase::Aerial,
                    accept_shot: false,
                    reset_elapsed: true,
                    reset_pause_timer: false,
                    back_to_tee: true,
                }
            } else {
                Transition { next: Phase::Idle, back_to_tee: true, ..still }
            },
        }
    }

    /// The state that switching to live mode puts the animation in: waiting
    /// on the tee with an empty trail.
    pub fn go_live() -> (t: Transition)
        ensures
            t == (Transition { next: Phase::Idle, back_to_tee: true, ..stay(Phase::Idle) }),
    {
        Transition {
            next: Phase::Idle,
            accept_shot: false,
            reset_elapsed: false,
            reset_pause_timer: false,
            back_to_tee: true,
        }
    }
}

/// The phase after a run of ticks, each given as (shot arrived, timer done).
pub open spec fn run(p: Phase, loop_mode: bool, ticks: Seq<(bool, bool)>) -> Phase
    decreases ticks.len(),
{
    if ticks.len() == 0 {
        p
    } else {
        run(tick_spec(p, loop_mode, ticks[0].0, ticks[0].1).next, loop_mode, ticks.drop_first())
    }
}

/// Each tick either keeps the phase or moves one step along the cycle
/// Idle, Aerial, Roll, Pause, and from Pause back to Aerial (replay) or
/// Idle (live).
pub open spec fn successor(p: Phase, loop_mode: bool) -> Phase {
    match p {
        Phase::Idle => Phase::Aerial,
        Phase::Aerial => Phase::Roll,
        Phase::Roll => Phase::Pause,
        Phase::Pause => if loop_mode { Phase::Aerial } else { Phase::Idle },
    }
}

/// A tick never skips a phase: the next phase is the current one or its
/// successor on the cycle.
pub proof fn lemma_tick_follows_cycle(p: Phase, loop_mode: bool, shot_arrived: bool, timer_done: bool)
    ensures
        tick_spec(p, loop_mode, shot_arrived, timer_done).next == p
            || tick_spec(p, loop_mode, shot_arrived, timer_done).next == successor(p, loop_mode),
{
}

/// A live shot is taken only while the ball waits on the tee; a shot that
/// arrives during an animation is left waiting.
pub proof fn lemma_shot_taken_only_when_idle(p: Phase, loop_mode: bool, shot_arrived: bool, timer_done: bool)
    ensures
        tick_spec(p, loop_mode, shot_arrived, timer_done).accept_shot ==> p == Phase::Idle
            && shot_arrived,
{
}

/// Every flight starts from the tee with an empty trail and a fresh clock.
pub proof fn lemma_flight_starts_at_tee(p: Phase, loop_mode: bool, shot_arrived: bool, timer_done: bool)
    requires
        p != Phase::Aerial,
        tick_spec(p, loop_mode, shot_arrived, timer_done).next == Phase::Aerial,
    ensures
        tick_spec(p, loop_mode, shot_arrived, timer_done).back_to_tee,
        tick_spec(p, loop_mode, shot_arrived, timer_done).reset_elapsed,
{
}

/// In live mode the ball waits on the tee, unchanged, until a shot arrives,
/// and a shot starts its flight at once.
pub proof fn lemma_idle_waits_for_shot(shot_arrived: bool, timer_done: bool)
    ensures
        !shot_arrived ==> tick_spec(Phase::Idle, false, shot_arrived, timer_done) == stay(
            Phase::Idle,
        ),
        shot_arrived ==> tick_spec(Phase::Idle, false, shot_arrived, timer_done).next
            == Phase::Aerial,
{
}

/// In live mode a finished pause returns the ball to the tee to wait for
/// the next shot.
pub proof fn lemma_live_returns_to_tee()
    ensures
        tick_spec(Phase::Pause, false, false, true).next == Phase::Idle,
        tick_spec(Phase::Pause, false, false, true).back_to_tee,
        tick_spec(Phase::Pause, false, true, true).next == Phase::Idle,
{
}

/// A replayed shot loops forever: started in replay mode, no run of ticks
/// ever brings the animation to wait on the tee.
pub proof fn lemma_replay_never_idles(ticks: Seq<(bool, bool)>, p: Phase)
    requires
        p != Phase::Idle,
    ensures
        run(p, true, ticks) != Phase::Idle,
    decreases ticks.len(),
{
    if ticks.len() > 0 {
        lemma_replay_never_idles(ticks.drop_first(), tick_spec(p, true, ticks[0].0, ticks[0].1).next);
    }
}

/// A replay starts in flight and so never waits on the tee.
pub proof fn lemma_replay_from_start(ticks: Seq<(bool, bool)>)
    ensures
        run(Phase::Aerial, true, ticks) != Phase::Idle,
{
    lemma_replay_never_idles(ticks, Phase::Aerial);
}

/// Every tick that brings the animation to wait on the tee from another
/// phase also empties the trail and puts the ball back on the tee.
pub proof fn lemma_idle_entry_resets(p: Phase, loop_mode: bool, shot_arrived: bool, timer_done: bool)
    requires
        p != Phase::Idle,
        tick_spec(p, loop_mode, shot_arrived, timer_done).next == Phase::Idle,
    ensures
        tick_spec(p, loop_mode, shot_arrived, timer_done).back_to_tee,
{
}

/// Whether a phase runs on the flight clock: the flight and the roll-out
/// are both timed from the moment they start.
pub open spec fn runs_on_flight_clock(p: Phase) -> bool {
    p == Phase::Aerial || p == Phase::Roll
}

/// Every phase starts on a fresh clock: in either mode, a tick that enters
/// the flight or the roll-out restarts the flight clock and one that enters
/// the pause restarts the pause clock; a tick that keeps the phase changes
/// nothing, so a clock restarts only when its phase begins. In particular
/// a finished flight always rolls out, from a roll-out clock at zero.
pub proof fn lemma_phase_entry_restarts_clock(
    p: Phase,
    loop_mode: bool,
    shot_arrived: bool,
    timer_done: bool,
)
    ensures
        ({
            let t = tick_spec(p, loop_mode, shot_arrived, timer_done);
            &&& t.next != p && runs_on_flight_clock(t.next) ==> t.reset_elapsed
            &&& t.next != p && t.next == Phase::Pause ==> t.reset_pause_timer
            &&& t.reset_elapsed ==> t.next != p && runs_on_flight_clock(t.next)
            &&& t.reset_pause_timer ==> t.next != p && t.next == Phase::Pause
            &&& t.next == p ==> !t.accept_shot && !t.reset_elapsed && !t.reset_pause_timer
                && !t.back_to_tee
        }),
        p == Phase::Aerial && timer_done ==> tick_spec(p, loop_mode, shot_arrived, timer_done).next
            == Phase::Roll,
        p == Phase::Roll && timer_done ==> tick_spec(p, loop_mode, shot_arrived, timer_done).next
            == Phase::Pause,
        p != Phase::Idle && !timer_done ==> tick_spec(p, loop_mode, shot_arrived, timer_done).next
            == p,
{
}

/// The trail and ball after one tick. While the ball moves (flight or
/// roll) the tick may record one new trail point, `point`, and leaves the
/// ball wherever `moved_at_tee` says; in the other phases neither changes.
/// Then the tick's decision applies: `back_to_tee` empties the trail and
/// puts the ball on the tee.
pub open spec fn tick_state<T>(
    p: Phase,
    loop_mode: bool,
    shot_arrived: bool,
    timer_done: bool,
    trail: Seq<T>,
    at_tee: bool,
    point: Option<T>,
    moved_at_tee: bool,
) -> (Phase, Seq<T>, bool) {
    let t = tick_spec(p, loop_mode, shot_arrived, timer_done);
    let moving = p == Phase::Aerial || p == Phase::Roll;
    let tr = if moving {
        match point {
            Some(q) => trail_after(trail, q),
            None => trail,
        }
    } else {
        trail
    };
    let tee = if moving {
        moved_at_tee
    } else {
        at_tee
    };
    if t.back_to_tee {
        (t.next, Seq::<T>::empty(), true)
    } else {
        (t.next, tr, tee)
    }
}

/// What holds of the animation at all times: while it waits for a shot the
/// ball is on the tee with an empty trail, and the trail never holds more
/// than `TRAIL_CAPACITY` points.
pub open spec fn tee_invariant<T>(p: Phase, trail: Seq<T>, at_tee: bool) -> bool {
    &&& p == Phase::Idle ==> trail.len() == 0 && at_tee
    &&& trail.len() <= TRAIL_CAPACITY
}

/// The animation starts with the invariant: in either mode, from the tee
/// with an empty trail.
pub proof fn lemma_tee_invariant_initial<T>(loop_mode: bool)
    ensures
        tee_invariant(
            if loop_mode {
                Phase::Aerial
            } else {
                Phase::Idle
            },
            Seq::<T>::empty(),
            true,
        ),
{
}

/// Switching to live mode gives the invariant, whatever came before.
pub proof fn lemma_tee_invariant_go_live<T>()
    ensures
        tee_invariant(Phase::Idle, Seq::<T>::empty(), true),
{
}

/// Every tick keeps the invariant, whatever it observed, whether it
/// recorded a trail point and wherever it moved the ball.
pub proof fn lemma_tee_invariant_tick<T>(
    p: Phase,
    loop_mode: bool,
    shot_arrived: bool,
    timer_done: bool,
    trail: Seq<T>,
    at_tee: bool,
    point: Option<T>,
    moved_at_tee: bool,
)
    requires
        tee_invariant(p, trail, at_tee),
    ensures
        ({
            let r = tick_state(
                p,
                loop_mode,
                shot_arrived,
                timer_done,
                trail,
                at_tee,
                point,
                moved_at_tee,
            );
            tee_invariant(r.0, r.1, r.2)
        }),
{
}

/// The phase, trail and ball after a run of ticks; each tick is given by
/// what it observed (shot arrived, timer done), the trail point it
/// recorded, if any, and whether the ball ended on the tee.
pub open spec fn run_state<T>(
    p: Phase,
    loop_mode: bool,
    trail: Seq<T>,
    at_tee: bool,
    ticks: Seq<(bool, bool, Option<T>, bool)>,
) -> (Phase, Seq<T>, bool)
    decreases ticks.len(),
{
    if ticks.len() == 0 {
        (p, trail, at_tee)
    } else {
        let k = ticks[0];
        let r = tick_state(p, loop_mode, k.0, k.1, trail, at_tee, k.2, k.3);
        run_state(r.0, loop_mode, r.1, r.2, ticks.drop_first())
    }
}

/// From any state that has the invariant (such as the start, or the state
/// that switching to live mode gives), every run of ticks keeps it: while
/// waiting for a shot the ball is on the tee with an empty trail, and the
/// trail never exceeds `TRAIL_CAPACITY` points.
pub proof fn lemma_tee_invariant_run<T>(
    p: Phase,
    loop_mode: bool,
    trail: Seq<T>,
    at_tee: bool,
    ticks: Seq<(bool, bool, Option<T>, bool)>,
)
    requires
        tee_invariant(p, trail, at_tee),
    ensures
        ({
            let r = run_state(p, loop_mode, trail, at_tee, ticks);
            tee_invariant(r.0, r.1, r.2)
        }),
    decreases ticks.len(),
{
    if ticks.len() > 0 {
        let k = ticks[0];
        lemma_tee_invariant_tick(p, loop_mode, k.0, k.1, trail, at_tee, k.2, k.3);
        let r = tick_state(p, loop_mode, k.0, k.1, trail, at_tee, k.2, k.3);
        lemma_tee_invariant_run(r.0, loop_mode, r.1, r.2, ticks.drop_first());
    }
}

/// The most trail points kept.
pub const TRAIL_CAPACITY: usize = 256;

/// The trail after recording `p`: `p` is appended, and when the trail is
/// full its oldest point is dropped first.
pub open spec fn trail_after<T>(pts: Seq<T>, p: T) -> Seq<T> {
    if pts.len() < TRAIL_CAPACITY {
        pts.push(p)
    } else {
        pts.drop_first().push(p)
    }
}

/// Records a new ball position in the trail, keeping the most recent
/// `TRAIL_CAPACITY` points.
pub fn push_trail_point<T>(pts: &mut Vec<T>, p: T)
    requires
        old(pts)@.len() <= TRAIL_CAPACITY,
    ensures
        final(pts)@ == trail_after(old(pts)@, p),
        final(pts)@.len() <= TRAIL_CAPACITY,
        final(pts)@.last() == p,
{
    if pts.len() < TRAIL_CAPACITY {
        pts.push(p);
    } else {
        pts.remove(0);
        pts.push(p);
    }
}

/// The trail is the latest points in order: recording a point keeps every
/// earlier point that still fits, in the same order, followed by the new one.
pub proof fn lemma_trail_keeps_latest<T>(pts: Seq<T>, p: T)
    requires
        pts.len() <= TRAIL_CAPACITY,
    ensures
        trail_after(pts, p).len() <= TRAIL_CAPACITY,
        trail_after(pts, p) == pts.push(p).subrange(
            pts.len() + 1 - trail_after(pts, p).len(),
            (pts.len() + 1) as int,
        ),
{
    assert(trail_after(pts, p) =~= pts.push(p).subrange(
        pts.len() + 1 - trail_after(pts, p).len(),
        (pts.len() + 1) as int,
    ));
}

} // verus!
