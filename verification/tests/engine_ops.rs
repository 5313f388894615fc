use rollback_core::frame_distance;
use rollback_core::{App, AppInput, AppState, Frame, PlayerId, RegisterOutcome, SessionFault};

/// A command value: one number per frame per player.
#[derive(Clone, PartialEq, Eq, Debug)]
struct TestInput(u64);

impl AppInput for TestInput {
    fn default_spec() -> TestInput {
        TestInput(0)
    }

    fn default_input() -> TestInput {
        TestInput(0)
    }

    fn clone_input(&self) -> TestInput {
        self.clone()
    }

    fn input_eq(&self, other: &TestInput) -> bool {
        self == other
    }
}

/// A state that records every applied command and every tick, so that two
/// runs are equal exactly when they simulated the same input timeline.
#[derive(Clone, PartialEq, Eq, Debug)]
struct TestState {
    events: Vec<(u32, u64)>,
    ticks: u64,
}

impl TestState {
    fn new() -> TestState {
        TestState { events: Vec::new(), ticks: 0 }
    }
}

impl AppState<TestInput> for TestState {
    fn ticked(self) -> TestState {
        let mut s = self;
        s.ticks += 1;
        s
    }

    fn with_input(self, player_id: PlayerId, input: TestInput) -> TestState {
        let mut s = self;
        s.events.push((player_id.0, input.0));
        s
    }

    fn tick(&mut self) {
        self.ticks += 1;
    }

    fn handle_input(&mut self, player_id: PlayerId, input: TestInput) {
        self.events.push((player_id.0, input.0));
    }

    fn clone_state(&self) -> TestState {
        self.clone()
    }

    fn state_eq(&self, other: &TestState) -> bool {
        self == other
    }
}

fn engine(
    tick_interval: u64,
    frame_delay: u64,
    max_ticks: u64,
    window: u64,
) -> App<TestState, TestInput> {
    App::new(TestState::new(), tick_interval, frame_delay, PlayerId(0), max_ticks, window)
}

#[test]
fn tick_cap_limits_ticks_and_retains_remainder() {
    // interval 100 units (0.1s in tenths of milliseconds of a second scale),
    // 10 seconds' worth of time, at most 5 ticks per update
    let mut app = engine(100, 0, 5, 1000);
    assert_eq!(app.update(10_000), Ok(5));
    assert_eq!(app.current_frame().raw_value(), 5);
    // the remainder is retained: further calls with no elapsed time still
    // drain it, five ticks at a time
    assert_eq!(app.update(0), Ok(5));
    assert_eq!(app.current_frame().raw_value(), 10);
}

#[test]
fn update_runs_zero_ticks_below_interval() {
    let mut app = engine(100, 0, 5, 1000);
    assert_eq!(app.update(99), Ok(0));
    assert_eq!(app.current_frame().raw_value(), 0);
    assert_eq!(app.update(1), Ok(1));
    assert_eq!(app.current_frame().raw_value(), 1);
}

#[test]
fn set_state_get_state_round_trip() {
    let mut app = engine(1, 0, 5, 100);
    let s = TestState { events: vec![(3, 9), (1, 2)], ticks: 42 };
    app.set_state(s.clone());
    assert_eq!(*app.get_state(), s);
}

#[test]
fn stale_input_is_a_no_op() {
    let mut app = engine(1, 1, 10, 100);
    app.register_local_input(TestInput(3));
    assert_eq!(app.update(2), Ok(2));
    let before = app.get_state().clone();
    let confirmed_before = app.confirmed_frame().raw_value();
    let current_before = app.current_frame().raw_value();
    // frame 0 is at or behind the confirmed frame: settled history
    let r = app.register_remote_input(PlayerId(1), TestInput(9), Frame(0));
    assert_eq!(r, RegisterOutcome::Stale);
    assert_eq!(*app.get_state(), before);
    assert_eq!(app.confirmed_frame().raw_value(), confirmed_before);
    assert_eq!(app.current_frame().raw_value(), current_before);
    // the no-op extends to the next tick: no rollback was flagged
    assert_eq!(app.update(1), Ok(1));
    let mut twin = engine(1, 1, 10, 100);
    twin.register_local_input(TestInput(3));
    assert_eq!(twin.update(3), Ok(3));
    assert_eq!(*app.get_state(), *twin.get_state());
}

#[test]
fn out_of_window_input_is_rejected() {
    let mut app = engine(1, 0, 10, 10);
    let before = app.get_state().clone();
    let r = app.register_remote_input(PlayerId(1), TestInput(4), Frame(50));
    assert_eq!(r, RegisterOutcome::OutOfWindow);
    assert_eq!(*app.get_state(), before);
}

#[test]
fn registering_twice_equals_registering_once() {
    let mut once = engine(1, 0, 10, 100);
    let mut twice = engine(1, 0, 10, 100);
    let r1 = once.register_remote_input(PlayerId(1), TestInput(7), Frame(2));
    let r2a = twice.register_remote_input(PlayerId(1), TestInput(7), Frame(2));
    let r2b = twice.register_remote_input(PlayerId(1), TestInput(7), Frame(2));
    assert_eq!(r1, RegisterOutcome::Accepted);
    assert_eq!(r2a, RegisterOutcome::Accepted);
    assert_eq!(r2b, RegisterOutcome::Accepted);
    assert_eq!(once.update(5), Ok(5));
    assert_eq!(twice.update(5), Ok(5));
    assert_eq!(*once.get_state(), *twice.get_state());
    assert_eq!(once.confirmed_frame().raw_value(), twice.confirmed_frame().raw_value());
    assert_eq!(once.current_frame().raw_value(), twice.current_frame().raw_value());
}

#[test]
fn divergent_confirmation_rolls_back_and_resimulates() {
    let mut app = engine(1, 0, 10, 100);
    // the remote player's input for frame 1 arrives before it is simulated
    assert_eq!(
        app.register_remote_input(PlayerId(1), TestInput(5), Frame(1)),
        RegisterOutcome::Accepted
    );
    // frames 1..=3 are simulated; frames 2 and 3 predict the repeated 5
    assert_eq!(app.update(3), Ok(3));
    assert_eq!(
        *app.get_state(),
        TestState {
            events: vec![(0, 0), (1, 5), (0, 0), (1, 5), (0, 0), (1, 5)],
            ticks: 3,
        }
    );
    // the true input for frame 2 contradicts the prediction
    assert_eq!(
        app.register_remote_input(PlayerId(1), TestInput(9), Frame(2)),
        RegisterOutcome::Accepted
    );
    // the next tick rewinds to the confirmed baseline and resimulates:
    // frame 2 uses the corrected 9, frame 3 repeats it, frame 4 is new,
    // and the discarded prediction is nowhere in the result
    assert_eq!(app.update(1), Ok(1));
    assert_eq!(
        *app.get_state(),
        TestState {
            events: vec![(0, 0), (1, 5), (0, 0), (1, 9), (0, 0), (1, 9), (0, 0), (1, 9)],
            ticks: 4,
        }
    );
}

#[test]
fn matching_confirmation_needs_no_rollback() {
    let mut app = engine(1, 0, 10, 100);
    assert_eq!(
        app.register_remote_input(PlayerId(1), TestInput(5), Frame(1)),
        RegisterOutcome::Accepted
    );
    assert_eq!(app.update(3), Ok(3));
    // the confirmation for frame 2 matches what was predicted
    assert_eq!(
        app.register_remote_input(PlayerId(1), TestInput(5), Frame(2)),
        RegisterOutcome::Accepted
    );
    assert_eq!(app.update(1), Ok(1));
    assert_eq!(
        *app.get_state(),
        TestState {
            events: vec![(0, 0), (1, 5), (0, 0), (1, 5), (0, 0), (1, 5), (0, 0), (1, 5)],
            ticks: 4,
        }
    );
}

#[test]
fn confirmed_frame_advances_and_never_passes_current() {
    let mut app = engine(1, 1, 10, 100);
    // the local input is scheduled for frame 1 and confirmed immediately
    assert_eq!(app.register_local_input(TestInput(3)), RegisterOutcome::Accepted);
    assert_eq!(app.update(1), Ok(1));
    assert_eq!(app.confirmed_frame().raw_value(), 0);
    // a new remote player's input for the already simulated frame 1
    // forces a rollback; afterwards frame 1 is fully confirmed, so the
    // confirmed baseline slides forward to it
    assert_eq!(
        app.register_remote_input(PlayerId(1), TestInput(7), Frame(1)),
        RegisterOutcome::Accepted
    );
    assert_eq!(app.update(1), Ok(1));
    assert_eq!(app.confirmed_frame().raw_value(), 1);
    assert_eq!(app.current_frame().raw_value(), 2);
    let confirmed = app.confirmed_frame();
    let current = app.current_frame();
    assert!(!confirmed.greater_than(current));
    assert_eq!(
        *app.get_state(),
        TestState { events: vec![(0, 3), (1, 7), (0, 3), (1, 7)], ticks: 2 }
    );
}

#[test]
fn exhausted_window_is_a_session_fault() {
    let mut app = engine(1, 0, 10, 2);
    // without remote confirmations the confirmed frame cannot follow, so
    // the gap reaches the window after two ticks and the third faults
    assert_eq!(app.update(5), Err(SessionFault::WindowExhausted));
    assert_eq!(app.current_frame().raw_value(), 2);
    assert_eq!(app.confirmed_frame().raw_value(), 0);
}

#[test]
fn local_input_is_scheduled_after_the_frame_delay() {
    let mut app = engine(1, 2, 10, 100);
    assert_eq!(app.register_local_input(TestInput(8)), RegisterOutcome::Accepted);
    // frame 1 predicts the default; frame 2 carries the deferred input,
    // which frame 3 then repeats
    assert_eq!(app.update(3), Ok(3));
    assert_eq!(
        *app.get_state(),
        TestState { events: vec![(0, 0), (0, 8), (0, 8)], ticks: 3 }
    );
}

#[test]
fn prediction_repeats_last_confirmed_input() {
    let mut app = engine(1, 0, 10, 100);
    assert_eq!(
        app.register_remote_input(PlayerId(4), TestInput(6), Frame(1)),
        RegisterOutcome::Accepted
    );
    assert_eq!(app.update(4), Ok(4));
    // frame 1 uses the confirmed 6; frames 2..=4 repeat it
    assert_eq!(
        *app.get_state(),
        TestState {
            events: vec![(0, 0), (4, 6), (0, 0), (4, 6), (0, 0), (4, 6), (0, 0), (4, 6)],
            ticks: 4,
        }
    );
}

#[test]
fn local_input_with_no_delay_at_the_settled_frame_is_stale() {
    // with no frame delay and no tick yet, the scheduled frame is the
    // confirmed frame itself, whose history is already settled
    let mut app = engine(1, 0, 10, 100);
    assert_eq!(app.register_local_input(TestInput(5)), RegisterOutcome::Stale);
    // once the engine has ticked past frame 0, the schedule is live again
    assert_eq!(app.update(1), Ok(1));
    assert_eq!(app.register_local_input(TestInput(5)), RegisterOutcome::Accepted);
}

#[test]
fn frame_distance_measures_forward_steps() {
    assert_eq!(frame_distance(Frame(3), Frame(10)), 7);
    assert_eq!(frame_distance(Frame(10), Frame(10)), 0);
    assert_eq!(frame_distance(Frame(u64::MAX - 1), Frame(3)), 5);
}

#[test]
fn identical_runs_produce_identical_states() {
    let mut a = engine(1, 1, 10, 100);
    let mut b = engine(1, 1, 10, 100);
    for step in 0..4u64 {
        assert_eq!(
            a.register_local_input(TestInput(step + 1)),
            b.register_local_input(TestInput(step + 1))
        );
        assert_eq!(
            a.register_remote_input(PlayerId(1), TestInput(step * 7), Frame(step + 1)),
            b.register_remote_input(PlayerId(1), TestInput(step * 7), Frame(step + 1))
        );
        assert_eq!(a.update(1), b.update(1));
    }
    assert_eq!(*a.get_state(), *b.get_state());
    assert_eq!(a.confirmed_frame().raw_value(), b.confirmed_frame().raw_value());
    assert_eq!(a.current_frame().raw_value(), b.current_frame().raw_value());
}

#[test]
fn confirmed_record_is_never_overwritten() {
    let mut a = engine(1, 0, 10, 100);
    let mut b = engine(1, 0, 10, 100);
    assert_eq!(a.register_remote_input(PlayerId(1), TestInput(5), Frame(1)), RegisterOutcome::Accepted);
    assert_eq!(b.register_remote_input(PlayerId(1), TestInput(5), Frame(1)), RegisterOutcome::Accepted);
    // a contradictory second confirmation for the same settled record is
    // ignored: confirmed history is immutable
    assert_eq!(b.register_remote_input(PlayerId(1), TestInput(8), Frame(1)), RegisterOutcome::Accepted);
    assert_eq!(a.update(3), Ok(3));
    assert_eq!(b.update(3), Ok(3));
    assert_eq!(*a.get_state(), *b.get_state());
}
