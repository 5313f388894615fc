use vstd::prelude::*;
use crate::frame::{
    Frame, at_or_before, circ_gt, fadd, frame_dist, lemma_dist_additive,
    lemma_dist_fadd, lemma_dist_implies_gt, lemma_fadd_assoc, lemma_fadd_dist,
};
use crate::timeline::{
    ConfLane, InputRecord, LaneView, PlayerLane, RecView, conf_lanes, lane_index,
    lane_input, lane_view, lane_wf, lemma_lane_index, lemma_rec_index, rec_index, rec_view_seq,
};
use crate::{AppInput, AppState, PlayerId};

verus! {

/// What became of one registered input.
#[derive(Debug, Clone, Copy, PartialEq, Eq, Structural)]
pub enum RegisterOutcome {
    /// The input was recorded (or was already settled as confirmed).
    Accepted,
    /// The frame is at or behind the confirmed frame: history is immutable
    /// and already settled, so the call is a no-op.
    Stale,
    /// The frame is beyond the configured rollback horizon and was rejected
    /// rather than buffered unboundedly.
    OutOfWindow,
}

/// A session-level fault the engine cannot recover from locally.
#[derive(Debug, Clone, Copy, PartialEq, Eq, Structural)]
pub enum SessionFault {
    /// The gap between the confirmed and the current frame has reached the
    /// configured rollback window: a remote confirmation never arrived.
    WindowExhausted,
}

/// Mathematical image of the whole engine.
#[verifier::ext_equal]
pub ghost struct AppView<State, Input> {
    pub frame_delay: u64,
    pub tick_interval: u64,
    pub max_ticks_per_update: u64,
    pub rollback_window: u64,
    pub local_player: u32,
    pub accumulated: u64,
    pub confirmed_frame: u64,
    pub confirmed_state: State,
    pub current_frame: u64,
    pub current_state: State,
    pub lanes: Seq<LaneView<Input>>,
    pub needs_resim: bool,
}

/// The configuration fields agree.
pub open spec fn same_config<State, Input>(a: AppView<State, Input>, b: AppView<State, Input>) -> bool {
    &&& a.frame_delay == b.frame_delay
    &&& a.tick_interval == b.tick_interval
    &&& a.max_ticks_per_update == b.max_ticks_per_update
    &&& a.rollback_window == b.rollback_window
    &&& a.local_player == b.local_player
}

/// Engine well-formedness: a positive tick interval, a positive rollback
/// window, a horizon small enough that every circular comparison the engine
/// makes stays within half the frame range, a confirmed frame that never
/// exceeds the current frame, and well-formed lanes of distinct players.
pub open spec fn wf_view<State, Input>(v: AppView<State, Input>) -> bool {
    &&& 1 <= v.tick_interval
    &&& 1 <= v.rollback_window
    &&& v.frame_delay + v.rollback_window <= 0x4000_0000_0000_0000
    &&& frame_dist(v.confirmed_frame, v.current_frame) <= v.rollback_window
    &&& (forall|i: int| 0 <= i < v.lanes.len() ==> lane_wf(#[trigger] v.lanes[i]))
    &&& (forall|i: int, j: int|
        0 <= i < j < v.lanes.len() ==> v.lanes[i].player != v.lanes[j].player)
}

/// The frame is at or behind the confirmed frame: its input is settled.
pub open spec fn reg_stale<State, Input>(v: AppView<State, Input>, f: u64) -> bool {
    at_or_before(f, v.confirmed_frame)
}

/// The frame is beyond the rollback horizon measured from the confirmed
/// baseline (the window plus the local scheduling delay).
pub open spec fn reg_oow<State, Input>(v: AppView<State, Input>, f: u64) -> bool {
    &&& !reg_stale(v, f)
    &&& frame_dist(v.confirmed_frame, f) > v.rollback_window + v.frame_delay
}

/// How the engine state changes when a confirmed input for `(p, f)` is
/// registered: a no-op for settled or out-of-window frames and for frames
/// whose confirmed record already exists; otherwise the record becomes
/// confirmed, and resimulation is flagged if a predicted record with a
/// different value existed, or if a frame at or behind the current frame
/// was simulated without any record for it (a previously unknown player
/// always flags resimulation).
pub open spec fn register_transition<State, Input>(
    v: AppView<State, Input>,
    p: u32,
    input: Input,
    f: u64,
) -> AppView<State, Input> {
    if reg_stale(v, f) || reg_oow(v, f) {
        v
    } else {
        let li = lane_index(v.lanes, p);
        if li < 0 {
            AppView {
                lanes: v.lanes.push(
                    LaneView {
                        player: p,
                        confirmed: seq![RecView { frame: f, input }],
                        predicted: Seq::empty(),
                    },
                ),
                needs_resim: true,
                ..v
            }
        } else {
            let l = v.lanes[li];
            if rec_index(l.confirmed, f) >= 0 {
                v
            } else {
                let pi = rec_index(l.predicted, f);
                if pi >= 0 {
                    let diverged = l.predicted[pi].input != input;
                    let nl = LaneView {
                        confirmed: l.confirmed.push(RecView { frame: f, input }),
                        predicted: l.predicted.remove(pi),
                        ..l
                    };
                    AppView {
                        lanes: v.lanes.update(li, nl),
                        needs_resim: v.needs_resim || diverged,
                        ..v
                    }
                } else {
                    let nl = LaneView {
                        confirmed: l.confirmed.push(RecView { frame: f, input }),
                        ..l
                    };
                    AppView {
                        lanes: v.lanes.update(li, nl),
                        needs_resim: v.needs_resim || at_or_before(f, v.current_frame),
                        ..v
                    }
                }
            }
        }
    }
}

/// The outcome reported for registering a confirmed input for frame `f`.
pub open spec fn register_outcome<State, Input>(v: AppView<State, Input>, f: u64) -> RegisterOutcome {
    if reg_stale(v, f) {
        RegisterOutcome::Stale
    } else if reg_oow(v, f) {
        RegisterOutcome::OutOfWindow
    } else {
        RegisterOutcome::Accepted
    }
}

/// The state after the best-known inputs of the lanes from index `k` on
/// have been applied for frame `f`, each player in lane order.
pub open spec fn apply_from<State, Input>(
    s: State,
    cl: Seq<ConfLane<Input>>,
    k: int,
    f: u64,
) -> State where State: AppState<Input>, Input: AppInput
    decreases cl.len() - k,
{
    if k < 0 || k >= cl.len() {
        s
    } else {
        apply_from(s.with_input(PlayerId(cl[k].player), lane_input(cl[k], f)), cl, k + 1, f)
    }
}

/// One simulated frame: every player's best-known input for frame `f` is
/// applied, then the state advances one discrete step.
pub open spec fn frame_step<State, Input>(s: State, cl: Seq<ConfLane<Input>>, f: u64) -> State
    where State: AppState<Input>, Input: AppInput
{
    apply_from(s, cl, 0, f).ticked()
}

/// The state reached from `s` by simulating the `k` frames after `from`,
/// each with the best-known input of every player.
pub open spec fn replay<State, Input>(
    s: State,
    cl: Seq<ConfLane<Input>>,
    from: u64,
    k: nat,
) -> State where State: AppState<Input>, Input: AppInput
    decreases k,
{
    if k == 0 {
        s
    } else {
        replay(frame_step(s, cl, fadd(from, 1)), cl, fadd(from, 1), (k - 1) as nat)
    }
}

/// Replaying one frame more is replaying and then simulating that frame.
pub proof fn lemma_replay_snoc<State, Input>(
    s: State,
    cl: Seq<ConfLane<Input>>,
    from: u64,
    k: nat,
) where State: AppState<Input>, Input: AppInput
    requires
        k + 1 < 0x1_0000_0000_0000_0000,
    ensures
        replay(s, cl, from, (k + 1) as nat) == frame_step(
            replay(s, cl, from, k),
            cl,
            fadd(from, k as int + 1),
        ),
    decreases k,
{
    if k == 0 {
        assert(replay(s, cl, from, 1) == replay(frame_step(s, cl, fadd(from, 1)), cl, fadd(from, 1), 0));
        assert(replay(s, cl, from, 0) == s);
    } else {
        let s1 = frame_step(s, cl, fadd(from, 1));
        lemma_replay_snoc(s1, cl, fadd(from, 1), (k - 1) as nat);
        lemma_fadd_assoc(from, 1, k as int);
        assert(replay(s, cl, from, (k + 1) as nat) == replay(s1, cl, fadd(from, 1), k));
        assert(replay(s, cl, from, k) == replay(s1, cl, fadd(from, 1), (k - 1) as nat));
    }
}

/// Replaying `m + n` frames is replaying `m`, then replaying `n` more from
/// where that left off.
pub proof fn lemma_replay_split<State, Input>(
    s: State,
    cl: Seq<ConfLane<Input>>,
    from: u64,
    m: nat,
    n: nat,
) where State: AppState<Input>, Input: AppInput
    requires
        m + n < 0x1_0000_0000_0000_0000,
    ensures
        replay(s, cl, from, (m + n) as nat) == replay(
            replay(s, cl, from, m),
            cl,
            fadd(from, m as int),
            n,
        ),
    decreases n,
{
    if n > 0 {
        lemma_replay_split(s, cl, from, m, (n - 1) as nat);
        lemma_replay_snoc(s, cl, from, (m + n - 1) as nat);
        lemma_replay_snoc(replay(s, cl, from, m), cl, fadd(from, m as int), (n - 1) as nat);
        lemma_fadd_assoc(from, m as int, n as int);
    }
}

/// Saturating addition on the accumulated-time counter: real time beyond
/// the top of the range is dropped rather than wrapped.
pub open spec fn sat_add(a: u64, b: u64) -> u64 {
    if a + b > u64::MAX {
        u64::MAX
    } else {
        (a + b) as u64
    }
}

/// Every player has a confirmed record for frame `f`.
pub open spec fn all_confirmed_at<Input>(lanes: Seq<LaneView<Input>>, f: u64) -> bool {
    forall|i: int| 0 <= i < lanes.len() ==> #[trigger] rec_index(lanes[i].confirmed, f) >= 0
}

/// Every lane of the confirmed projection has a record for frame `f`.
pub open spec fn all_confirmed_cl<Input>(cl: Seq<ConfLane<Input>>, f: u64) -> bool {
    forall|i: int| 0 <= i < cl.len() ==> #[trigger] rec_index(cl[i].recs, f) >= 0
}

/// The two readings of full confirmation agree through the projection.
pub proof fn lemma_all_confirmed_agree<Input>(lanes: Seq<LaneView<Input>>, f: u64)
    ensures
        all_confirmed_at(lanes, f) == all_confirmed_cl(conf_lanes(lanes), f),
{
    assert forall|i: int| 0 <= i < lanes.len() implies #[trigger] conf_lanes(lanes)[i].recs
        == lanes[i].confirmed by {}
    if all_confirmed_at(lanes, f) {
        assert forall|i: int| 0 <= i < conf_lanes(lanes).len() implies #[trigger] rec_index(
            conf_lanes(lanes)[i].recs,
            f,
        ) >= 0 by {
            assert(rec_index(lanes[i].confirmed, f) >= 0);
        }
    }
    if all_confirmed_cl(conf_lanes(lanes), f) {
        assert forall|i: int| 0 <= i < lanes.len() implies #[trigger] rec_index(
            lanes[i].confirmed,
            f,
        ) >= 0 by {
            assert(rec_index(conf_lanes(lanes)[i].recs, f) >= 0);
        }
    }
}

/// One lane after the speculative timeline simulated frame `f` using `val`
/// for this player: unless a confirmed record settles the frame, the value
/// used is remembered as the predicted record for `f`.
pub open spec fn upsert_predicted<Input>(l: LaneView<Input>, f: u64, val: Input) -> LaneView<
    Input,
> {
    if rec_index(l.confirmed, f) >= 0 {
        l
    } else {
        let pi = rec_index(l.predicted, f);
        if pi >= 0 {
            LaneView { predicted: l.predicted.update(pi, RecView { frame: f, input: val }), ..l }
        } else {
            LaneView { predicted: l.predicted.push(RecView { frame: f, input: val }), ..l }
        }
    }
}

/// All lanes after frame `f` was simulated: each player's predicted record
/// for `f` now holds the best-known input that was applied.
pub open spec fn lanes_after_frame<Input: AppInput>(
    lanes: Seq<LaneView<Input>>,
    f: u64,
) -> Seq<LaneView<Input>> {
    Seq::new(
        lanes.len(),
        |i: int| upsert_predicted(lanes[i], f, lane_input(conf_lanes(lanes)[i], f)),
    )
}

/// All lanes after the `k` frames following `from` were simulated in order.
pub open spec fn lanes_after_span<Input: AppInput>(
    lanes: Seq<LaneView<Input>>,
    from: u64,
    k: nat,
) -> Seq<LaneView<Input>>
    decreases k,
{
    if k == 0 {
        lanes
    } else {
        lanes_after_span(lanes_after_frame(lanes, fadd(from, 1)), fadd(from, 1), (k - 1) as nat)
    }
}

/// Simulating one frame more is simulating the span and then that frame.
pub proof fn lemma_lanes_span_snoc<Input: AppInput>(
    lanes: Seq<LaneView<Input>>,
    from: u64,
    k: nat,
)
    requires
        k + 1 < 0x1_0000_0000_0000_0000,
    ensures
        lanes_after_span(lanes, from, (k + 1) as nat) == lanes_after_frame(
            lanes_after_span(lanes, from, k),
            fadd(from, k as int + 1),
        ),
    decreases k,
{
    let l1 = lanes_after_frame(lanes, fadd(from, 1));
    if k == 0 {
        assert(lanes_after_span(lanes, from, 1) == lanes_after_span(l1, fadd(from, 1), 0));
        assert(lanes_after_span(lanes, from, 0) == lanes);
    } else {
        lemma_lanes_span_snoc(l1, fadd(from, 1), (k - 1) as nat);
        lemma_fadd_assoc(from, 1, k as int);
        assert(lanes_after_span(lanes, from, (k + 1) as nat) == lanes_after_span(
            l1,
            fadd(from, 1),
            k,
        ));
        assert(lanes_after_span(lanes, from, k) == lanes_after_span(
            l1,
            fadd(from, 1),
            (k - 1) as nat,
        ));
    }
}

/// How many of the `k` frames after `c` the confirmed baseline slides over:
/// the length of the contiguous run of frames, starting right after `c`,
/// for which every player's input is confirmed.
pub open spec fn confirmed_advance<Input>(cl: Seq<ConfLane<Input>>, c: u64, k: nat) -> nat
    decreases k,
{
    if k == 0 {
        0
    } else if all_confirmed_cl(cl, fadd(c, 1)) {
        1 + confirmed_advance(cl, fadd(c, 1), (k - 1) as nat)
    } else {
        0
    }
}

/// Sweeping one frame more advances the baseline by one exactly when it has
/// kept up so far and the new frame is fully confirmed.
pub proof fn lemma_confirmed_advance_step<Input>(cl: Seq<ConfLane<Input>>, c: u64, k: nat)
    requires
        k + 1 < 0x1_0000_0000_0000_0000,
    ensures
        confirmed_advance(cl, c, (k + 1) as nat) == if confirmed_advance(cl, c, k) == k
            && all_confirmed_cl(cl, fadd(c, k as int + 1)) {
            (k + 1) as nat
        } else {
            confirmed_advance(cl, c, k)
        },
    decreases k,
{
    if all_confirmed_cl(cl, fadd(c, 1)) {
        assert(confirmed_advance(cl, c, (k + 1) as nat) == 1 + confirmed_advance(
            cl,
            fadd(c, 1),
            k,
        ));
        if k > 0 {
            assert(confirmed_advance(cl, c, k) == 1 + confirmed_advance(
                cl,
                fadd(c, 1),
                (k - 1) as nat,
            ));
            lemma_confirmed_advance_step(cl, fadd(c, 1), (k - 1) as nat);
            lemma_fadd_assoc(c, 1, k as int);
        } else {
            assert(confirmed_advance(cl, fadd(c, 1), 0) == 0);
            assert(confirmed_advance(cl, c, 0) == 0);
        }
    } else {
        assert(confirmed_advance(cl, c, (k + 1) as nat) == 0);
        if k > 0 {
            assert(confirmed_advance(cl, c, k) == 0);
        }
    }
}

/// Whether one discrete step faults: the gap between the confirmed and the
/// current frame still fills the rollback window even after any advance
/// that resimulation can make.
pub open spec fn tick_faults<State, Input: AppInput>(v: AppView<State, Input>) -> bool {
    frame_dist(v.confirmed_frame, v.current_frame) - (if v.needs_resim {
        confirmed_advance(
            conf_lanes(v.lanes),
            v.confirmed_frame,
            frame_dist(v.confirmed_frame, v.current_frame),
        ) as int
    } else {
        0
    }) >= v.rollback_window
}

/// The engine after the rewind-and-resimulate phase of a tick: when no
/// divergence is flagged it only clears the flag; otherwise the speculative
/// state becomes the replay of the confirmed baseline over the whole
/// window, the baseline slides over the fully confirmed prefix, and every
/// replayed frame's predicted records are refreshed.
pub open spec fn sweep_view<State, Input>(v: AppView<State, Input>) -> AppView<State, Input>
    where State: AppState<Input>, Input: AppInput
{
    if !v.needs_resim {
        AppView { needs_resim: false, ..v }
    } else {
        let cl = conf_lanes(v.lanes);
        let d = frame_dist(v.confirmed_frame, v.current_frame);
        let adv = confirmed_advance(cl, v.confirmed_frame, d);
        AppView {
            confirmed_frame: fadd(v.confirmed_frame, adv as int),
            confirmed_state: replay(v.confirmed_state, cl, v.confirmed_frame, adv),
            current_state: replay(v.confirmed_state, cl, v.confirmed_frame, d),
            lanes: lanes_after_span(v.lanes, v.confirmed_frame, d),
            needs_resim: false,
            ..v
        }
    }
}

/// The engine after one whole discrete step: the sweep, then — unless the
/// window is exhausted — the newly due frame is simulated and the current
/// frame advances by one.
pub open spec fn tick_view<State, Input>(v: AppView<State, Input>) -> AppView<State, Input>
    where State: AppState<Input>, Input: AppInput
{
    let s = sweep_view(v);
    if tick_faults(v) {
        s
    } else {
        let next = fadd(v.current_frame, 1);
        AppView {
            current_frame: next,
            current_state: frame_step(s.current_state, conf_lanes(v.lanes), next),
            lanes: lanes_after_frame(s.lanes, next),
            ..s
        }
    }
}

/// The engine after `n` due ticks of one update call: each executes one
/// whole discrete step and drains one tick interval from the accumulator.
pub open spec fn ticks_elapse<State, Input>(v: AppView<State, Input>, n: nat) -> AppView<
    State,
    Input,
> where State: AppState<Input>, Input: AppInput
    decreases n,
{
    if n == 0 {
        v
    } else {
        let v1 = tick_view(v);
        ticks_elapse(
            AppView { accumulated: (v1.accumulated - v.tick_interval) as u64, ..v1 },
            (n - 1) as nat,
        )
    }
}

/// Elapsing one tick more is elapsing and then ticking once more.
pub proof fn lemma_ticks_elapse_snoc<State, Input>(v: AppView<State, Input>, n: nat)
    where State: AppState<Input>, Input: AppInput
    ensures
        ticks_elapse(v, (n + 1) as nat) == ({
            let vn = ticks_elapse(v, n);
            let v1 = tick_view(vn);
            AppView { accumulated: (v1.accumulated - vn.tick_interval) as u64, ..v1 }
        }),
    decreases n,
{
    let w1 = tick_view(v);
    let s = AppView { accumulated: (w1.accumulated - v.tick_interval) as u64, ..w1 };
    if n == 0 {
        assert(ticks_elapse(v, 1) == ticks_elapse(s, 0));
        assert(ticks_elapse(v, 0) == v);
    } else {
        lemma_ticks_elapse_snoc(s, (n - 1) as nat);
        assert(ticks_elapse(v, (n + 1) as nat) == ticks_elapse(s, n));
        assert(ticks_elapse(v, n) == ticks_elapse(s, (n - 1) as nat));
    }
}

/// Registering a confirmed input twice with identical arguments yields the
/// same engine state as registering it once: the second call finds the
/// record already confirmed and leaves everything unchanged.
pub proof fn lemma_register_idempotent<State, Input>(
    v: AppView<State, Input>,
    p: u32,
    input: Input,
    f: u64,
)
    requires
        wf_view(v),
    ensures
        register_transition(register_transition(v, p, input, f), p, input, f)
            == register_transition(v, p, input, f),
{
    let v1 = register_transition(v, p, input, f);
    if !(reg_stale(v, f) || reg_oow(v, f)) {
        lemma_lane_index(v.lanes, p);
        let li = lane_index(v.lanes, p);
        if li < 0 {
            let li1 = lane_index(v1.lanes, p);
            lemma_lane_index(v1.lanes, p);
            assert(v1.lanes[v.lanes.len() as int].player == p);
            assert(li1 >= 0);
            assert forall|j: int| 0 <= j < v.lanes.len() implies v1.lanes[j] == v.lanes[j] by {}
            assert(li1 == v.lanes.len());
            lemma_rec_index(v1.lanes[li1].confirmed, f);
            assert(v1.lanes[li1].confirmed[0].frame == f);
            assert(rec_index(v1.lanes[li1].confirmed, f) >= 0);
        } else {
            let l = v.lanes[li];
            if rec_index(l.confirmed, f) < 0 {
                let nl = v1.lanes[li];
                lemma_lane_index(v1.lanes, p);
                assert forall|j: int| 0 <= j < v.lanes.len() implies v1.lanes[j].player
                    == v.lanes[j].player by {}
                assert(v1.lanes[li].player == p);
                assert(lane_index(v1.lanes, p) == li);
                lemma_rec_index(nl.confirmed, f);
                assert(nl.confirmed[l.confirmed.len() as int].frame == f);
                assert(rec_index(nl.confirmed, f) >= 0);
            }
        }
    }
}

/// A confirmed record is never overwritten: once a player's input for a
/// frame is confirmed, registering any further input for that player and
/// frame leaves the engine unchanged.
pub proof fn lemma_confirmed_immutable<State, Input>(
    v: AppView<State, Input>,
    p: u32,
    input: Input,
    f: u64,
)
    requires
        lane_index(v.lanes, p) >= 0,
        rec_index(v.lanes[lane_index(v.lanes, p)].confirmed, f) >= 0,
    ensures
        register_transition(v, p, input, f) == v,
{
}

/// The confirmed frame never exceeds the current frame under circular
/// comparison: the gap between them is bounded by the rollback window,
/// which is far below half the frame range.
pub proof fn lemma_confirmed_not_ahead<State, Input>(v: AppView<State, Input>)
    requires
        wf_view(v),
    ensures
        !circ_gt(v.confirmed_frame, v.current_frame),
        v.confirmed_frame == v.current_frame || circ_gt(v.current_frame, v.confirmed_frame),
{
    let d = frame_dist(v.confirmed_frame, v.current_frame);
    if d > 0 {
        lemma_dist_implies_gt(v.confirmed_frame, v.current_frame);
    }
}

/// The prediction-rollback tick engine: accumulates real time into fixed
/// ticks, registers local and remote inputs, detects divergence between
/// predicted and confirmed inputs, and rewinds to the last confirmed
/// baseline and resimulates when they disagree.
pub struct App<State, Input> where State: AppState<Input>, Input: AppInput {
    frame_delay: u64,
    tick_interval: u64,
    max_ticks_per_update: u64,
    rollback_window: u64,
    local_player: PlayerId,
    accumulated: u64,
    confirmed_frame: Frame,
    confirmed_state: State,
    current_frame: Frame,
    current_state: State,
    lanes: Vec<PlayerLane<Input>>,
    needs_resim: bool,
}

impl<State, Input> View for App<State, Input> where State: AppState<Input>, Input: AppInput {
    type V = AppView<State, Input>;

    closed spec fn view(&self) -> AppView<State, Input> {
        AppView {
            frame_delay: self.frame_delay,
            tick_interval: self.tick_interval,
            max_ticks_per_update: self.max_ticks_per_update,
            rollback_window: self.rollback_window,
            local_player: self.local_player.0,
            accumulated: self.accumulated,
            confirmed_frame: self.confirmed_frame.0,
            confirmed_state: self.confirmed_state,
            current_frame: self.current_frame.0,
            current_state: self.current_state,
            lanes: Seq::new(self.lanes@.len(), |i: int| lane_view(self.lanes@[i])),
            needs_resim: self.needs_resim,
        }
    }
}

/// Computes the circular distance from `from` forward to `to`.
pub fn frame_distance(from: Frame, to: Frame) -> (d: u64)
    ensures
        d as nat == frame_dist(from.0, to.0),
{
    if to.0 >= from.0 {
        to.0 - from.0
    } else {
        u64::MAX - from.0 + 1 + to.0
    }
}

impl<State, Input> App<State, Input> where State: AppState<Input>, Input: AppInput {
    /// The engine is well-formed.
    pub open spec fn wf(&self) -> bool {
        wf_view(self@)
    }

    /// Creates an engine whose confirmed and current state both equal the
    /// initial state at frame 0, with an empty input history for the local
    /// player. `tick_interval` is the fixed simulated time per tick, in the
    /// caller's time unit; `frame_delay` is how many frames locally
    /// registered input is deferred; `rollback_window` bounds the gap
    /// between the confirmed and the current frame.
    pub fn new(
        initial_state: State,
        tick_interval: u64,
        frame_delay: u64,
        local_player: PlayerId,
        max_ticks_per_update: u64,
        rollback_window: u64,
    ) -> (r: Self)
        requires
            1 <= tick_interval,
            1 <= rollback_window,
            frame_delay + rollback_window <= 0x4000_0000_0000_0000,
        ensures
            r.wf(),
            r@.frame_delay == frame_delay,
            r@.tick_interval == tick_interval,
            r@.max_ticks_per_update == max_ticks_per_update,
            r@.rollback_window == rollback_window,
            r@.local_player == local_player.0,
            r@.accumulated == 0,
            r@.confirmed_frame == 0,
            r@.current_frame == 0,
            r@.confirmed_state == initial_state,
            r@.current_state == initial_state,
            r@.needs_resim == false,
            r@.lanes =~= seq![
                (LaneView { player: local_player.0, confirmed: Seq::empty(), predicted: Seq::empty() }),
            ],
    {
        let confirmed_state = initial_state.clone_state();
        let mut lanes: Vec<PlayerLane<Input>> = Vec::new();
        lanes.push(PlayerLane { player: local_player, confirmed: Vec::new(), predicted: Vec::new() });
        let r = App {
            frame_delay,
            tick_interval,
            max_ticks_per_update,
            rollback_window,
            local_player,
            accumulated: 0,
            confirmed_frame: Frame(0),
            confirmed_state,
            current_frame: Frame(0),
            current_state: initial_state,
            lanes,
            needs_resim: false,
        };
        proof {
            assert(r@.lanes =~= seq![
                (LaneView {
                    player: local_player.0,
                    confirmed: Seq::<RecView<Input>>::empty(),
                    predicted: Seq::<RecView<Input>>::empty(),
                }),
            ]) by {
                assert(rec_view_seq(Seq::<InputRecord<Input>>::empty()) =~= Seq::<
                    RecView<Input>,
                >::empty());
            }
        }
        r
    }

    /// The frame the speculative state has reached.
    pub fn current_frame(&self) -> (r: Frame)
        ensures
            r.0 == self@.current_frame,
    {
        self.current_frame
    }

    /// The last frame for which every player's input is settled and whose
    /// state is known to be correct.
    pub fn confirmed_frame(&self) -> (r: Frame)
        ensures
            r.0 == self@.confirmed_frame,
    {
        self.confirmed_frame
    }

    /// Returns the current speculative state, read-only.
    pub fn get_state(&self) -> (r: &State)
        ensures
            *r == self@.current_state,
    {
        &self.current_state
    }

    /// Overwrites the current speculative state directly, for initial
    /// synchronization or loading a saved state. Frame counters and the
    /// confirmed baseline are left untouched.
    pub fn set_state(&mut self, new_state: State)
        requires
            old(self).wf(),
        ensures
            final(self).wf(),
            final(self)@ == (AppView { current_state: new_state, ..old(self)@ }),
    {
        self.current_state = new_state;
    }

    /// Registers a confirmed input arriving from the network for one player
    /// at one frame, in any arrival order. Settled frames are ignored;
    /// frames beyond the rollback horizon are rejected; a confirmed value
    /// that contradicts the prediction the speculative timeline used flags
    /// the session as requiring rollback.
    pub fn register_remote_input(&mut self, player_id: PlayerId, input: Input, frame: Frame) -> (r:
        RegisterOutcome)
        requires
            old(self).wf(),
        ensures
            final(self).wf(),
            final(self)@ == register_transition(old(self)@, player_id.0, input, frame.0),
            r == register_outcome(old(self)@, frame.0),
            reg_stale(old(self)@, frame.0) ==> final(self)@ == old(self)@,
    {
        let ghost v0 = self@;
        if frame == self.confirmed_frame || self.confirmed_frame.greater_than(frame) {
            return RegisterOutcome::Stale;
        }
        let d = frame_distance(self.confirmed_frame, frame);
        if d > self.rollback_window + self.frame_delay {
            return RegisterOutcome::OutOfWindow;
        }
        let mut i: usize = 0;
        while i < self.lanes.len() && self.lanes[i].player.0 != player_id.0
            invariant
                *self == *old(self),
                v0 == self@,
                i <= self.lanes.len(),
                forall|j: int| 0 <= j < i ==> v0.lanes[j].player != player_id.0,
            decreases self.lanes.len() - i,
        {
            i = i + 1;
        }
        proof {
            lemma_lane_index(v0.lanes, player_id.0);
        }
        match if i < self.lanes.len() {
            Some(i)
        } else {
            None
        } {
            None => {
                assert(lane_index(v0.lanes, player_id.0) < 0);
                let mut conf: Vec<InputRecord<Input>> = Vec::new();
                conf.push(InputRecord { frame, input });
                self.lanes.push(
                    PlayerLane { player: player_id, confirmed: conf, predicted: Vec::new() },
                );
                self.needs_resim = true;
                proof {
                    let nl = LaneView {
                        player: player_id.0,
                        confirmed: seq![RecView { frame: frame.0, input }],
                        predicted: Seq::empty(),
                    };
                    assert(rec_view_seq(self.lanes@.last().confirmed@) =~= seq![
                        (RecView { frame: frame.0, input }),
                    ]);
                    assert(rec_view_seq(self.lanes@.last().predicted@) =~= Seq::<
                        RecView<Input>,
                    >::empty());
                    assert(self@.lanes =~= v0.lanes.push(nl));
                    assert(self@ =~= register_transition(v0, player_id.0, input, frame.0));
                }
                RegisterOutcome::Accepted
            },
            Some(li) => {
                assert(v0.lanes[li as int].player == player_id.0);
                assert(lane_index(v0.lanes, player_id.0) == li);
                let ghost l0 = v0.lanes[li as int];
                let mut lane = self.lanes.remove(li);
                match lane.find_confirmed(frame) {
                    Some(_) => {
                        proof {
                            lemma_rec_index(l0.confirmed, frame.0);
                        }
                        self.lanes.insert(li, lane);
                        proof {
                            assert(self@.lanes =~= v0.lanes);
                            assert(self@ =~= v0);
                        }
                        RegisterOutcome::Accepted
                    },
                    None => {
                        match lane.find_predicted(frame) {
                            Some(pi) => {
                                proof {
                                    lemma_rec_index(rec_view_seq(lane.predicted@), frame.0);
                                }
                                let old_rec = lane.predicted.remove(pi);
                                let diverged = !old_rec.input.input_eq(&input);
                                lane.confirmed.push(InputRecord { frame, input });
                                if diverged {
                                    self.needs_resim = true;
                                }
                                self.lanes.insert(li, lane);
                                proof {
                                    let nl = LaneView {
                                        confirmed: l0.confirmed.push(
                                            RecView { frame: frame.0, input },
                                        ),
                                        predicted: l0.predicted.remove(pi as int),
                                        ..l0
                                    };
                                    assert(lane_view(self.lanes@[li as int]) =~= nl) by {
                                        assert(rec_view_seq(self.lanes@[li as int].confirmed@)
                                            =~= l0.confirmed.push(
                                            RecView { frame: frame.0, input },
                                        ));
                                        assert(rec_view_seq(self.lanes@[li as int].predicted@)
                                            =~= l0.predicted.remove(pi as int));
                                    }
                                    assert(self@.lanes =~= v0.lanes.update(li as int, nl));
                                    assert(self@ =~= register_transition(
                                        v0,
                                        player_id.0,
                                        input,
                                        frame.0,
                                    ));
                                    assert(wf_view(self@)) by {
                                        lemma_rec_index(l0.confirmed, frame.0);
                                        lemma_rec_index(l0.predicted, frame.0);
                                    }
                                }
                                RegisterOutcome::Accepted
                            },
                            None => {
                                lane.confirmed.push(InputRecord { frame, input });
                                if frame == self.current_frame || self.current_frame.greater_than(
                                    frame,
                                ) {
                                    self.needs_resim = true;
                                }
                                self.lanes.insert(li, lane);
                                proof {
                                    let nl = LaneView {
                                        confirmed: l0.confirmed.push(
                                            RecView { frame: frame.0, input },
                                        ),
                                        ..l0
                                    };
                                    assert(lane_view(self.lanes@[li as int]) =~= nl) by {
                                        assert(rec_view_seq(self.lanes@[li as int].confirmed@)
                                            =~= l0.confirmed.push(
                                            RecView { frame: frame.0, input },
                                        ));
                                        assert(rec_view_seq(self.lanes@[li as int].predicted@)
                                            =~= l0.predicted);
                                    }
                                    assert(self@.lanes =~= v0.lanes.update(li as int, nl));
                                    assert(self@ =~= register_transition(
                                        v0,
                                        player_id.0,
                                        input,
                                        frame.0,
                                    ));
                                    assert(wf_view(self@)) by {
                                        lemma_rec_index(l0.confirmed, frame.0);
                                        lemma_rec_index(l0.predicted, frame.0);
                                    }
                                }
                                RegisterOutcome::Accepted
                            },
                        }
                    },
                }
            },
        }
    }

    /// Registers the local player's input for the current real-time update:
    /// it is scheduled for `current_frame + frame_delay` and recorded as
    /// confirmed immediately, the local player being authoritative for its
    /// own input.
    pub fn register_local_input(&mut self, input: Input) -> (r: RegisterOutcome)
        requires
            old(self).wf(),
        ensures
            final(self).wf(),
            final(self)@ == register_transition(
                old(self)@,
                old(self)@.local_player,
                input,
                fadd(old(self)@.current_frame, old(self)@.frame_delay as int),
            ),
            r == register_outcome(
                old(self)@,
                fadd(old(self)@.current_frame, old(self)@.frame_delay as int),
            ),
    {
        let execution_frame = self.current_frame.add(self.frame_delay);
        let p = self.local_player;
        self.register_remote_input(p, input, execution_frame)
    }

    /// True when every player has a confirmed record for frame `f`.
    fn frame_fully_confirmed(&self, f: Frame) -> (r: bool)
        ensures
            r == all_confirmed_at(self@.lanes, f.0),
    {
        let mut i: usize = 0;
        while i < self.lanes.len()
            invariant
                i <= self.lanes.len(),
                forall|j: int|
                    0 <= j < i ==> #[trigger] rec_index(self@.lanes[j].confirmed, f.0) >= 0,
            decreases self.lanes.len() - i,
        {
            match self.lanes[i].find_confirmed(f) {
                Some(_) => {},
                None => {
                    proof {
                        assert(rec_index(self@.lanes[i as int].confirmed, f.0) < 0);
                        assert(!all_confirmed_at(self@.lanes, f.0));
                    }
                    return false;
                },
            }
            i = i + 1;
        }
        true
    }

    /// Applies one simulated frame to the current state: for every player,
    /// the best-known input for `f` is fetched, remembered as the value the
    /// speculative timeline used (unless a confirmed record settles the
    /// frame), and applied; then the state ticks once.
    fn apply_frame(&mut self, f: Frame)
        requires
            old(self).wf(),
        ensures
            final(self).wf(),
            same_config(final(self)@, old(self)@),
            final(self)@.accumulated == old(self)@.accumulated,
            final(self)@.needs_resim == old(self)@.needs_resim,
            final(self)@.confirmed_frame == old(self)@.confirmed_frame,
            final(self)@.confirmed_state == old(self)@.confirmed_state,
            final(self)@.current_frame == old(self)@.current_frame,
            final(self)@.lanes.len() == old(self)@.lanes.len(),
            conf_lanes(final(self)@.lanes) == conf_lanes(old(self)@.lanes),
            final(self)@.lanes == lanes_after_frame(old(self)@.lanes, f.0),
            final(self)@.current_state == frame_step(
                old(self)@.current_state,
                conf_lanes(old(self)@.lanes),
                f.0,
            ),
    {
        let ghost v0 = self@;
        let ghost cl0 = conf_lanes(v0.lanes);
        let ghost s0 = v0.current_state;
        let mut k: usize = 0;
        while k < self.lanes.len()
            invariant
                k <= self.lanes.len(),
                wf_view(self@),
                same_config(self@, v0),
                self@.accumulated == v0.accumulated,
                self@.needs_resim == v0.needs_resim,
                self@.confirmed_frame == v0.confirmed_frame,
                self@.confirmed_state == v0.confirmed_state,
                self@.current_frame == v0.current_frame,
                self@.lanes.len() == v0.lanes.len(),
                cl0 == conf_lanes(v0.lanes),
                s0 == v0.current_state,
                conf_lanes(self@.lanes) == cl0,
                forall|j: int|
                    0 <= j < self@.lanes.len() ==> #[trigger] self@.lanes[j] == (if j < k {
                        lanes_after_frame(v0.lanes, f.0)[j]
                    } else {
                        v0.lanes[j]
                    }),
                apply_from(s0, cl0, 0, f.0) == apply_from(self@.current_state, cl0, k as int, f.0),
            decreases self.lanes.len() - k,
        {
            let ghost vpre = self@;
            let mut lane = self.lanes.remove(k);
            let ghost lv0 = lane_view(lane);
            proof {
                assert(conf_lanes(vpre.lanes)[k as int] == cl0[k as int]);
                assert(vpre.lanes[k as int] == lv0);
                assert(cl0[k as int] =~= (ConfLane { player: lv0.player, recs: lv0.confirmed }));
                assert(lane_wf(lv0));
            }
            let v = lane.lookup(f);
            let ghost vg = v;
            let p = lane.player;
            match lane.find_confirmed(f) {
                Some(_) => {
                    proof {
                        assert(lane_view(lane) == lv0);
                    }
                },
                None => {
                    proof {
                        lemma_rec_index(lv0.confirmed, f.0);
                        lemma_rec_index(lv0.predicted, f.0);
                    }
                    match lane.find_predicted(f) {
                        Some(pi) => {
                            let _stale_prediction = lane.predicted.remove(pi);
                            lane.predicted.insert(
                                pi,
                                InputRecord { frame: f, input: v.clone_input() },
                            );
                            proof {
                                assert(rec_view_seq(lane.predicted@) =~= lv0.predicted.update(
                                    pi as int,
                                    RecView { frame: f.0, input: vg },
                                ));
                                assert(lv0.predicted[pi as int].frame == f.0);
                                assert forall|i: int|
                                    0 <= i < rec_view_seq(lane.predicted@).len() implies (
                                rec_view_seq(lane.predicted@)[i].frame == lv0.predicted[i].frame) by {}
                                assert(lane_wf(lane_view(lane)));
                            }
                        },
                        None => {
                            lane.predicted.push(InputRecord { frame: f, input: v.clone_input() });
                            proof {
                                assert(rec_view_seq(lane.predicted@) =~= lv0.predicted.push(
                                    RecView { frame: f.0, input: vg },
                                ));
                                assert(lane_wf(lane_view(lane)));
                            }
                        },
                    }
                },
            }
            let ghost lvk = lane_view(lane);
            proof {
                assert(lvk.confirmed == lv0.confirmed);
                assert(lvk.player == lv0.player);
                assert(lane_wf(lvk));
                assert(lv0 == v0.lanes[k as int]);
                assert(vg == lane_input(conf_lanes(v0.lanes)[k as int], f.0));
                assert(lvk == upsert_predicted(lv0, f.0, vg));
            }
            self.lanes.insert(k, lane);
            self.current_state.handle_input(p, v);
            proof {
                assert(self@.lanes.len() == vpre.lanes.len());
                assert forall|j: int| 0 <= j < self@.lanes.len() && j != k implies self@.lanes[j]
                    == vpre.lanes[j] by {}
                assert(self@.lanes[k as int] == lvk);
                assert(self@.lanes[k as int] == lanes_after_frame(v0.lanes, f.0)[k as int]);
                assert forall|j: int| 0 <= j < self@.lanes.len() implies #[trigger] self@.lanes[j]
                    == (if j < k + 1 {
                    lanes_after_frame(v0.lanes, f.0)[j]
                } else {
                    v0.lanes[j]
                }) by {
                    if j != k {
                        assert(self@.lanes[j] == vpre.lanes[j]);
                    }
                }
                assert forall|j: int| 0 <= j < self@.lanes.len() implies lane_wf(
                    #[trigger] self@.lanes[j],
                ) by {
                    if j != k {
                        assert(self@.lanes[j] == vpre.lanes[j]);
                        assert(lane_wf(vpre.lanes[j]));
                    }
                }
                assert forall|i: int, j: int|
                    0 <= i < j < self@.lanes.len() implies self@.lanes[i].player
                    != self@.lanes[j].player by {
                    assert(self@.lanes[i].player == vpre.lanes[i].player);
                    assert(self@.lanes[j].player == vpre.lanes[j].player);
                }
                assert(wf_view(self@));
                assert(conf_lanes(self@.lanes) =~= cl0);
                assert(vg == lane_input(cl0[k as int], f.0));
                assert(PlayerId(cl0[k as int].player) == p);
                assert(apply_from(vpre.current_state, cl0, k as int, f.0) == apply_from(
                    self@.current_state,
                    cl0,
                    k as int + 1,
                    f.0,
                ));
            }
            k = k + 1;
        }
        proof {
            assert(apply_from(self@.current_state, cl0, k as int, f.0) == self@.current_state);
            assert(self@.lanes =~= lanes_after_frame(v0.lanes, f.0));
        }
        self.current_state.tick();
    }

    /// Rewinds the current state to the confirmed baseline and replays every
    /// frame up to the current frame with the best-known inputs. After a
    /// replayed frame whose inputs are all confirmed and which immediately
    /// succeeds the confirmed frame, the confirmed baseline slides forward
    /// to it, which lets the confirmed window advance.
    fn resimulate(&mut self)
        requires
            old(self).wf(),
        ensures
            final(self).wf(),
            final(self)@.needs_resim == false,
            same_config(final(self)@, old(self)@),
            final(self)@.accumulated == old(self)@.accumulated,
            final(self)@.current_frame == old(self)@.current_frame,
            final(self)@.lanes.len() == old(self)@.lanes.len(),
            conf_lanes(final(self)@.lanes) == conf_lanes(old(self)@.lanes),
            final(self)@.confirmed_frame == old(self)@.confirmed_frame || circ_gt(
                final(self)@.confirmed_frame,
                old(self)@.confirmed_frame,
            ),
            frame_dist(old(self)@.confirmed_frame, final(self)@.confirmed_frame) + frame_dist(
                final(self)@.confirmed_frame,
                final(self)@.current_frame,
            ) == frame_dist(old(self)@.confirmed_frame, old(self)@.current_frame),
            final(self)@.confirmed_frame != old(self)@.confirmed_frame ==> all_confirmed_at(
                final(self)@.lanes,
                final(self)@.confirmed_frame,
            ),
            frame_dist(old(self)@.confirmed_frame, final(self)@.confirmed_frame)
                == confirmed_advance(
                conf_lanes(old(self)@.lanes),
                old(self)@.confirmed_frame,
                frame_dist(old(self)@.confirmed_frame, old(self)@.current_frame),
            ),
            final(self)@.confirmed_state == replay(
                old(self)@.confirmed_state,
                conf_lanes(old(self)@.lanes),
                old(self)@.confirmed_frame,
                frame_dist(old(self)@.confirmed_frame, final(self)@.confirmed_frame),
            ),
            final(self)@.current_state == replay(
                final(self)@.confirmed_state,
                conf_lanes(final(self)@.lanes),
                final(self)@.confirmed_frame,
                frame_dist(final(self)@.confirmed_frame, final(self)@.current_frame),
            ),
            final(self)@.lanes == lanes_after_span(
                old(self)@.lanes,
                old(self)@.confirmed_frame,
                frame_dist(old(self)@.confirmed_frame, old(self)@.current_frame),
            ),
    {
        let ghost v0 = self@;
        let ghost cl0 = conf_lanes(v0.lanes);
        self.current_state = self.confirmed_state.clone_state();
        let d = frame_distance(self.confirmed_frame, self.current_frame);
        let mut w = self.confirmed_frame;
        let mut j: u64 = 0;
        while j < d
            invariant
                j <= d,
                d as nat == frame_dist(v0.confirmed_frame, v0.current_frame),
                wf_view(v0),
                wf_view(self@),
                same_config(self@, v0),
                self@.accumulated == v0.accumulated,
                self@.needs_resim == v0.needs_resim,
                self@.current_frame == v0.current_frame,
                self@.lanes.len() == v0.lanes.len(),
                cl0 == conf_lanes(v0.lanes),
                conf_lanes(self@.lanes) == cl0,
                w.0 == fadd(v0.confirmed_frame, j as int),
                frame_dist(v0.confirmed_frame, self@.confirmed_frame) + frame_dist(
                    self@.confirmed_frame,
                    w.0,
                ) == j as nat,
                self@.confirmed_frame == v0.confirmed_frame || circ_gt(
                    self@.confirmed_frame,
                    v0.confirmed_frame,
                ),
                self@.confirmed_frame != v0.confirmed_frame ==> all_confirmed_cl(
                    cl0,
                    self@.confirmed_frame,
                ),
                self@.confirmed_state == replay(
                    v0.confirmed_state,
                    cl0,
                    v0.confirmed_frame,
                    frame_dist(v0.confirmed_frame, self@.confirmed_frame),
                ),
                frame_dist(v0.confirmed_frame, self@.confirmed_frame) == confirmed_advance(
                    cl0,
                    v0.confirmed_frame,
                    j as nat,
                ),
                self@.lanes == lanes_after_span(v0.lanes, v0.confirmed_frame, j as nat),
                self@.current_state == replay(
                    self@.confirmed_state,
                    cl0,
                    self@.confirmed_frame,
                    frame_dist(self@.confirmed_frame, w.0),
                ),
            decreases d - j,
        {
            let ghost cpre = self@.confirmed_frame;
            let ghost cspre = self@.confirmed_state;
            let ghost dpre = frame_dist(cpre, w.0);
            let next = w.add(1);
            proof {
                lemma_fadd_dist(cpre, w.0);
                lemma_fadd_assoc(cpre, dpre as int, 1);
                lemma_fadd_assoc(v0.confirmed_frame, j as int, 1);
                lemma_dist_fadd(cpre, dpre as int + 1);
                lemma_dist_fadd(cpre, 1);
                lemma_replay_snoc(self@.confirmed_state, cl0, cpre, dpre);
                lemma_lanes_span_snoc(v0.lanes, v0.confirmed_frame, j as nat);
            }
            self.apply_frame(next);
            w = next;
            j = j + 1;
            let succ = self.confirmed_frame.add(1);
            if w == succ && self.frame_fully_confirmed(w) {
                proof {
                    lemma_all_confirmed_agree(self@.lanes, w.0);
                    lemma_dist_fadd(cpre, 1);
                    lemma_dist_additive(v0.confirmed_frame, cpre, w.0);
                    if w.0 != v0.confirmed_frame {
                        lemma_dist_implies_gt(v0.confirmed_frame, w.0);
                    }
                }
                self.confirmed_frame = w;
                self.confirmed_state = self.current_state.clone_state();
                proof {
                    lemma_dist_additive(self@.confirmed_frame, self@.confirmed_frame, w.0);
                    assert(frame_dist(self@.confirmed_frame, w.0) == 0);
                    assert(self@.current_state == replay(
                        self@.confirmed_state,
                        cl0,
                        self@.confirmed_frame,
                        0,
                    ));
                    // the new baseline is the replay of the sweep's starting
                    // baseline up to the newly confirmed frame
                    let m = frame_dist(v0.confirmed_frame, cpre);
                    lemma_replay_split(
                        v0.confirmed_state,
                        cl0,
                        v0.confirmed_frame,
                        m,
                        (dpre + 1) as nat,
                    );
                    lemma_fadd_dist(v0.confirmed_frame, cpre);
                    assert(self@.confirmed_state == replay(cspre, cl0, cpre, (dpre + 1) as nat));
                    assert(self@.confirmed_state == replay(
                        v0.confirmed_state,
                        cl0,
                        v0.confirmed_frame,
                        (m + dpre + 1) as nat,
                    ));
                    // the baseline has kept up with the sweep so far, and
                    // the new frame is fully confirmed: the advance grows
                    lemma_confirmed_advance_step(cl0, v0.confirmed_frame, (j - 1) as nat);
                    assert(m == j - 1);
                    assert(all_confirmed_cl(cl0, w.0));
                }
            } else {
                proof {
                    assert(frame_dist(self@.confirmed_frame, w.0) == dpre + 1);
                    lemma_confirmed_advance_step(cl0, v0.confirmed_frame, (j - 1) as nat);
                    if w == succ {
                        lemma_all_confirmed_agree(self@.lanes, w.0);
                        assert(!all_confirmed_cl(cl0, w.0));
                    } else {
                        assert(frame_dist(v0.confirmed_frame, self@.confirmed_frame) != j - 1);
                    }
                }
            }
            proof {
                lemma_dist_additive(
                    v0.confirmed_frame,
                    self@.confirmed_frame,
                    v0.current_frame,
                );
                assert(frame_dist(self@.confirmed_frame, v0.current_frame) <= frame_dist(
                    v0.confirmed_frame,
                    v0.current_frame,
                ));
            }
        }
        self.needs_resim = false;
        proof {
            lemma_fadd_dist(v0.confirmed_frame, v0.current_frame);
            assert(w.0 == v0.current_frame);
            lemma_all_confirmed_agree(self@.lanes, self@.confirmed_frame);
        }
    }

    /// One discrete step of the engine. If divergence was flagged since the
    /// last tick, the engine first rewinds to the confirmed baseline and
    /// resimulates with the corrected inputs, so the resulting state never
    /// depends on a discarded prediction. It then simulates the newly due
    /// frame and advances the current frame, unless the rollback window is
    /// exhausted, which is a session-level fault.
    pub fn tick(&mut self) -> (r: Result<(), SessionFault>)
        requires
            old(self).wf(),
        ensures
            final(self).wf(),
            final(self)@ == tick_view(old(self)@),
            r is Ok <==> !tick_faults(old(self)@),
            same_config(final(self)@, old(self)@),
            final(self)@.accumulated == old(self)@.accumulated,
            final(self)@.needs_resim == false,
            final(self)@.lanes.len() == old(self)@.lanes.len(),
            conf_lanes(final(self)@.lanes) == conf_lanes(old(self)@.lanes),
            final(self)@.confirmed_frame == old(self)@.confirmed_frame || circ_gt(
                final(self)@.confirmed_frame,
                old(self)@.confirmed_frame,
            ),
            !old(self)@.needs_resim ==> final(self)@.confirmed_frame == old(
                self,
            )@.confirmed_frame && final(self)@.confirmed_state == old(self)@.confirmed_state,
            r is Ok ==> final(self)@.current_frame == fadd(old(self)@.current_frame, 1),
            r is Ok && !old(self)@.needs_resim ==> final(self)@.current_state == frame_step(
                old(self)@.current_state,
                conf_lanes(old(self)@.lanes),
                fadd(old(self)@.current_frame, 1),
            ),
            old(self)@.needs_resim ==> final(self)@.current_state == replay(
                final(self)@.confirmed_state,
                conf_lanes(final(self)@.lanes),
                final(self)@.confirmed_frame,
                frame_dist(final(self)@.confirmed_frame, final(self)@.current_frame),
            ),
            old(self)@.needs_resim ==> final(self)@.confirmed_state == replay(
                old(self)@.confirmed_state,
                conf_lanes(old(self)@.lanes),
                old(self)@.confirmed_frame,
                frame_dist(old(self)@.confirmed_frame, final(self)@.confirmed_frame),
            ),
            old(self)@.needs_resim ==> final(self)@.current_state == replay(
                old(self)@.confirmed_state,
                conf_lanes(old(self)@.lanes),
                old(self)@.confirmed_frame,
                frame_dist(old(self)@.confirmed_frame, final(self)@.current_frame),
            ),
            final(self)@.confirmed_frame != old(self)@.confirmed_frame ==> all_confirmed_at(
                final(self)@.lanes,
                final(self)@.confirmed_frame,
            ),
            old(self)@.needs_resim ==> frame_dist(
                old(self)@.confirmed_frame,
                final(self)@.confirmed_frame,
            ) == confirmed_advance(
                conf_lanes(old(self)@.lanes),
                old(self)@.confirmed_frame,
                frame_dist(old(self)@.confirmed_frame, old(self)@.current_frame),
            ),
            frame_dist(old(self)@.confirmed_frame, final(self)@.confirmed_frame) + frame_dist(
                final(self)@.confirmed_frame,
                old(self)@.current_frame,
            ) == frame_dist(old(self)@.confirmed_frame, old(self)@.current_frame),
            r is Ok ==> frame_dist(final(self)@.confirmed_frame, final(self)@.current_frame)
                <= frame_dist(old(self)@.confirmed_frame, old(self)@.current_frame) + 1,
            r is Err ==> frame_dist(old(self)@.confirmed_frame, old(self)@.current_frame)
                == old(self)@.rollback_window,
            r is Err ==> final(self)@.current_frame == old(self)@.current_frame && frame_dist(
                final(self)@.confirmed_frame,
                final(self)@.current_frame,
            ) == final(self)@.rollback_window,
            r is Err && !old(self)@.needs_resim ==> final(self)@ == (AppView {
                needs_resim: false,
                ..old(self)@
            }),
    {
        let ghost v0 = self@;
        if self.needs_resim {
            self.resimulate();
        } else {
            self.needs_resim = false;
        }
        let ghost vr = self@;
        proof {
            if v0.needs_resim {
                let m = frame_dist(v0.confirmed_frame, vr.confirmed_frame);
                lemma_replay_split(
                    v0.confirmed_state,
                    conf_lanes(v0.lanes),
                    v0.confirmed_frame,
                    m,
                    frame_dist(vr.confirmed_frame, vr.current_frame),
                );
                lemma_fadd_dist(v0.confirmed_frame, vr.confirmed_frame);
            }
            assert(vr =~= sweep_view(v0));
        }
        let d = frame_distance(self.confirmed_frame, self.current_frame);
        if d >= self.rollback_window {
            proof {
                assert(tick_faults(v0));
                assert(self@ =~= tick_view(v0));
            }
            return Err(SessionFault::WindowExhausted);
        }
        let next = self.current_frame.add(1);
        proof {
            lemma_fadd_dist(vr.confirmed_frame, vr.current_frame);
            lemma_fadd_assoc(vr.confirmed_frame, d as int, 1);
            lemma_dist_fadd(vr.confirmed_frame, d as int + 1);
            if v0.needs_resim {
                lemma_replay_snoc(
                    vr.confirmed_state,
                    conf_lanes(vr.lanes),
                    vr.confirmed_frame,
                    d as nat,
                );
                let m = frame_dist(v0.confirmed_frame, vr.confirmed_frame);
                lemma_replay_split(
                    v0.confirmed_state,
                    conf_lanes(v0.lanes),
                    v0.confirmed_frame,
                    m,
                    (d + 1) as nat,
                );
                lemma_fadd_dist(v0.confirmed_frame, vr.confirmed_frame);
                lemma_dist_fadd(vr.current_frame, 1);
                lemma_dist_additive(v0.confirmed_frame, vr.current_frame, next.0);
            }
        }
        self.apply_frame(next);
        self.current_frame = next;
        proof {
            if self@.confirmed_frame != v0.confirmed_frame {
                lemma_all_confirmed_agree(vr.lanes, vr.confirmed_frame);
                lemma_all_confirmed_agree(self@.lanes, vr.confirmed_frame);
            }
            assert(!tick_faults(v0));
            assert(self@ =~= tick_view(v0));
        }
        Ok(())
    }

    /// Accumulates elapsed real time and executes due ticks: one per full
    /// tick interval accumulated, capped at the configured maximum per call
    /// to avoid unbounded catch-up after a stall. Remainder time is retained
    /// for the next call; accumulation saturates at the top of the `u64`
    /// range. Returns the number of ticks executed, or the session fault
    /// that stopped ticking.
    pub fn update(&mut self, delta: u64) -> (r: Result<u64, SessionFault>)
        requires
            old(self).wf(),
        ensures
            final(self).wf(),
            same_config(final(self)@, old(self)@),
            final(self)@.lanes.len() == old(self)@.lanes.len(),
            conf_lanes(final(self)@.lanes) == conf_lanes(old(self)@.lanes),
            final(self)@.confirmed_frame == old(self)@.confirmed_frame || circ_gt(
                final(self)@.confirmed_frame,
                old(self)@.confirmed_frame,
            ),
            r matches Ok(n) ==> final(self)@ == ticks_elapse(
                (AppView { accumulated: sat_add(old(self)@.accumulated, delta), ..old(self)@ }),
                n as nat,
            ),
            r is Err ==> final(self)@ == tick_view(
                ticks_elapse(
                    (AppView {
                        accumulated: sat_add(old(self)@.accumulated, delta),
                        ..old(self)@
                    }),
                    frame_dist(old(self)@.current_frame, final(self)@.current_frame),
                ),
            ),
            r matches Ok(n) ==> {
                &&& n <= old(self)@.max_ticks_per_update
                &&& final(self)@.accumulated == sat_add(old(self)@.accumulated, delta) - n
                    * old(self)@.tick_interval
                &&& (n == old(self)@.max_ticks_per_update || final(self)@.accumulated < old(
                    self,
                )@.tick_interval)
                &&& final(self)@.current_frame == fadd(old(self)@.current_frame, n as int)
                &&& (n > 0 ==> final(self)@.needs_resim == false)
                &&& (n == 0 ==> final(self)@ == (AppView {
                    accumulated: sat_add(old(self)@.accumulated, delta),
                    ..old(self)@
                }))
            },
            r is Err ==> {
                &&& frame_dist(old(self)@.confirmed_frame, old(self)@.current_frame) + old(
                    self,
                )@.max_ticks_per_update > old(self)@.rollback_window
                &&& frame_dist(final(self)@.confirmed_frame, final(self)@.current_frame)
                    == final(self)@.rollback_window
                &&& frame_dist(old(self)@.current_frame, final(self)@.current_frame) < old(
                    self,
                )@.max_ticks_per_update
                &&& final(self)@.accumulated == sat_add(old(self)@.accumulated, delta)
                    - frame_dist(old(self)@.current_frame, final(self)@.current_frame) * old(
                    self,
                )@.tick_interval
                &&& final(self)@.accumulated >= old(self)@.tick_interval
                &&& final(self)@.needs_resim == false
            },
    {
        self.accumulated = self.accumulated.saturating_add(delta);
        let ghost v1 = self@;
        let ghost total = v1.accumulated;
        let cap = self.max_ticks_per_update;
        let mut count: u64 = 0;
        while count < cap && self.accumulated >= self.tick_interval
            invariant
                count <= cap,
                cap == v1.max_ticks_per_update,
                v1 == (AppView { accumulated: total, ..old(self)@ }),
                total == sat_add(old(self)@.accumulated, delta),
                wf_view(self@),
                same_config(self@, v1),
                self@.lanes.len() == v1.lanes.len(),
                conf_lanes(self@.lanes) == conf_lanes(v1.lanes),
                self@.confirmed_frame == v1.confirmed_frame || circ_gt(
                    self@.confirmed_frame,
                    v1.confirmed_frame,
                ),
                self@.accumulated == total - count * v1.tick_interval,
                self@.current_frame == fadd(v1.current_frame, count as int),
                frame_dist(self@.confirmed_frame, self@.current_frame) <= frame_dist(
                    v1.confirmed_frame,
                    v1.current_frame,
                ) + count,
                count > 0 ==> self@.needs_resim == false,
                count == 0 ==> self@ == v1,
                self@ == ticks_elapse(v1, count as nat),
            decreases cap - count,
        {
            let ghost vpre = self@;
            match self.tick() {
                Ok(()) => {},
                Err(fault) => {
                    proof {
                        lemma_dist_fadd(v1.current_frame, count as int);
                        assert(frame_dist(v1.current_frame, self@.current_frame) == count);
                    }
                    return Err(fault);
                },
            }
            self.accumulated = self.accumulated - self.tick_interval;
            count = count + 1;
            proof {
                assert(count * v1.tick_interval == (count - 1) * v1.tick_interval
                    + v1.tick_interval) by (nonlinear_arith);
                lemma_fadd_assoc(v1.current_frame, count as int - 1, 1);
                lemma_ticks_elapse_snoc(v1, (count - 1) as nat);
                assert(self@ =~= ticks_elapse(v1, count as nat));
            }
        }
        Ok(count)
    }

}
} // verus!
