//! A rollback-netcode core: a deterministic simulation runs ahead of
//! confirmed network data by predicting inputs for frames whose true inputs
//! have not arrived yet, and corrects itself by rewinding to the last
//! confirmed frame and resimulating once real inputs arrive.

use vstd::prelude::*;

mod engine;
mod frame;
mod timeline;

pub use engine::App;
pub use engine::AppView;
pub use engine::RegisterOutcome;
pub use engine::SessionFault;
pub use engine::all_confirmed_at;
pub use engine::all_confirmed_cl;
pub use engine::apply_from;
pub use engine::confirmed_advance;
pub use engine::frame_distance;
pub use engine::lanes_after_frame;
pub use engine::lanes_after_span;
pub use engine::lemma_confirmed_advance_step;
pub use engine::lemma_lanes_span_snoc;
pub use engine::lemma_replay_split;
pub use engine::lemma_ticks_elapse_snoc;
pub use engine::sweep_view;
pub use engine::tick_faults;
pub use engine::tick_view;
pub use engine::ticks_elapse;
pub use engine::upsert_predicted;
pub use engine::frame_step;
pub use engine::lemma_all_confirmed_agree;
pub use engine::lemma_confirmed_immutable;
pub use engine::lemma_confirmed_not_ahead;
pub use engine::lemma_register_idempotent;
pub use engine::lemma_replay_snoc;
pub use engine::replay;
pub use engine::sat_add;
pub use engine::reg_oow;
pub use engine::reg_stale;
pub use engine::register_outcome;
pub use engine::register_transition;
pub use engine::same_config;
pub use engine::wf_view;

pub use timeline::ConfLane;
pub use timeline::InputRecord;
pub use timeline::LaneView;
pub use timeline::PlayerLane;
pub use timeline::RecView;
pub use timeline::best_confirmed;
pub use timeline::conf_lanes;
pub use timeline::lane_index;
pub use timeline::lane_input;
pub use timeline::lane_view;
pub use timeline::lane_wf;
pub use timeline::lemma_lane_index;
pub use timeline::lemma_rec_index;
pub use timeline::rec_index;
pub use timeline::rec_view_seq;

pub use frame::Frame;
pub use frame::HALF_MAX_VALUE;
pub use frame::at_or_before;
pub use frame::circ_gt;
pub use frame::fadd;
pub use frame::frame_dist;
pub use frame::lemma_circ_gt_antisymmetric;
pub use frame::lemma_dist_additive;
pub use frame::lemma_dist_fadd;
pub use frame::lemma_dist_implies_gt;
pub use frame::lemma_fadd_assoc;
pub use frame::lemma_fadd_dist;

verus! {

/// An opaque participant identifier; equality-comparable, never reused
/// within a session.
#[derive(Debug, Clone, Copy, PartialEq, Eq, Structural)]
pub struct PlayerId(pub u32);

/// Capability set of a per-player command value for exactly one frame.
/// Equality is load-bearing: it detects whether a predicted input matches
/// the input later confirmed for the same frame, so the executable
/// operations must agree exactly with logical equality on the type.
pub trait AppInput: Sized {
    /// The type-appropriate fallback used to predict a player's input when
    /// no confirmed input exists at or before the frame being simulated.
    spec fn default_spec() -> Self;

    /// Produces the prediction fallback value.
    fn default_input() -> (r: Self)
        ensures
            r == Self::default_spec(),
    ;

    /// An exact copy of the input.
    fn clone_input(&self) -> (r: Self)
        ensures
            r == *self,
    ;

    /// Exact equality comparison between two inputs.
    fn input_eq(&self, other: &Self) -> (r: bool)
        ensures
            r == (*self == *other),
    ;
}

/// Capability set of the full simulated world state. Advancing one step and
/// applying one player's command must be deterministic functions of the
/// state value: this is what makes resimulation bit-for-bit reproducible.
pub trait AppState<Input>: Sized where Input: AppInput {
    /// The state after one discrete simulation step.
    spec fn ticked(self) -> Self;

    /// The state after one player's command has been applied.
    spec fn with_input(self, player: PlayerId, input: Input) -> Self;

    /// Advances the state by one discrete step.
    fn tick(&mut self)
        ensures
            *final(self) == old(self).ticked(),
    ;

    /// Applies one player's command, intended to be called before the
    /// corresponding tick.
    fn handle_input(&mut self, player_id: PlayerId, input: Input)
        ensures
            *final(self) == old(self).with_input(player_id, input),
    ;

    /// An exact copy of the state, used to snapshot and rewind timelines.
    fn clone_state(&self) -> (r: Self)
        ensures
            r == *self,
    ;

    /// Exact equality comparison between two states.
    fn state_eq(&self, other: &Self) -> (r: bool)
        ensures
            r == (*self == *other),
    ;
}

} // verus!
