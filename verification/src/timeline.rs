use vstd::prelude::*;
use crate::frame::{Frame, at_or_before, circ_gt};
use crate::{AppInput, PlayerId};

verus! {

/// One stored input for a single frame of one player.
pub struct InputRecord<Input> {
    pub frame: Frame,
    pub input: Input,
}

/// Per-player input history for the rollback window. Confirmed records are
/// immutable once written; predicted records remember the value the
/// speculative timeline actually used, so a later confirmation can be
/// compared against it to detect divergence.
pub struct PlayerLane<Input> {
    pub player: PlayerId,
    pub confirmed: Vec<InputRecord<Input>>,
    pub predicted: Vec<InputRecord<Input>>,
}

/// Mathematical image of one stored record.
#[verifier::ext_equal]
pub ghost struct RecView<Input> {
    pub frame: u64,
    pub input: Input,
}

/// Mathematical image of one player's lane.
#[verifier::ext_equal]
pub ghost struct LaneView<Input> {
    pub player: u32,
    pub confirmed: Seq<RecView<Input>>,
    pub predicted: Seq<RecView<Input>>,
}

/// The confirmed part of a lane: the only part that input lookup reads.
#[verifier::ext_equal]
pub ghost struct ConfLane<Input> {
    pub player: u32,
    pub recs: Seq<RecView<Input>>,
}

pub open spec fn rec_view_seq<Input>(rs: Seq<InputRecord<Input>>) -> Seq<RecView<Input>> {
    Seq::new(rs.len(), |i: int| RecView { frame: rs[i].frame.0, input: rs[i].input })
}

pub open spec fn lane_view<Input>(l: PlayerLane<Input>) -> LaneView<Input> {
    LaneView {
        player: l.player.0,
        confirmed: rec_view_seq(l.confirmed@),
        predicted: rec_view_seq(l.predicted@),
    }
}

/// Projects each lane to its confirmed records.
pub open spec fn conf_lanes<Input>(lanes: Seq<LaneView<Input>>) -> Seq<ConfLane<Input>> {
    Seq::new(lanes.len(), |i: int| ConfLane { player: lanes[i].player, recs: lanes[i].confirmed })
}

/// Frames are distinct within each store of a lane, and no frame is at once
/// confirmed and predicted.
pub open spec fn lane_wf<Input>(l: LaneView<Input>) -> bool {
    &&& (forall|i: int, j: int|
        0 <= i < j < l.confirmed.len() ==> l.confirmed[i].frame != l.confirmed[j].frame)
    &&& (forall|i: int, j: int|
        0 <= i < j < l.predicted.len() ==> l.predicted[i].frame != l.predicted[j].frame)
    &&& (forall|i: int, j: int|
        0 <= i < l.confirmed.len() && 0 <= j < l.predicted.len() ==> l.confirmed[i].frame
            != l.predicted[j].frame)
}

/// Index of the first record for frame `f`, or -1 if there is none.
pub open spec fn rec_index<Input>(recs: Seq<RecView<Input>>, f: u64) -> int
    decreases recs.len(),
{
    if recs.len() == 0 {
        -1
    } else if recs[0].frame == f {
        0
    } else {
        let r = rec_index(recs.drop_first(), f);
        if r < 0 {
            -1
        } else {
            r + 1
        }
    }
}

/// Index of the first lane of player `p`, or -1 if there is none.
pub open spec fn lane_index<Input>(lanes: Seq<LaneView<Input>>, p: u32) -> int
    decreases lanes.len(),
{
    if lanes.len() == 0 {
        -1
    } else if lanes[0].player == p {
        0
    } else {
        let r = lane_index(lanes.drop_first(), p);
        if r < 0 {
            -1
        } else {
            r + 1
        }
    }
}

/// What `rec_index` finds: the first record for `f`, and -1 exactly when no
/// record for `f` exists.
pub proof fn lemma_rec_index<Input>(recs: Seq<RecView<Input>>, f: u64)
    ensures
        rec_index(recs, f) < 0 ==> forall|i: int| 0 <= i < recs.len() ==> recs[i].frame != f,
        rec_index(recs, f) >= 0 ==> {
            &&& rec_index(recs, f) < recs.len()
            &&& recs[rec_index(recs, f)].frame == f
            &&& forall|i: int| 0 <= i < rec_index(recs, f) ==> recs[i].frame != f
        },
    decreases recs.len(),
{
    if recs.len() > 0 && recs[0].frame != f {
        lemma_rec_index(recs.drop_first(), f);
        assert forall|i: int| 1 <= i < recs.len() implies recs.drop_first()[i - 1] == recs[i] by {}
    }
}

/// What `lane_index` finds: the first lane of `p`, and -1 exactly when no
/// lane of `p` exists.
pub proof fn lemma_lane_index<Input>(lanes: Seq<LaneView<Input>>, p: u32)
    ensures
        lane_index(lanes, p) < 0 ==> forall|i: int| 0 <= i < lanes.len() ==> lanes[i].player != p,
        lane_index(lanes, p) >= 0 ==> {
            &&& lane_index(lanes, p) < lanes.len()
            &&& lanes[lane_index(lanes, p)].player == p
            &&& forall|i: int| 0 <= i < lane_index(lanes, p) ==> lanes[i].player != p
        },
    decreases lanes.len(),
{
    if lanes.len() > 0 && lanes[0].player != p {
        lemma_lane_index(lanes.drop_first(), p);
        assert forall|i: int| 1 <= i < lanes.len() implies lanes.drop_first()[i - 1] == lanes[i] by {}
    }
}

/// The most recent confirmed record at or circularly before frame `f`:
/// the basis of repeat-last-input prediction.
pub open spec fn best_confirmed<Input>(recs: Seq<RecView<Input>>, f: u64) -> Option<
    RecView<Input>,
>
    decreases recs.len(),
{
    if recs.len() == 0 {
        None
    } else {
        let rest = best_confirmed(recs.drop_last(), f);
        let last = recs.last();
        if !at_or_before(last.frame, f) {
            rest
        } else {
            match rest {
                None => Some(last),
                Some(b) => if circ_gt(last.frame, b.frame) {
                    Some(last)
                } else {
                    rest
                },
            }
        }
    }
}

/// The best-known input of one player at frame `f`: the confirmed input for
/// `f` if present, else the most recent confirmed input at or before `f`
/// (repeat-last prediction), else the type-appropriate default.
pub open spec fn lane_input<Input: AppInput>(l: ConfLane<Input>, f: u64) -> Input {
    match best_confirmed(l.recs, f) {
        Some(r) => r.input,
        None => Input::default_spec(),
    }
}

impl<Input: AppInput> PlayerLane<Input> {
    /// Looks up this player's best-known input at frame `f`.
    pub fn lookup(&self, f: Frame) -> (r: Input)
        ensures
            r == lane_input(
                ConfLane { player: self.player.0, recs: rec_view_seq(self.confirmed@) },
                f.0,
            ),
    {
        let ghost rv = rec_view_seq(self.confirmed@);
        let mut best: Option<usize> = None;
        let mut i: usize = 0;
        while i < self.confirmed.len()
            invariant
                i <= self.confirmed.len(),
                rv == rec_view_seq(self.confirmed@),
                rv.len() == self.confirmed.len(),
                match best {
                    None => best_confirmed(rv.take(i as int), f.0) is None,
                    Some(b) => b < i && best_confirmed(rv.take(i as int), f.0) == Some(rv[b as int]),
                },
            decreases self.confirmed.len() - i,
        {
            let rf = self.confirmed[i].frame;
            let is_at_or_before = rf == f || f.greater_than(rf);
            proof {
                assert(rv.take(i as int + 1).drop_last() =~= rv.take(i as int));
                assert(rv.take(i as int + 1).last() == rv[i as int]);
            }
            if is_at_or_before {
                match best {
                    None => {
                        best = Some(i);
                    },
                    Some(b) => {
                        if rf.greater_than(self.confirmed[b].frame) {
                            best = Some(i);
                        }
                    },
                }
            }
            i = i + 1;
        }
        proof {
            assert(rv.take(rv.len() as int) =~= rv);
        }
        match best {
            Some(b) => self.confirmed[b].input.clone_input(),
            None => Input::default_input(),
        }
    }

    /// Index of this player's confirmed record for frame `f`, if any.
    pub fn find_confirmed(&self, f: Frame) -> (r: Option<usize>)
        ensures
            match r {
                Some(i) => i == rec_index(rec_view_seq(self.confirmed@), f.0),
                None => rec_index(rec_view_seq(self.confirmed@), f.0) < 0,
            },
    {
        let ghost rv = rec_view_seq(self.confirmed@);
        proof {
            lemma_rec_index(rv, f.0);
        }
        let mut i: usize = 0;
        while i < self.confirmed.len()
            invariant
                i <= self.confirmed.len(),
                rv == rec_view_seq(self.confirmed@),
                rv.len() == self.confirmed.len(),
                forall|j: int| 0 <= j < i ==> rv[j].frame != f.0,
            decreases self.confirmed.len() - i,
        {
            if self.confirmed[i].frame == f {
                proof {
                    lemma_rec_index(rv, f.0);
                    let ri = rec_index(rv, f.0);
                    assert(rv[i as int].frame == f.0);
                    assert(ri >= 0);
                    assert(ri == i);
                }
                return Some(i);
            }
            i = i + 1;
        }
        None
    }

    /// Index of this player's predicted record for frame `f`, if any.
    pub fn find_predicted(&self, f: Frame) -> (r: Option<usize>)
        ensures
            match r {
                Some(i) => i == rec_index(rec_view_seq(self.predicted@), f.0),
                None => rec_index(rec_view_seq(self.predicted@), f.0) < 0,
            },
    {
        let ghost rv = rec_view_seq(self.predicted@);
        proof {
            lemma_rec_index(rv, f.0);
        }
        let mut i: usize = 0;
        while i < self.predicted.len()
            invariant
                i <= self.predicted.len(),
                rv == rec_view_seq(self.predicted@),
                rv.len() == self.predicted.len(),
                forall|j: int| 0 <= j < i ==> rv[j].frame != f.0,
            decreases self.predicted.len() - i,
        {
            if self.predicted[i].frame == f {
                proof {
                    lemma_rec_index(rv, f.0);
                    let ri = rec_index(rv, f.0);
                    assert(rv[i as int].frame == f.0);
                    assert(ri >= 0);
                    assert(ri == i);
                }
                return Some(i);
            }
            i = i + 1;
        }
        None
    }
}

} // verus!
