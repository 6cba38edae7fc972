//! The planner's queue discipline: moves wait in a bounded lookahead queue
//! until the junction with the following move is settled, then move to the
//! bounded queue of finalised moves that step expansion consumes.
//!
//! Each queued move carries its step deltas and a profile. The velocity and
//! timing computations of a junction are delegated to a `JunctionSolver`,
//! which sees the deltas and updates the profiles; this module decides when
//! they run and where each move goes.
use vstd::prelude::*;
use crate::motion::{MoveDelta, PlannerError};

verus! {

/// Capacity of the lookahead queue.
pub const LOOKAHEAD_CAPACITY: usize = 8;

/// Capacity of the queue of finalised moves.
pub const MOVE_QUEUE_CAPACITY: usize = 64;

/// A planned move: its step deltas and its velocity profile.
pub struct PlannedMove<T> {
    pub delta: MoveDelta,
    pub profile: T,
}

/// The velocity and profile computations of the planner.
pub trait JunctionSolver<T> {
    /// Settles the junction between two consecutive moves (the end velocity
    /// of the first and the start velocity of the second) and finalises the
    /// profile of the first.
    fn join(&self, first: &MoveDelta, first_profile: &mut T, second: &MoveDelta, second_profile: &mut T);

    /// Finalises the profile of a move that ends at rest.
    fn finish(&self, last: &MoveDelta, profile: &mut T);
}

/// Queue lengths `(lookahead, finalised)` once every move that can be
/// finalised has been.
pub open spec fn settle(a: int, b: int) -> (int, int)
    decreases a,
{
    if a >= 2 && b < MOVE_QUEUE_CAPACITY {
        settle(a - 1, b + 1)
    } else {
        (a, b)
    }
}

/// Queue lengths after planning one move, or `None` where the move is
/// refused with `QueueFull`.
pub open spec fn after_plan(a: int, b: int) -> Option<(int, int)> {
    if a >= LOOKAHEAD_CAPACITY {
        None
    } else {
        Some(settle(a + 1, b))
    }
}

/// Queue lengths after `k` moves were planned into empty queues with no
/// step expansion in between.
pub open spec fn filled(k: int) -> (int, int) {
    if k <= 0 {
        (0, 0)
    } else if k <= MOVE_QUEUE_CAPACITY + 1 {
        (1, k - 1)
    } else {
        (k - MOVE_QUEUE_CAPACITY, MOVE_QUEUE_CAPACITY as int)
    }
}

/// Planning into empty queues with nothing drained: the first
/// `LOOKAHEAD_CAPACITY + MOVE_QUEUE_CAPACITY` moves are accepted, and the
/// next one is refused with the queues unchanged.
pub proof fn lemma_queue_capacity(k: int)
    requires
        0 <= k <= LOOKAHEAD_CAPACITY + MOVE_QUEUE_CAPACITY,
    ensures
        k < LOOKAHEAD_CAPACITY + MOVE_QUEUE_CAPACITY ==> after_plan(filled(k).0, filled(k).1)
            == Some(filled(k + 1)),
        k == LOOKAHEAD_CAPACITY + MOVE_QUEUE_CAPACITY ==> after_plan(filled(k).0, filled(k).1)
            is None,
{
    if k < LOOKAHEAD_CAPACITY + MOVE_QUEUE_CAPACITY {
        let (a, b) = filled(k);
        if k == 0 {
            assert(settle(1, 0) == (1int, 0int));
        } else if k <= MOVE_QUEUE_CAPACITY {
            assert(settle(a + 1, b) == settle(a, b + 1));
            assert(settle(a, b + 1) == (a, b + 1));
        } else {
            assert(settle(a + 1, b) == (a + 1, b));
        }
    }
}

/// Whether the queues `(l1, m1)` come from `(l0, m0)` by finalising the
/// first `k` moves of `l0`, in order, `k` being how many moves were appended
/// to `m0`:
/// - the old finalised moves stay, and the appended ones are the front `k`
///   moves of `l0`, in order (their deltas; their profiles as the solver
///   finalised them);
/// - where none was finalised the lookahead queue is unchanged;
/// - otherwise the move now leading the lookahead queue is move `k` of `l0`
///   (its start velocity settled by the junction), and the moves after it
///   are those after move `k` of `l0`, unchanged.
pub open spec fn finalised_in_order<T>(
    l0: Seq<PlannedMove<T>>,
    m0: Seq<PlannedMove<T>>,
    l1: Seq<PlannedMove<T>>,
    m1: Seq<PlannedMove<T>>,
) -> bool {
    let k = m1.len() - m0.len();
    &&& m1.len() >= m0.len()
    &&& m1.subrange(0, m0.len() as int) == m0
    &&& l1.len() == l0.len() - k
    &&& forall|j: int| 0 <= j < k ==> #[trigger] m1[m0.len() + j].delta == l0[j].delta
    &&& k == 0 ==> l1 == l0
    &&& k > 0 && l1.len() > 0 ==> l1[0].delta == l0[k].delta && l1.skip(1) == l0.skip(k + 1)
}

/// The lookahead queue and the queue of finalised moves.
pub struct MotionQueues<T> {
    lookahead: Vec<PlannedMove<T>>,
    moves: Vec<PlannedMove<T>>,
}

impl<T> MotionQueues<T> {
    /// Number of moves in the lookahead queue.
    pub open spec fn lookahead_len(&self) -> int {
        self.lookahead_view().len() as int
    }

    /// Number of finalised moves.
    pub open spec fn moves_len(&self) -> int {
        self.moves_view().len() as int
    }

    /// The finalised moves, oldest first.
    pub closed spec fn moves_view(&self) -> Seq<PlannedMove<T>> {
        self.moves@
    }

    /// The moves waiting for lookahead, oldest first.
    pub closed spec fn lookahead_view(&self) -> Seq<PlannedMove<T>> {
        self.lookahead@
    }

    /// Empty queues.
    pub fn new() -> (r: MotionQueues<T>)
        ensures
            r.lookahead_len() == 0,
            r.moves_len() == 0,
    {
        MotionQueues { lookahead: Vec::new(), moves: Vec::new() }
    }

    /// Number of moves in the lookahead queue.
    pub fn lookahead_count(&self) -> (r: usize)
        ensures
            r == self.lookahead_len(),
    {
        self.lookahead.len()
    }

    /// Number of finalised moves.
    pub fn move_count(&self) -> (r: usize)
        ensures
            r == self.moves_len(),
    {
        self.moves.len()
    }

    /// Finalises moves while the lookahead queue holds two or more and the
    /// queue of finalised moves has room: the front move is joined with the
    /// next one and moves on, and the next one leads.
    fn process_lookahead<S: JunctionSolver<T>>(&mut self, solver: &S)
        requires
            old(self).moves_len() <= MOVE_QUEUE_CAPACITY,
        ensures
            (final(self).lookahead_len(), final(self).moves_len()) == settle(
                old(self).lookahead_len(),
                old(self).moves_len(),
            ),
            finalised_in_order(
                old(self).lookahead_view(),
                old(self).moves_view(),
                final(self).lookahead_view(),
                final(self).moves_view(),
            ),
    {
        assert(self.moves@.subrange(0, self.moves@.len() as int) =~= self.moves@);
        while self.lookahead.len() >= 2 && self.moves.len() < MOVE_QUEUE_CAPACITY
            invariant
                self.moves@.len() <= MOVE_QUEUE_CAPACITY,
                settle(self.lookahead@.len() as int, self.moves@.len() as int) == settle(
                    old(self).lookahead_len(),
                    old(self).moves_len(),
                ),
                finalised_in_order(old(self).lookahead@, old(self).moves@, self.lookahead@, self.moves@),
            decreases self.lookahead@.len(),
        {
            let ghost l = self.lookahead@;
            let ghost m = self.moves@;
            let first = self.lookahead.remove(0);
            let second = self.lookahead.remove(0);
            let PlannedMove { delta: d1, profile: mut p1 } = first;
            let PlannedMove { delta: d2, profile: mut p2 } = second;
            solver.join(&d1, &mut p1, &d2, &mut p2);
            self.lookahead.insert(0, PlannedMove { delta: d2, profile: p2 });
            self.moves.push(PlannedMove { delta: d1, profile: p1 });
            proof {
                let l0 = old(self).lookahead@;
                let m0 = old(self).moves@;
                let k = m.len() - m0.len();
                assert(d1 == l[0].delta);
                assert(d2 == l[1].delta);
                assert(self.moves@.subrange(0, m0.len() as int) =~= m.subrange(0, m0.len() as int));
                assert(self.lookahead@.skip(1) =~= l.skip(2));
                if k == 0 {
                    assert(l.skip(2) =~= l0.skip(k + 2));
                } else {
                    assert(l[1] == l.skip(1)[0]);
                    assert(l.skip(2) =~= l.skip(1).skip(1));
                    assert(l0.skip(k + 1).skip(1) =~= l0.skip(k + 2));
                    assert(l0.skip(k + 1)[0] == l0[k + 1]);
                }
                assert forall|j: int| 0 <= j < k + 1 implies #[trigger] self.moves@[m0.len() + j].delta == l0[j].delta by {
                    if j < k {
                        assert(self.moves@[m0.len() + j] == m[m0.len() + j]);
                    }
                }
            }
        }
    }

    /// Queues a move for lookahead and finalises what can be finalised.
    /// Fails with `QueueFull`, leaving the queues as they were, where the
    /// lookahead queue is full.
    pub fn plan<S: JunctionSolver<T>>(&mut self, delta: MoveDelta, profile: T, solver: &S) -> (r: Result<(), PlannerError>)
        requires
            old(self).moves_len() <= MOVE_QUEUE_CAPACITY,
        ensures
            final(self).moves_len() <= MOVE_QUEUE_CAPACITY,
            match after_plan(old(self).lookahead_len(), old(self).moves_len()) {
                None => r == Err::<(), PlannerError>(PlannerError::QueueFull) && final(self).lookahead_view()
                    == old(self).lookahead_view() && final(self).moves_view() == old(self).moves_view(),
                Some(n) => r is Ok && (final(self).lookahead_len(), final(self).moves_len()) == n
                    && finalised_in_order(
                        old(self).lookahead_view().push(PlannedMove { delta, profile }),
                        old(self).moves_view(),
                        final(self).lookahead_view(),
                        final(self).moves_view(),
                    ),
            },
    {
        if self.lookahead.len() >= LOOKAHEAD_CAPACITY {
            return Err(PlannerError::QueueFull);
        }
        self.lookahead.push(PlannedMove { delta, profile });
        self.process_lookahead(solver);
        proof {
            lemma_settle_sum(old(self).lookahead_len() + 1, old(self).moves_len());
        }
        Ok(())
    }

    /// Finalises every move in the lookahead queue, the last one ending at
    /// rest. Fails with `QueueFull` where the queue of finalised moves fills
    /// up first; the moves not finalised then stay in the lookahead queue.
    pub fn finalize<S: JunctionSolver<T>>(&mut self, solver: &S) -> (r: Result<(), PlannerError>)
        requires
            old(self).moves_len() <= MOVE_QUEUE_CAPACITY,
        ensures
            final(self).moves_len() <= MOVE_QUEUE_CAPACITY,
            final(self).lookahead_len() + final(self).moves_len() == old(self).lookahead_len() + old(
                self,
            ).moves_len(),
            r is Ok <==> final(self).lookahead_len() == 0,
            old(self).lookahead_len() + old(self).moves_len() <= MOVE_QUEUE_CAPACITY ==> r is Ok,
            finalised_in_order(
                old(self).lookahead_view(),
                old(self).moves_view(),
                final(self).lookahead_view(),
                final(self).moves_view(),
            ),
    {
        self.process_lookahead(solver);
        proof {
            lemma_settle_sum(old(self).lookahead_len(), old(self).moves_len());
        }
        while self.lookahead.len() > 0
            invariant
                self.moves@.len() <= MOVE_QUEUE_CAPACITY,
                self.lookahead@.len() + self.moves@.len() == old(self).lookahead_len() + old(
                    self,
                ).moves_len(),
                finalised_in_order(old(self).lookahead@, old(self).moves@, self.lookahead@, self.moves@),
            decreases self.lookahead@.len(),
        {
            if self.moves.len() >= MOVE_QUEUE_CAPACITY {
                return Err(PlannerError::QueueFull);
            }
            let ghost l = self.lookahead@;
            let ghost m = self.moves@;
            let last = self.lookahead.remove(0);
            let PlannedMove { delta: d, profile: mut p } = last;
            solver.finish(&d, &mut p);
            self.moves.push(PlannedMove { delta: d, profile: p });
            proof {
                let l0 = old(self).lookahead@;
                let m0 = old(self).moves@;
                let k = m.len() - m0.len();
                assert(d == l[0].delta);
                assert(self.moves@.subrange(0, m0.len() as int) =~= m.subrange(0, m0.len() as int));
                assert(self.lookahead@ =~= l.skip(1));
                if k > 0 {
                    assert(l0[k] == l0[k]);
                }
                if self.lookahead@.len() > 0 {
                    if k == 0 {
                        assert(l.skip(1).skip(1) =~= l0.skip(2));
                        assert(l.skip(1)[0] == l0[1]);
                    } else {
                        assert(l.skip(1)[0] == l[1]);
                        assert(l[1] == l.skip(1)[0]);
                        assert(l.skip(1).skip(1) =~= l.skip(2));
                        assert(l0.skip(k + 1)[0] == l0[k + 1]);
                        assert(l0.skip(k + 1).skip(1) =~= l0.skip(k + 2));
                    }
                }
                assert forall|j: int| 0 <= j < k + 1 implies #[trigger] self.moves@[m0.len() + j].delta == l0[j].delta by {
                    if j < k {
                        assert(self.moves@[m0.len() + j] == m[m0.len() + j]);
                    }
                }
            }
        }
        Ok(())
    }

    /// Takes the oldest finalised move, for step expansion.
    pub fn next_move(&mut self) -> (r: Option<PlannedMove<T>>)
        ensures
            old(self).moves_len() == 0 ==> r is None && final(self).moves_view() == old(self).moves_view(),
            old(self).moves_len() > 0 ==> r == Some(old(self).moves_view()[0]) && final(self).moves_view()
                == old(self).moves_view().drop_first(),
            final(self).lookahead_view() == old(self).lookahead_view(),
    {
        if self.moves.len() == 0 {
            None
        } else {
            Some(self.moves.remove(0))
        }
    }
}

proof fn lemma_settle_sum(a: int, b: int)
    ensures
        settle(a, b).0 + settle(a, b).1 == a + b,
        b <= MOVE_QUEUE_CAPACITY ==> settle(a, b).1 <= MOVE_QUEUE_CAPACITY,
    decreases a,
{
    if a >= 2 && b < MOVE_QUEUE_CAPACITY {
        lemma_settle_sum(a - 1, b + 1);
    }
}

} // verus!
