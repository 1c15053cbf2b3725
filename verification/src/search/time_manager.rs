//! Deciding when a search stops: on request, at a depth, a node count or a time.
use vstd::prelude::*;
use std::sync::Arc;
use std::sync::atomic::{AtomicBool, Ordering};
use crate::timer::Time;
use super::eval_data::EvalNumber;

verus! {

/// Node counts at which to stop.
pub struct NodeLimit {
    /// Stop starting new depths from here.
    pub soft_limit: u64,
    /// Stop at once from here.
    pub hard_limit: u64,
}

impl NodeLimit {
    /// A node limit; the hard limit is at least the soft one.
    pub fn new(hard_limit: u64, soft_limit: u64) -> (r: Self)
        requires
            hard_limit >= soft_limit,
        ensures
            r.hard_limit == hard_limit,
            r.soft_limit == soft_limit,
    {
        NodeLimit { soft_limit, hard_limit }
    }
}

/// Times, in milliseconds from `timer`, at which to stop.
pub struct RealTime {
    /// When the search started.
    pub timer: Time,
    /// Stop at once from here.
    pub hard_time_limit: u64,
    /// Stop starting new depths from here.
    pub soft_time_limit: u64,
}

impl RealTime {
    /// A time limit; the hard limit is at least the soft one.
    pub fn new(timer: &Time, hard_time_limit: u64, soft_time_limit: u64) -> (r: Self)
        requires
            hard_time_limit >= soft_time_limit,
        ensures
            r.hard_time_limit == hard_time_limit,
            r.soft_time_limit == soft_time_limit,
    {
        RealTime { timer: *timer, hard_time_limit, soft_time_limit }
    }
}

/// The score of being checkmated at once.
pub const IMMEDIATE_CHECKMATE_SCORE: EvalNumber = -2147483646;

/// Scores at least this far from zero are forced checkmates.
pub const CHECKMATE_SCORE: EvalNumber = 2147483391;

/// Whether a score means forced checkmate.
pub open spec fn is_mate_score(score: int) -> bool {
    score >= CHECKMATE_SCORE || score <= -CHECKMATE_SCORE
}

/// How much of the soft time limit to use, in percent, by how many depths the best move has
/// stayed the same.
pub open spec fn stability_percent(stability: int) -> u64 {
    if stability <= 0 {
        150
    } else if stability == 1 {
        130
    } else if stability == 2 {
        120
    } else if stability == 3 {
        110
    } else if stability == 4 {
        100
    } else if stability == 5 {
        95
    } else if stability == 6 {
        90
    } else {
        85
    }
}

/// Decides when to stop searching.
pub struct TimeManager {
    /// The deepest depth to search.
    pub depth_limit: Option<u8>,
    /// Node counts at which to stop.
    pub node_limit: Option<NodeLimit>,
    /// Times at which to stop.
    pub real_time: Option<RealTime>,
    /// Set when the search must stop.
    pub stopped: Arc<AtomicBool>,
    /// Set while the engine ponders.
    pub pondering: Arc<AtomicBool>,
    /// Stop on finding a checkmate in this many plies.
    pub mated_in: Option<u8>,
}

impl TimeManager {
    /// A time manager with all its limits given.
    pub fn new(
        depth_limit: Option<u8>,
        node_limit: Option<NodeLimit>,
        real_time: Option<RealTime>,
        stopped: Arc<AtomicBool>,
        pondering: Arc<AtomicBool>,
        mated_in: Option<u8>,
    ) -> (r: Self)
        ensures
            r.depth_limit == depth_limit,
            r.node_limit == node_limit,
            r.real_time == real_time,
            r.mated_in == mated_in,
    {
        TimeManager { depth_limit, node_limit, real_time, stopped, pondering, mated_in }
    }

    /// Stops at a time only.
    pub fn time_limited(
        stopped: Arc<AtomicBool>,
        pondering: Arc<AtomicBool>,
        mated_in: Option<u8>,
        real_time: Option<RealTime>,
    ) -> (r: Self)
        ensures
            r.depth_limit is None,
            r.node_limit is None,
            r.real_time == real_time,
            r.mated_in == mated_in,
    {
        TimeManager { depth_limit: None, node_limit: None, real_time, stopped, pondering, mated_in }
    }

    /// Stops when iterative deepening passes `depth`.
    pub fn depth_limited(stopped: Arc<AtomicBool>, pondering: Arc<AtomicBool>, mated_in: Option<u8>, depth: u8) -> (r: Self)
        ensures
            r.depth_limit == Some(depth),
            r.node_limit is None,
            r.real_time is None,
            r.mated_in == mated_in,
    {
        TimeManager { depth_limit: Some(depth), node_limit: None, real_time: None, stopped, pondering, mated_in }
    }

    /// Stops at a node count.
    pub fn node_limited(
        stopped: Arc<AtomicBool>,
        pondering: Arc<AtomicBool>,
        mated_in: Option<u8>,
        node_limit: NodeLimit,
    ) -> (r: Self)
        ensures
            r.depth_limit is None,
            r.node_limit == Some(node_limit),
            r.real_time is None,
            r.mated_in == mated_in,
    {
        TimeManager { depth_limit: None, node_limit: Some(node_limit), real_time: None, stopped, pondering, mated_in }
    }

    /// Only stops when `stopped` is set.
    pub fn infinite(stopped: Arc<AtomicBool>, pondering: Arc<AtomicBool>, mated_in: Option<u8>) -> (r: Self)
        ensures
            r.depth_limit is None,
            r.node_limit is None,
            r.real_time is None,
            r.mated_in == mated_in,
    {
        TimeManager { depth_limit: None, node_limit: None, real_time: None, stopped, pondering, mated_in }
    }

    /// Whether the search must stop at once, given whether it was told to stop, whether it
    /// ponders, the nodes searched and the milliseconds taken.
    pub open spec fn hard_stop_rule(self, stopped: bool, pondering: bool, node_count: u64, elapsed: u128) -> bool {
        if stopped {
            true
        } else if pondering {
            false
        } else {
            ||| (self.node_limit matches Some(limit) && node_count >= limit.hard_limit)
            ||| (self.real_time matches Some(real_time) && elapsed > real_time.hard_time_limit)
        }
    }

    /// The decision of [`TimeManager::hard_stop_rule`].
    pub fn hard_stop_decision(&self, stopped: bool, pondering: bool, node_count: u64, elapsed: u128) -> (r: bool)
        ensures
            r == self.hard_stop_rule(stopped, pondering, node_count, elapsed),
    {
        if stopped {
            return true;
        }
        if pondering {
            return false;
        }
        if let Some(node_limit) = &self.node_limit {
            if node_count >= node_limit.hard_limit {
                return true;
            }
        }
        if let Some(real_time) = &self.real_time {
            if elapsed > real_time.hard_time_limit as u128 {
                return true;
            }
        }
        false
    }

    /// The milliseconds taken, when there is a time limit; 0 without one.
    fn elapsed(&self) -> (r: u128)
        ensures
            self.real_time is None ==> r == 0,
    {
        match &self.real_time {
            Some(real_time) => real_time.timer.miliseconds(),
            None => 0,
        }
    }

    /// Whether the search must stop at once, reading the flags and the clock: the verdict of
    /// [`TimeManager::hard_stop_rule`] on the flags as read and the milliseconds taken, which are 0
    /// without a time limit. What the flags and the clock hold is set elsewhere.
    pub fn hard_stop_inner_search(&self, node_count: u64) -> (r: bool)
        ensures
            exists|stopped: bool, pondering: bool, elapsed: u128|
                #![trigger self.hard_stop_rule(stopped, pondering, node_count, elapsed)]
                r == self.hard_stop_rule(stopped, pondering, node_count, elapsed) && (self.real_time is None ==> elapsed
                    == 0),
    {
        let stopped = self.is_stopped();
        let pondering = self.is_pondering();
        let elapsed = self.elapsed();
        self.hard_stop_decision(stopped, pondering, node_count, elapsed)
    }

    /// Whether iterative deepening must stop before `depth`, given the flags, the nodes searched
    /// and the milliseconds taken.
    pub open spec fn deepening_stop_rule(self, stopped: bool, pondering: bool, depth: u8, node_count: u64, elapsed: u128) -> bool {
        if stopped {
            true
        } else if pondering {
            false
        } else {
            ||| (self.node_limit matches Some(limit) && node_count >= limit.hard_limit)
            ||| (self.depth_limit matches Some(max_depth) && depth > max_depth)
            ||| (self.real_time matches Some(real_time) && elapsed > real_time.hard_time_limit)
        }
    }

    /// The decision of [`TimeManager::deepening_stop_rule`].
    pub fn hard_stop_iterative_deepening_decision(
        &self,
        stopped: bool,
        pondering: bool,
        depth: u8,
        node_count: u64,
        elapsed: u128,
    ) -> (r: bool)
        ensures
            r == self.deepening_stop_rule(stopped, pondering, depth, node_count, elapsed),
    {
        if stopped {
            return true;
        }
        if pondering {
            return false;
        }
        if let Some(node_limit) = &self.node_limit {
            if node_count >= node_limit.hard_limit {
                return true;
            }
        }
        if let Some(max_depth) = self.depth_limit {
            if depth > max_depth {
                return true;
            }
        }
        if let Some(real_time) = &self.real_time {
            if elapsed > real_time.hard_time_limit as u128 {
                return true;
            }
        }
        false
    }

    /// Whether iterative deepening must stop before `depth`, reading the flags and the clock: the
    /// verdict of [`TimeManager::deepening_stop_rule`] on the flags as read and the milliseconds
    /// taken, which are 0 without a time limit. What the flags and the clock hold is set elsewhere.
    pub fn hard_stop_iterative_deepening(&self, depth: u8, node_count: u64) -> (r: bool)
        ensures
            exists|stopped: bool, pondering: bool, elapsed: u128|
                #![trigger self.deepening_stop_rule(stopped, pondering, depth, node_count, elapsed)]
                r == self.deepening_stop_rule(stopped, pondering, depth, node_count, elapsed) && (self.real_time is None
                    ==> elapsed == 0),
    {
        let stopped = self.is_stopped();
        let pondering = self.is_pondering();
        let elapsed = self.elapsed();
        self.hard_stop_iterative_deepening_decision(stopped, pondering, depth, node_count, elapsed)
    }

    /// Returns the value of the `pondering` flag.
    pub fn is_pondering(&self) -> (r: bool) {
        self.pondering.load(Ordering::SeqCst)
    }

    /// Returns the value of the `stopped` flag.
    pub fn is_stopped(&self) -> (r: bool) {
        self.stopped.load(Ordering::SeqCst)
    }

    /// Whether to start no new depth, given the flags, the nodes searched, the best score, how
    /// many depths the best move stayed the same and the milliseconds taken.
    pub open spec fn soft_stop_rule(
        self,
        stopped: bool,
        pondering: bool,
        node_count: u64,
        best_score: int,
        best_move_stability: u8,
        elapsed: u128,
    ) -> bool {
        if stopped {
            true
        } else if pondering {
            false
        } else if self.node_limit matches Some(limit) && node_count >= limit.soft_limit {
            true
        } else if self.mated_in matches Some(ply) && is_mate_score(best_score) && ply == IMMEDIATE_CHECKMATE_SCORE - (
        if best_score < 0 {
            -best_score
        } else {
            best_score
        }) {
            true
        } else {
            match self.real_time {
                Some(real_time) => {
                    let adjusted = real_time.soft_time_limit * stability_percent(best_move_stability as int) / 100;
                    let limit = if adjusted < real_time.hard_time_limit {
                        adjusted
                    } else {
                        real_time.hard_time_limit as int
                    };
                    elapsed > limit
                },
                None => false,
            }
        }
    }

    /// The decision of [`TimeManager::soft_stop_rule`].
    pub fn soft_stop_decision(
        &self,
        stopped: bool,
        pondering: bool,
        node_count: u64,
        best_score: EvalNumber,
        best_move_stability: u8,
        elapsed: u128,
    ) -> (r: bool)
        ensures
            r == self.soft_stop_rule(stopped, pondering, node_count, best_score as int, best_move_stability, elapsed),
    {
        if stopped {
            return true;
        }
        if pondering {
            return false;
        }
        if let Some(node_limit) = &self.node_limit {
            if node_count >= node_limit.soft_limit {
                return true;
            }
        }
        if let Some(ply) = self.mated_in {
            if best_score >= CHECKMATE_SCORE || best_score <= -CHECKMATE_SCORE {
                let magnitude: i64 = if best_score < 0 { -(best_score as i64) } else { best_score as i64 };
                if ply as i64 == IMMEDIATE_CHECKMATE_SCORE as i64 - magnitude {
                    return true;
                }
            }
        }
        if let Some(real_time) = &self.real_time {
            let multiplier: u64 = if best_move_stability == 0 {
                150
            } else if best_move_stability == 1 {
                130
            } else if best_move_stability == 2 {
                120
            } else if best_move_stability == 3 {
                110
            } else if best_move_stability == 4 {
                100
            } else if best_move_stability == 5 {
                95
            } else if best_move_stability == 6 {
                90
            } else {
                85
            };
            proof {
                assert(real_time.soft_time_limit as u128 * multiplier as u128 <= 0xFFFF_FFFF_FFFF_FFFF * 150) by (nonlinear_arith)
                    requires
                        real_time.soft_time_limit <= 0xFFFF_FFFF_FFFF_FFFF,
                        multiplier <= 150,
                {
                }
            }
            let adjusted_time = (real_time.soft_time_limit as u128 * multiplier as u128) / 100;
            let limit = if adjusted_time < real_time.hard_time_limit as u128 { adjusted_time } else { real_time.hard_time_limit as u128 };
            return elapsed > limit;
        }
        false
    }

    /// Whether to start no new depth, reading the flags and the clock: the verdict of
    /// [`TimeManager::soft_stop_rule`] on the flags as read and the milliseconds taken, which are 0
    /// without a time limit. What the flags and the clock hold is set elsewhere.
    pub fn soft_stop(&self, node_count: u64, best_score: EvalNumber, best_move_stability: u8) -> (r: bool)
        ensures
            exists|stopped: bool, pondering: bool, elapsed: u128|
                #![trigger self.soft_stop_rule(stopped, pondering, node_count, best_score as int, best_move_stability, elapsed)]
                r == self.soft_stop_rule(stopped, pondering, node_count, best_score as int, best_move_stability, elapsed)
                    && (self.real_time is None ==> elapsed == 0),
    {
        let stopped = self.is_stopped();
        let pondering = self.is_pondering();
        let elapsed = self.elapsed();
        self.soft_stop_decision(stopped, pondering, node_count, best_score, best_move_stability, elapsed)
    }
}

/// The hard and soft time limits of a move, in milliseconds, from the clock and the increment:
/// at most a quarter of the clock, aiming at a thirtieth of it plus the increment.
pub fn calculate_time(clock_time: u64, increment: u64) -> (r: (u64, u64))
    ensures
        r.0 == clock_time / 4,
        r.1 == if clock_time / 30 + increment < clock_time / 4 {
            clock_time / 30 + increment
        } else {
            (clock_time / 4) as int
        },
        r.1 <= r.0,
{
    let hard = clock_time / 4;
    let soft = if increment >= hard {
        hard
    } else if clock_time / 30 + increment < hard {
        clock_time / 30 + increment
    } else {
        hard
    };
    (hard, soft)
}

} // verus!
