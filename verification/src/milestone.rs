//! Milestone tables and the point computation for one raw score.
//!
//! A table is an ordered list of threshold/reward pairs.  A pair with a
//! non-negative threshold awards its reward once the score reaches the
//! threshold; a pair with a negative threshold is a terminal sentinel
//! that switches to per-unit scoring, awarding two points per full
//! multiple of its reward in the score, and ends the walk.

use vstd::prelude::*;

verus! {

/// One threshold/reward pair of a milestone table.
#[derive(Debug, Clone, Copy, PartialEq, Eq, Structural)]
pub struct Milestone {
    pub threshold: i64,
    pub reward: i64,
}

/// Mathematical floor of `a / b`, for a non-negative dividend.
pub open spec fn floor_div(a: int, b: int) -> int
    recommends
        a >= 0,
        b != 0,
{
    if b > 0 {
        a / b
    } else if a % (-b) == 0 {
        -(a / (-b))
    } else {
        -(a / (-b)) - 1
    }
}

/// The points a positive score earns from a table: rewards accumulate
/// while the score reaches each non-negative threshold; a threshold
/// shortfall stops the walk; a sentinel awards two points per full
/// `reward` in the score and stops.
pub open spec fn walk_points(score: int, table: Seq<Milestone>) -> int
    decreases table.len(),
{
    if table.len() == 0 {
        0
    } else {
        let m = table[0];
        if m.threshold >= 0 {
            if score < m.threshold {
                0
            } else {
                m.reward + walk_points(score, table.skip(1))
            }
        } else {
            2 * floor_div(score, m.reward as int)
        }
    }
}

/// The points a raw score earns: zero scores earn nothing, whatever the
/// table says.
pub open spec fn calc_points_spec(score: int, table: Seq<Milestone>) -> int {
    if score == 0 {
        0
    } else {
        walk_points(score, table)
    }
}

pub open spec fn fits_i64(v: int) -> bool {
    i64::MIN <= v <= i64::MAX
}

/// How the walk over a table ends for a positive score, threaded with
/// the running total `acc`: a computed value, a zero-reward sentinel
/// (a configuration error), or a running total leaving the `i64` range.
pub enum WalkOut {
    Done(int),
    ZeroSentinel,
    Overflow,
}

pub open spec fn walk_out(score: int, table: Seq<Milestone>, acc: int) -> WalkOut
    decreases table.len(),
{
    if table.len() == 0 {
        WalkOut::Done(acc)
    } else {
        let m = table[0];
        if m.threshold >= 0 {
            if score < m.threshold {
                WalkOut::Done(acc)
            } else if !fits_i64(acc + m.reward) {
                WalkOut::Overflow
            } else {
                walk_out(score, table.skip(1), acc + m.reward)
            }
        } else if m.reward == 0 {
            WalkOut::ZeroSentinel
        } else {
            let per_unit = 2 * floor_div(score, m.reward as int);
            if !fits_i64(per_unit) || !fits_i64(acc + per_unit) {
                WalkOut::Overflow
            } else {
                WalkOut::Done(acc + per_unit)
            }
        }
    }
}

/// How the computation for a raw score ends.
pub open spec fn calc_out(score: int, table: Seq<Milestone>) -> WalkOut {
    if score == 0 {
        WalkOut::Done(0)
    } else {
        walk_out(score, table, 0)
    }
}

/// A finished walk computes the running total plus the table's points.
pub proof fn lemma_walk_out_value(score: int, table: Seq<Milestone>, acc: int)
    ensures
        walk_out(score, table, acc) matches WalkOut::Done(v) ==> v == acc + walk_points(score, table),
    decreases table.len(),
{
    if table.len() > 0 {
        let m = table[0];
        if m.threshold >= 0 && score >= m.threshold && fits_i64(acc + m.reward) {
            lemma_walk_out_value(score, table.skip(1), acc + m.reward);
        }
    }
}

/// Why a point computation failed.
#[derive(Debug, Clone, Copy, PartialEq, Eq, Structural)]
pub enum CalcError {
    /// The walk reached a terminal sentinel whose reward is zero.
    ZeroRewardSentinel,
    /// A running total left the `i64` range.
    Overflow,
}

/// Computes the points a raw score earns from a milestone table.
///
/// A zero score earns zero points whatever the table holds.  A walk
/// that reaches a zero-reward sentinel fails fast instead of dividing
/// by zero, and a running total that leaves the `i64` range is an
/// error rather than a wrapped value.
pub fn calc_points(score: i64, milestones: &Vec<Milestone>) -> (r: Result<i64, CalcError>)
    requires
        score >= 0,
    ensures
        score == 0 ==> r == Ok::<i64, CalcError>(0i64),
        r matches Ok(v) ==> {
            &&& calc_out(score as int, milestones@) == WalkOut::Done(v as int)
            &&& v as int == calc_points_spec(score as int, milestones@)
        },
        r == Err::<i64, CalcError>(CalcError::ZeroRewardSentinel) <==> calc_out(
            score as int,
            milestones@,
        ) is ZeroSentinel,
        r == Err::<i64, CalcError>(CalcError::Overflow) <==> calc_out(
            score as int,
            milestones@,
        ) is Overflow,
{
    if score == 0 {
        return Ok(0);
    }
    let n = milestones.len();
    let mut points: i64 = 0;
    let mut i: usize = 0;
    proof {
        assert(milestones@.skip(0) =~= milestones@);
    }
    while i < n
        invariant
            0 <= i <= n,
            n == milestones@.len(),
            score > 0,
            walk_out(score as int, milestones@, 0) == walk_out(
                score as int,
                milestones@.skip(i as int),
                points as int,
            ),
        decreases n - i,
    {
        let m = milestones[i];
        let ghost rest = milestones@.skip(i as int);
        proof {
            assert(rest[0] == milestones@[i as int]);
            assert(rest.skip(1) =~= milestones@.skip(i as int + 1));
        }
        if m.threshold >= 0 {
            if score < m.threshold {
                proof {
                    lemma_walk_out_value(score as int, milestones@, 0);
                }
                return Ok(points);
            }
            match points.checked_add(m.reward) {
                Some(p) => {
                    points = p;
                },
                None => {
                    return Err(CalcError::Overflow);
                },
            }
        } else {
            if m.reward == 0 {
                return Err(CalcError::ZeroRewardSentinel);
            }
            let q: i64 = if m.reward > 0 {
                let q64: u64 = (score as u64) / (m.reward as u64);
                proof {
                    assert(q64 as int == floor_div(score as int, m.reward as int));
                }
                q64 as i64
            } else {
                let mag: u64 = if m.reward == i64::MIN {
                    9223372036854775808u64
                } else {
                    (-m.reward) as u64
                };
                proof {
                    assert(mag as int == -(m.reward as int));
                }
                let t: u64 = (score as u64) / mag;
                let rem: u64 = (score as u64) % mag;
                if rem == 0 {
                    -(t as i64)
                } else {
                    -(t as i64) - 1
                }
            };
            proof {
                assert(q as int == floor_div(score as int, m.reward as int));
            }
            let per_unit: i128 = 2 * (q as i128);
            if per_unit < i64::MIN as i128 || per_unit > i64::MAX as i128 {
                return Err(CalcError::Overflow);
            }
            let total: i128 = (points as i128) + per_unit;
            if total < i64::MIN as i128 || total > i64::MAX as i128 {
                return Err(CalcError::Overflow);
            }
            proof {
                lemma_walk_out_value(score as int, milestones@, 0);
            }
            return Ok(total as i64);
        }
        i = i + 1;
    }
    proof {
        assert(milestones@.skip(n as int) =~= Seq::<Milestone>::empty());
        lemma_walk_out_value(score as int, milestones@, 0);
    }
    Ok(points)
}

/// Rewards accumulated from a table with no sentinel are never negative
/// when every reward is non-negative.
proof fn lemma_walk_points_nonneg(score: int, table: Seq<Milestone>)
    requires
        forall|i: int| 0 <= i < table.len() ==> table[i].threshold >= 0 && table[i].reward >= 0,
    ensures
        walk_points(score, table) >= 0,
    decreases table.len(),
{
    if table.len() > 0 {
        lemma_walk_points_nonneg(score, table.skip(1));
    }
}

proof fn lemma_walk_points_monotone(s1: int, s2: int, table: Seq<Milestone>)
    requires
        s1 <= s2,
        forall|i: int| 0 <= i < table.len() ==> table[i].threshold >= 0 && table[i].reward >= 0,
    ensures
        walk_points(s1, table) <= walk_points(s2, table),
    decreases table.len(),
{
    if table.len() > 0 {
        let m = table[0];
        if s1 < m.threshold {
            lemma_walk_points_nonneg(s2, table);
        } else {
            lemma_walk_points_monotone(s1, s2, table.skip(1));
        }
    }
}

/// Over a table whose thresholds and rewards are all non-negative, the
/// computed points never decrease as the raw score grows.
pub proof fn lemma_calc_points_monotone(s1: int, s2: int, table: Seq<Milestone>)
    requires
        0 <= s1 <= s2,
        forall|i: int| 0 <= i < table.len() ==> table[i].threshold >= 0 && table[i].reward >= 0,
    ensures
        calc_points_spec(s1, table) <= calc_points_spec(s2, table),
{
    if s1 == 0 {
        if s2 != 0 {
            lemma_walk_points_nonneg(s2, table);
        }
    } else {
        lemma_walk_points_monotone(s1, s2, table);
    }
}

/// A well-formed milestone table: a negative threshold may appear only
/// as the last pair, and such a terminal sentinel has a non-zero reward.
pub open spec fn table_wf(table: Seq<Milestone>) -> bool {
    forall|i: int|
        0 <= i < table.len() ==> (#[trigger] table[i].threshold < 0 ==> i == table.len() - 1
            && table[i].reward != 0)
}

/// Checks that a milestone table is well-formed.
pub fn check_table(milestones: &Vec<Milestone>) -> (r: bool)
    ensures
        r == table_wf(milestones@),
{
    let n = milestones.len();
    let mut i: usize = 0;
    while i < n
        invariant
            0 <= i <= n,
            n == milestones@.len(),
            forall|k: int|
                0 <= k < i ==> (#[trigger] milestones@[k].threshold < 0 ==> k == n - 1
                    && milestones@[k].reward != 0),
        decreases n - i,
    {
        let m = milestones[i];
        if m.threshold < 0 {
            if i + 1 != n || m.reward == 0 {
                return false;
            }
        }
        i = i + 1;
    }
    true
}

/// A well-formed table never ends the walk in a zero-reward sentinel.
pub proof fn lemma_wf_no_zero_sentinel(score: int, table: Seq<Milestone>, acc: int)
    requires
        table_wf(table),
    ensures
        !(walk_out(score, table, acc) is ZeroSentinel),
    decreases table.len(),
{
    if table.len() > 0 {
        let m = table[0];
        if m.threshold >= 0 && score >= m.threshold && fits_i64(acc + m.reward) {
            assert(table_wf(table.skip(1))) by {
                assert(forall|i: int|
                    0 <= i < table.len() - 1 ==> table.skip(1)[i] == table[i + 1]);
            }
            lemma_wf_no_zero_sentinel(score, table.skip(1), acc + m.reward);
        }
    }
}

} // verus!
