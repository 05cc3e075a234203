//! Progress and session statistics.
//!
//! Pure functions over the session state, recomputed on every read. A
//! card counts as done once it leaves the queue, whether retired or still
//! logged for undo; the percentage is exact integer (floor) arithmetic,
//! with an empty deck counting as fully done. The pace is reported as
//! whole seconds per card plus a hundredths part, rounded half-up to the
//! nearest hundredth as a two-decimal display would round it.

use vstd::prelude::*;

use crate::session::lemma_retired_count_nonneg;
use crate::session::session_wf;
use crate::session::ReviewSession;

verus! {

/// How many cards have left the queue.
pub fn cards_done(s: &ReviewSession) -> (r: usize)
    requires
        session_wf(s@),
    ensures
        r as int == s@.total - s@.cards.len(),
{
    proof {
        lemma_retired_count_nonneg(s@.reviews);
    }
    let total = s.total_cards();
    let len = s.cards_len();
    total - len
}

/// The percentage of the session that is done: `100` for an empty deck,
/// else `done * 100 / total`, floored. Never above `100`.
pub fn percent_done(s: &ReviewSession) -> (p: usize)
    requires
        session_wf(s@),
    ensures
        s@.total == 0 ==> p == 100,
        s@.total > 0 ==> p as int == (s@.total - s@.cards.len()) * 100 / s@.total,
        p <= 100,
{
    let total = s.total_cards();
    let done = cards_done(s);
    if total == 0 {
        100
    } else {
        let p128: u128 = (done as u128) * 100 / (total as u128);
        proof {
            assert(done as int * 100 / (total as int) <= 100) by (nonlinear_arith)
                requires
                    0 <= done as int <= total as int,
                    total as int > 0,
            ;
            assert(p128 == done as int * 100 / (total as int));
        }
        p128 as usize
    }
}

/// One hundred times the seconds-per-card pace, rounded half-up to the
/// nearest hundredth: adding half of the divisor before the floor
/// division rounds `100 * duration / reviewed` to the nearest integer.
pub open spec fn pace_centis_total(duration: int, reviewed: int) -> int
    recommends
        reviewed > 0,
{
    (200 * duration + reviewed) / (2 * reviewed)
}

/// What the completion page reports.
#[derive(Clone, Copy, Debug, PartialEq, Eq, Structural)]
pub struct SessionStats {
    pub total_cards: usize,
    pub cards_reviewed: usize,
    pub started_at: u64,
    pub finished_at: u64,
    pub duration_seconds: u64,
    /// Seconds per reviewed card, whole part; `0` when nothing was
    /// reviewed.
    pub pace_whole: u64,
    /// Seconds per reviewed card, hundredths part, rounded half-up (the
    /// whole part carries when the hundredths round to one hundred).
    pub pace_centis: u64,
}

/// The statistics of a finished session; `None` while reviewing.
pub fn completion_stats(s: &ReviewSession) -> (r: Option<SessionStats>)
    requires
        session_wf(s@),
    ensures
        match r {
            Some(st) => {
                &&& s@.finished_at == Some(st.finished_at)
                &&& st.started_at == s@.started_at
                &&& st.total_cards as int == s@.total
                &&& st.cards_reviewed as int == s@.total - s@.cards.len()
                &&& st.duration_seconds == st.finished_at - st.started_at
                &&& if st.cards_reviewed == 0 {
                    st.pace_whole == 0 && st.pace_centis == 0
                } else {
                    st.pace_whole * 100 + st.pace_centis == pace_centis_total(
                        st.duration_seconds as int,
                        st.cards_reviewed as int,
                    ) && st.pace_centis < 100
                }
            },
            None => s@.finished_at is None,
        },
{
    match s.finished_at() {
        None => None,
        Some(fin) => {
            let started = s.started_at();
            let duration = fin - started;
            let total = s.total_cards();
            let reviewed = cards_done(s);
            let mut pace_whole: u64 = 0;
            let mut pace_centis: u64 = 0;
            if reviewed > 0 {
                let rev64: u64 = reviewed as u64;
                let q: u64 = duration / rev64;
                let rem: u64 = duration % rev64;
                let c128: u128 = (200u128 * (rem as u128) + (rev64 as u128)) / (2u128 * (rev64
                    as u128));
                proof {
                    let d = duration as int;
                    let r = rev64 as int;
                    let qi = d / r;
                    let remi = d % r;
                    vstd::arithmetic::div_mod::lemma_fundamental_div_mod(d, r);
                    assert(c128 == (200 * remi + r) / (2 * r));
                    assert(200 * remi + r < (2 * r) * 101) by (nonlinear_arith)
                        requires
                            0 <= remi,
                            remi < r,
                            r >= 1,
                    ;
                    vstd::arithmetic::div_mod::lemma_multiply_divide_lt(200 * remi + r, 2 * r, 101);
                    assert(c128 <= 100);
                    assert(200 * d + r == (200 * remi + r) + (100 * qi) * (2 * r))
                        by (nonlinear_arith)
                        requires
                            d == r * qi + remi,
                    ;
                    vstd::arithmetic::div_mod::lemma_hoist_over_denominator(
                        200 * remi + r,
                        100 * qi,
                        (2 * r) as nat,
                    );
                    assert((200 * remi + r) / (2 * r) + 100 * qi == pace_centis_total(d, r));
                }
                if c128 == 100 {
                    proof {
                        let d = duration as int;
                        let r = rev64 as int;
                        let remi = d % r;
                        vstd::arithmetic::div_mod::lemma_fundamental_div_mod(200 * remi + r, 2 * r);
                        assert((200 * remi + r) % (2 * r) >= 0);
                        assert(200 * remi >= 199 * r);
                        assert(r >= 200);
                        vstd::arithmetic::div_mod::lemma_div_is_ordered_by_denominator(d, 200, r);
                        vstd::arithmetic::div_mod::lemma_div_is_ordered(d, u64::MAX as int, 200);
                        assert(q < u64::MAX);
                    }
                    pace_whole = q + 1;
                    pace_centis = 0;
                } else {
                    pace_whole = q;
                    pace_centis = c128 as u64;
                }
            }
            Some(
                SessionStats {
                    total_cards: total,
                    cards_reviewed: reviewed,
                    started_at: started,
                    finished_at: fin,
                    duration_seconds: duration,
                    pace_whole,
                    pace_centis,
                },
            )
        },
    }
}

} // verus!
