//! The milestone tracker: which percentage threshold fires, and the
//! guarantee that each fires at most once.
//!
//! The watermark moves to the fired threshold itself, never to the raw
//! percentage, so firings stay monotonic even when the percentage
//! regresses.  When a reading jumps past several unfired thresholds in
//! one poll, only the nearest fires; the following poll catches the
//! next one.

use vstd::prelude::*;

verus! {

/// The default thresholds: every ten percent, in hundredths.
pub open spec fn spec_default_thresholds() -> Seq<u32> {
    seq![1000u32, 2000u32, 3000u32, 4000u32, 5000u32, 6000u32, 7000u32, 8000u32, 9000u32, 10000u32]
}

/// The default milestone thresholds, ascending.
pub fn milestone_thresholds() -> (r: Vec<u32>)
    ensures
        r@ == spec_default_thresholds(),
{
    let mut v: Vec<u32> = Vec::new();
    v.push(1000);
    v.push(2000);
    v.push(3000);
    v.push(4000);
    v.push(5000);
    v.push(6000);
    v.push(7000);
    v.push(8000);
    v.push(9000);
    v.push(10000);
    proof {
        assert(v@ =~= spec_default_thresholds());
    }
    v
}

/// The default thresholds are strictly ascending, so the tracker
/// fires the smallest qualifying one of them (see
/// `lemma_next_milestone_smallest`).
pub proof fn lemma_default_thresholds_ascending()
    ensures
        forall|a: int, b: int|
            0 <= a < b < spec_default_thresholds().len() ==> spec_default_thresholds()[a]
                < spec_default_thresholds()[b],
{
    assert forall|a: int, b: int|
        0 <= a < b < spec_default_thresholds().len() implies spec_default_thresholds()[a]
        < spec_default_thresholds()[b] by {
        assert(spec_default_thresholds()[a] == (1000 + 1000 * a) as u32);
        assert(spec_default_thresholds()[b] == (1000 + 1000 * b) as u32);
    }
}

/// Whether threshold `t` fires: still above the watermark, and the
/// percentage has reached it.
pub open spec fn fires(t: u32, last: u32, pct: u32) -> bool {
    t > last && pct >= t
}

/// The first threshold, in list order, that fires.  With ascending
/// thresholds this is the smallest unfired one at or below `pct`.
pub open spec fn spec_next_milestone(ths: Seq<u32>, last: u32, pct: u32) -> Option<u32>
    decreases ths.len(),
{
    if ths.len() == 0 {
        Option::None
    } else if fires(ths[0], last, pct) {
        Option::Some(ths[0])
    } else {
        spec_next_milestone(ths.drop_first(), last, pct)
    }
}

proof fn lemma_next_skip(ths: Seq<u32>, last: u32, pct: u32, i: int)
    requires
        0 <= i <= ths.len(),
        forall|j: int| 0 <= j < i ==> !fires(ths[j], last, pct),
    ensures
        spec_next_milestone(ths, last, pct) == spec_next_milestone(ths.skip(i), last, pct),
    decreases i,
{
    if i > 0 {
        lemma_next_skip(ths, last, pct, i - 1);
        assert(ths.skip(i - 1).drop_first() =~= ths.skip(i));
        assert(ths.skip(i - 1)[0] == ths[i - 1]);
    } else {
        assert(ths.skip(0) =~= ths);
    }
}

/// Decides whether a milestone fires for the percentage `pct` given
/// the watermark `last`.
pub fn next_milestone(ths: &Vec<u32>, last: u32, pct: u32) -> (r: Option<u32>)
    ensures
        r == spec_next_milestone(ths@, last, pct),
{
    let n = ths.len();
    let mut i: usize = 0;
    while i < n
        invariant
            i <= n == ths@.len(),
            forall|j: int| 0 <= j < i ==> !fires(ths@[j], last, pct),
        decreases n - i,
    {
        let t = ths[i];
        if t > last && pct >= t {
            proof {
                lemma_next_skip(ths@, last, pct, i as int);
                assert(ths@.skip(i as int)[0] == ths@[i as int]);
            }
            return Option::Some(t);
        }
        i = i + 1;
    }
    proof {
        lemma_next_skip(ths@, last, pct, n as int);
        assert(ths@.skip(n as int) =~= Seq::<u32>::empty());
    }
    Option::None
}

/// A firing decision is sound: the fired threshold is a configured
/// one, lies above the watermark, and has been reached by `pct`; and
/// nothing fires only when no threshold qualifies.
pub proof fn lemma_next_milestone_fires(ths: Seq<u32>, last: u32, pct: u32)
    ensures
        spec_next_milestone(ths, last, pct) is Some ==> {
            let t = spec_next_milestone(ths, last, pct)->0;
            ths.contains(t) && t > last && pct >= t
        },
        spec_next_milestone(ths, last, pct) is None ==> forall|j: int|
            0 <= j < ths.len() ==> !fires(ths[j], last, pct),
    decreases ths.len(),
{
    if ths.len() > 0 && !fires(ths[0], last, pct) {
        lemma_next_milestone_fires(ths.drop_first(), last, pct);
        if spec_next_milestone(ths, last, pct) is Some {
            let t = spec_next_milestone(ths.drop_first(), last, pct)->0;
            assert(ths.drop_first().contains(t));
            let w = choose|w: int| 0 <= w < ths.drop_first().len() && ths.drop_first()[w] == t;
            assert(ths[w + 1] == t);
        } else {
            assert forall|j: int| 0 <= j < ths.len() implies !fires(ths[j], last, pct) by {
                if j > 0 {
                    assert(ths.drop_first()[j - 1] == ths[j]);
                }
            }
        }
    }
}

/// With ascending thresholds, the fired threshold is the smallest
/// qualifying one.
pub proof fn lemma_next_milestone_smallest(ths: Seq<u32>, last: u32, pct: u32)
    requires
        forall|a: int, b: int| 0 <= a < b < ths.len() ==> ths[a] < ths[b],
    ensures
        spec_next_milestone(ths, last, pct) is Some ==> forall|j: int|
            0 <= j < ths.len() && fires(ths[j], last, pct)
                ==> spec_next_milestone(ths, last, pct)->0 <= ths[j],
    decreases ths.len(),
{
    if ths.len() > 0 && !fires(ths[0], last, pct) {
        assert forall|a: int, b: int| 0 <= a < b < ths.drop_first().len()
            implies ths.drop_first()[a] < ths.drop_first()[b] by {
            assert(ths.drop_first()[a] == ths[a + 1]);
            assert(ths.drop_first()[b] == ths[b + 1]);
        }
        lemma_next_milestone_smallest(ths.drop_first(), last, pct);
        if spec_next_milestone(ths, last, pct) is Some {
            assert forall|j: int| 0 <= j < ths.len() && fires(ths[j], last, pct)
                implies spec_next_milestone(ths, last, pct)->0 <= ths[j] by {
                assert(j > 0);
                assert(ths.drop_first()[j - 1] == ths[j]);
            }
        }
    }
}

/// The firing trace of a run: the tracker's answer for each percentage
/// in turn, the watermark advancing to each fired threshold.
pub open spec fn spec_track(ths: Seq<u32>, last: u32, ps: Seq<u32>) -> Seq<Option<u32>>
    decreases ps.len(),
{
    if ps.len() == 0 {
        seq![]
    } else {
        let r = spec_next_milestone(ths, last, ps[0]);
        let next_last = match r {
            Option::Some(t) => t,
            Option::None => last,
        };
        seq![r] + spec_track(ths, next_last, ps.drop_first())
    }
}


/// A trace is as long as the run it answers.
pub proof fn lemma_track_len(ths: Seq<u32>, last: u32, ps: Seq<u32>)
    ensures
        spec_track(ths, last, ps).len() == ps.len(),
    decreases ps.len(),
{
    if ps.len() > 0 {
        let r = spec_next_milestone(ths, last, ps[0]);
        let next_last = match r {
            Option::Some(t) => t,
            Option::None => last,
        };
        lemma_track_len(ths, next_last, ps.drop_first());
    }
}

proof fn lemma_track_unfold(ths: Seq<u32>, last: u32, ps: Seq<u32>)
    requires
        ps.len() > 0,
    ensures
        ({
            let r = spec_next_milestone(ths, last, ps[0]);
            let next_last = match r {
                Option::Some(t) => t,
                Option::None => last,
            };
            spec_track(ths, last, ps) == seq![r] + spec_track(ths, next_last, ps.drop_first())
        }),
{
}

/// Every firing in a run lies above the initial watermark, is a
/// configured threshold, and fires only once the percentage fed at
/// that step has reached it.
pub proof fn lemma_track_fires_sound(ths: Seq<u32>, last: u32, ps: Seq<u32>, b: int)
    requires
        0 <= b < ps.len(),
        spec_track(ths, last, ps)[b] is Some,
    ensures
        spec_track(ths, last, ps)[b]->0 > last,
        ps[b] >= spec_track(ths, last, ps)[b]->0,
        ths.contains(spec_track(ths, last, ps)[b]->0),
    decreases b,
{
    let r = spec_next_milestone(ths, last, ps[0]);
    let next_last = match r {
        Option::Some(t) => t,
        Option::None => last,
    };
    lemma_next_milestone_fires(ths, last, ps[0]);
    lemma_track_unfold(ths, last, ps);
    lemma_track_len(ths, next_last, ps.drop_first());
    if b == 0 {
    } else {
        assert((seq![r] + spec_track(ths, next_last, ps.drop_first()))[b]
            == spec_track(ths, next_last, ps.drop_first())[b - 1]);
        lemma_track_fires_sound(ths, next_last, ps.drop_first(), b - 1);
        assert(ps.drop_first()[b - 1] == ps[b]);
    }
}

/// Each configured threshold fires at most once over any run of
/// percentages: two firings in one trace name strictly increasing
/// thresholds.
pub proof fn lemma_track_fires_at_most_once(ths: Seq<u32>, last: u32, ps: Seq<u32>, a: int, b: int)
    requires
        0 <= a < b < ps.len(),
        spec_track(ths, last, ps)[a] is Some,
        spec_track(ths, last, ps)[b] is Some,
    ensures
        spec_track(ths, last, ps)[b]->0 > spec_track(ths, last, ps)[a]->0,
    decreases a,
{
    let r = spec_next_milestone(ths, last, ps[0]);
    let next_last = match r {
        Option::Some(t) => t,
        Option::None => last,
    };
    lemma_track_unfold(ths, last, ps);
    lemma_track_len(ths, next_last, ps.drop_first());
    let tail = spec_track(ths, next_last, ps.drop_first());
    if a == 0 {
        assert((seq![r] + tail)[b] == tail[b - 1]);
        lemma_track_fires_sound(ths, next_last, ps.drop_first(), b - 1);
        assert(spec_track(ths, last, ps)[a]->0 == next_last);
    } else {
        assert((seq![r] + tail)[a] == tail[a - 1]);
        assert((seq![r] + tail)[b] == tail[b - 1]);
        lemma_track_fires_at_most_once(ths, next_last, ps.drop_first(), a - 1, b - 1);
    }
}

} // verus!
