//! Greedy per-class overlap suppression.
//!
//! Among the candidates that remain, the one with the highest confidence is
//! emitted (the earliest of them when several tie), and every other candidate
//! of its class whose overlap with it is above the threshold is discarded.
//! This repeats until no candidate remains.

use vstd::prelude::*;
use crate::detection::Detection;
use crate::geometry::{iou_exceeds, lemma_iou_symmetric, overlap_exceeds};

verus! {

/// `kept` discards `other`: same class, and overlap above `threshold`
/// millionths.
pub open spec fn suppresses(kept: Detection, other: Detection, threshold: int) -> bool {
    kept.class_id == other.class_id && iou_exceeds(kept.bbox, other.bbox, threshold)
}

/// The candidates that `kept` does not discard.
pub open spec fn outlasts(kept: Detection, threshold: int) -> spec_fn(Detection) -> bool {
    |d: Detection| !suppresses(kept, d, threshold)
}

/// `k` is the first position in `s` that holds the highest confidence.
pub open spec fn is_leader(s: Seq<Detection>, k: int) -> bool {
    &&& 0 <= k < s.len()
    &&& forall|i: int| 0 <= i < s.len() ==> (#[trigger] s[i]).confidence <= s[k].confidence
    &&& forall|i: int| 0 <= i < k ==> (#[trigger] s[i]).confidence < s[k].confidence
}

/// The first position of the highest confidence in a non-empty sequence.
pub open spec fn leader(s: Seq<Detection>) -> int {
    choose|k: int| is_leader(s, k)
}

/// What is left once the candidate at `k` has been emitted: the others, in
/// their order, without those that it discards.
pub open spec fn survivors(s: Seq<Detection>, k: int, threshold: int) -> Seq<Detection> {
    s.remove(k).filter(outlasts(s[k], threshold))
}

/// The detections that greedy suppression emits from `s`, in the order in
/// which it emits them.
pub open spec fn greedy_suppression(s: Seq<Detection>, threshold: int) -> Seq<Detection>
    decreases s.len(),
    via greedy_suppression_terminates
{
    if s.len() == 0 {
        Seq::empty()
    } else {
        let k = leader(s);
        seq![s[k]] + greedy_suppression(survivors(s, k, threshold), threshold)
    }
}

#[via_fn]
proof fn greedy_suppression_terminates(s: Seq<Detection>, threshold: int) {
    if s.len() > 0 {
        lemma_leader_exists(s);
        lemma_survivors_shrink(s, leader(s), threshold);
    }
}

/// No two members of `s` at different positions discard one another.
pub open spec fn free_of_overlap(s: Seq<Detection>, threshold: int) -> bool {
    forall|i: int, j: int|
        0 <= i < s.len() && 0 <= j < s.len() && i != j ==> !suppresses(
            #[trigger] s[i],
            #[trigger] s[j],
            threshold,
        )
}

/// Confidence never rises along `s`.
pub open spec fn descending(s: Seq<Detection>) -> bool {
    forall|i: int, j: int|
        0 <= i <= j < s.len() ==> (#[trigger] s[i]).confidence >= (#[trigger] s[j]).confidence
}

proof fn lemma_some_leader(s: Seq<Detection>) -> (k: int)
    requires
        s.len() > 0,
    ensures
        is_leader(s, k),
    decreases s.len(),
{
    if s.len() == 1 {
        0
    } else {
        let front = s.drop_last();
        let k0 = lemma_some_leader(front);
        assert(forall|i: int| 0 <= i < front.len() ==> front[i] == s[i]);
        assert(front[k0] == s[k0]);
        if s.last().confidence > s[k0].confidence {
            let k = s.len() - 1;
            assert forall|i: int| 0 <= i < s.len() implies (#[trigger] s[i]).confidence
                <= s[k].confidence by {
                if i < front.len() {
                    assert(front[i].confidence <= front[k0].confidence);
                }
            }
            assert forall|i: int| 0 <= i < k implies (#[trigger] s[i]).confidence
                < s[k].confidence by {
                assert(front[i].confidence <= front[k0].confidence);
            }
            k
        } else {
            assert forall|i: int| 0 <= i < s.len() implies (#[trigger] s[i]).confidence
                <= s[k0].confidence by {
                if i < front.len() {
                    assert(front[i].confidence <= front[k0].confidence);
                }
            }
            assert forall|i: int| 0 <= i < k0 implies (#[trigger] s[i]).confidence
                < s[k0].confidence by {
                assert(front[i].confidence < front[k0].confidence);
            }
            k0
        }
    }
}

/// A non-empty sequence has a leader.
pub proof fn lemma_leader_exists(s: Seq<Detection>)
    requires
        s.len() > 0,
    ensures
        is_leader(s, leader(s)),
{
    let k = lemma_some_leader(s);
}

/// A sequence has one leader only.
pub proof fn lemma_leader_unique(s: Seq<Detection>, a: int, b: int)
    requires
        is_leader(s, a),
        is_leader(s, b),
    ensures
        a == b,
{
    if a < b {
        assert(s[a].confidence < s[b].confidence);
        assert(s[b].confidence <= s[a].confidence);
    } else if b < a {
        assert(s[b].confidence < s[a].confidence);
        assert(s[a].confidence <= s[b].confidence);
    }
}

/// Emitting one candidate leaves fewer candidates.
pub proof fn lemma_survivors_shrink(s: Seq<Detection>, k: int, threshold: int)
    requires
        0 <= k < s.len(),
    ensures
        survivors(s, k, threshold).len() < s.len(),
{
    s.remove_ensures(k);
    s.remove(k).lemma_filter_len(outlasts(s[k], threshold));
}

/// Every survivor is one of the candidates, and the emitted candidate does
/// not discard it.
pub proof fn lemma_survivor_properties(s: Seq<Detection>, k: int, threshold: int, d: Detection)
    requires
        0 <= k < s.len(),
        survivors(s, k, threshold).contains(d),
    ensures
        s.contains(d),
        !suppresses(s[k], d, threshold),
{
    let rest = s.remove(k);
    let pred = outlasts(s[k], threshold);
    let out = rest.filter(pred);
    let i = choose|i: int| 0 <= i < out.len() && out[i] == d;
    rest.lemma_filter_pred(pred, i);
    rest.lemma_filter_contains_rev(pred, d);
    let j = choose|j: int| 0 <= j < rest.len() && rest[j] == d;
    s.remove_ensures(k);
    if j < k {
        assert(s[j] == d);
    } else {
        assert(s[j + 1] == d);
    }
}

/// Suppression emits only detections that it was given.
pub proof fn lemma_emitted_are_candidates(s: Seq<Detection>, threshold: int)
    ensures
        forall|i: int|
            0 <= i < greedy_suppression(s, threshold).len() ==> s.contains(
                #[trigger] greedy_suppression(s, threshold)[i],
            ),
        greedy_suppression(s, threshold).len() <= s.len(),
    decreases s.len(),
{
    let out = greedy_suppression(s, threshold);
    if s.len() > 0 {
        lemma_leader_exists(s);
        let k = leader(s);
        let left = survivors(s, k, threshold);
        lemma_survivors_shrink(s, k, threshold);
        lemma_emitted_are_candidates(left, threshold);
        let tail = greedy_suppression(left, threshold);
        assert(out == seq![s[k]] + tail);
        assert forall|i: int| 0 <= i < out.len() implies s.contains(#[trigger] out[i]) by {
            if i == 0 {
                assert(out[0] == s[k]);
            } else {
                assert(out[i] == tail[i - 1]);
                assert(left.contains(tail[i - 1]));
                lemma_survivor_properties(s, k, threshold, tail[i - 1]);
            }
        }
    }
}

/// The emitted detections come in order of falling confidence.
pub proof fn lemma_emitted_descending(s: Seq<Detection>, threshold: int)
    ensures
        descending(greedy_suppression(s, threshold)),
    decreases s.len(),
{
    let out = greedy_suppression(s, threshold);
    if s.len() > 0 {
        lemma_leader_exists(s);
        let k = leader(s);
        let left = survivors(s, k, threshold);
        lemma_survivors_shrink(s, k, threshold);
        lemma_emitted_descending(left, threshold);
        lemma_emitted_are_candidates(left, threshold);
        let tail = greedy_suppression(left, threshold);
        assert(out == seq![s[k]] + tail);
        assert forall|i: int, j: int| 0 <= i <= j < out.len() implies (#[trigger] out[i]).confidence
            >= (#[trigger] out[j]).confidence by {
            if i == 0 {
                if j > 0 {
                    assert(out[j] == tail[j - 1]);
                    assert(left.contains(tail[j - 1]));
                    lemma_survivor_properties(s, k, threshold, tail[j - 1]);
                    let m = choose|m: int| 0 <= m < s.len() && s[m] == tail[j - 1];
                    assert(s[m].confidence <= s[k].confidence);
                }
            } else {
                assert(out[i] == tail[i - 1]);
                assert(out[j] == tail[j - 1]);
            }
        }
    }
}

/// Among the detections that suppression emits, no two of one class overlap
/// by more than the threshold.
pub proof fn lemma_emitted_free_of_overlap(s: Seq<Detection>, threshold: int)
    ensures
        free_of_overlap(greedy_suppression(s, threshold), threshold),
    decreases s.len(),
{
    let out = greedy_suppression(s, threshold);
    if s.len() > 0 {
        lemma_leader_exists(s);
        let k = leader(s);
        let left = survivors(s, k, threshold);
        lemma_survivors_shrink(s, k, threshold);
        lemma_emitted_free_of_overlap(left, threshold);
        lemma_emitted_are_candidates(left, threshold);
        let tail = greedy_suppression(left, threshold);
        assert(out == seq![s[k]] + tail);
        assert forall|i: int, j: int|
            0 <= i < out.len() && 0 <= j < out.len() && i != j implies !suppresses(
            #[trigger] out[i],
            #[trigger] out[j],
            threshold,
        ) by {
            lemma_iou_symmetric(out[i].bbox, out[j].bbox, threshold);
            if i == 0 {
                assert(out[j] == tail[j - 1]);
                assert(left.contains(tail[j - 1]));
                lemma_survivor_properties(s, k, threshold, tail[j - 1]);
            } else if j == 0 {
                assert(out[i] == tail[i - 1]);
                assert(left.contains(tail[i - 1]));
                lemma_survivor_properties(s, k, threshold, tail[i - 1]);
            } else {
                assert(out[i] == tail[i - 1]);
                assert(out[j] == tail[j - 1]);
            }
        }
    }
}

/// `d` is discarded for an emitted detection: one of `out` is of its class,
/// at least as confident, and overlaps it by more than the threshold.
pub open spec fn overlapped_by_some(out: Seq<Detection>, d: Detection, threshold: int) -> bool {
    exists|k: int|
        0 <= k < out.len() && suppresses(#[trigger] out[k], d, threshold) && out[k].confidence
            >= d.confidence
}

/// Nothing is dropped without cause: every candidate is emitted, or an
/// emitted detection of its class that is at least as confident overlaps it
/// by more than the threshold.
pub proof fn lemma_dropped_are_overlapped(s: Seq<Detection>, threshold: int, i: int)
    requires
        0 <= i < s.len(),
    ensures
        greedy_suppression(s, threshold).contains(s[i]) || overlapped_by_some(
            greedy_suppression(s, threshold),
            s[i],
            threshold,
        ),
    decreases s.len(),
{
    let out = greedy_suppression(s, threshold);
    lemma_leader_exists(s);
    let k = leader(s);
    let left = survivors(s, k, threshold);
    lemma_survivors_shrink(s, k, threshold);
    let tail = greedy_suppression(left, threshold);
    assert(out == seq![s[k]] + tail);
    assert(out[0] == s[k]);
    if i == k {
        assert(out.contains(s[i]));
    } else if suppresses(s[k], s[i], threshold) {
        assert(s[i].confidence <= s[k].confidence);
        assert(suppresses(out[0], s[i], threshold) && out[0].confidence >= s[i].confidence);
    } else {
        let rest = s.remove(k);
        s.remove_ensures(k);
        let j = if i < k {
            i
        } else {
            i - 1
        };
        assert(rest[j] == s[i]);
        rest.lemma_filter_contains(outlasts(s[k], threshold), j);
        let m = choose|m: int| 0 <= m < left.len() && left[m] == s[i];
        lemma_dropped_are_overlapped(left, threshold, m);
        if tail.contains(left[m]) {
            let q = choose|q: int| 0 <= q < tail.len() && tail[q] == left[m];
            assert(out[q + 1] == tail[q]);
            assert(out.contains(s[i]));
        } else {
            let q = choose|q: int|
                0 <= q < tail.len() && suppresses(#[trigger] tail[q], left[m], threshold)
                    && tail[q].confidence >= left[m].confidence;
            assert(out[q + 1] == tail[q]);
            assert(suppresses(out[q + 1], s[i], threshold) && out[q + 1].confidence
                >= s[i].confidence);
        }
    }
}

/// In a sequence free of overlap, two members at different positions do not
/// discard one another.
proof fn lemma_apart(s: Seq<Detection>, threshold: int, i: int, j: int)
    requires
        free_of_overlap(s, threshold),
        0 <= i < s.len(),
        0 <= j < s.len(),
        i != j,
    ensures
        !suppresses(s[i], s[j], threshold),
{
}

/// A filter keeps a sequence whole when every member passes it.
proof fn lemma_filter_keeps_all(s: Seq<Detection>, pred: spec_fn(Detection) -> bool)
    requires
        forall|i: int| 0 <= i < s.len() ==> pred(#[trigger] s[i]),
    ensures
        s.filter(pred) == s,
    decreases s.len(),
{
    reveal(Seq::filter);
    if s.len() > 0 {
        let front = s.drop_last();
        assert(forall|i: int| 0 <= i < front.len() ==> front[i] == s[i]);
        lemma_filter_keeps_all(front, pred);
        assert(front.push(s.last()) =~= s);
    }
}

/// The tail of a settled sequence is settled, and its head discards none of
/// the tail.
proof fn lemma_tail_of_settled(s: Seq<Detection>, threshold: int)
    requires
        s.len() > 0,
        descending(s),
        free_of_overlap(s, threshold),
    ensures
        descending(s.drop_first()),
        free_of_overlap(s.drop_first(), threshold),
        forall|i: int|
            0 <= i < s.drop_first().len() ==> outlasts(s[0], threshold)(
                #[trigger] s.drop_first()[i],
            ),
{
    let rest = s.drop_first();
    assert(rest.len() == s.len() - 1);
    assert forall|i: int, j: int| 0 <= i <= j < rest.len() implies (#[trigger] rest[i]).confidence
        >= (#[trigger] rest[j]).confidence by {
        assert(rest[i] == s[i + 1]);
        assert(rest[j] == s[j + 1]);
    }
    assert forall|i: int, j: int|
        0 <= i < rest.len() && 0 <= j < rest.len() && i != j implies !suppresses(
        #[trigger] rest[i],
        #[trigger] rest[j],
        threshold,
    ) by {
        assert(rest[i] == s[i + 1]);
        assert(rest[j] == s[j + 1]);
        lemma_apart(s, threshold, i + 1, j + 1);
    }
    assert forall|i: int| 0 <= i < rest.len() implies outlasts(s[0], threshold)(
        #[trigger] rest[i],
    ) by {
        assert(rest[i] == s[i + 1]);
        lemma_apart(s, threshold, 0, i + 1);
    }
}

/// Suppression changes nothing in a sequence that is already in order of
/// falling confidence and free of overlap.
pub proof fn lemma_settled_is_fixed(s: Seq<Detection>, threshold: int)
    requires
        descending(s),
        free_of_overlap(s, threshold),
    ensures
        greedy_suppression(s, threshold) == s,
    decreases s.len(),
{
    if s.len() > 0 {
        assert(is_leader(s, 0));
        lemma_leader_exists(s);
        lemma_leader_unique(s, 0, leader(s));
        let rest = s.drop_first();
        assert(s.remove(0) =~= rest);
        lemma_tail_of_settled(s, threshold);
        lemma_filter_keeps_all(rest, outlasts(s[0], threshold));
        assert(survivors(s, 0, threshold) == rest);
        lemma_settled_is_fixed(rest, threshold);
        assert(seq![s[0]] + rest =~= s);
    }
}

/// Suppressing a second time with the same threshold changes nothing.
pub proof fn lemma_suppression_idempotent(s: Seq<Detection>, threshold: int)
    ensures
        greedy_suppression(greedy_suppression(s, threshold), threshold) == greedy_suppression(
            s,
            threshold,
        ),
{
    lemma_emitted_descending(s, threshold);
    lemma_emitted_free_of_overlap(s, threshold);
    lemma_settled_is_fixed(greedy_suppression(s, threshold), threshold);
}

/// Position of the first detection with the highest confidence; `None` for
/// an empty list.
pub fn leader_index(detections: &Vec<Detection>) -> (found: Option<usize>)
    ensures
        detections.len() == 0 ==> found is None,
        detections.len() > 0 ==> found == Some(leader(detections@) as usize) && is_leader(
            detections@,
            leader(detections@),
        ),
{
    if detections.len() == 0 {
        return None;
    }
    let mut best: usize = 0;
    let mut i: usize = 1;
    while i < detections.len()
        invariant
            0 <= best < i <= detections.len(),
            is_leader(detections@.take(i as int), best as int),
        decreases detections.len() - i,
    {
        let ghost before = detections@.take(i as int);
        let ghost after = detections@.take(i + 1);
        let ghost old_best = best;
        assert(forall|j: int| 0 <= j < i ==> before[j] == after[j]);
        if detections[i].confidence > detections[best].confidence {
            best = i;
        }
        proof {
            assert forall|j: int| 0 <= j < after.len() implies (#[trigger] after[j]).confidence
                <= after[best as int].confidence by {
                if j < i {
                    assert(before[j].confidence <= before[old_best as int].confidence);
                }
            }
            assert forall|j: int| 0 <= j < best implies (#[trigger] after[j]).confidence
                < after[best as int].confidence by {
                assert(before[j].confidence <= before[old_best as int].confidence);
                if best == old_best {
                    assert(before[j].confidence < before[old_best as int].confidence);
                }
            }
        }
        i += 1;
    }
    proof {
        assert(detections@.take(detections.len() as int) =~= detections@);
        lemma_leader_exists(detections@);
        lemma_leader_unique(detections@, best as int, leader(detections@));
    }
    Some(best)
}

/// The candidates that `kept` does not discard, in their order.
pub fn retain_outlasting(candidates: &Vec<Detection>, kept: &Detection, iou_threshold: i32) -> (out:
    Vec<Detection>)
    ensures
        out@ == candidates@.filter(outlasts(*kept, iou_threshold as int)),
{
    let ghost pred = outlasts(*kept, iou_threshold as int);
    let mut out: Vec<Detection> = Vec::new();
    let mut j: usize = 0;
    proof {
        reveal(Seq::filter);
        assert(candidates@.take(0).len() == 0);
    }
    while j < candidates.len()
        invariant
            j <= candidates.len(),
            pred == outlasts(*kept, iou_threshold as int),
            out@ == candidates@.take(j as int).filter(pred),
        decreases candidates.len() - j,
    {
        let d = candidates[j];
        let discard = d.class_id == kept.class_id && overlap_exceeds(
            &kept.bbox,
            &d.bbox,
            iou_threshold,
        );
        proof {
            reveal(Seq::filter);
            let next = candidates@.take(j + 1);
            assert(next.drop_last() =~= candidates@.take(j as int));
            assert(next.last() == d);
            assert(pred(d) == !discard);
        }
        if !discard {
            out.push(d);
        }
        j += 1;
    }
    proof {
        assert(candidates@.take(candidates.len() as int) =~= candidates@);
    }
    out
}

/// Greedy non-max suppression per class. The result holds the emitted
/// detections in the order of emission: falling confidence, ties in the order
/// of the input.
pub fn suppress(detections: &Vec<Detection>, iou_threshold: i32) -> (kept: Vec<Detection>)
    ensures
        kept@ == greedy_suppression(detections@, iou_threshold as int),
        free_of_overlap(kept@, iou_threshold as int),
        descending(kept@),
        forall|i: int| 0 <= i < kept.len() ==> detections@.contains(#[trigger] kept[i]),
{
    let ghost threshold = iou_threshold as int;
    proof {
        lemma_emitted_free_of_overlap(detections@, threshold);
        lemma_emitted_descending(detections@, threshold);
        lemma_emitted_are_candidates(detections@, threshold);
    }
    let mut remaining: Vec<Detection> = Vec::new();
    let mut i: usize = 0;
    while i < detections.len()
        invariant
            i <= detections.len(),
            remaining@ == detections@.take(i as int),
        decreases detections.len() - i,
    {
        remaining.push(detections[i]);
        assert(detections@.take(i as int).push(detections@[i as int]) =~= detections@.take(i + 1));
        i += 1;
    }
    assert(detections@.take(detections.len() as int) =~= detections@);
    let mut kept: Vec<Detection> = Vec::new();
    while remaining.len() > 0
        invariant
            threshold == iou_threshold as int,
            kept@ + greedy_suppression(remaining@, threshold) == greedy_suppression(
                detections@,
                threshold,
            ),
        decreases remaining.len(),
    {
        let ghost before = remaining@;
        let ghost emitted = kept@;
        let k = leader_index(&remaining).unwrap();
        let best = remaining.remove(k);
        kept.push(best);
        remaining = retain_outlasting(&remaining, &best, iou_threshold);
        proof {
            lemma_survivors_shrink(before, k as int, threshold);
            assert(remaining@ == survivors(before, k as int, threshold));
            let tail = greedy_suppression(remaining@, threshold);
            assert(greedy_suppression(before, threshold) == seq![best] + tail);
            assert(emitted.push(best) + tail =~= emitted + (seq![best] + tail));
        }
    }
    assert(greedy_suppression(remaining@, threshold) =~= Seq::<Detection>::empty());
    assert(kept@ + Seq::<Detection>::empty() =~= kept@);
    kept
}

} // verus!
