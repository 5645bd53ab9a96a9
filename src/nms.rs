use vstd::prelude::*;

use crate::geometry::{BBox, Point2};

verus! {

/// A candidate: its box and its keypoints in anatomical order.
pub type Detection = (BBox, Vec<Point2>);

/// Inserts `d` after every element whose confidence is at least its own:
/// one step of a stable sort by descending confidence.
pub open spec fn insert_desc(s: Seq<Detection>, d: Detection) -> Seq<Detection>
    decreases s.len(),
{
    if s.len() == 0 {
        seq![d]
    } else if s.last().0.confidence >= d.0.confidence {
        s.push(d)
    } else {
        insert_desc(s.drop_last(), d).push(s.last())
    }
}

/// Stable sort by descending box confidence.
pub open spec fn sort_desc(s: Seq<Detection>) -> Seq<Detection>
    decreases s.len(),
{
    if s.len() == 0 {
        s
    } else {
        insert_desc(sort_desc(s.drop_last()), s.last())
    }
}

/// Some box of `kept` overlaps `b` above the threshold.
pub open spec fn suppressed(kept: Seq<Detection>, b: BBox, threshold: int) -> bool {
    exists|j: int| 0 <= j < kept.len() && (#[trigger] kept[j]).0.iou_exceeds_spec(b, threshold)
}

/// Greedy walk: each candidate is kept unless an already kept one overlaps it.
pub open spec fn greedy(s: Seq<Detection>, threshold: int) -> Seq<Detection>
    decreases s.len(),
{
    if s.len() == 0 {
        s
    } else {
        let kept = greedy(s.drop_last(), threshold);
        if suppressed(kept, s.last().0, threshold) {
            kept
        } else {
            kept.push(s.last())
        }
    }
}

/// The result of non-maximum suppression on `s`.
pub open spec fn nms_spec(s: Seq<Detection>, threshold: int) -> Seq<Detection> {
    greedy(sort_desc(s), threshold)
}

pub open spec fn all_wf(s: Seq<Detection>) -> bool {
    forall|i: int| 0 <= i < s.len() ==> (#[trigger] s[i]).0.wf()
}

pub open spec fn sorted_desc(s: Seq<Detection>) -> bool {
    forall|i: int, j: int|
        0 <= i < j < s.len() ==> (#[trigger] s[i]).0.confidence >= (#[trigger] s[j]).0.confidence
}

proof fn lemma_push_contains(s: Seq<Detection>, a: Detection)
    ensures
        forall|x: Detection| #[trigger] s.push(a).contains(x) <==> (x == a || s.contains(x)),
{
    assert forall|x: Detection| #[trigger] s.push(a).contains(x) <==> (x == a || s.contains(x)) by {
        if s.contains(x) {
            let k = choose|k: int| 0 <= k < s.len() && s[k] == x;
            assert(s.push(a)[k] == x);
        }
        if x == a {
            assert(s.push(a)[s.len() as int] == x);
        }
        if s.push(a).contains(x) && x != a {
            let m = choose|m: int| 0 <= m < s.len() + 1 && s.push(a)[m] == x;
            assert(s[m] == x);
        }
    }
}

proof fn lemma_drop_last_contains(s: Seq<Detection>)
    requires
        s.len() > 0,
    ensures
        forall|x: Detection| #[trigger] s.contains(x) <==> (x == s.last() || s.drop_last().contains(x)),
{
    lemma_push_contains(s.drop_last(), s.last());
    assert(s.drop_last().push(s.last()) =~= s);
}

proof fn lemma_insert_contents(s: Seq<Detection>, d: Detection)
    ensures
        insert_desc(s, d).len() == s.len() + 1,
        forall|x: Detection| #[trigger]
            insert_desc(s, d).contains(x) <==> (x == d || s.contains(x)),
    decreases s.len(),
{
    if s.len() == 0 {
        assert(seq![d] =~= s.push(d));
        lemma_push_contains(s, d);
    } else if s.last().0.confidence >= d.0.confidence {
        lemma_push_contains(s, d);
    } else {
        lemma_insert_contents(s.drop_last(), d);
        lemma_push_contains(insert_desc(s.drop_last(), d), s.last());
        lemma_drop_last_contains(s);
    }
}

proof fn lemma_insert_sorted(s: Seq<Detection>, d: Detection)
    requires
        sorted_desc(s),
    ensures
        sorted_desc(insert_desc(s, d)),
    decreases s.len(),
{
    lemma_insert_contents(s, d);
    if s.len() > 0 && s.last().0.confidence < d.0.confidence {
        let r = insert_desc(s.drop_last(), d);
        lemma_insert_sorted(s.drop_last(), d);
        lemma_insert_contents(s.drop_last(), d);
        assert forall|i: int| 0 <= i < r.len() implies r[i].0.confidence >= s.last().0.confidence by {
            assert(r.contains(r[i]));
            if r[i] != d {
                let k = choose|k: int| 0 <= k < s.len() - 1 && s.drop_last()[k] == r[i];
                assert(s[k] == r[i]);
            }
        }
        assert(sorted_desc(r.push(s.last())));
    }
}

proof fn lemma_sort_desc(s: Seq<Detection>)
    ensures
        sort_desc(s).len() == s.len(),
        sorted_desc(sort_desc(s)),
        forall|x: Detection| #[trigger] sort_desc(s).contains(x) <==> s.contains(x),
    decreases s.len(),
{
    if s.len() > 0 {
        let p = s.drop_last();
        lemma_sort_desc(p);
        lemma_insert_contents(sort_desc(p), s.last());
        lemma_insert_sorted(sort_desc(p), s.last());
        assert forall|x: Detection| #[trigger] sort_desc(s).contains(x) <==> s.contains(x) by {
            if s.contains(x) && x != s.last() {
                let k = choose|k: int| 0 <= k < s.len() && s[k] == x;
                assert(p[k] == x);
                assert(p.contains(x));
            }
            if p.contains(x) {
                let k = choose|k: int| 0 <= k < p.len() && p[k] == x;
                assert(s[k] == x);
            }
            if x == s.last() {
                assert(s[s.len() - 1] == x);
            }
        }
    }
}

proof fn lemma_insert_at(s: Seq<Detection>, d: Detection, j: int)
    requires
        0 <= j <= s.len(),
        forall|m: int| j <= m < s.len() ==> (#[trigger] s[m]).0.confidence < d.0.confidence,
        j == 0 || s[j - 1].0.confidence >= d.0.confidence,
    ensures
        insert_desc(s, d) == s.insert(j, d),
    decreases s.len(),
{
    if s.len() == j {
        if j == 0 {
            assert(seq![d] =~= s.insert(j, d));
        } else {
            assert(s.push(d) =~= s.insert(j, d));
        }
    } else {
        lemma_insert_at(s.drop_last(), d, j);
        assert(s.drop_last().insert(j, d).push(s.last()) =~= s.insert(j, d));
    }
}

proof fn lemma_greedy_contents(s: Seq<Detection>, threshold: int)
    ensures
        forall|x: Detection| #[trigger] greedy(s, threshold).contains(x) ==> s.contains(x),
    decreases s.len(),
{
    if s.len() > 0 {
        lemma_greedy_contents(s.drop_last(), threshold);
        lemma_push_contains(greedy(s.drop_last(), threshold), s.last());
        lemma_drop_last_contains(s);
    }
}

proof fn lemma_greedy_apart(s: Seq<Detection>, threshold: int)
    ensures
        forall|i: int, j: int|
            0 <= i < j < greedy(s, threshold).len() ==> !(#[trigger] greedy(s, threshold)[i]).0.iou_exceeds_spec(
                (#[trigger] greedy(s, threshold)[j]).0,
                threshold,
            ),
    decreases s.len(),
{
    if s.len() > 0 {
        lemma_greedy_apart(s.drop_last(), threshold);
        let kept = greedy(s.drop_last(), threshold);
        if !suppressed(kept, s.last().0, threshold) {
            let g = kept.push(s.last());
            assert forall|i: int, j: int| 0 <= i < j < g.len() implies !(#[trigger] g[i]).0.iou_exceeds_spec(
                (#[trigger] g[j]).0,
                threshold,
            ) by {
                if j == kept.len() {
                    assert(g[i] == kept[i]);
                    assert(!kept[i].0.iou_exceeds_spec(s.last().0, threshold));
                } else {
                    assert(g[i] == kept[i] && g[j] == kept[j]);
                }
            }
        }
    }
}

proof fn lemma_greedy_first(s: Seq<Detection>, threshold: int)
    requires
        s.len() > 0,
    ensures
        greedy(s, threshold).len() > 0,
        greedy(s, threshold)[0] == s[0],
    decreases s.len(),
{
    if s.len() == 1 {
        let kept = greedy(s.drop_last(), threshold);
        assert(kept.len() == 0);
        assert(!suppressed(kept, s.last().0, threshold));
    } else {
        lemma_greedy_first(s.drop_last(), threshold);
        let kept = greedy(s.drop_last(), threshold);
        assert(kept.push(s.last())[0] == kept[0]);
    }
}

/// Each candidate of a sorted sequence is kept, or an earlier kept box with a
/// confidence at least as high overlaps it above the threshold.
proof fn lemma_greedy_covers(s: Seq<Detection>, threshold: int)
    requires
        sorted_desc(s),
    ensures
        forall|k: int|
            0 <= k < s.len() ==> greedy(s, threshold).contains(#[trigger] s[k]) || exists|j: int|
                0 <= j < greedy(s, threshold).len() && (#[trigger] greedy(s, threshold)[j]).0.iou_exceeds_spec(
                    s[k].0,
                    threshold,
                ) && greedy(s, threshold)[j].0.confidence >= s[k].0.confidence,
    decreases s.len(),
{
    if s.len() > 0 {
        let p = s.drop_last();
        assert(sorted_desc(p));
        lemma_greedy_covers(p, threshold);
        lemma_greedy_contents(p, threshold);
        let kept = greedy(p, threshold);
        let g = greedy(s, threshold);
        lemma_push_contains(kept, s.last());
        assert forall|j: int| 0 <= j < kept.len() implies #[trigger] g[j] == kept[j] by {
            if !suppressed(kept, s.last().0, threshold) {
                assert(kept.push(s.last())[j] == kept[j]);
            }
        }
        assert forall|k: int| 0 <= k < s.len() implies g.contains(#[trigger] s[k]) || exists|j: int|
            0 <= j < g.len() && (#[trigger] g[j]).0.iou_exceeds_spec(s[k].0, threshold)
                && g[j].0.confidence >= s[k].0.confidence by {
            if k < s.len() - 1 {
                assert(p[k] == s[k]);
                if kept.contains(s[k]) {
                    let m = choose|m: int| 0 <= m < kept.len() && kept[m] == s[k];
                    assert(g[m] == s[k]);
                } else {
                    let j = choose|j: int|
                        0 <= j < kept.len() && (#[trigger] kept[j]).0.iou_exceeds_spec(p[k].0, threshold)
                            && kept[j].0.confidence >= p[k].0.confidence;
                    assert(g[j] == kept[j]);
                }
            } else if suppressed(kept, s.last().0, threshold) {
                let j = choose|j: int|
                    0 <= j < kept.len() && (#[trigger] kept[j]).0.iou_exceeds_spec(s.last().0, threshold);
                assert(kept.contains(kept[j]));
                assert(p.contains(kept[j]));
                let q = choose|q: int| 0 <= q < p.len() && p[q] == kept[j];
                assert(s[q] == kept[j]);
                assert(g[j] == kept[j]);
            }
        }
    }
}

/// Sorts the candidates by descending box confidence, keeping the input
/// order among equal confidences.
fn sort_by_confidence(xs: Vec<Detection>) -> (r: Vec<Detection>)
    ensures
        r@ == sort_desc(xs@),
{
    let ghost orig = xs@;
    let n = xs.len();
    let mut items = xs;
    let mut out: Vec<Detection> = Vec::new();
    let mut i: usize = 0;
    assert(orig.subrange(0, 0) =~= Seq::<Detection>::empty());
    while items.len() > 0
        invariant
            i + items.len() == n,
            n == orig.len(),
            items@ == orig.subrange(i as int, n as int),
            out@ == sort_desc(orig.subrange(0, i as int)),
        decreases items.len(),
    {
        let d = items.remove(0);
        assert(d == orig[i as int]);
        let mut j = out.len();
        while j > 0 && out[j - 1].0.confidence < d.0.confidence
            invariant
                j <= out.len(),
                forall|m: int| j <= m < out.len() ==> (#[trigger] out@[m]).0.confidence < d.0.confidence,
            decreases j,
        {
            j = j - 1;
        }
        proof {
            lemma_insert_at(out@, d, j as int);
            assert(orig.subrange(0, i + 1).drop_last() =~= orig.subrange(0, i as int));
        }
        out.insert(j, d);
        i = i + 1;
        assert(items@ =~= orig.subrange(i as int, n as int));
    }
    assert(orig.subrange(0, n as int) =~= orig);
    out
}

/// Greedy suppression over candidates already sorted by confidence.
fn suppress_sorted(sorted: Vec<Detection>, iou_threshold: i32) -> (r: Vec<Detection>)
    requires
        all_wf(sorted@),
    ensures
        r@ == greedy(sorted@, iou_threshold as int),
{
    let ghost s = sorted@;
    let n = sorted.len();
    let mut items = sorted;
    let mut kept: Vec<Detection> = Vec::new();
    let mut i: usize = 0;
    assert(s.subrange(0, 0) =~= Seq::<Detection>::empty());
    while items.len() > 0
        invariant
            i + items.len() == n,
            n == s.len(),
            all_wf(s),
            items@ == s.subrange(i as int, n as int),
            kept@ == greedy(s.subrange(0, i as int), iou_threshold as int),
            all_wf(kept@),
        decreases items.len(),
    {
        let d = items.remove(0);
        assert(d == s[i as int]);
        assert(d.0.wf());
        let mut drop = false;
        let mut j: usize = 0;
        while j < kept.len()
            invariant
                j <= kept.len(),
                all_wf(kept@),
                d.0.wf(),
                !drop ==> forall|m: int| 0 <= m < j ==> !(#[trigger] kept@[m]).0.iou_exceeds_spec(d.0, iou_threshold as int),
                drop ==> suppressed(kept@, d.0, iou_threshold as int),
            ensures
                !drop ==> !suppressed(kept@, d.0, iou_threshold as int),
                drop ==> suppressed(kept@, d.0, iou_threshold as int),
            decreases kept.len() - j,
        {
            assert(kept@[j as int].0.wf());
            if kept[j].0.iou_exceeds(&d.0, iou_threshold) {
                drop = true;
                break;
            }
            j = j + 1;
        }
        proof {
            let t = s.subrange(0, i + 1);
            assert(t.drop_last() =~= s.subrange(0, i as int));
            assert(t.last() == d);
            if !drop {
                assert(!suppressed(kept@, d.0, iou_threshold as int));
            }
        }
        if !drop {
            let ghost before = kept@;
            kept.push(d);
            assert(all_wf(kept@)) by {
                assert forall|m: int| 0 <= m < kept@.len() implies (#[trigger] kept@[m]).0.wf() by {
                    if m < kept@.len() - 1 {
                        assert(kept@[m] == before[m]);
                    }
                }
            }
        }
        i = i + 1;
        assert(items@ =~= s.subrange(i as int, n as int));
    }
    assert(s.subrange(0, n as int) =~= s);
    kept
}

/// Keeps the highest-confidence candidates of `xs` such that no two kept boxes
/// overlap with an intersection-over-union above `iou_threshold / SCALE`.
/// The kept candidates come out by descending confidence.
pub fn non_max_suppression(xs: &mut Vec<Detection>, iou_threshold: i32)
    requires
        all_wf(old(xs)@),
    ensures
        final(xs)@ == nms_spec(old(xs)@, iou_threshold as int),
{
    let mut items: Vec<Detection> = Vec::new();
    std::mem::swap(xs, &mut items);
    proof {
        lemma_sort_desc(items@);
    }
    let sorted = sort_by_confidence(items);
    assert(all_wf(sorted@)) by {
        assert forall|k: int| 0 <= k < sorted@.len() implies (#[trigger] sorted@[k]).0.wf() by {
            assert(sorted@.contains(sorted@[k]));
            assert(items@.contains(sorted@[k]));
        }
    }
    *xs = suppress_sorted(sorted, iou_threshold);
}

/// No two boxes kept by the suppression overlap above the threshold.
pub proof fn lemma_nms_kept_apart(xs: Seq<Detection>, threshold: int)
    ensures
        forall|i: int, j: int|
            0 <= i < nms_spec(xs, threshold).len() && 0 <= j < nms_spec(xs, threshold).len() && i != j
                ==> !(#[trigger] nms_spec(xs, threshold)[i]).0.iou_exceeds_spec(
                (#[trigger] nms_spec(xs, threshold)[j]).0,
                threshold,
            ),
{
    let r = nms_spec(xs, threshold);
    lemma_greedy_apart(sort_desc(xs), threshold);
    assert forall|i: int, j: int| 0 <= i < r.len() && 0 <= j < r.len() && i != j implies !(#[trigger] r[i]).0.iou_exceeds_spec(
        (#[trigger] r[j]).0,
        threshold,
    ) by {
        if j < i {
            assert(!r[j].0.iou_exceeds_spec(r[i].0, threshold));
        }
    }
}

/// Every candidate that the suppression discards is overlapped above the
/// threshold by a kept box whose confidence is at least as high.
pub proof fn lemma_nms_discarded_suppressed(xs: Seq<Detection>, threshold: int)
    ensures
        forall|x: Detection|
            xs.contains(x) && !nms_spec(xs, threshold).contains(x) ==> exists|j: int|
                0 <= j < nms_spec(xs, threshold).len() && (#[trigger] nms_spec(xs, threshold)[j]).0.iou_exceeds_spec(
                    x.0,
                    threshold,
                ) && nms_spec(xs, threshold)[j].0.confidence >= x.0.confidence,
{
    let s = sort_desc(xs);
    lemma_sort_desc(xs);
    lemma_greedy_covers(s, threshold);
    assert forall|x: Detection| xs.contains(x) && !nms_spec(xs, threshold).contains(x) implies exists|j: int|
        0 <= j < nms_spec(xs, threshold).len() && (#[trigger] nms_spec(xs, threshold)[j]).0.iou_exceeds_spec(
            x.0,
            threshold,
        ) && nms_spec(xs, threshold)[j].0.confidence >= x.0.confidence by {
        assert(s.contains(x));
        let k = choose|k: int| 0 <= k < s.len() && s[k] == x;
        assert(greedy(s, threshold).contains(s[k]) || exists|j: int|
            0 <= j < greedy(s, threshold).len() && (#[trigger] greedy(s, threshold)[j]).0.iou_exceeds_spec(
                s[k].0,
                threshold,
            ) && greedy(s, threshold)[j].0.confidence >= s[k].0.confidence);
    }
}

proof fn lemma_insert_first(s: Seq<Detection>, d: Detection)
    requires
        s.len() > 0,
        sorted_desc(s),
    ensures
        insert_desc(s, d)[0] == (if s[0].0.confidence >= d.0.confidence { s[0] } else { d }),
    decreases s.len(),
{
    if s.last().0.confidence >= d.0.confidence {
        if s.len() > 1 {
            assert(s[0].0.confidence >= s[s.len() - 1].0.confidence);
        }
        assert(s.push(d)[0] == s[0]);
    } else {
        let p = s.drop_last();
        let r = insert_desc(p, d);
        lemma_insert_contents(p, d);
        assert(r.push(s.last())[0] == r[0]);
        if p.len() > 0 {
            assert(sorted_desc(p));
            lemma_insert_first(p, d);
            assert(p[0] == s[0]);
        } else {
            assert(r[0] == d);
            assert(s[0] == s.last());
        }
    }
}

/// `p` is the first position of `xs` with the highest confidence.
pub open spec fn first_most_confident(xs: Seq<Detection>, p: int) -> bool {
    &&& 0 <= p < xs.len()
    &&& forall|q: int| 0 <= q < xs.len() ==> (#[trigger] xs[q]).0.confidence <= xs[p].0.confidence
    &&& forall|q: int| 0 <= q < p ==> (#[trigger] xs[q]).0.confidence < xs[p].0.confidence
}

proof fn lemma_sort_first(xs: Seq<Detection>)
    requires
        xs.len() > 0,
    ensures
        exists|p: int| first_most_confident(xs, p) && sort_desc(xs)[0] == xs[p],
    decreases xs.len(),
{
    let d = xs.last();
    let pre = xs.drop_last();
    if pre.len() == 0 {
        assert(sort_desc(pre).len() == 0);
        assert(sort_desc(xs)[0] == d);
        assert(first_most_confident(xs, 0));
    } else {
        lemma_sort_first(pre);
        lemma_sort_desc(pre);
        let p = choose|p: int| first_most_confident(pre, p) && sort_desc(pre)[0] == pre[p];
        lemma_insert_first(sort_desc(pre), d);
        assert(pre[p] == xs[p]);
        if pre[p].0.confidence >= d.0.confidence {
            assert forall|q: int| 0 <= q < xs.len() implies (#[trigger] xs[q]).0.confidence <= xs[p].0.confidence by {
                if q < pre.len() {
                    assert(pre[q] == xs[q]);
                }
            }
            assert forall|q: int| 0 <= q < p implies (#[trigger] xs[q]).0.confidence < xs[p].0.confidence by {
                assert(pre[q] == xs[q]);
            }
            assert(first_most_confident(xs, p));
        } else {
            let l = xs.len() - 1;
            assert forall|q: int| 0 <= q < xs.len() implies (#[trigger] xs[q]).0.confidence <= xs[l].0.confidence by {
                if q < pre.len() {
                    assert(pre[q] == xs[q]);
                }
            }
            assert forall|q: int| 0 <= q < l implies (#[trigger] xs[q]).0.confidence < xs[l].0.confidence by {
                assert(pre[q] == xs[q]);
            }
            assert(first_most_confident(xs, l));
        }
    }
}

/// When there is a candidate, the first kept one is the first candidate with
/// the highest confidence.
pub proof fn lemma_nms_top(xs: Seq<Detection>, threshold: int)
    requires
        xs.len() > 0,
    ensures
        nms_spec(xs, threshold).len() > 0,
        xs.contains(nms_spec(xs, threshold)[0]),
        forall|x: Detection| #[trigger] xs.contains(x) ==> nms_spec(xs, threshold)[0].0.confidence >= x.0.confidence,
        exists|p: int| first_most_confident(xs, p) && nms_spec(xs, threshold)[0] == xs[p],
{
    let s = sort_desc(xs);
    lemma_sort_desc(xs);
    lemma_greedy_first(s, threshold);
    lemma_sort_first(xs);
    assert(s.contains(s[0]));
    assert forall|x: Detection| #[trigger] xs.contains(x) implies s[0].0.confidence >= x.0.confidence by {
        assert(s.contains(x));
        let k = choose|k: int| 0 <= k < s.len() && s[k] == x;
        if k > 0 {
            assert(s[0].0.confidence >= s[k].0.confidence);
        }
    }
}

/// Suppression only keeps candidates it was given.
pub proof fn lemma_nms_subset(xs: Seq<Detection>, threshold: int)
    ensures
        forall|x: Detection| #[trigger] nms_spec(xs, threshold).contains(x) ==> xs.contains(x),
{
    lemma_sort_desc(xs);
    lemma_greedy_contents(sort_desc(xs), threshold);
}

} // verus!
