use vstd::prelude::*;

use crate::geometry::{BBox, Point2};
use crate::nms::{all_wf, lemma_nms_subset, lemma_nms_top, nms_spec, non_max_suppression, Detection};
use crate::skeleton::{gated, skeleton_id_to_name, Skeleton, KPT_NUM};

verus! {

/// Box fields per candidate: centre x, centre y, width, height, confidence.
pub const BBOX_OFFSET: usize = 5;

/// Fields per keypoint: x, y, confidence.
pub const KPT_OFFSET: usize = 3;

/// Channels of the model output: the box fields and every keypoint's fields.
pub const CHANNELS: usize = 56;

/// Candidates whose box confidence is below this are never emitted.
pub const BOX_CONFIDENCE_MIN: i32 = 500;

/// Kept boxes never overlap with an intersection-over-union above this.
pub const IOU_THRESHOLD: i32 = 450;

/// The value of channel `c` at candidate position `i` of a channel-major
/// tensor with `n` candidate positions.
pub open spec fn value_at(t: Seq<i32>, n: nat, c: nat, i: nat) -> i32 {
    t[(c * n + i) as int]
}

/// Half of `v`, rounded toward zero.
pub open spec fn half(v: int) -> int {
    if v >= 0 { v / 2 } else { -((-v) / 2) }
}

pub open spec fn box_at(t: Seq<i32>, n: nat, i: nat) -> BBox {
    let cx = value_at(t, n, 0, i);
    let cy = value_at(t, n, 1, i);
    let bw = value_at(t, n, 2, i);
    let bh = value_at(t, n, 3, i);
    BBox {
        xmin: (cx - half(bw as int)) as i64,
        ymin: (cy - half(bh as int)) as i64,
        w: bw,
        h: bh,
        id: i as usize,
        confidence: value_at(t, n, 4, i),
    }
}

pub open spec fn keypoints_at(t: Seq<i32>, n: nat, i: nat) -> Seq<Point2> {
    Seq::new(
        KPT_NUM as nat,
        |k: int|
            Point2 {
                x: value_at(t, n, (5 + 3 * k) as nat, i),
                y: value_at(t, n, (6 + 3 * k) as nat, i),
                c: value_at(t, n, (7 + 3 * k) as nat, i),
            },
    )
}

/// The candidates among the first `m` positions whose box confidence passes
/// the threshold, in position order, each as its box and keypoints.
pub open spec fn decoded(t: Seq<i32>, n: nat, m: nat) -> Seq<(BBox, Seq<Point2>)>
    decreases m,
{
    if m == 0 {
        Seq::empty()
    } else {
        let d = decoded(t, n, (m - 1) as nat);
        let i = (m - 1) as nat;
        if value_at(t, n, 4, i) < BOX_CONFIDENCE_MIN {
            d
        } else {
            d.push((box_at(t, n, i), keypoints_at(t, n, i)))
        }
    }
}

/// `b` is the box decoded from a position before `m` whose box confidence
/// passes the threshold.
pub open spec fn passing_box(t: Seq<i32>, n: nat, m: nat, b: BBox) -> bool {
    exists|i: nat| i < m && b == box_at(t, n, i) && value_at(t, n, 4, i) >= BOX_CONFIDENCE_MIN
}

pub open spec fn view_of(d: Detection) -> (BBox, Seq<Point2>) {
    (d.0, d.1@)
}

pub open spec fn views(s: Seq<Detection>) -> Seq<(BBox, Seq<Point2>)> {
    s.map_values(|d: Detection| view_of(d))
}

fn value(t: &Vec<i32>, n: usize, c: usize, i: usize) -> (r: i32)
    requires
        t.len() == CHANNELS * n,
        c < CHANNELS,
        i < n,
    ensures
        r == value_at(t@, n as nat, c as nat, i as nat),
{
    proof {
        let (cc, nn, ii) = (c as int, n as int, i as int);
        assert(0 <= cc * nn + ii < 56 * nn) by (nonlinear_arith)
            requires
                0 <= cc < 56,
                0 <= ii < nn,
        ;
    }
    t[c * n + i]
}

fn half_exec(v: i32) -> (r: i64)
    ensures
        r == half(v as int),
{
    if v >= 0 {
        (v / 2) as i64
    } else {
        let m = -(v as i64);
        -(m / 2)
    }
}

/// Reads each candidate position of a channel-major model output with `n`
/// positions and keeps those whose box confidence reaches the threshold, turning the
/// box from centre form into top-left form.
pub fn decode_candidates(output: &Vec<i32>, n: usize) -> (r: Vec<Detection>)
    requires
        output.len() == CHANNELS * n,
    ensures
        views(r@) == decoded(output@, n as nat, n as nat),
        all_wf(r@),
        forall|k: int| 0 <= k < r@.len() ==> (#[trigger] r@[k]).1.len() == KPT_NUM,
{
    let mut data: Vec<Detection> = Vec::new();
    let mut i: usize = 0;
    while i < n
        invariant
            i <= n,
            output.len() == CHANNELS * n,
            views(data@) == decoded(output@, n as nat, i as nat),
            all_wf(data@),
            forall|k: int| 0 <= k < data@.len() ==> (#[trigger] data@[k]).1.len() == KPT_NUM,
        decreases n - i,
    {
        let bc = value(output, n, 4, i);
        if bc >= BOX_CONFIDENCE_MIN {
            let cx = value(output, n, 0, i);
            let cy = value(output, n, 1, i);
            let bw = value(output, n, 2, i);
            let bh = value(output, n, 3, i);
            let bbox = BBox {
                xmin: cx as i64 - half_exec(bw),
                ymin: cy as i64 - half_exec(bh),
                w: bw,
                h: bh,
                id: i,
                confidence: bc,
            };
            let mut kpts: Vec<Point2> = Vec::new();
            let mut k: usize = 0;
            while k < KPT_NUM
                invariant
                    k <= KPT_NUM,
                    i < n,
                    output.len() == CHANNELS * n,
                    kpts@ =~= keypoints_at(output@, n as nat, i as nat).subrange(0, k as int),
                decreases KPT_NUM - k,
            {
                let p = Point2 {
                    x: value(output, n, BBOX_OFFSET + k * KPT_OFFSET, i),
                    y: value(output, n, BBOX_OFFSET + k * KPT_OFFSET + 1, i),
                    c: value(output, n, BBOX_OFFSET + k * KPT_OFFSET + 2, i),
                };
                kpts.push(p);
                k = k + 1;
            }
            assert(kpts@ =~= keypoints_at(output@, n as nat, i as nat));
            let ghost before = data@;
            data.push((bbox, kpts));
            proof {
                assert(bbox == box_at(output@, n as nat, i as nat));
                assert(views(data@) =~= views(before).push(view_of((bbox, kpts))));
                assert forall|m: int| 0 <= m < data@.len() implies (#[trigger] data@[m]).0.wf()
                    && data@[m].1.len() == KPT_NUM by {
                    if m < before.len() {
                        assert(data@[m] == before[m]);
                    }
                }
            }
        }
        proof {
            let dn = decoded(output@, n as nat, (i + 1) as nat);
            if bc < BOX_CONFIDENCE_MIN {
                assert(dn == decoded(output@, n as nat, i as nat));
            } else {
                assert(dn == decoded(output@, n as nat, i as nat).push(
                    (box_at(output@, n as nat, i as nat), keypoints_at(output@, n as nat, i as nat)),
                ));
            }
        }
        i = i + 1;
    }
    data
}

/// Decodes the model output and suppresses overlapping candidates; the kept
/// ones come out by descending box confidence. Each kept box is the one
/// decoded from a position whose box confidence passes the threshold.
pub fn parse_output(output: &Vec<i32>, n: usize) -> (r: Vec<Detection>)
    requires
        output.len() == CHANNELS * n,
    ensures
        exists|c: Seq<Detection>|
            views(c) == decoded(output@, n as nat, n as nat) && all_wf(c) && r@ == nms_spec(
                c,
                IOU_THRESHOLD as int,
            ),
        forall|k: int|
            0 <= k < r@.len() ==> passing_box(output@, n as nat, n as nat, (#[trigger] r@[k]).0),
{
    let mut data = decode_candidates(output, n);
    let ghost c = data@;
    non_max_suppression(&mut data, IOU_THRESHOLD);
    proof {
        lemma_nms_subset(c, IOU_THRESHOLD as int);
        lemma_confidence_threshold(output@, n as nat, n as nat);
        assert forall|k: int| 0 <= k < data@.len() implies passing_box(
            output@,
            n as nat,
            n as nat,
            (#[trigger] data@[k]).0,
        ) by {
            assert(data@.contains(data@[k]));
            let j = choose|j: int| 0 <= j < c.len() && c[j] == data@[k];
            assert(views(c)[j] == view_of(c[j]));
            assert(views(c).len() == c.len());
            let d = decoded(output@, n as nat, n as nat);
            assert(d[j].0 == data@[k].0);
            assert(passing_box(output@, n as nat, n as nat, d[j].0));
        }
    }
    data
}

/// The skeleton of the single most confident candidate that survives
/// suppression, or `None` when no candidate passes the confidence threshold.
pub fn best_skeleton(output: &Vec<i32>, n: usize) -> (r: Option<Skeleton>)
    requires
        output.len() == CHANNELS * n,
    ensures
        r is None <==> decoded(output@, n as nat, n as nat).len() == 0,
        r matches Some(sk) ==> sk.wf(),
        exists|c: Seq<Detection>|
            views(c) == decoded(output@, n as nat, n as nat) && all_wf(c) && (r matches Some(sk) ==> sk.joints@
                == gated(nms_spec(c, IOU_THRESHOLD as int)[0].1@, KPT_NUM as nat)),
        r matches Some(sk) ==> exists|k: int|
            0 <= k < decoded(output@, n as nat, n as nat).len() && sk.joints@ == gated(
                #[trigger] decoded(output@, n as nat, n as nat)[k].1,
                KPT_NUM as nat,
            ) && forall|m: int|
                0 <= m < decoded(output@, n as nat, n as nat).len() ==> decoded(
                    output@,
                    n as nat,
                    n as nat,
                )[k].0.confidence >= (#[trigger] decoded(output@, n as nat, n as nat)[m]).0.confidence,
{
    let mut data = decode_candidates(output, n);
    let ghost c = data@;
    let ghost dec = decoded(output@, n as nat, n as nat);
    assert(c.len() == dec.len()) by {
        assert(views(c).len() == c.len());
    }
    if data.len() == 0 {
        return None;
    }
    non_max_suppression(&mut data, IOU_THRESHOLD);
    proof {
        lemma_nms_top(c, IOU_THRESHOLD as int);
    }
    let top = &data[0];
    let ghost k = choose|k: int| 0 <= k < c.len() && c[k] == data@[0];
    proof {
        assert(views(c)[k] == view_of(c[k]));
        assert forall|m: int| 0 <= m < dec.len() implies dec[k].0.confidence >= (#[trigger] dec[m]).0.confidence by {
            assert(views(c)[m] == view_of(c[m]));
            assert(c.contains(c[m]));
        }
        assert(top.1.len() == KPT_NUM);
    }
    let sk = skeleton_id_to_name(&top.1);
    assert(sk.joints@ == gated(dec[k].1, KPT_NUM as nat));
    Some(sk)
}

/// No candidate whose box confidence is below the threshold is ever emitted:
/// each emitted box is the one decoded from some position before `m` whose box
/// confidence passes the threshold.
pub proof fn lemma_confidence_threshold(t: Seq<i32>, n: nat, m: nat)
    ensures
        forall|k: int|
            0 <= k < decoded(t, n, m).len() ==> (#[trigger] decoded(t, n, m)[k]).0.confidence >= BOX_CONFIDENCE_MIN,
        forall|k: int| 0 <= k < decoded(t, n, m).len() ==> passing_box(t, n, m, (#[trigger] decoded(t, n, m)[k]).0),
    decreases m,
{
    if m > 0 {
        let i = (m - 1) as nat;
        lemma_confidence_threshold(t, n, i);
        let d = decoded(t, n, i);
        let dm = decoded(t, n, m);
        assert forall|k: int| 0 <= k < dm.len() implies passing_box(t, n, m, (#[trigger] dm[k]).0) by {
            if k < d.len() {
                assert(passing_box(t, n, i, d[k].0));
                let p = choose|p: nat| p < i && d[k].0 == box_at(t, n, p) && value_at(t, n, 4, p)
                    >= BOX_CONFIDENCE_MIN;
                if value_at(t, n, 4, i) >= BOX_CONFIDENCE_MIN {
                    let x = (box_at(t, n, i), keypoints_at(t, n, i));
                    assert(dm == d.push(x));
                    assert(d.push(x)[k] == d[k]);
                } else {
                    assert(dm == d);
                }
                assert(dm[k].0 == box_at(t, n, p));
            } else {
                let x = (box_at(t, n, i), keypoints_at(t, n, i));
                assert(dm == d.push(x));
                assert(dm[k].0 == box_at(t, n, i));
            }
        }
        if value_at(t, n, 4, i) >= BOX_CONFIDENCE_MIN {
            let x = (box_at(t, n, i), keypoints_at(t, n, i));
            assert(decoded(t, n, m) == d.push(x));
            assert forall|k: int| 0 <= k < d.len() implies #[trigger] d.push(x)[k] == d[k] by {}
            assert(d.push(x)[d.len() as int] == x);
            assert(decoded(t, n, m)[d.len() as int].0 == box_at(t, n, i));
        }
    }
}

} // verus!
