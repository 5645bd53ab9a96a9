use actionq::decode::{best_skeleton, decode_candidates, parse_output, CHANNELS, IOU_THRESHOLD};
use actionq::geometry::{BBox, Point2};
use actionq::nms::non_max_suppression;
use actionq::skeleton::{part_name, skeleton_id_to_name, Joint};

fn tensor(n: usize, cands: &[(usize, Vec<(usize, i32)>)]) -> Vec<i32> {
    let mut t = vec![0i32; CHANNELS * n];
    for (i, vals) in cands {
        for (c, v) in vals {
            t[c * n + i] = *v;
        }
    }
    t
}

fn bbox(xmin: i64, ymin: i64, w: i32, h: i32, id: usize, confidence: i32) -> BBox {
    BBox { xmin, ymin, w, h, id, confidence }
}

#[test]
fn scenario_a_decode_and_skeleton() {
    let t = tensor(
        1,
        &[(0, vec![(0, 100_000), (1, 100_000), (2, 50_000), (3, 80_000), (4, 900), (5, 100_000), (6, 80_000), (7, 900)])],
    );
    let d = decode_candidates(&t, 1);
    assert_eq!(d.len(), 1);
    let b = d[0].0;
    assert_eq!((b.xmin, b.ymin, b.w, b.h, b.confidence), (75_000, 60_000, 50_000, 80_000, 900));
    assert_eq!(d[0].1.len(), 17);
    assert_eq!(d[0].1[0], Point2 { x: 100_000, y: 80_000, c: 900 });
    let sk = skeleton_id_to_name(&d[0].1);
    assert_eq!(sk.joints, vec![Joint { part: 0, x: 100_000, y: 80_000 }]);
    assert_eq!(part_name(sk.joints[0].part), "nose");
    let best = best_skeleton(&t, 1).unwrap();
    assert_eq!(best.joints, vec![Joint { part: 0, x: 100_000, y: 80_000 }]);
}

#[test]
fn odd_width_rounds_half_toward_zero() {
    let t = tensor(1, &[(0, vec![(0, 10), (1, -10), (2, 5), (3, -5), (4, 500)])]);
    let d = decode_candidates(&t, 1);
    assert_eq!(d.len(), 1);
    assert_eq!((d[0].0.xmin, d[0].0.ymin), (8, -8));
}

#[test]
fn confidence_gate_drops_low_boxes() {
    let t = tensor(
        3,
        &[
            (0, vec![(2, 1000), (3, 1000), (4, 499)]),
            (1, vec![(0, 500_000), (2, 1000), (3, 1000), (4, 500)]),
            (2, vec![(2, 1000), (3, 1000), (4, 0)]),
        ],
    );
    let d = decode_candidates(&t, 3);
    assert_eq!(d.len(), 1);
    assert_eq!(d[0].0.id, 1);
    assert!(d.iter().all(|c| c.0.confidence >= 500));
    assert!(best_skeleton(&tensor(2, &[(0, vec![(4, 499)])]), 2).is_none());
}

#[test]
fn scenario_b_overlapping_boxes_keep_most_confident() {
    let a = bbox(0, 0, 100_000, 100_000, 0, 900);
    let b = bbox(25_000, 0, 100_000, 100_000, 1, 800);
    let (inter, union) = a.iou(&b);
    assert_eq!((inter, union), (7_676_000_000, 12_324_000_000));
    assert!(a.iou_exceeds(&b, IOU_THRESHOLD));
    let mut xs = vec![(b, vec![]), (a, vec![])];
    non_max_suppression(&mut xs, IOU_THRESHOLD);
    assert_eq!(xs.len(), 1);
    assert_eq!(xs[0].0.confidence, 900);
    let t = tensor(
        2,
        &[
            (0, vec![(0, 50_000), (1, 50_000), (2, 100_000), (3, 100_000), (4, 900)]),
            (1, vec![(0, 75_000), (1, 50_000), (2, 100_000), (3, 100_000), (4, 800)]),
        ],
    );
    let r = parse_output(&t, 2);
    assert_eq!(r.len(), 1);
    assert_eq!(r[0].0.id, 0);
}

#[test]
fn disjoint_boxes_are_kept_by_descending_confidence() {
    let a = bbox(0, 0, 10_000, 10_000, 0, 600);
    let b = bbox(500_000, 500_000, 10_000, 10_000, 1, 950);
    let c = bbox(900_000, 0, 10_000, 10_000, 2, 600);
    let mut xs = vec![(a, vec![]), (b, vec![]), (c, vec![])];
    non_max_suppression(&mut xs, IOU_THRESHOLD);
    let ids: Vec<usize> = xs.iter().map(|d| d.0.id).collect();
    assert_eq!(ids, vec![1, 0, 2]);
    for i in 0..xs.len() {
        for j in 0..xs.len() {
            if i != j {
                assert!(!xs[i].0.iou_exceeds(&xs[j].0, IOU_THRESHOLD));
            }
        }
    }
}

#[test]
fn box_areas_and_inclusive_intersection() {
    let a = bbox(0, 0, 4_000, 3_000, 0, 900);
    assert_eq!(a.area(), 12_000_000);
    let far = bbox(100_000, 100_000, 4_000, 3_000, 1, 900);
    assert_eq!(a.intersection_area(&far), 0);
    assert_eq!(a.union(&far), 24_000_000);
    let touching = bbox(4_000, 0, 4_000, 3_000, 2, 900);
    assert_eq!(a.intersection_area(&touching), 1_000 * 4_000);
}

#[test]
fn zero_area_boxes_never_suppress() {
    let a = bbox(0, 0, 0, 0, 0, 900);
    let b = bbox(0, 0, 0, 0, 1, 800);
    assert_eq!(a.iou(&b), (0, 1));
    assert!(a.union(&b) <= 0);
    assert!(!a.iou_exceeds(&b, IOU_THRESHOLD));
    let far = bbox(50_000, 50_000, 0, 0, 2, 700);
    assert_eq!(a.iou(&far), (0, 1));
    let mut xs = vec![(a, vec![]), (b, vec![])];
    non_max_suppression(&mut xs, IOU_THRESHOLD);
    assert_eq!(xs.len(), 2);
}

#[test]
fn keypoint_gate_is_strict() {
    let mut kps = vec![Point2 { x: 0, y: 0, c: 0 }; 17];
    kps[3] = Point2 { x: 7, y: 8, c: 500 };
    kps[16] = Point2 { x: 9, y: 10, c: 501 };
    let sk = skeleton_id_to_name(&kps);
    assert_eq!(sk.joints, vec![Joint { part: 16, x: 9, y: 10 }]);
    assert_eq!(part_name(16), "right_ankle");
    assert_eq!(part_name(5), "left_shoulder");
}

#[test]
fn single_skeleton_comes_from_most_confident_candidate() {
    let t = tensor(
        2,
        &[
            (0, vec![(0, 50_000), (1, 50_000), (2, 10_000), (3, 10_000), (4, 700), (7, 900)]),
            (1, vec![(0, 400_000), (1, 400_000), (2, 10_000), (3, 10_000), (4, 800), (8, 11), (9, 12), (10, 900)]),
        ],
    );
    let sk = best_skeleton(&t, 2).unwrap();
    assert_eq!(sk.joints, vec![Joint { part: 1, x: 11, y: 12 }]);
}

#[test]
fn equal_confidence_overlap_keeps_the_earlier_candidate() {
    let t = tensor(
        2,
        &[
            (0, vec![(0, 50_000), (1, 50_000), (2, 100_000), (3, 100_000), (4, 800), (7, 900)]),
            (1, vec![(0, 55_000), (1, 50_000), (2, 100_000), (3, 100_000), (4, 800), (10, 900)]),
        ],
    );
    let r = parse_output(&t, 2);
    assert_eq!(r.len(), 1);
    assert_eq!(r[0].0.id, 0);
    let sk = best_skeleton(&t, 2).unwrap();
    assert_eq!(sk.joints, vec![Joint { part: 0, x: 0, y: 0 }]);
}
