use vstd::prelude::*;

use crate::geometry::Point2;

verus! {

/// Number of keypoints a pose carries.
pub const KPT_NUM: usize = 17;

/// A keypoint is named in a skeleton only when its confidence is above this.
pub const KEYPOINT_CONFIDENCE_MIN: i32 = 500;

/// A named body part (by its index in the keypoint order) and its position.
#[derive(Debug, Clone, Copy, PartialEq, Eq, Structural)]
pub struct Joint {
    pub part: usize,
    pub x: i32,
    pub y: i32,
}

/// The named keypoints of one subject, by increasing body-part index.
#[derive(Debug)]
pub struct Skeleton {
    pub joints: Vec<Joint>,
}

impl Skeleton {
    /// Body parts are known (below `KPT_NUM`) and strictly increasing, so no
    /// part appears twice.
    pub open spec fn wf(&self) -> bool {
        &&& forall|j: int| 0 <= j < self.joints@.len() ==> (#[trigger] self.joints@[j]).part < KPT_NUM
        &&& forall|j: int, k: int|
            0 <= j < k < self.joints@.len() ==> (#[trigger] self.joints@[j]).part < (#[trigger] self.joints@[k]).part
    }
}

/// The joints for the first `n` keypoints whose confidence passes the threshold.
pub open spec fn gated(kps: Seq<Point2>, n: nat) -> Seq<Joint>
    decreases n,
{
    if n == 0 {
        Seq::empty()
    } else {
        let g = gated(kps, (n - 1) as nat);
        let kp = kps[n - 1];
        if kp.c > KEYPOINT_CONFIDENCE_MIN {
            g.push(Joint { part: (n - 1) as usize, x: kp.x, y: kp.y })
        } else {
            g
        }
    }
}

pub open spec fn part_name_spec(part: nat) -> Seq<char> {
    if part == 0 { "nose"@ }
    else if part == 1 { "left_eye"@ }
    else if part == 2 { "right_eye"@ }
    else if part == 3 { "left_ear"@ }
    else if part == 4 { "right_ear"@ }
    else if part == 5 { "left_shoulder"@ }
    else if part == 6 { "right_shoulder"@ }
    else if part == 7 { "left_elbow"@ }
    else if part == 8 { "right_elbow"@ }
    else if part == 9 { "left_wrist"@ }
    else if part == 10 { "right_wrist"@ }
    else if part == 11 { "left_hip"@ }
    else if part == 12 { "right_hip"@ }
    else if part == 13 { "left_knee"@ }
    else if part == 14 { "right_knee"@ }
    else if part == 15 { "left_ankle"@ }
    else { "right_ankle"@ }
}

/// The canonical name of the body part at keypoint index `part`.
pub fn part_name(part: usize) -> (r: &'static str)
    requires
        part < KPT_NUM,
    ensures
        r@ == part_name_spec(part as nat),
{
    if part == 0 { "nose" }
    else if part == 1 { "left_eye" }
    else if part == 2 { "right_eye" }
    else if part == 3 { "left_ear" }
    else if part == 4 { "right_ear" }
    else if part == 5 { "left_shoulder" }
    else if part == 6 { "right_shoulder" }
    else if part == 7 { "left_elbow" }
    else if part == 8 { "right_elbow" }
    else if part == 9 { "left_wrist" }
    else if part == 10 { "right_wrist" }
    else if part == 11 { "left_hip" }
    else if part == 12 { "right_hip" }
    else if part == 13 { "left_knee" }
    else if part == 14 { "right_knee" }
    else if part == 15 { "left_ankle" }
    else { "right_ankle" }
}

/// Pairs each keypoint with its body part and keeps those whose confidence
/// passes the threshold.
pub fn skeleton_id_to_name(keypoints: &Vec<Point2>) -> (r: Skeleton)
    requires
        keypoints.len() == KPT_NUM,
    ensures
        r.joints@ == gated(keypoints@, KPT_NUM as nat),
        r.wf(),
{
    let mut joints: Vec<Joint> = Vec::new();
    let mut i: usize = 0;
    while i < keypoints.len()
        invariant
            i <= keypoints.len(),
            joints@ == gated(keypoints@, i as nat),
        decreases keypoints.len() - i,
    {
        let kp = keypoints[i];
        if kp.c > KEYPOINT_CONFIDENCE_MIN {
            joints.push(Joint { part: i, x: kp.x, y: kp.y });
        }
        i = i + 1;
    }
    proof {
        lemma_gated_sound(keypoints@, KPT_NUM as nat);
    }
    Skeleton { joints }
}

/// Every joint of a skeleton comes from a keypoint whose confidence passed
/// the threshold, at that keypoint's position, and no body part appears twice.
pub proof fn lemma_gated_sound(kps: Seq<Point2>, n: nat)
    requires
        n <= kps.len(),
        n <= KPT_NUM,
    ensures
        forall|j: int| 0 <= j < gated(kps, n).len() ==> {
            let jt = #[trigger] gated(kps, n)[j];
            &&& jt.part < n
            &&& kps[jt.part as int].c > KEYPOINT_CONFIDENCE_MIN
            &&& kps[jt.part as int].x == jt.x
            &&& kps[jt.part as int].y == jt.y
        },
        forall|j: int, k: int|
            0 <= j < k < gated(kps, n).len() ==> (#[trigger] gated(kps, n)[j]).part < (#[trigger] gated(kps, n)[k]).part,
    decreases n,
{
    if n > 0 {
        let m = (n - 1) as nat;
        lemma_gated_sound(kps, m);
        let g = gated(kps, m);
        let r = gated(kps, n);
        if kps[m as int].c > KEYPOINT_CONFIDENCE_MIN {
            let jt = Joint { part: m as usize, x: kps[m as int].x, y: kps[m as int].y };
            assert(r == g.push(jt));
            assert forall|j: int| 0 <= j < g.len() implies #[trigger] r[j] == g[j] by {}
            assert(r[g.len() as int] == jt);
        }
    }
}

/// A keypoint whose confidence passes the threshold is named in the skeleton.
pub proof fn lemma_gated_complete(kps: Seq<Point2>, n: nat, part: nat)
    requires
        n <= kps.len(),
        n <= KPT_NUM,
        part < n,
        kps[part as int].c > KEYPOINT_CONFIDENCE_MIN,
    ensures
        exists|j: int| 0 <= j < gated(kps, n).len() && (#[trigger] gated(kps, n)[j]).part == part,
    decreases n,
{
    if part < n - 1 {
        lemma_gated_complete(kps, (n - 1) as nat, part);
        let j = choose|j: int| 0 <= j < gated(kps, (n - 1) as nat).len() && (#[trigger] gated(kps, (n - 1) as nat)[j]).part == part;
        let m = (n - 1) as nat;
        let g = gated(kps, m);
        if kps[m as int].c > KEYPOINT_CONFIDENCE_MIN {
            let jt = Joint { part: m as usize, x: kps[m as int].x, y: kps[m as int].y };
            assert(gated(kps, n) == g.push(jt));
            assert(gated(kps, n)[j] == g[j]);
        } else {
            assert(gated(kps, n) == g);
        }
        assert(gated(kps, n)[j].part == part);
    } else {
        let m = (n - 1) as nat;
        let g = gated(kps, m);
        let jt = Joint { part: m as usize, x: kps[m as int].x, y: kps[m as int].y };
        assert(gated(kps, n) == g.push(jt));
        assert(gated(kps, n)[g.len() as int].part == part);
    }
}

} // verus!
