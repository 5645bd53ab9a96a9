use vstd::prelude::*;

verus! {

/// Fixed-point units in one pixel, and in a confidence of 1.
pub const SCALE: i32 = 1000;

/// Largest magnitude of a box corner coordinate, in fixed-point units.
pub const COORD_BOUND: i64 = 4294967296;

/// A keypoint in fixed-point pixel coordinates with a fixed-point confidence.
#[derive(Debug, Clone, Copy, PartialEq, Eq, Structural)]
pub struct Point2 {
    pub x: i32,
    pub y: i32,
    pub c: i32,
}

/// A top-left anchored box in fixed-point pixel units.
#[derive(Debug, Clone, Copy, PartialEq, Eq, Structural)]
pub struct BBox {
    pub xmin: i64,
    pub ymin: i64,
    pub w: i32,
    pub h: i32,
    pub id: usize,
    pub confidence: i32,
}

pub open spec fn max_int(a: int, b: int) -> int {
    if a >= b { a } else { b }
}

pub open spec fn min_int(a: int, b: int) -> int {
    if a <= b { a } else { b }
}

/// Overlap of two closed intervals `[l, l + len]` counted inclusively
/// (one extra pixel), and never negative.
pub open spec fn overlap(l1: int, len1: int, l2: int, len2: int) -> int {
    max_int(0, min_int(l1 + len1, l2 + len2) - max_int(l1, l2) + SCALE)
}

impl BBox {
    pub open spec fn wf(&self) -> bool {
        -COORD_BOUND <= self.xmin <= COORD_BOUND && -COORD_BOUND <= self.ymin <= COORD_BOUND
    }

    pub open spec fn area_spec(&self) -> int {
        self.w * self.h
    }

    pub open spec fn intersection_spec(&self, other: BBox) -> int {
        overlap(self.xmin as int, self.w as int, other.xmin as int, other.w as int)
            * overlap(self.ymin as int, self.h as int, other.ymin as int, other.h as int)
    }

    pub open spec fn union_spec(&self, other: BBox) -> int {
        self.area_spec() + other.area_spec() - self.intersection_spec(other)
    }

    /// The intersection-over-union of the two boxes is above `threshold / SCALE`.
    /// A union that is not positive counts as no overlap at all.
    pub open spec fn iou_exceeds_spec(&self, other: BBox, threshold: int) -> bool {
        self.union_spec(other) > 0 && SCALE * self.intersection_spec(other) > threshold
            * self.union_spec(other)
    }

    pub fn area(&self) -> (r: i64)
        ensures
            r == self.area_spec(),
            -0x4000_0000_0000_0000 <= r <= 0x4000_0000_0000_0000,
    {
        proof {
            let (w, h) = (self.w as int, self.h as int);
            assert(-0x4000_0000_0000_0000 <= w * h <= 0x4000_0000_0000_0000) by (nonlinear_arith)
                requires
                    -0x8000_0000 <= w < 0x8000_0000,
                    -0x8000_0000 <= h < 0x8000_0000,
            ;
        }
        self.w as i64 * self.h as i64
    }

    pub fn intersection_area(&self, other: &BBox) -> (r: i128)
        requires
            self.wf(),
            other.wf(),
        ensures
            r == self.intersection_spec(*other),
            0 <= r <= 0x10_0000_0000_0000_0000,
    {
        let iw = overlap_exec(self.xmin, self.w, other.xmin, other.w);
        let ih = overlap_exec(self.ymin, self.h, other.ymin, other.h);
        proof {
            let (a, b) = (iw as int, ih as int);
            assert(0 <= a * b <= 0x10_0000_0000_0000_0000) by (nonlinear_arith)
                requires
                    0 <= a <= 0x4_0000_0000,
                    0 <= b <= 0x4_0000_0000,
            ;
        }
        iw * ih
    }

    pub fn union(&self, other: &BBox) -> (r: i128)
        requires
            self.wf(),
            other.wf(),
        ensures
            r == self.union_spec(*other),
            r <= 0x8000_0000_0000_0000,
    {
        self.area() as i128 + other.area() as i128 - self.intersection_area(other)
    }

    /// The intersection-over-union as a fraction `(intersection, union)`.
    /// A pair whose union is not positive (degenerate boxes) has IoU 0,
    /// given as `(0, 1)`.
    pub fn iou(&self, other: &BBox) -> (r: (i128, i128))
        requires
            self.wf(),
            other.wf(),
        ensures
            self.union_spec(*other) <= 0 ==> r == (0i128, 1i128),
            self.union_spec(*other) > 0 ==> r.0 == self.intersection_spec(*other) && r.1
                == self.union_spec(*other),
    {
        let uni = self.union(other);
        if uni <= 0 {
            (0, 1)
        } else {
            (self.intersection_area(other), uni)
        }
    }

    /// Whether the intersection-over-union is above `threshold / SCALE`.
    pub fn iou_exceeds(&self, other: &BBox, threshold: i32) -> (r: bool)
        requires
            self.wf(),
            other.wf(),
        ensures
            r == self.iou_exceeds_spec(*other, threshold as int),
    {
        let inter = self.intersection_area(other);
        let uni = self.union(other);
        if uni <= 0 {
            return false;
        }
        proof {
            let (i, u, t) = (inter as int, uni as int, threshold as int);
            assert(-0x1_0000_0000_0000_0000_0000_0000 <= t * u <= 0x1_0000_0000_0000_0000_0000_0000)
                by (nonlinear_arith)
                requires
                    -0x8000_0000 <= t < 0x8000_0000,
                    0 < u <= 0x8000_0000_0000_0000,
            ;
            assert(0 <= 1000 * i <= 0x1_0000_0000_0000_0000_0000);
        }
        (SCALE as i128) * inter > (threshold as i128) * uni
    }
}

fn overlap_exec(l1: i64, len1: i32, l2: i64, len2: i32) -> (r: i128)
    requires
        -COORD_BOUND <= l1 <= COORD_BOUND,
        -COORD_BOUND <= l2 <= COORD_BOUND,
    ensures
        r == overlap(l1 as int, len1 as int, l2 as int, len2 as int),
        0 <= r <= 0x4_0000_0000,
{
    let e1 = l1 as i128 + len1 as i128;
    let e2 = l2 as i128 + len2 as i128;
    let right = if e1 <= e2 { e1 } else { e2 };
    let left = if l1 >= l2 { l1 as i128 } else { l2 as i128 };
    let d = right - left + SCALE as i128;
    if d > 0 { d } else { 0 }
}

} // verus!
