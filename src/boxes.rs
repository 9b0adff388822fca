use vstd::prelude::*;

verus! {

/// Fixed-point scale of scores and thresholds: `SCALE` stands for 1.0.
pub const SCALE: u32 = 1_000_000;

/// An axis-aligned candidate box in source-image pixel coordinates, with the
/// winning class probability (`score`, in units of `1 / SCALE`) and the class index.
#[derive(Clone, Copy, Debug, PartialEq, Eq, Structural)]
pub struct BoxInfo {
    pub x1: i32,
    pub y1: i32,
    pub x2: i32,
    pub y2: i32,
    pub score: i32,
    pub label: usize,
}

impl BoxInfo {

    /// Extent along the y axis.
    pub open spec fn spec_width(&self) -> int {
        self.y2 - self.y1
    }

    /// Extent along the x axis.
    pub open spec fn spec_height(&self) -> int {
        self.x2 - self.x1
    }

    pub open spec fn spec_area(&self) -> int {
        (self.x2 - self.x1) * (self.y2 - self.y1)
    }

    pub fn new(x1: i32, y1: i32, x2: i32, y2: i32, score: i32, label: usize) -> (r: Self)
        ensures
            r.x1 == x1,
            r.y1 == y1,
            r.x2 == x2,
            r.y2 == y2,
            r.score == score,
            r.label == label,
    {
        BoxInfo { x1, y1, x2, y2, score, label }
    }

    /// `y2 - y1`: the y extent is called the width.
    pub fn width(&self) -> (r: i64)
        ensures
            r == self.spec_width(),
    {
        self.y2 as i64 - self.y1 as i64
    }

    /// `x2 - x1`: the x extent is called the height.
    pub fn height(&self) -> (r: i64)
        ensures
            r == self.spec_height(),
    {
        self.x2 as i64 - self.x1 as i64
    }

    pub fn x(&self) -> (r: i32)
        ensures
            r == self.x2,
    {
        self.x2
    }

    pub fn y(&self) -> (r: i32)
        ensures
            r == self.y2,
    {
        self.y2
    }

}

/// `v / 2` rounded down.
pub open spec fn half_down(v: int) -> int {
    if v >= 0 {
        v / 2
    } else {
        -((-v + 1) / 2)
    }
}

/// `v / 2` rounded down, for values well inside `i128`.
pub(crate) fn halve_down(v: i128) -> (r: i128)
    requires
        -0x1_0000_0000_0000_0000 <= v <= 0x1_0000_0000_0000_0000,
    ensures
        r == half_down(v as int),
{
    if v >= 0 {
        v / 2
    } else {
        -((-v + 1) / 2)
    }
}

pub open spec fn max_int(a: int, b: int) -> int {
    if a >= b { a } else { b }
}

pub open spec fn min_int(a: int, b: int) -> int {
    if a <= b { a } else { b }
}

/// Area of the overlap of two boxes, with negative extents clamped to zero.
pub open spec fn intersection_area(a: BoxInfo, b: BoxInfo) -> int {
    let w = max_int(0, min_int(a.x2 as int, b.x2 as int) - max_int(a.x1 as int, b.x1 as int));
    let h = max_int(0, min_int(a.y2 as int, b.y2 as int) - max_int(a.y1 as int, b.y1 as int));
    w * h
}

pub open spec fn union_area(a: BoxInfo, b: BoxInfo) -> int {
    a.spec_area() + b.spec_area() - intersection_area(a, b)
}

/// `iou(a, b) >= threshold / SCALE`. A pair whose union is not positive has
/// no defined ratio and counts as not overlapping.
pub open spec fn iou_at_least(a: BoxInfo, b: BoxInfo, threshold: u32) -> bool {
    union_area(a, b) > 0 && intersection_area(a, b) * SCALE >= threshold * union_area(a, b)
}

/// Decides `iou(a, b) >= threshold / SCALE` exactly, in integer arithmetic.
pub fn iou_reaches(a: &BoxInfo, b: &BoxInfo, threshold: u32) -> (r: bool)
    ensures
        r == iou_at_least(*a, *b, threshold),
{
    let ix1: i64 = if a.x1 >= b.x1 { a.x1 as i64 } else { b.x1 as i64 };
    let iy1: i64 = if a.y1 >= b.y1 { a.y1 as i64 } else { b.y1 as i64 };
    let ix2: i64 = if a.x2 <= b.x2 { a.x2 as i64 } else { b.x2 as i64 };
    let iy2: i64 = if a.y2 <= b.y2 { a.y2 as i64 } else { b.y2 as i64 };
    let w: i64 = if ix2 - ix1 >= 0 { ix2 - ix1 } else { 0 };
    let h: i64 = if iy2 - iy1 >= 0 { iy2 - iy1 } else { 0 };
    assert(0 <= w < 0x1_0000_0000 && 0 <= h < 0x1_0000_0000);
    proof {
        lemma_bounded_product(w as int, h as int);
    }
    let inter: i128 = (w as i128) * (h as i128);
    let dxa: i128 = a.x2 as i128 - a.x1 as i128;
    let dya: i128 = a.y2 as i128 - a.y1 as i128;
    let dxb: i128 = b.x2 as i128 - b.x1 as i128;
    let dyb: i128 = b.y2 as i128 - b.y1 as i128;
    assert(-0x1_0000_0000 < dxa < 0x1_0000_0000 && -0x1_0000_0000 < dya < 0x1_0000_0000);
    assert(-0x1_0000_0000 < dxb < 0x1_0000_0000 && -0x1_0000_0000 < dyb < 0x1_0000_0000);
    proof {
        lemma_bounded_product(dxa as int, dya as int);
        lemma_bounded_product(dxb as int, dyb as int);
    }
    let area_a: i128 = dxa * dya;
    let area_b: i128 = dxb * dyb;
    let union: i128 = area_a + area_b - inter;
    if union <= 0 {
        return false;
    }
    proof {
        assert(inter * (SCALE as int) <= 0x1_0000_0000_0000_0000 * 1_000_000) by (nonlinear_arith)
            requires 0 <= inter <= 0x1_0000_0000_0000_0000;
        assert((threshold as int) * union <= 0x1_0000_0000 * 0x4_0000_0000_0000_0000) by (nonlinear_arith)
            requires 0 < union <= 0x4_0000_0000_0000_0000, 0 <= threshold < 0x1_0000_0000;
    }
    inter * (SCALE as i128) >= (threshold as i128) * union
}

proof fn lemma_bounded_product(a: int, b: int)
    requires
        -0x1_0000_0000 < a < 0x1_0000_0000,
        -0x1_0000_0000 < b < 0x1_0000_0000,
    ensures
        -0x1_0000_0000_0000_0000 <= a * b <= 0x1_0000_0000_0000_0000,
{
    assert(-0x1_0000_0000_0000_0000 <= a * b <= 0x1_0000_0000_0000_0000) by (nonlinear_arith)
        requires -0x1_0000_0000 < a < 0x1_0000_0000, -0x1_0000_0000 < b < 0x1_0000_0000;
}

} // verus!
