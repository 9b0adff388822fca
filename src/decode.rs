use vstd::prelude::*;

use crate::boxes::{half_down, halve_down, BoxInfo};

verus! {

/// Shape facts of a loaded model, fixed once the model is loaded.
pub struct InferenceInfo {
    pub in_width: u32,
    pub in_height: u32,
    pub n_proposal: usize,
    pub input0_shape: Vec<usize>,
}

/// Decoder settings. The objectness threshold is in the tensor's fixed-point
/// units; the ratios map model resolution to source-image resolution.
#[derive(Clone, Copy, Debug, PartialEq, Eq, Structural)]
pub struct DecodeParams {
    pub conf_threshold: i32,
    pub conf_idx: usize,
    pub cls_idx_offset: usize,
    pub width_ratio: u32,
    pub height_ratio: u32,
}

#[derive(Clone, Copy, Debug, PartialEq, Eq, Structural)]
pub enum DecodeError {
    /// The tensor's length is not `n_proposal * n_cols`, or a row is too short
    /// for the box fields and the objectness index.
    MalformedTensor,
    /// A kept proposal's corner does not fit an `i32` coordinate.
    CoordinateOverflow,
}

pub open spec fn shape_ok(len: nat, n_proposal: nat, n_cols: nat, params: DecodeParams) -> bool {
    &&& len == n_proposal * n_cols
    &&& n_proposal == 0 || (n_cols >= 4 && params.conf_idx < n_cols)
}

/// Entry `c` of row `n` of the row-major `[n_proposal, n_cols]` output.
pub open spec fn cell(t: Seq<i32>, n_cols: nat, n: int, c: int) -> int {
    t[n * n_cols + c] as int
}

/// Index of the first largest entry of `s` (0 for an empty `s`).
pub open spec fn first_max_index(s: Seq<i32>) -> int
    decreases s.len(),
{
    if s.len() <= 1 {
        0
    } else {
        let k = first_max_index(s.drop_last());
        if s.last() > s[k] {
            s.len() - 1
        } else {
            k
        }
    }
}

/// The class probabilities of row `n`: entries `[cls_idx_offset, n_cols)`.
pub open spec fn class_slice(t: Seq<i32>, n_cols: nat, n: int, params: DecodeParams) -> Seq<i32> {
    t.subrange(n * n_cols + params.cls_idx_offset, n * n_cols + n_cols)
}

/// Corners `(x_min, y_min, x_max, y_max)` of row `n`: the center `(cx, cy)` and
/// size `(w, h)` are entries 1, 0, 3, 2 scaled by the axis ratios; the half
/// size is rounded down on the low side so that the box keeps its full size.
pub open spec fn corners(t: Seq<i32>, n_cols: nat, n: int, params: DecodeParams) -> (int, int, int, int) {
    let cy = cell(t, n_cols, n, 0) * params.height_ratio;
    let cx = cell(t, n_cols, n, 1) * params.width_ratio;
    let h = cell(t, n_cols, n, 2) * params.height_ratio;
    let w = cell(t, n_cols, n, 3) * params.width_ratio;
    (cx - half_down(w), cy - half_down(h), cx - half_down(w) + w, cy - half_down(h) + h)
}

pub open spec fn fits_i32(v: int) -> bool {
    i32::MIN <= v <= i32::MAX
}

pub open spec fn corners_fit(t: Seq<i32>, n_cols: nat, n: int, params: DecodeParams) -> bool {
    let c = corners(t, n_cols, n, params);
    fits_i32(c.0) && fits_i32(c.1) && fits_i32(c.2) && fits_i32(c.3)
}

/// Row `n` yields a candidate: its objectness is strictly above the threshold
/// and its class slice is not empty.
pub open spec fn emits(t: Seq<i32>, n_cols: nat, n: int, params: DecodeParams) -> bool {
    &&& cell(t, n_cols, n, params.conf_idx as int) > params.conf_threshold
    &&& params.cls_idx_offset < n_cols
}

/// The candidate of row `n`: its corners, the winning class and that class's probability.
pub open spec fn candidate(t: Seq<i32>, n_cols: nat, n: int, params: DecodeParams) -> BoxInfo {
    let c = corners(t, n_cols, n, params);
    let probs = class_slice(t, n_cols, n, params);
    let k = first_max_index(probs);
    BoxInfo {
        x1: c.0 as i32,
        y1: c.1 as i32,
        x2: c.2 as i32,
        y2: c.3 as i32,
        score: probs[k],
        label: k as usize,
    }
}

/// The candidates of the first `n` rows, in row order.
pub open spec fn decode_rows(t: Seq<i32>, n_cols: nat, n: int, params: DecodeParams) -> Seq<BoxInfo>
    decreases n,
{
    if n <= 0 {
        Seq::empty()
    } else if emits(t, n_cols, n - 1, params) {
        decode_rows(t, n_cols, n - 1, params).push(candidate(t, n_cols, n - 1, params))
    } else {
        decode_rows(t, n_cols, n - 1, params)
    }
}

/// Every emitting row among the first `n` has corners that fit `i32`.
pub open spec fn rows_fit(t: Seq<i32>, n_cols: nat, n: int, params: DecodeParams) -> bool {
    forall|m: int| 0 <= m < n && emits(t, n_cols, m, params) ==> corners_fit(t, n_cols, m, params)
}

/// The label that decoding picks is the first most probable class: no entry
/// is larger, and every entry before it is smaller.
pub proof fn lemma_first_max_index(s: Seq<i32>)
    requires
        s.len() > 0,
    ensures
        0 <= first_max_index(s) < s.len(),
        forall|i: int| 0 <= i < s.len() ==> #[trigger] s[i] <= s[first_max_index(s)],
        forall|i: int| 0 <= i < first_max_index(s) ==> #[trigger] s[i] < s[first_max_index(s)],
    decreases s.len(),
{
    if s.len() > 1 {
        let d = s.drop_last();
        lemma_first_max_index(d);
        assert forall|i: int| 0 <= i < d.len() implies #[trigger] s[i] == d[i] by {}
    }
}

/// Decoding keeps exactly the proposals whose objectness is strictly above the
/// threshold (given a non-empty class slice): each of them yields its
/// candidate, and every candidate comes from one of them.
pub proof fn lemma_decode_selects(t: Seq<i32>, n_cols: nat, n: int, params: DecodeParams)
    ensures
        forall|m: int|
            0 <= m < n && emits(t, n_cols, m, params) ==> decode_rows(t, n_cols, n, params).contains(
                #[trigger] candidate(t, n_cols, m, params),
            ),
        forall|i: int|
            0 <= i < decode_rows(t, n_cols, n, params).len() ==> exists|m: int|
                0 <= m < n && emits(t, n_cols, m, params) && #[trigger] decode_rows(t, n_cols, n, params)[i]
                    == candidate(t, n_cols, m, params),
    decreases n,
{
    if n > 0 {
        lemma_decode_selects(t, n_cols, n - 1, params);
        let prev = decode_rows(t, n_cols, n - 1, params);
        let cur = decode_rows(t, n_cols, n, params);
        assert forall|m: int|
            0 <= m < n && emits(t, n_cols, m, params) implies cur.contains(#[trigger] candidate(t, n_cols, m, params)) by {
            if m < n - 1 {
                let k = choose|k: int| 0 <= k < prev.len() && prev[k] == candidate(t, n_cols, m, params);
                assert(cur[k] == prev[k]);
            } else {
                assert(cur[cur.len() - 1] == candidate(t, n_cols, m, params));
            }
        }
        assert forall|i: int| 0 <= i < cur.len() implies exists|m: int|
            0 <= m < n && emits(t, n_cols, m, params) && #[trigger] cur[i] == candidate(t, n_cols, m, params) by {
            if i < prev.len() {
                assert(cur[i] == prev[i]);
                let m = choose|m: int| 0 <= m < n - 1 && emits(t, n_cols, m, params) && prev[i] == candidate(t, n_cols, m, params);
                assert(0 <= m < n && emits(t, n_cols, m, params) && cur[i] == candidate(t, n_cols, m, params));
            } else {
                assert(emits(t, n_cols, n - 1, params) && cur[i] == candidate(t, n_cols, n - 1, params));
            }
        }
    }
}

/// The rows among the first `n` that yield a candidate, in increasing order.
pub open spec fn kept_rows(t: Seq<i32>, n_cols: nat, n: int, params: DecodeParams) -> Seq<int>
    decreases n,
{
    if n <= 0 {
        Seq::empty()
    } else if emits(t, n_cols, n - 1, params) {
        kept_rows(t, n_cols, n - 1, params).push(n - 1)
    } else {
        kept_rows(t, n_cols, n - 1, params)
    }
}

/// Decoding yields exactly one candidate for each row whose objectness is
/// strictly above the threshold (given a non-empty class slice), none for any
/// other row, and keeps row order: candidate `i` comes from row `kept_rows[i]`,
/// these rows increase, and every such row is among them.
pub proof fn lemma_decode_rows_in_order(t: Seq<i32>, n_cols: nat, n: int, params: DecodeParams)
    ensures
        decode_rows(t, n_cols, n, params).len() == kept_rows(t, n_cols, n, params).len(),
        forall|i: int|
            #![trigger kept_rows(t, n_cols, n, params)[i]]
            0 <= i < kept_rows(t, n_cols, n, params).len() ==> {
                let m = kept_rows(t, n_cols, n, params)[i];
                &&& 0 <= m < n
                &&& emits(t, n_cols, m, params)
                &&& decode_rows(t, n_cols, n, params)[i] == candidate(t, n_cols, m, params)
            },
        forall|i: int, j: int|
            0 <= i < j < kept_rows(t, n_cols, n, params).len() ==> kept_rows(t, n_cols, n, params)[i]
                < kept_rows(t, n_cols, n, params)[j],
        forall|m: int|
            0 <= m < n && emits(t, n_cols, m, params) ==> #[trigger] kept_rows(t, n_cols, n, params).contains(m),
    decreases n,
{
    if n > 0 {
        lemma_decode_rows_in_order(t, n_cols, n - 1, params);
        let prev = kept_rows(t, n_cols, n - 1, params);
        let cur = kept_rows(t, n_cols, n, params);
        assert forall|m: int| 0 <= m < n && emits(t, n_cols, m, params) implies #[trigger] cur.contains(m) by {
            if m < n - 1 {
                assert(prev.contains(m));
                let k = choose|k: int| 0 <= k < prev.len() && prev[k] == m;
                assert(cur[k] == m);
            } else {
                assert(cur[cur.len() - 1] == m);
            }
        }
    }
}

proof fn lemma_cell_index(n: int, c: int, n_proposal: int, n_cols: int)
    requires
        0 <= n < n_proposal,
        0 <= c < n_cols,
    ensures
        0 <= n * n_cols,
        n * n_cols + c < n_proposal * n_cols,
        n * n_cols + n_cols <= n_proposal * n_cols,
{
    assert(0 <= n * n_cols) by (nonlinear_arith)
        requires 0 <= n, 0 <= n_cols;
    assert(n * n_cols + n_cols <= n_proposal * n_cols) by (nonlinear_arith)
        requires 0 <= n < n_proposal, 0 <= n_cols;
}

fn in_i32_range(v: i128) -> (r: bool)
    ensures
        r == fits_i32(v as int),
{
    -0x8000_0000 <= v && v <= 0x7fff_ffff
}

/// Index of the first largest entry of `t[start..end)`, counted from `start`.
fn best_class(t: &Vec<i32>, start: usize, end: usize) -> (r: usize)
    requires
        start < end <= t.len(),
    ensures
        r == first_max_index(t@.subrange(start as int, end as int)),
        r < end - start,
{
    let mut k: usize = 0;
    let mut i: usize = start + 1;
    assert(t@.subrange(start as int, i as int).len() == 1);
    while i < end
        invariant
            start < i <= end <= t.len(),
            k < i - start,
            k == first_max_index(t@.subrange(start as int, i as int)),
        decreases end - i,
    {
        assert(t@.subrange(start as int, i + 1).drop_last() =~= t@.subrange(start as int, i as int));
        if t[i] > t[start + k] {
            k = i - start;
        }
        i = i + 1;
    }
    k
}

/// Turns raw model output into candidates: the row-major `[n_proposal, n_cols]`
/// tensor `output` holds, per proposal, `cy, cx, h, w` at entries 0 to 3, the
/// objectness at `conf_idx` and the class probabilities from `cls_idx_offset`
/// on, all in fixed point. A proposal is kept exactly when its objectness is
/// strictly above the threshold; its label is the first most probable class
/// and its score that class's probability.
pub fn decode(output: &Vec<i32>, n_cols: usize, info: &InferenceInfo, params: DecodeParams) -> (r: Result<Vec<BoxInfo>, DecodeError>)
    ensures
        !shape_ok(output@.len(), info.n_proposal as nat, n_cols as nat, params) <==> r == Err::<Vec<BoxInfo>, DecodeError>(DecodeError::MalformedTensor),
        shape_ok(output@.len(), info.n_proposal as nat, n_cols as nat, params) ==> {
            &&& r is Ok <==> rows_fit(output@, n_cols as nat, info.n_proposal as int, params)
            &&& !rows_fit(output@, n_cols as nat, info.n_proposal as int, params) ==> r == Err::<Vec<BoxInfo>, DecodeError>(DecodeError::CoordinateOverflow)
            &&& r is Ok ==> r->Ok_0@ == decode_rows(output@, n_cols as nat, info.n_proposal as int, params)
        },
{
    let n_proposal = info.n_proposal;
    let len = output.len();
    let shape = match n_proposal.checked_mul(n_cols) {
        Some(total) => {
            assert(total == n_proposal as nat * n_cols as nat);
            total == len && (n_proposal == 0 || (n_cols >= 4 && params.conf_idx < n_cols))
        },
        None => {
            assert(n_proposal as nat * n_cols as nat > usize::MAX);
            false
        },
    };
    assert(shape == shape_ok(output@.len(), n_proposal as nat, n_cols as nat, params));
    if !shape {
        return Err(DecodeError::MalformedTensor);
    }
    let mut boxes: Vec<BoxInfo> = Vec::new();
    let mut n: usize = 0;
    while n < n_proposal
        invariant
            shape_ok(output@.len(), n_proposal as nat, n_cols as nat, params),
            len == output@.len(),
            n_proposal == info.n_proposal,
            n <= n_proposal,
            rows_fit(output@, n_cols as nat, n as int, params),
            boxes@ == decode_rows(output@, n_cols as nat, n as int, params),
        decreases n_proposal - n,
    {
        proof {
            lemma_cell_index(n as int, params.conf_idx as int, n_proposal as int, n_cols as int);
            lemma_cell_index(n as int, 3, n_proposal as int, n_cols as int);
            assert(output@.len() == n_proposal as int * n_cols as int);
        }
        let base: usize = n * n_cols;
        let objectness = output[base + params.conf_idx];
        if objectness > params.conf_threshold && params.cls_idx_offset < n_cols {
            proof {
                assert(forall|a: int, b: int| -0x8000_0000 <= a < 0x8000_0000 && 0 <= b < 0x1_0000_0000
                    ==> #[trigger] (a * b) <= 0x8000_0000_0000_0000 && -0x8000_0000_0000_0000 <= a * b) by (nonlinear_arith);
            }
            let cy: i128 = output[base] as i128 * params.height_ratio as i128;
            let cx: i128 = output[base + 1] as i128 * params.width_ratio as i128;
            let h: i128 = output[base + 2] as i128 * params.height_ratio as i128;
            let w: i128 = output[base + 3] as i128 * params.width_ratio as i128;
            let x_min: i128 = cx - halve_down(w);
            let y_min: i128 = cy - halve_down(h);
            let x_max: i128 = x_min + w;
            let y_max: i128 = y_min + h;
            if !(in_i32_range(x_min) && in_i32_range(y_min) && in_i32_range(x_max) && in_i32_range(y_max)) {
                assert(emits(output@, n_cols as nat, n as int, params));
                assert(!corners_fit(output@, n_cols as nat, n as int, params));
                assert(!rows_fit(output@, n_cols as nat, n_proposal as int, params));
                return Err(DecodeError::CoordinateOverflow);
            }
            let label = best_class(output, base + params.cls_idx_offset, base + n_cols);
            let score = output[base + params.cls_idx_offset + label];
            let b = BoxInfo::new(x_min as i32, y_min as i32, x_max as i32, y_max as i32, score, label);
            proof {
                let ghost s = class_slice(output@, n_cols as nat, n as int, params);
                assert(s[label as int] == score);
                assert(b == candidate(output@, n_cols as nat, n as int, params));
            }
            boxes.push(b);
        }
        n = n + 1;
    }
    Ok(boxes)
}

} // verus!
