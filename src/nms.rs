use vstd::prelude::*;

use crate::boxes::{intersection_area, iou_at_least, iou_reaches, union_area, BoxInfo, SCALE};

verus! {

/// `x` placed into the score-descending sequence `s`, ahead of every box whose
/// score is not higher than its own.
pub open spec fn insert_ranked(x: BoxInfo, s: Seq<BoxInfo>) -> Seq<BoxInfo>
    decreases s.len(),
{
    if s.len() == 0 {
        seq![x]
    } else if s[0].score <= x.score {
        seq![x] + s
    } else {
        seq![s[0]] + insert_ranked(x, s.drop_first())
    }
}

/// Stable sort by descending score: boxes of equal score keep their order.
pub open spec fn rank_by_score(s: Seq<BoxInfo>) -> Seq<BoxInfo>
    decreases s.len(),
{
    if s.len() == 0 {
        Seq::empty()
    } else {
        insert_ranked(s[0], rank_by_score(s.drop_first()))
    }
}

pub open spec fn is_ranked(s: Seq<BoxInfo>) -> bool {
    forall|i: int, j: int| 0 <= i < j < s.len() ==> s[i].score >= s[j].score
}

/// The boxes of `s` that `keeper` does not suppress, in their order.
pub open spec fn survivors(keeper: BoxInfo, s: Seq<BoxInfo>, threshold: u32) -> Seq<BoxInfo>
    decreases s.len(),
{
    if s.len() == 0 {
        Seq::empty()
    } else {
        let kept = survivors(keeper, s.drop_last(), threshold);
        if iou_at_least(keeper, s.last(), threshold) {
            kept
        } else {
            kept.push(s.last())
        }
    }
}

/// Greedy suppression of a ranked sequence: its first box is kept and
/// suppresses every later box that overlaps it enough; what is left is
/// handled the same way.
pub open spec fn greedy(s: Seq<BoxInfo>, threshold: u32) -> Seq<BoxInfo>
    decreases s.len(),
    via greedy_decreases
{
    if s.len() == 0 {
        Seq::empty()
    } else {
        seq![s[0]] + greedy(survivors(s[0], s.drop_first(), threshold), threshold)
    }
}

#[via_fn]
proof fn greedy_decreases(s: Seq<BoxInfo>, threshold: u32) {
    if s.len() > 0 {
        lemma_survivors_len(s[0], s.drop_first(), threshold);
    }
}

/// What `BoxInfo::nms` returns: greedy suppression over the boxes ranked by score.
pub open spec fn nms_spec(s: Seq<BoxInfo>, threshold: u32) -> Seq<BoxInfo> {
    greedy(rank_by_score(s), threshold)
}

proof fn lemma_survivors_len(keeper: BoxInfo, s: Seq<BoxInfo>, threshold: u32)
    ensures
        survivors(keeper, s, threshold).len() <= s.len(),
    decreases s.len(),
{
    if s.len() > 0 {
        lemma_survivors_len(keeper, s.drop_last(), threshold);
    }
}

proof fn lemma_insert_ranked_at(x: BoxInfo, s: Seq<BoxInfo>, k: int)
    requires
        0 <= k <= s.len(),
        forall|i: int| 0 <= i < k ==> s[i].score > x.score,
        k == s.len() || s[k].score <= x.score,
    ensures
        insert_ranked(x, s) == s.insert(k, x),
    decreases s.len(),
{
    if s.len() == 0 {
        assert(s.insert(k, x) =~= seq![x]);
    } else if k == 0 {
        assert(s.insert(k, x) =~= seq![x] + s);
    } else {
        let t = s.drop_first();
        lemma_insert_ranked_at(x, t, k - 1);
        assert(s.insert(k, x) =~= seq![s[0]] + t.insert(k - 1, x));
    }
}


proof fn lemma_survivors_members(keeper: BoxInfo, s: Seq<BoxInfo>, threshold: u32)
    ensures
        forall|i: int|
            0 <= i < survivors(keeper, s, threshold).len() ==> {
                &&& s.contains(#[trigger] survivors(keeper, s, threshold)[i])
                &&& !iou_at_least(keeper, survivors(keeper, s, threshold)[i], threshold)
            },
        is_ranked(s) ==> is_ranked(survivors(keeper, s, threshold)),
    decreases s.len(),
{
    if s.len() > 0 {
        let d = s.drop_last();
        lemma_survivors_members(keeper, d, threshold);
        let kept = survivors(keeper, d, threshold);
        let out = survivors(keeper, s, threshold);
        assert forall|i: int| 0 <= i < out.len() implies s.contains(#[trigger] out[i]) by {
            if i < kept.len() {
                assert(d.contains(kept[i]));
                let j = choose|j: int| 0 <= j < d.len() && d[j] == kept[i];
                assert(s[j] == out[i]);
            } else {
                assert(s[s.len() - 1] == out[i]);
            }
        }
        if is_ranked(s) {
            assert(is_ranked(d));
            assert forall|i: int, j: int| 0 <= i < j < out.len() implies out[i].score >= out[j].score by {
                if j >= kept.len() {
                    assert(d.contains(kept[i]));
                    let m = choose|m: int| 0 <= m < d.len() && d[m] == kept[i];
                    assert(s[m] == kept[i]);
                }
            }
        }
    }
}

proof fn lemma_survivors_keep_all(keeper: BoxInfo, s: Seq<BoxInfo>, threshold: u32)
    requires
        forall|i: int| 0 <= i < s.len() ==> !iou_at_least(keeper, #[trigger] s[i], threshold),
    ensures
        survivors(keeper, s, threshold) == s,
    decreases s.len(),
{
    if s.len() > 0 {
        lemma_survivors_keep_all(keeper, s.drop_last(), threshold);
        assert(s.drop_last().push(s.last()) =~= s);
    }
}

proof fn lemma_greedy_members(s: Seq<BoxInfo>, threshold: u32)
    ensures
        greedy(s, threshold).len() <= s.len(),
        forall|i: int| 0 <= i < greedy(s, threshold).len() ==> s.contains(#[trigger] greedy(s, threshold)[i]),
        is_ranked(s) ==> is_ranked(greedy(s, threshold)),
    decreases s.len(),
{
    if s.len() > 0 {
        let rest = survivors(s[0], s.drop_first(), threshold);
        lemma_survivors_len(s[0], s.drop_first(), threshold);
        lemma_survivors_members(s[0], s.drop_first(), threshold);
        lemma_greedy_members(rest, threshold);
        let g = greedy(s, threshold);
        let tail = greedy(rest, threshold);
        assert(g == seq![s[0]] + tail);
        assert forall|i: int| 0 <= i < g.len() implies s.contains(#[trigger] g[i]) by {
            if i == 0 {
                assert(s[0] == g[i]);
            } else {
                assert(g[i] == tail[i - 1]);
                assert(rest.contains(tail[i - 1]));
                let m = choose|m: int| 0 <= m < rest.len() && rest[m] == tail[i - 1];
                assert(s.drop_first().contains(rest[m]));
                let n = choose|n: int| 0 <= n < s.drop_first().len() && s.drop_first()[n] == rest[m];
                assert(s[n + 1] == g[i]);
            }
        }
        if is_ranked(s) {
            assert(is_ranked(s.drop_first()));
            assert forall|i: int, j: int| 0 <= i < j < g.len() implies g[i].score >= g[j].score by {
                if i == 0 {
                    assert(s.contains(g[j]));
                    let n = choose|n: int| 0 <= n < s.len() && s[n] == g[j];
                    if n > 0 {
                        assert(s[0].score >= s[n].score);
                    }
                } else {
                    assert(g[i] == tail[i - 1] && g[j] == tail[j - 1]);
                }
            }
        }
    }
}

proof fn lemma_greedy_of_greedy(s: Seq<BoxInfo>, threshold: u32)
    ensures
        greedy(greedy(s, threshold), threshold) == greedy(s, threshold),
    decreases s.len(),
{
    if s.len() > 0 {
        let rest = survivors(s[0], s.drop_first(), threshold);
        lemma_survivors_len(s[0], s.drop_first(), threshold);
        lemma_survivors_members(s[0], s.drop_first(), threshold);
        lemma_greedy_members(rest, threshold);
        lemma_greedy_of_greedy(rest, threshold);
        let g = greedy(s, threshold);
        let tail = greedy(rest, threshold);
        assert(g.drop_first() =~= tail);
        assert forall|i: int| 0 <= i < tail.len() implies !iou_at_least(s[0], #[trigger] tail[i], threshold) by {
            assert(rest.contains(tail[i]));
        }
        lemma_survivors_keep_all(s[0], tail, threshold);
        assert(g[0] == s[0]);
    }
}

proof fn lemma_insert_ranked_facts(x: BoxInfo, s: Seq<BoxInfo>)
    ensures
        insert_ranked(x, s).len() == s.len() + 1,
        forall|y: BoxInfo| #[trigger] insert_ranked(x, s).contains(y) <==> (y == x || s.contains(y)),
        is_ranked(s) ==> is_ranked(insert_ranked(x, s)),
    decreases s.len(),
{
    let r = insert_ranked(x, s);
    if s.len() == 0 {
        assert forall|y: BoxInfo| #[trigger] r.contains(y) <==> (y == x || s.contains(y)) by {
            if y == x {
                assert(r[0] == y);
            }
        }
    } else if s[0].score <= x.score {
        assert forall|y: BoxInfo| #[trigger] r.contains(y) <==> (y == x || s.contains(y)) by {
            if y == x {
                assert(r[0] == y);
            }
            if s.contains(y) {
                let n = choose|n: int| 0 <= n < s.len() && s[n] == y;
                assert(r[n + 1] == y);
            }
            if r.contains(y) {
                let n = choose|n: int| 0 <= n < r.len() && r[n] == y;
                if n > 0 {
                    assert(s[n - 1] == y);
                }
            }
        }
    } else {
        let t = s.drop_first();
        lemma_insert_ranked_facts(x, t);
        let rt = insert_ranked(x, t);
        assert(r == seq![s[0]] + rt);
        assert forall|y: BoxInfo| #[trigger] r.contains(y) <==> (y == x || s.contains(y)) by {
            if r.contains(y) {
                let n = choose|n: int| 0 <= n < r.len() && r[n] == y;
                if n == 0 {
                    assert(s[0] == y);
                } else {
                    assert(rt[n - 1] == y);
                    assert(rt.contains(y));
                    if t.contains(y) {
                        let m = choose|m: int| 0 <= m < t.len() && t[m] == y;
                        assert(s[m + 1] == y);
                    }
                }
            }
            if y == x {
                assert(rt.contains(y));
                let m = choose|m: int| 0 <= m < rt.len() && rt[m] == y;
                assert(r[m + 1] == y);
            }
            if s.contains(y) {
                let n = choose|n: int| 0 <= n < s.len() && s[n] == y;
                if n == 0 {
                    assert(r[0] == y);
                } else {
                    assert(t[n - 1] == y);
                    assert(t.contains(y));
                    assert(rt.contains(y));
                    let m = choose|m: int| 0 <= m < rt.len() && rt[m] == y;
                    assert(r[m + 1] == y);
                }
            }
        }
        if is_ranked(s) {
            assert(is_ranked(t));
            assert forall|i: int, j: int| 0 <= i < j < r.len() implies r[i].score >= r[j].score by {
                if i == 0 {
                    assert(r[j] == rt[j - 1]);
                    assert(rt.contains(rt[j - 1]));
                    if rt[j - 1] != x {
                        assert(t.contains(rt[j - 1]));
                        let m = choose|m: int| 0 <= m < t.len() && t[m] == rt[j - 1];
                        assert(s[m + 1] == t[m]);
                    }
                } else {
                    assert(r[i] == rt[i - 1] && r[j] == rt[j - 1]);
                }
            }
        }
    }
}

proof fn lemma_rank_facts(s: Seq<BoxInfo>)
    ensures
        rank_by_score(s).len() == s.len(),
        forall|y: BoxInfo| #[trigger] rank_by_score(s).contains(y) <==> s.contains(y),
        is_ranked(rank_by_score(s)),
    decreases s.len(),
{
    if s.len() > 0 {
        let t = s.drop_first();
        lemma_rank_facts(t);
        lemma_insert_ranked_facts(s[0], rank_by_score(t));
        assert forall|y: BoxInfo| #[trigger] rank_by_score(s).contains(y) <==> s.contains(y) by {
            if t.contains(y) {
                let m = choose|m: int| 0 <= m < t.len() && t[m] == y;
                assert(s[m + 1] == y);
            }
            if s.contains(y) && y != s[0] {
                let n = choose|n: int| 0 <= n < s.len() && s[n] == y;
                assert(t[n - 1] == y);
            }
            if y == s[0] {
                assert(s.contains(s[0]));
            }
        }
    }
}

proof fn lemma_rank_of_ranked(s: Seq<BoxInfo>)
    requires
        is_ranked(s),
    ensures
        rank_by_score(s) == s,
    decreases s.len(),
{
    if s.len() > 0 {
        let t = s.drop_first();
        assert(is_ranked(t));
        lemma_rank_of_ranked(t);
        if t.len() > 0 {
            assert(t[0].score <= s[0].score);
        }
        assert(seq![s[0]] + t =~= s);
    }
}

/// Suppression is idempotent: suppressing the output of `nms` again, with the
/// same threshold, returns it unchanged.
pub proof fn lemma_nms_idempotent(boxes: Seq<BoxInfo>, threshold: u32)
    ensures
        nms_spec(nms_spec(boxes, threshold), threshold) == nms_spec(boxes, threshold),
{
    let ranked = rank_by_score(boxes);
    lemma_rank_facts(boxes);
    lemma_greedy_members(ranked, threshold);
    lemma_rank_of_ranked(greedy(ranked, threshold));
    lemma_greedy_of_greedy(ranked, threshold);
}

proof fn lemma_survivors_multiset(keeper: BoxInfo, s: Seq<BoxInfo>, threshold: u32)
    ensures
        survivors(keeper, s, threshold).to_multiset().subset_of(s.to_multiset()),
    decreases s.len(),
{
    broadcast use vstd::multiset::group_multiset_axioms, vstd::seq_lib::group_to_multiset_ensures;

    if s.len() > 0 {
        let d = s.drop_last();
        lemma_survivors_multiset(keeper, d, threshold);
        assert(d.push(s.last()) =~= s);
        let kept = survivors(keeper, d, threshold);
        assert forall|v: BoxInfo|
            #[trigger] survivors(keeper, s, threshold).to_multiset().count(v) <= s.to_multiset().count(v) by {
            assert(kept.to_multiset().count(v) <= d.to_multiset().count(v));
        }
    }
}

proof fn lemma_greedy_multiset(s: Seq<BoxInfo>, threshold: u32)
    ensures
        greedy(s, threshold).to_multiset().subset_of(s.to_multiset()),
    decreases s.len(),
{
    broadcast use vstd::multiset::group_multiset_axioms, vstd::seq_lib::group_to_multiset_ensures;

    if s.len() > 0 {
        let d = s.drop_first();
        let rest = survivors(s[0], d, threshold);
        lemma_survivors_len(s[0], d, threshold);
        lemma_survivors_multiset(s[0], d, threshold);
        lemma_greedy_multiset(rest, threshold);
        let g = greedy(rest, threshold);
        assert(greedy(s, threshold) =~= g.insert(0, s[0]));
        assert(s =~= d.insert(0, s[0]));
        assert forall|v: BoxInfo|
            #[trigger] greedy(s, threshold).to_multiset().count(v) <= s.to_multiset().count(v) by {
            assert(g.to_multiset().count(v) <= rest.to_multiset().count(v));
            assert(rest.to_multiset().count(v) <= d.to_multiset().count(v));
        }
    }
}

proof fn lemma_rank_multiset(s: Seq<BoxInfo>)
    ensures
        rank_by_score(s).to_multiset() == s.to_multiset(),
    decreases s.len(),
{
    broadcast use vstd::multiset::group_multiset_axioms, vstd::seq_lib::group_to_multiset_ensures;

    if s.len() > 0 {
        let t = s.drop_first();
        lemma_rank_multiset(t);
        lemma_insert_ranked_multiset(s[0], rank_by_score(t));
        assert(s =~= t.insert(0, s[0]));
        assert(rank_by_score(s).to_multiset() =~= s.to_multiset());
    }
}

proof fn lemma_insert_ranked_multiset(x: BoxInfo, s: Seq<BoxInfo>)
    ensures
        insert_ranked(x, s).to_multiset() == s.to_multiset().insert(x),
    decreases s.len(),
{
    broadcast use vstd::multiset::group_multiset_axioms, vstd::seq_lib::group_to_multiset_ensures;

    if s.len() == 0 {
        assert(insert_ranked(x, s) =~= s.insert(0, x));
    } else if s[0].score <= x.score {
        assert(insert_ranked(x, s) =~= s.insert(0, x));
    } else {
        let t = s.drop_first();
        lemma_insert_ranked_multiset(x, t);
        assert(insert_ranked(x, s) =~= insert_ranked(x, t).insert(0, s[0]));
        assert(s =~= t.insert(0, s[0]));
        assert(insert_ranked(x, s).to_multiset() =~= s.to_multiset().insert(x));
    }
}

/// Suppression never adds boxes: the output is no longer than the input and
/// each of its boxes is one of the input's, occurring in the output no more
/// often than in the input.
pub proof fn lemma_nms_subset(boxes: Seq<BoxInfo>, threshold: u32)
    ensures
        nms_spec(boxes, threshold).to_multiset().subset_of(boxes.to_multiset()),
        nms_spec(boxes, threshold).len() <= boxes.len(),
        forall|i: int|
            0 <= i < nms_spec(boxes, threshold).len() ==> boxes.contains(#[trigger] nms_spec(boxes, threshold)[i]),
{
    let ranked = rank_by_score(boxes);
    lemma_rank_facts(boxes);
    lemma_greedy_members(ranked, threshold);
    lemma_rank_multiset(boxes);
    lemma_greedy_multiset(ranked, threshold);
    assert forall|i: int| 0 <= i < nms_spec(boxes, threshold).len() implies boxes.contains(
        #[trigger] nms_spec(boxes, threshold)[i],
    ) by {
        assert(ranked.contains(nms_spec(boxes, threshold)[i]));
    }
}

proof fn lemma_pair_outcome(p: BoxInfo, q: BoxInfo, threshold: u32)
    requires
        p.score >= q.score,
    ensures
        rank_by_score(seq![p, q]) == seq![p, q],
        rank_by_score(seq![q, p]) == (if q.score < p.score { seq![p, q] } else { seq![q, p] }),
        nms_spec(seq![p, q], threshold) == (if iou_at_least(p, q, threshold) { seq![p] } else { seq![p, q] }),
{
    reveal_with_fuel(rank_by_score, 3);
    reveal_with_fuel(insert_ranked, 3);
    assert(seq![q].drop_first() =~= Seq::<BoxInfo>::empty());
    assert(seq![p, q].drop_first() =~= seq![q]);
    assert(seq![q, p].drop_first() =~= seq![p]);
    assert(seq![p].drop_first() =~= Seq::<BoxInfo>::empty());
    assert(rank_by_score(seq![p, q]) =~= seq![p, q]);
    let rest = survivors(p, seq![q], threshold);
    assert(seq![q].drop_last() =~= Seq::<BoxInfo>::empty());
    assert(Seq::<BoxInfo>::empty().push(q) =~= seq![q]);
    reveal_with_fuel(greedy, 3);
    reveal_with_fuel(survivors, 2);
    assert(survivors(p, Seq::<BoxInfo>::empty(), threshold) =~= Seq::<BoxInfo>::empty());
    lemma_survivors_len(p, seq![q], threshold);
    if iou_at_least(p, q, threshold) {
        assert(rest =~= Seq::<BoxInfo>::empty());
        assert(greedy(seq![p, q], threshold) =~= seq![p]);
    } else {
        assert(rest =~= seq![q]);
        assert(greedy(seq![q], threshold) =~= seq![q]);
        assert(greedy(seq![p, q], threshold) =~= seq![p, q]);
    }
}

/// Two boxes that do not overlap (intersection-over-union zero) both survive
/// suppression at any positive threshold.
pub proof fn lemma_disjoint_pair_kept(a: BoxInfo, b: BoxInfo, threshold: u32)
    requires
        threshold > 0,
        intersection_area(a, b) == 0,
    ensures
        nms_spec(seq![a, b], threshold).len() == 2,
        nms_spec(seq![a, b], threshold).contains(a),
        nms_spec(seq![a, b], threshold).contains(b),
{
    assert(intersection_area(b, a) == 0);
    assert forall|p: BoxInfo, q: BoxInfo| intersection_area(p, q) == 0 implies !iou_at_least(p, q, threshold) by {
        if union_area(p, q) > 0 {
            assert((threshold as int) * union_area(p, q) > 0) by (nonlinear_arith)
                requires threshold > 0, union_area(p, q) > 0;
        }
    }
    let r = nms_spec(seq![a, b], threshold);
    if a.score >= b.score {
        lemma_pair_outcome(a, b, threshold);
        assert(r[0] == a && r[1] == b);
    } else {
        lemma_pair_outcome(b, a, threshold);
        assert(rank_by_score(seq![a, b]) == seq![b, a]);
        assert(r[0] == b && r[1] == a);
    }
}

/// Of two boxes with the same positive-area geometry and different scores,
/// suppression at any threshold up to 1 keeps the higher-scoring one only.
pub proof fn lemma_identical_pair_keeps_best(a: BoxInfo, b: BoxInfo, threshold: u32)
    requires
        a.x1 == b.x1,
        a.y1 == b.y1,
        a.x2 == b.x2,
        a.y2 == b.y2,
        a.x1 < a.x2,
        a.y1 < a.y2,
        a.score > b.score,
        threshold <= SCALE,
    ensures
        nms_spec(seq![a, b], threshold) == seq![a],
        nms_spec(seq![b, a], threshold) == seq![a],
{
    let area = a.spec_area();
    assert(area > 0) by (nonlinear_arith)
        requires area == (a.x2 - a.x1) * (a.y2 - a.y1), a.x1 < a.x2, a.y1 < a.y2;
    assert(intersection_area(a, b) == area);
    assert(union_area(a, b) == area);
    assert(area * (SCALE as int) >= (threshold as int) * area) by (nonlinear_arith)
        requires area > 0, threshold <= SCALE;
    assert(iou_at_least(a, b, threshold));
    lemma_pair_outcome(a, b, threshold);
}

impl BoxInfo {
    /// Places `x` into the score-descending `v`, ahead of the boxes whose score
    /// is not higher.
    fn insert_ranked(v: &mut Vec<BoxInfo>, x: BoxInfo)
        ensures
            final(v)@ == insert_ranked(x, old(v)@),
    {
        let mut k: usize = 0;
        while k < v.len() && v[k].score > x.score
            invariant
                0 <= k <= v.len(),
                forall|i: int| 0 <= i < k ==> v@[i].score > x.score,
            decreases v.len() - k,
        {
            k = k + 1;
        }
        proof {
            lemma_insert_ranked_at(x, v@, k as int);
        }
        v.insert(k, x);
    }

    /// Sorts by descending score; boxes of equal score keep their order.
    fn rank_by_score(input: Vec<BoxInfo>) -> (r: Vec<BoxInfo>)
        ensures
            r@ == rank_by_score(input@),
    {
        let mut ranked: Vec<BoxInfo> = Vec::new();
        let mut i: usize = input.len();
        assert(input@.skip(i as int) =~= Seq::<BoxInfo>::empty());
        while i > 0
            invariant
                0 <= i <= input.len(),
                ranked@ == rank_by_score(input@.skip(i as int)),
            decreases i,
        {
            i = i - 1;
            assert(input@.skip(i as int).drop_first() =~= input@.skip(i as int + 1));
            BoxInfo::insert_ranked(&mut ranked, input[i]);
        }
        assert(input@.skip(0) =~= input@);
        ranked
    }

    /// The boxes of `boxes` that `keeper` does not suppress, from `start` on.
    fn survivors(keeper: &BoxInfo, boxes: &Vec<BoxInfo>, start: usize, threshold: u32) -> (r: Vec<BoxInfo>)
        requires
            start <= boxes.len(),
        ensures
            r@ == survivors(*keeper, boxes@.skip(start as int), threshold),
    {
        let mut kept: Vec<BoxInfo> = Vec::new();
        let mut j: usize = start;
        assert(boxes@.skip(start as int).take(0) =~= Seq::<BoxInfo>::empty());
        while j < boxes.len()
            invariant
                start <= j <= boxes.len(),
                kept@ == survivors(*keeper, boxes@.skip(start as int).take(j - start), threshold),
            decreases boxes.len() - j,
        {
            let ghost rest = boxes@.skip(start as int);
            assert(rest.take(j - start + 1).drop_last() =~= rest.take(j - start));
            assert(rest.take(j - start + 1).last() == boxes@[j as int]);
            if !iou_reaches(keeper, &boxes[j], threshold) {
                kept.push(boxes[j]);
            }
            j = j + 1;
        }
        assert(boxes@.skip(start as int).take(boxes.len() - start) =~= boxes@.skip(start as int));
        kept
    }

    /// Greedy non-maximum suppression: ranks the boxes by descending score, then
    /// keeps each box that no kept box of higher rank overlaps with an
    /// intersection-over-union of at least `nms_threshold / SCALE`. Class labels
    /// play no part.
    pub fn nms(input_boxes: Vec<BoxInfo>, nms_threshold: u32) -> (r: Vec<BoxInfo>)
        ensures
            r@ == nms_spec(input_boxes@, nms_threshold),
    {
        let ranked = BoxInfo::rank_by_score(input_boxes);
        let mut remaining = ranked;
        let mut out: Vec<BoxInfo> = Vec::new();
        while remaining.len() > 0
            invariant
                out@ + greedy(remaining@, nms_threshold) == nms_spec(input_boxes@, nms_threshold),
            decreases remaining.len(),
        {
            let keeper = remaining[0];
            let next = BoxInfo::survivors(&keeper, &remaining, 1, nms_threshold);
            proof {
                assert(remaining@.skip(1) =~= remaining@.drop_first());
                lemma_survivors_len(keeper, remaining@.drop_first(), nms_threshold);
                assert(out@.push(keeper) + greedy(next@, nms_threshold)
                    =~= out@ + greedy(remaining@, nms_threshold));
            }
            out.push(keeper);
            remaining = next;
        }
        assert(out@ + greedy(remaining@, nms_threshold) =~= out@);
        out
    }
}

} // verus!
