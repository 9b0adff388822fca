use vstd::prelude::*;

use crate::boxes::{half_down, halve_down, BoxInfo};

verus! {

/// A final detection: center, size, class name and confidence. The
/// orientation `atan(size_y / size_x)` is derived from the size by the caller.
pub struct Detection {
    pub position_x: i32,
    pub position_y: i32,
    pub size_x: i64,
    pub size_y: i64,
    pub label: String,
    pub score: i32,
}

#[derive(Clone, Copy, Debug, PartialEq, Eq, Structural)]
pub enum PackError {
    /// A candidate's class index has no entry in the label table.
    LabelIndexOutOfRange,
}

/// `d` is the detection of box `b`: the position is the box's center, each
/// coordinate rounded down to an integer; `size_x` is the
/// box's width (its y extent), `size_y` its height (its x extent), and the
/// label the table's name of its class.
pub open spec fn packs_box(d: Detection, b: BoxInfo, labels: Seq<String>) -> bool {
    &&& d.position_x == half_down(b.x1 + b.x2)
    &&& d.position_y == half_down(b.y1 + b.y2)
    &&& d.size_x == b.spec_width()
    &&& d.size_y == b.spec_height()
    &&& d.label@ == labels[b.label as int]@
    &&& d.score == b.score
}

pub open spec fn packs_all(ds: Seq<Detection>, bs: Seq<BoxInfo>, labels: Seq<String>) -> bool {
    &&& ds.len() == bs.len()
    &&& forall|i: int| 0 <= i < bs.len() ==> packs_box(#[trigger] ds[i], bs[i], labels)
}

pub open spec fn labels_in_range(bs: Seq<BoxInfo>, n_labels: nat) -> bool {
    forall|i: int| 0 <= i < bs.len() ==> #[trigger] bs[i].label < n_labels
}

/// Maps each candidate to its detection, naming its class from `class_label`.
/// Fails, with no partial output, when a class index has no name.
pub fn pack(candidates: &Vec<BoxInfo>, class_label: &Vec<String>) -> (r: Result<Vec<Detection>, PackError>)
    ensures
        r is Ok <==> labels_in_range(candidates@, class_label@.len()),
        r is Err ==> r == Err::<Vec<Detection>, PackError>(PackError::LabelIndexOutOfRange),
        r is Ok ==> packs_all(r->Ok_0@, candidates@, class_label@),
{
    let mut detections: Vec<Detection> = Vec::new();
    let mut i: usize = 0;
    while i < candidates.len()
        invariant
            i <= candidates.len(),
            detections@.len() == i,
            labels_in_range(candidates@.take(i as int), class_label@.len()),
            forall|k: int| 0 <= k < i ==> packs_box(#[trigger] detections@[k], candidates@[k], class_label@),
        decreases candidates.len() - i,
    {
        let b = candidates[i];
        if b.label >= class_label.len() {
            return Err(PackError::LabelIndexOutOfRange);
        }
        let cx = halve_down(b.x1 as i128 + b.x2 as i128);
        let cy = halve_down(b.y1 as i128 + b.y2 as i128);
        let d = Detection {
            position_x: cx as i32,
            position_y: cy as i32,
            size_x: b.width(),
            size_y: b.height(),
            label: class_label[b.label].clone(),
            score: b.score,
        };
        detections.push(d);
        assert(candidates@.take(i + 1)[i as int] == b);
        i = i + 1;
    }
    assert(candidates@.take(i as int) =~= candidates@);
    Ok(detections)
}

} // verus!
