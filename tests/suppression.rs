use yolo_tir::boxes::{BoxInfo, SCALE};

fn distant() -> Vec<BoxInfo> {
    vec![
        BoxInfo::new(0, 0, 5, 10, 400_000, 0),
        BoxInfo::new(15, 0, 30, 20, 200_000, 0),
        BoxInfo::new(100, 150, 120, 200, 400_000, 0),
        BoxInfo::new(180, 150, 200, 200, 400_000, 0),
    ]
}

#[test]
fn nms_distant_boxes() {
    let bbox_vec = distant();
    let filtered_bbox = BoxInfo::nms(bbox_vec.clone(), 200_000);
    assert_eq!(filtered_bbox.len(), bbox_vec.len());
    for b in &bbox_vec {
        assert!(filtered_bbox.contains(b));
    }
    // Ranked by descending score, equal scores in input order.
    assert_eq!(filtered_bbox, vec![bbox_vec[0], bbox_vec[2], bbox_vec[3], bbox_vec[1]]);
}

#[test]
fn nms_overlapping_boxes() {
    let bbox_vec = vec![
        BoxInfo::new(0, 0, 50, 50, 400_000, 0),
        BoxInfo::new(10, 1, 50, 50, 200_000, 1),
        BoxInfo::new(0, 0, 100, 200, 500_000, 0),
    ];
    let filtered_bbox = BoxInfo::nms(bbox_vec, 200_000);
    // The 50x50 box lies inside the large one, but covers only an eighth of
    // it (iou 0.125, under 0.2), so it stays; the third box overlaps the
    // 50x50 one with iou 1960 / 2500 and is suppressed by it.
    let correct_bbox = vec![BoxInfo::new(0, 0, 100, 200, 500_000, 0), BoxInfo::new(0, 0, 50, 50, 400_000, 0)];
    assert_eq!(filtered_bbox, correct_bbox);
    let strict = BoxInfo::nms(correct_bbox.clone(), 125_000);
    assert_eq!(strict, vec![BoxInfo::new(0, 0, 100, 200, 500_000, 0)]);
}

#[test]
fn nms_twice_changes_nothing() {
    let boxes = vec![
        BoxInfo::new(0, 0, 10, 10, 300_000, 0),
        BoxInfo::new(1, 1, 11, 11, 900_000, 1),
        BoxInfo::new(5, 5, 15, 15, 600_000, 2),
        BoxInfo::new(40, 40, 50, 50, 100_000, 0),
        BoxInfo::new(2, 0, 12, 10, 600_000, 0),
    ];
    let once = BoxInfo::nms(boxes, 300_000);
    let twice = BoxInfo::nms(once.clone(), 300_000);
    assert_eq!(once, twice);
}

#[test]
fn nms_output_is_subset_of_input() {
    let boxes = vec![
        BoxInfo::new(0, 0, 10, 10, 300_000, 0),
        BoxInfo::new(1, 1, 11, 11, 900_000, 1),
        BoxInfo::new(5, 5, 15, 15, 600_000, 2),
        BoxInfo::new(40, 40, 50, 50, 100_000, 0),
    ];
    let out = BoxInfo::nms(boxes.clone(), 100_000);
    assert!(out.len() <= boxes.len());
    for b in &out {
        assert!(boxes.contains(b));
    }
    assert_eq!(out, vec![boxes[1], boxes[3]]);
}

#[test]
fn nms_disjoint_pair_survives_any_threshold() {
    let a = BoxInfo::new(0, 0, 10, 10, 100_000, 0);
    let b = BoxInfo::new(10, 0, 20, 10, 900_000, 1);
    for t in [1u32, 1000, SCALE, u32::MAX] {
        let out = BoxInfo::nms(vec![a, b], t);
        assert_eq!(out, vec![b, a]);
    }
}

#[test]
fn nms_identical_pair_keeps_higher_score() {
    let a = BoxInfo::new(3, 4, 30, 40, 700_000, 0);
    let b = BoxInfo::new(3, 4, 30, 40, 200_000, 1);
    for t in [0u32, 1, 500_000, SCALE] {
        assert_eq!(BoxInfo::nms(vec![a, b], t), vec![a]);
        assert_eq!(BoxInfo::nms(vec![b, a], t), vec![a]);
    }
}

#[test]
fn nms_empty_input() {
    assert_eq!(BoxInfo::nms(Vec::new(), 500_000), Vec::<BoxInfo>::new());
}

#[test]
fn nms_zero_area_boxes_are_never_suppressed() {
    let p = BoxInfo::new(5, 5, 5, 5, 500_000, 0);
    let q = BoxInfo::new(5, 5, 5, 5, 400_000, 0);
    assert_eq!(BoxInfo::nms(vec![q, p], 1), vec![p, q]);
}

#[test]
fn nms_suppressed_box_does_not_suppress() {
    // b is suppressed by a; c overlaps b only, so it survives.
    let a = BoxInfo::new(0, 0, 10, 10, 900_000, 0);
    let b = BoxInfo::new(5, 0, 15, 10, 800_000, 0);
    let c = BoxInfo::new(12, 0, 22, 10, 700_000, 0);
    assert_eq!(BoxInfo::nms(vec![c, b, a], 300_000), vec![a, c]);
}

#[test]
fn nms_keeps_duplicates_no_more_often_than_given() {
    let a = BoxInfo::new(0, 0, 10, 10, 500_000, 0);
    let out = BoxInfo::nms(vec![a, a, a], 500_000);
    assert_eq!(out, vec![a]);
    let p = BoxInfo::new(4, 4, 4, 4, 500_000, 0);
    let out = BoxInfo::nms(vec![p, p], 500_000);
    assert_eq!(out, vec![p, p]);
}
