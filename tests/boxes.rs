use yolo_tir::boxes::{iou_reaches, BoxInfo, SCALE};

#[test]
fn test_width() {
    let bbox = BoxInfo::new(1, 2, 3, 5, 400_000, 0);
    assert_eq!(bbox.width(), 3);
}

#[test]
fn test_height() {
    let bbox = BoxInfo::new(1, 2, 3, 5, 400_000, 0);
    assert_eq!(bbox.height(), 2);
}

#[test]
fn position_is_far_corner() {
    let bbox = BoxInfo::new(1, 2, 3, 5, 400_000, 0);
    assert_eq!(bbox.x(), 3);
    assert_eq!(bbox.y(), 5);
}

#[test]
fn iou_exact_boundary() {
    // Overlap 5x10 = 50 over a union of 100 + 100 - 50 = 150: iou = 1/3.
    let a = BoxInfo::new(0, 0, 10, 10, 1, 0);
    let b = BoxInfo::new(5, 0, 15, 10, 1, 0);
    assert!(iou_reaches(&a, &b, 333_333));
    assert!(!iou_reaches(&a, &b, 333_334));
    assert!(iou_reaches(&b, &a, 333_333));
}

#[test]
fn iou_of_disjoint_and_degenerate_boxes() {
    let a = BoxInfo::new(0, 0, 10, 10, 1, 0);
    let b = BoxInfo::new(20, 20, 30, 30, 1, 0);
    assert!(!iou_reaches(&a, &b, 1));
    assert!(iou_reaches(&a, &b, 0));
    let p = BoxInfo::new(3, 3, 3, 3, 1, 0);
    assert!(!iou_reaches(&p, &p, 0));
    assert!(iou_reaches(&a, &a, SCALE));
}

#[test]
fn iou_with_extreme_coordinates() {
    let a = BoxInfo::new(i32::MIN, i32::MIN, i32::MAX, i32::MAX, 1, 0);
    assert!(iou_reaches(&a, &a, SCALE));
    assert!(!iou_reaches(&a, &a, SCALE + 1));
}
