use yolo_tir::preprocess::Frame;
use yolo_tir::slot::FrameSlot;

fn frame(first: u8) -> Frame {
    Frame { height: 1, width: 2, encoding: "mono8".to_string(), is_bigendian: 0, step: 2, data: vec![first, 0] }
}

#[test]
fn slot_starts_empty() {
    assert!(FrameSlot::new().latest().is_none());
}

#[test]
fn slot_keeps_last_write() {
    let mut slot = FrameSlot::new();
    slot.store(frame(1));
    slot.store(frame(2));
    assert_eq!(slot.latest().unwrap().data, vec![2, 0]);
    assert_eq!(slot.latest().unwrap().data, vec![2, 0]);
}
