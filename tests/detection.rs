use yolo_tir::decode::{DecodeError, InferenceInfo};
use yolo_tir::detector::{ConfigError, CycleError, YoloTir};
use yolo_tir::pack::PackError;
use yolo_tir::preprocess::Frame;

fn classes(n: usize) -> Vec<String> {
    ["person", "bike", "car", "other vehicle"].iter().take(n).map(|s| s.to_string()).collect()
}

fn info(n_proposal: usize) -> InferenceInfo {
    InferenceInfo { in_width: 4, in_height: 3, n_proposal, input0_shape: vec![1, 1, 4, 3] }
}

#[test]
fn config_rules() {
    assert_eq!(YoloTir::new(0, 500_000, 4, 5, classes(4)).err(), Some(ConfigError::ConfidenceThreshold));
    assert_eq!(YoloTir::new(500_000, 0, 4, 5, classes(4)).err(), Some(ConfigError::NmsThreshold));
    assert_eq!(YoloTir::new(500_000, 500_000, 5, 5, classes(4)).err(), Some(ConfigError::IndexOrder));
    assert_eq!(YoloTir::new(500_000, 500_000, 4, 5, classes(0)).err(), Some(ConfigError::NoClasses));
    let d = YoloTir::new(500_000, 500_000, 0, 1, classes(4)).unwrap();
    assert_eq!(d.class_label.len(), 4);
    assert_eq!((d.conf_idx, d.cls_idx_offset), (0, 1));
}

#[test]
fn detect_runs_decode_suppress_pack() {
    let d = YoloTir::new(500_000, 200_000, 4, 5, classes(3)).unwrap();
    let output = vec![
        25, 25, 50, 50, 900_000, 100_000, 800_000, 100_000,
        25, 25, 48, 48, 900_000, 700_000, 200_000, 100_000,
        100, 100, 10, 10, 400_000, 700_000, 200_000, 100_000,
        100, 100, 10, 10, 600_000, 100_000, 100_000, 800_000,
    ];
    let dets = d.detect(&output, 8, &info(4), 1, 1).unwrap();
    assert_eq!(dets.len(), 2);
    assert_eq!(dets[0].label, "bike");
    assert_eq!(dets[0].score, 800_000);
    assert_eq!((dets[0].position_x, dets[0].position_y, dets[0].size_x, dets[0].size_y), (25, 25, 50, 50));
    assert_eq!(dets[1].label, "car");
    assert_eq!((dets[1].position_x, dets[1].position_y), (100, 100));
}

#[test]
fn detect_reports_failures() {
    let d = YoloTir::new(500_000, 200_000, 4, 5, classes(2)).unwrap();
    let output = vec![10, 10, 4, 4, 900_000, 0, 0, 1];
    assert_eq!(d.detect(&output, 8, &info(1), 1, 1).err(), Some(CycleError::Pack(PackError::LabelIndexOutOfRange)));
    assert_eq!(d.detect(&output, 8, &info(2), 1, 1).err(), Some(CycleError::Decode(DecodeError::MalformedTensor)));
}

#[test]
fn process_image_uses_model_shape() {
    let frame = Frame { height: 2, width: 3, encoding: "mono8".to_string(), is_bigendian: 0, step: 3, data: vec![1, 2, 3, 4, 5, 6] };
    let t = YoloTir::process_image(&frame, &info(0)).unwrap();
    assert_eq!(t.data, vec![1, 4, 0, 2, 5, 0, 3, 6, 0, 0, 0, 0]);
}
