use yolo_tir::boxes::BoxInfo;
use yolo_tir::decode::{decode, DecodeError, DecodeParams, InferenceInfo};

const N_COLS: usize = 8;

fn info(n_proposal: usize) -> InferenceInfo {
    InferenceInfo { in_width: 64, in_height: 48, n_proposal, input0_shape: vec![1, 1, 64, 48] }
}

fn params(width_ratio: u32, height_ratio: u32) -> DecodeParams {
    DecodeParams { conf_threshold: 500_000, conf_idx: 4, cls_idx_offset: 5, width_ratio, height_ratio }
}

fn rows() -> Vec<i32> {
    vec![
        // cy, cx, h, w, objectness, three class probabilities
        10, 20, 4, 6, 600_000, 100_000, 700_000, 200_000,
        10, 20, 4, 6, 500_000, 100_000, 700_000, 200_000,
        0, 0, 0, 5, 500_001, 300_000, 300_000, 100_000,
    ]
}

#[test]
fn decode_keeps_only_scores_above_threshold() {
    let out = decode(&rows(), N_COLS, &info(3), params(2, 3)).unwrap();
    assert_eq!(
        out,
        vec![
            BoxInfo::new(34, 24, 46, 36, 700_000, 1),
            BoxInfo::new(-5, 0, 5, 0, 300_000, 0),
        ]
    );
}

#[test]
fn decode_threshold_is_strict() {
    let mut p = params(1, 1);
    p.conf_threshold = 600_000;
    assert_eq!(decode(&rows(), N_COLS, &info(3), p).unwrap(), Vec::<BoxInfo>::new());
    p.conf_threshold = 599_999;
    assert_eq!(decode(&rows(), N_COLS, &info(3), p).unwrap().len(), 1);
}

#[test]
fn decode_rounds_half_sizes_down() {
    let t = vec![10, 10, 3, 3, 900_000, 1, 0, 0, 10, 10, -3, -3, 900_000, 1, 0, 0];
    let out = decode(&t, N_COLS, &info(2), params(1, 1)).unwrap();
    assert_eq!(out, vec![BoxInfo::new(9, 9, 12, 12, 1, 0), BoxInfo::new(12, 12, 9, 9, 1, 0)]);
}

#[test]
fn decode_empty_inputs() {
    assert_eq!(decode(&Vec::new(), N_COLS, &info(0), params(1, 1)).unwrap(), Vec::<BoxInfo>::new());
    let mut p = params(1, 1);
    p.cls_idx_offset = N_COLS;
    assert_eq!(decode(&rows(), N_COLS, &info(3), p).unwrap(), Vec::<BoxInfo>::new());
}

#[test]
fn decode_rejects_malformed_tensors() {
    let mut short = rows();
    short.pop();
    assert_eq!(decode(&short, N_COLS, &info(3), params(1, 1)), Err(DecodeError::MalformedTensor));
    assert_eq!(decode(&rows(), N_COLS, &info(2), params(1, 1)), Err(DecodeError::MalformedTensor));
    let mut p = params(1, 1);
    p.conf_idx = N_COLS;
    assert_eq!(decode(&rows(), N_COLS, &info(3), p), Err(DecodeError::MalformedTensor));
    assert_eq!(decode(&vec![1, 2, 3], 3, &info(1), params(1, 1)), Err(DecodeError::MalformedTensor));
    assert_eq!(decode(&rows(), usize::MAX, &info(3), params(1, 1)), Err(DecodeError::MalformedTensor));
}

#[test]
fn decode_reports_coordinate_overflow() {
    let t = vec![0, i32::MAX, 0, 0, 900_000, 1, 0, 0];
    assert_eq!(decode(&t, N_COLS, &info(1), params(2, 1)), Err(DecodeError::CoordinateOverflow));
    let dropped = vec![0, i32::MAX, 0, 0, 100, 1, 0, 0];
    assert_eq!(decode(&dropped, N_COLS, &info(1), params(2, 1)), Ok(Vec::new()));
}
