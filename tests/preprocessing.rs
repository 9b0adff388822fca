use yolo_tir::preprocess::{normalize, Frame, PreprocessError};

fn frame(encoding: &str, is_bigendian: u8, data: Vec<u8>) -> Frame {
    Frame { height: 2, width: 3, encoding: encoding.to_string(), is_bigendian, step: 3, data }
}

#[test]
fn normalize_transposes_into_zeroed_tensor() {
    let t = normalize(&frame("mono8", 0, vec![1, 2, 3, 4, 5, 6]), &vec![1, 1, 4, 3]).unwrap();
    assert_eq!(t.shape, vec![1, 1, 4, 3]);
    assert_eq!(t.data, vec![1, 4, 0, 2, 5, 0, 3, 6, 0, 0, 0, 0]);
}

#[test]
fn normalize_ignores_byte_order_of_single_bytes() {
    let little = normalize(&frame("mono8", 0, vec![9, 8, 7, 6, 5, 4]), &vec![1, 1, 3, 2]).unwrap();
    let big = normalize(&frame("mono8", 1, vec![9, 8, 7, 6, 5, 4]), &vec![1, 1, 3, 2]).unwrap();
    assert_eq!(little.data, vec![9, 6, 8, 5, 7, 4]);
    assert_eq!(big.data, little.data);
}

#[test]
fn normalize_rejects_other_encodings() {
    let r = normalize(&frame("rgb8", 0, vec![1, 2, 3, 4, 5, 6]), &vec![1, 1, 4, 3]);
    assert_eq!(r.err(), Some(PreprocessError::UnsupportedEncoding));
    let r = normalize(&frame("mono16", 0, vec![1, 2, 3, 4, 5, 6]), &vec![1, 1, 4, 3]);
    assert_eq!(r.err(), Some(PreprocessError::UnsupportedEncoding));
}

#[test]
fn normalize_rejects_wrong_buffer_length() {
    let r = normalize(&frame("mono8", 0, vec![1, 2, 3, 4, 5]), &vec![1, 1, 4, 3]);
    assert_eq!(r.err(), Some(PreprocessError::UnsupportedEncoding));
}

#[test]
fn normalize_rejects_unfitting_shapes() {
    let f = frame("mono8", 0, vec![1, 2, 3, 4, 5, 6]);
    assert_eq!(normalize(&f, &vec![1, 1, 2, 2]).err(), Some(PreprocessError::ShapeMismatch));
    assert_eq!(normalize(&f, &vec![1, 4, 3]).err(), Some(PreprocessError::ShapeMismatch));
    assert_eq!(normalize(&f, &vec![2, 1, 4, 3]).err(), Some(PreprocessError::ShapeMismatch));
    assert_eq!(normalize(&f, &vec![1, 1, usize::MAX, 3]).err(), Some(PreprocessError::ShapeMismatch));
}
