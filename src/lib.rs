//! Post-processing for a thermal-camera object detector: the layout of a
//! grayscale frame as model input, the decoding of the model's proposals into
//! candidate boxes, greedy non-maximum suppression and the packing of the
//! surviving boxes into labelled detections. Scores and thresholds are fixed
//! point, box coordinates integers.

pub mod boxes;
pub mod decode;
pub mod detector;
pub mod nms;
pub mod pack;
pub mod preprocess;
pub mod slot;
