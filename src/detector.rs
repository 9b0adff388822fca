use vstd::prelude::*;

use crate::boxes::BoxInfo;
use crate::decode::{decode, decode_rows, rows_fit, shape_ok, DecodeError, DecodeParams, InferenceInfo};
use crate::nms::nms_spec;
use crate::pack::{labels_in_range, pack, packs_all, Detection, PackError};
use crate::preprocess::{normalize, normalize_outcome, Frame, InputTensor, PreprocessError};

verus! {

#[derive(Clone, Copy, Debug, PartialEq, Eq, Structural)]
pub enum ConfigError {
    /// The confidence threshold is not positive.
    ConfidenceThreshold,
    /// The suppression threshold is not positive.
    NmsThreshold,
    /// The class-score offset does not come after the objectness index.
    IndexOrder,
    /// The label table is empty.
    NoClasses,
}

#[derive(Clone, Copy, Debug, PartialEq, Eq, Structural)]
pub enum CycleError {
    Decode(DecodeError),
    Pack(PackError),
}

/// The detector's validated configuration: the objectness threshold (tensor
/// fixed point), the suppression threshold (in units of `1 / SCALE`), where
/// objectness and class scores sit in a proposal row, and the class names.
pub struct YoloTir {
    pub class_label: Vec<String>,
    pub conf_score: i32,
    pub nms_threshold: u32,
    pub conf_idx: usize,
    pub cls_idx_offset: usize,
}

/// The first configuration rule that the values break, if any.
pub open spec fn config_error(conf_score: i32, nms_threshold: u32, conf_idx: usize, cls_idx_offset: usize, n_classes: nat) -> Option<ConfigError> {
    if conf_score <= 0 {
        Some(ConfigError::ConfidenceThreshold)
    } else if nms_threshold == 0 {
        Some(ConfigError::NmsThreshold)
    } else if cls_idx_offset <= conf_idx {
        Some(ConfigError::IndexOrder)
    } else if n_classes == 0 {
        Some(ConfigError::NoClasses)
    } else {
        None
    }
}

impl YoloTir {
    pub open spec fn wf(&self) -> bool {
        config_error(self.conf_score, self.nms_threshold, self.conf_idx, self.cls_idx_offset, self.class_label@.len()) is None
    }

    pub open spec fn decode_params(&self, width_ratio: u32, height_ratio: u32) -> DecodeParams {
        DecodeParams {
            conf_threshold: self.conf_score,
            conf_idx: self.conf_idx,
            cls_idx_offset: self.cls_idx_offset,
            width_ratio,
            height_ratio,
        }
    }

    /// Validates the configuration: both thresholds positive, the class scores
    /// after the objectness index, and at least one class name.
    pub fn new(conf_score: i32, nms_threshold: u32, conf_idx: usize, cls_idx_offset: usize, classes: Vec<String>) -> (r: Result<YoloTir, ConfigError>)
        ensures
            match config_error(conf_score, nms_threshold, conf_idx, cls_idx_offset, classes@.len()) {
                Some(e) => r == Err::<YoloTir, ConfigError>(e),
                None => r is Ok && {
                    let d = r->Ok_0;
                    &&& d.wf()
                    &&& d.class_label@ == classes@
                    &&& d.conf_score == conf_score
                    &&& d.nms_threshold == nms_threshold
                    &&& d.conf_idx == conf_idx
                    &&& d.cls_idx_offset == cls_idx_offset
                },
            },
    {
        if conf_score <= 0 {
            return Err(ConfigError::ConfidenceThreshold);
        }
        if nms_threshold == 0 {
            return Err(ConfigError::NmsThreshold);
        }
        if cls_idx_offset <= conf_idx {
            return Err(ConfigError::IndexOrder);
        }
        if classes.len() == 0 {
            return Err(ConfigError::NoClasses);
        }
        Ok(YoloTir { class_label: classes, conf_score, nms_threshold, conf_idx, cls_idx_offset })
    }

    /// Lays a frame out as the model's input tensor, of the shape the model was
    /// loaded with.
    pub fn process_image(frame: &Frame, info: &InferenceInfo) -> (r: Result<InputTensor, PreprocessError>)
        ensures
            normalize_outcome(frame, info.input0_shape@, r),
    {
        normalize(frame, &info.input0_shape)
    }

    /// One detection cycle on the model's output: decoding, suppression, then
    /// packing. Fails as a whole at the first step that fails.
    pub fn detect(&self, output: &Vec<i32>, n_cols: usize, info: &InferenceInfo, width_ratio: u32, height_ratio: u32) -> (r: Result<Vec<Detection>, CycleError>)
        ensures
            ({
                let params = self.decode_params(width_ratio, height_ratio);
                let n = info.n_proposal;
                if !shape_ok(output@.len(), n as nat, n_cols as nat, params) {
                    r == Err::<Vec<Detection>, CycleError>(CycleError::Decode(DecodeError::MalformedTensor))
                } else if !rows_fit(output@, n_cols as nat, n as int, params) {
                    r == Err::<Vec<Detection>, CycleError>(CycleError::Decode(DecodeError::CoordinateOverflow))
                } else {
                    let kept = nms_spec(decode_rows(output@, n_cols as nat, n as int, params), self.nms_threshold);
                    if labels_in_range(kept, self.class_label@.len()) {
                        r is Ok && packs_all(r->Ok_0@, kept, self.class_label@)
                    } else {
                        r == Err::<Vec<Detection>, CycleError>(CycleError::Pack(PackError::LabelIndexOutOfRange))
                    }
                }
            }),
    {
        let params = DecodeParams {
            conf_threshold: self.conf_score,
            conf_idx: self.conf_idx,
            cls_idx_offset: self.cls_idx_offset,
            width_ratio,
            height_ratio,
        };
        let candidates = match decode(output, n_cols, info, params) {
            Ok(c) => c,
            Err(e) => {
                return Err(CycleError::Decode(e));
            },
        };
        let kept = BoxInfo::nms(candidates, self.nms_threshold);
        match pack(&kept, &self.class_label) {
            Ok(d) => Ok(d),
            Err(e) => Err(CycleError::Pack(e)),
        }
    }
}

} // verus!
