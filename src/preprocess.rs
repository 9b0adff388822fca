use vstd::prelude::*;

verus! {

/// A captured single-channel frame: `height` rows of `width` pixels, row-major.
#[derive(Clone, Debug)]
pub struct Frame {
    pub height: u32,
    pub width: u32,
    pub encoding: String,
    pub is_bigendian: u8,
    pub step: u32,
    pub data: Vec<u8>,
}

/// A model input tensor of shape `[1, 1, W, H]`, row-major. An element `e`
/// stands for the intensity `e / 255`, in `[0, 1]`.
pub struct InputTensor {
    pub shape: Vec<usize>,
    pub data: Vec<u8>,
}

#[derive(Clone, Copy, Debug, PartialEq, Eq, Structural)]
pub enum PreprocessError {
    /// The frame is not 8-bit grayscale, or its buffer is not `width * height` bytes.
    UnsupportedEncoding,
    /// The target shape is not `[1, 1, W, H]` with room for the frame.
    ShapeMismatch,
}

pub open spec fn is_mono8(frame: &Frame) -> bool {
    &&& frame.encoding@ == "mono8"@
    &&& frame.data@.len() == frame.width as nat * frame.height as nat
}

pub open spec fn shape_fits(frame: &Frame, shape: Seq<usize>) -> bool {
    &&& shape.len() == 4
    &&& shape[0] == 1
    &&& shape[1] == 1
    &&& shape[2] >= frame.width
    &&& shape[3] >= frame.height
    &&& shape[2] * shape[3] <= usize::MAX
}

/// What the tensor holds at `[0, 0, j, i]`: the pixel of row `i`, column `j`,
/// or zero outside the frame.
pub open spec fn tensor_value(frame: &Frame, j: int, i: int) -> u8 {
    if j < frame.width && i < frame.height {
        frame.data@[i * frame.width + j]
    } else {
        0
    }
}

/// The result of laying `frame` out for a model input of `shape`: the
/// encoding is checked first, then the shape; the tensor holds at flat index
/// `o`, that is at `[0, 0, o / H, o % H]`, the pixel that belongs there.
pub open spec fn normalize_outcome(frame: &Frame, shape: Seq<usize>, r: Result<InputTensor, PreprocessError>) -> bool {
    &&& !is_mono8(frame) <==> r == Err::<InputTensor, PreprocessError>(PreprocessError::UnsupportedEncoding)
    &&& is_mono8(frame) && !shape_fits(frame, shape) <==> r == Err::<InputTensor, PreprocessError>(PreprocessError::ShapeMismatch)
    &&& r is Ok ==> {
        let t = r->Ok_0;
        let w = shape[2] as int;
        let h = shape[3] as int;
        &&& t.shape@ == shape
        &&& t.data@.len() == w * h
        &&& forall|o: int| 0 <= o < w * h ==> #[trigger] t.data@[o] == tensor_value(frame, o / h, o % h)
    }
}

proof fn lemma_pixel_index(i: int, j: int, width: int, height: int)
    requires
        0 <= i < height,
        0 <= j < width,
    ensures
        0 <= i * width + j < width * height,
{
    assert(0 <= i * width + j < width * height) by (nonlinear_arith)
        requires 0 <= i < height, 0 <= j < width;
}

proof fn lemma_split_index(o: int, w: int, h: int)
    requires
        0 <= o < w * h,
        0 <= w,
        0 <= h,
    ensures
        h > 0,
        0 <= o / h < w,
        0 <= o % h < h,
{
    assert(h > 0) by (nonlinear_arith)
        requires 0 <= o < w * h, 0 <= w, 0 <= h;
    assert(o / h < w) by (nonlinear_arith)
        requires 0 <= o < w * h, 0 < h;
}

/// Reads the pixel that starts at `bytes[index]` in the declared byte order.
/// An 8-bit pixel is a single byte, so both orders read it unchanged.
fn read_pixel(bytes: &Vec<u8>, index: usize, big_endian: bool) -> (r: u8)
    requires
        index < bytes.len(),
    ensures
        r == bytes@[index as int],
{
    if big_endian {
        bytes[index]
    } else {
        bytes[index]
    }
}

/// Lays a grayscale frame out as the model input: the pixel of row `i`, column
/// `j` goes to position `[0, 0, j, i]` of a zero-filled tensor of
/// `target_shape`. Pixels are read in the frame's declared byte order.
pub fn normalize(frame: &Frame, target_shape: &Vec<usize>) -> (r: Result<InputTensor, PreprocessError>)
    ensures
        normalize_outcome(frame, target_shape@, r),
{
    let expected = "mono8".to_owned();
    let width = frame.width as usize;
    let height = frame.height as usize;
    let len = frame.data.len();
    let size_ok = match width.checked_mul(height) {
        Some(n) => n == len,
        None => false,
    };
    let same = frame.encoding == expected;
    assert(same == (frame.encoding@ == "mono8"@));
    assert(size_ok == (frame.data@.len() == frame.width as nat * frame.height as nat));
    if !same || !size_ok {
        return Err(PreprocessError::UnsupportedEncoding);
    }
    if target_shape.len() != 4 || target_shape[0] != 1 || target_shape[1] != 1 || target_shape[2] < width
        || target_shape[3] < height {
        return Err(PreprocessError::ShapeMismatch);
    }
    let w = target_shape[2];
    let h = target_shape[3];
    let total = match w.checked_mul(h) {
        Some(n) => n,
        None => {
            return Err(PreprocessError::ShapeMismatch);
        },
    };
    let mut data: Vec<u8> = Vec::new();
    let mut o: usize = 0;
    while o < total
        invariant
            total == w * h,
            target_shape@.len() == 4,
            len == frame.data@.len(),
            w == target_shape@[2],
            h == target_shape@[3],
            width == frame.width,
            height == frame.height,
            frame.data@.len() == width * height,
            o <= total,
            data@.len() == o,
            forall|p: int| 0 <= p < o ==> #[trigger] data@[p] == tensor_value(frame, p / h as int, p % h as int),
        decreases total - o,
    {
        proof {
            lemma_split_index(o as int, w as int, h as int);
        }
        let j = o / h;
        let i = o % h;
        let v: u8 = if j < width && i < height {
            proof {
                lemma_pixel_index(i as int, j as int, width as int, height as int);
            }
            read_pixel(&frame.data, i * width + j, frame.is_bigendian != 0)
        } else {
            0
        };
        data.push(v);
        o = o + 1;
    }
    Ok(InputTensor { shape: target_shape.clone(), data })
}

} // verus!
