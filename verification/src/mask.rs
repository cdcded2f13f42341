//! Deriving a binary mask from decoded pixels by thresholding one channel.
use crate::binary_image::{any_nonzero, lemma_area_fits, raw_pixels, BinaryImage};
use crate::error::Error;
use vstd::prelude::*;

verus! {

/// The channel whose value decides foreground from background.
#[derive(Clone, Copy, Debug, PartialEq, Eq, Structural)]
pub enum MaskMethod {
    /// The luma of the pixel; read from a one-byte-per-pixel luma buffer.
    Luminance,
    /// The alpha channel; read from a four-byte-per-pixel RGBA buffer.
    Alpha,
    /// The red channel; read from a three-byte-per-pixel RGB buffer.
    Red,
    /// The green channel; read from a three-byte-per-pixel RGB buffer.
    Green,
    /// The blue channel; read from a three-byte-per-pixel RGB buffer.
    Blue,
}

impl Default for MaskMethod {
    /// Masks are derived from the alpha channel unless told otherwise.
    fn default() -> (method: MaskMethod)
        ensures
            method == MaskMethod::Alpha,
    {
        MaskMethod::Alpha
    }
}

impl MaskMethod {
    /// How many bytes one pixel takes in the buffer this method reads.
    pub open spec fn spec_stride(self) -> int {
        match self {
            MaskMethod::Luminance => 1,
            MaskMethod::Alpha => 4,
            MaskMethod::Red | MaskMethod::Green | MaskMethod::Blue => 3,
        }
    }

    /// Where, within the bytes of one pixel, the selected channel stands.
    pub open spec fn spec_offset(self) -> int {
        match self {
            MaskMethod::Luminance => 0,
            MaskMethod::Alpha => 3,
            MaskMethod::Red => 0,
            MaskMethod::Green => 1,
            MaskMethod::Blue => 2,
        }
    }

    /// How many bytes one pixel takes in the buffer this method reads.
    #[verifier::when_used_as_spec(spec_stride_usize)]
    pub fn stride(self) -> (n: usize)
        ensures
            n == self.spec_stride(),
    {
        match self {
            MaskMethod::Luminance => 1,
            MaskMethod::Alpha => 4,
            MaskMethod::Red | MaskMethod::Green | MaskMethod::Blue => 3,
        }
    }

    /// Where, within the bytes of one pixel, the selected channel stands.
    #[verifier::when_used_as_spec(spec_offset_usize)]
    pub fn offset(self) -> (n: usize)
        ensures
            n == self.spec_offset(),
    {
        match self {
            MaskMethod::Luminance => 0,
            MaskMethod::Alpha => 3,
            MaskMethod::Red => 0,
            MaskMethod::Green => 1,
            MaskMethod::Blue => 2,
        }
    }

    /// [`MaskMethod::spec_stride`] as a machine integer.
    pub open spec fn spec_stride_usize(self) -> usize {
        self.spec_stride() as usize
    }

    /// [`MaskMethod::spec_offset`] as a machine integer.
    pub open spec fn spec_offset_usize(self) -> usize {
        self.spec_offset() as usize
    }
}

/// The byte of the selected channel of pixel `i`.
pub open spec fn channel_byte(data: Seq<u8>, method: MaskMethod, i: int) -> u8 {
    data[i * method.spec_stride() + method.spec_offset()]
}

/// The mask of `count` pixels: a pixel is foreground iff its selected
/// channel is strictly above the threshold.
pub open spec fn thresholded(data: Seq<u8>, method: MaskMethod, threshold: u8, count: nat) -> Seq<
    bool,
> {
    Seq::new(count, |i: int| channel_byte(data, method, i) > threshold)
}

/// Derives the mask of a `width` by `height` image from its decoded pixels.
///
/// `data` is the row-major pixel buffer in the layout that `method` reads:
/// luma-8 for [`MaskMethod::Luminance`], RGBA-8 for [`MaskMethod::Alpha`],
/// RGB-8 for the colour channels. Each pixel becomes foreground iff the byte
/// of the selected channel is strictly greater than `threshold`. An empty
/// image, or a buffer whose length is not `width * height` pixels of that
/// layout, is refused.
pub fn generate_binary_mask(
    width: u32,
    height: u32,
    data: &[u8],
    method: MaskMethod,
    threshold: u8,
) -> (res: Result<BinaryImage, Error>)
    ensures
        res is Ok <==> 0 < width * height && data@.len() == width * height * method.spec_stride(),
        res matches Ok(img) ==> {
            &&& img.spec_width() == width
            &&& img.spec_height() == height
            &&& img@ == thresholded(data@, method, threshold, (width * height) as nat)
            &&& forall|x: int, y: int|
                0 <= x < width && 0 <= y < height ==> (#[trigger] img.pixel(x, y) <==> channel_byte(
                    data@,
                    method,
                    y * width + x,
                ) > threshold)
        },
        res matches Err(e) ==> e is InvalidDimensions,
{
    proof {
        lemma_area_fits(width, height);
    }
    let stride = method.stride();
    let offset = method.offset();
    let area: u64 = width as u64 * height as u64;
    if area == 0 || area as u128 * stride as u128 != data.len() as u128 {
        return Err(Error::InvalidDimensions);
    }
    let count: usize = area as usize;
    let mut marks: Vec<u8> = Vec::new();
    let mut i: usize = 0;
    while i < count
        invariant
            count * stride == data@.len() <= usize::MAX,
            1 <= stride <= 4,
            offset < stride,
            stride == method.spec_stride(),
            offset == method.spec_offset(),
            i <= count,
            marks@.len() == i,
            forall|p: int|
                0 <= p < i ==> (#[trigger] marks@[p] != 0 <==> channel_byte(data@, method, p)
                    > threshold),
        decreases count - i,
    {
        assert(0 <= i * stride && i * stride + stride <= count * stride) by (nonlinear_arith)
            requires
                0 <= i < count,
                0 < stride,
        ;
        let value = data[i * stride + offset];
        marks.push(if value > threshold { 255 } else { 0 });
        i += 1;
    }
    let res = BinaryImage::from_raw(width, height, marks.as_slice());
    proof {
        let expected = thresholded(data@, method, threshold, count as nat);
        if let Ok(ref img) = res {
            assert(marks@.len() as int / (count as int) == 1) by (nonlinear_arith)
                requires
                    marks@.len() == count,
                    count > 0,
            ;
            assert forall|p: int| 0 <= p < count implies raw_pixels(marks@, count as nat, 1)[p]
                == expected[p] by {
                if marks@[p] != 0 {
                    assert(any_nonzero(marks@, p * 1, 1));
                }
            }
            assert(img@ =~= expected);
            assert forall|x: int, y: int| 0 <= x < width && 0 <= y < height implies (
            #[trigger] img.pixel(x, y) <==> channel_byte(data@, method, y * width + x)
                > threshold) by {
                crate::binary_image::lemma_index_in_range(x, y, width as int, height as int);
            }
        }
    }
    res
}

} // verus!
