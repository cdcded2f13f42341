//! A one-bit-per-pixel image.
use crate::bits::{bit_seq, bits_clone, bits_filled, bits_get, bits_len, bits_set};
use crate::error::Error;
use bit_vec::BitVec;
use vstd::prelude::*;

verus! {

/// A packed binary mask: `width * height` pixels, row-major, `x` fastest.
/// A set bit is a foreground pixel.
#[derive(Debug)]
pub struct BinaryImage {
    width: u32,
    height: u32,
    buffer: BitVec,
}

impl View for BinaryImage {
    type V = Seq<bool>;

    /// The pixels in row-major order.
    closed spec fn view(&self) -> Seq<bool> {
        Seq::new((self.width * self.height) as nat, |i: int| bit_seq(self.buffer)[i])
    }
}

impl Clone for BinaryImage {
    /// A second image with the same size and pixels.
    fn clone(&self) -> (copy: BinaryImage)
        ensures
            copy.spec_width() == self.spec_width(),
            copy.spec_height() == self.spec_height(),
            copy@ == self@,
    {
        proof {
            use_type_invariant(self);
        }
        let copy = BinaryImage {
            width: self.width,
            height: self.height,
            buffer: bits_clone(&self.buffer),
        };
        assert(copy@ =~= self@);
        copy
    }
}

impl Default for BinaryImage {
    /// The image without pixels.
    fn default() -> (img: BinaryImage)
        ensures
            img.spec_width() == 0,
            img.spec_height() == 0,
            img@.len() == 0,
    {
        let buffer = bits_filled(0, false);
        assert(bit_seq(buffer).len() == 0);
        BinaryImage { width: 0, height: 0, buffer }
    }
}

/// Whether some byte of `bytes[start .. start + step]` is non-zero.
pub open spec fn any_nonzero(bytes: Seq<u8>, start: int, step: int) -> bool {
    exists|j: int| start <= j < start + step && #[trigger] bytes[j] != 0
}

/// The pixels that `from_raw` reads out of a byte buffer: `step` consecutive
/// bytes make one pixel, foreground iff any of them is non-zero.
pub open spec fn raw_pixels(bytes: Seq<u8>, count: nat, step: int) -> Seq<bool> {
    Seq::new(count, |i: int| any_nonzero(bytes, i * step, step))
}

/// The pixels that `from_mask` reads out of a grayscale buffer: foreground
/// iff the byte is 255.
pub open spec fn mask_pixels(bytes: Seq<u8>, count: nat) -> Seq<bool> {
    Seq::new(count, |i: int| bytes[i] == 255)
}

/// `x * y` of two 32-bit numbers fits in 64 bits.
pub proof fn lemma_area_fits(w: u32, h: u32)
    ensures
        0 <= w * h <= u64::MAX,
{
    assert(0 <= w * h <= 0xffff_ffff * 0xffff_ffff) by (nonlinear_arith)
        requires
            0 <= w <= 0xffff_ffff,
            0 <= h <= 0xffff_ffff,
    ;
}

/// A pixel inside the image has a row-major index inside the buffer.
pub proof fn lemma_index_in_range(x: int, y: int, w: int, h: int)
    requires
        0 <= x < w,
        0 <= y < h,
    ensures
        0 <= y * w + x < w * h,
        y * w + x < (y + 1) * w,
        (y + 1) * w <= w * h,
{
    assert(0 <= y * w && y * w + w == (y + 1) * w && (y + 1) * w <= h * w && h * w == w * h)
        by (nonlinear_arith)
        requires
            0 <= x < w,
            0 <= y < h,
    ;
}

impl BinaryImage {
    #[verifier::type_invariant]
    spec fn holds_all_pixels(self) -> bool {
        self.width * self.height <= bit_seq(self.buffer).len() <= usize::MAX
    }

    /// The width in pixels.
    pub closed spec fn spec_width(&self) -> u32 {
        self.width
    }

    /// The height in pixels.
    pub closed spec fn spec_height(&self) -> u32 {
        self.height
    }

    /// The pixel at column `x` of row `y`.
    pub open spec fn pixel(&self, x: int, y: int) -> bool {
        self@[y * self.spec_width() + x]
    }

    /// The view holds one entry per pixel.
    pub proof fn lemma_view_len(&self)
        ensures
            self@.len() == self.spec_width() * self.spec_height(),
    {
    }

    /// An image of the given size with every pixel background.
    pub fn new(width: u32, height: u32) -> (img: BinaryImage)
        requires
            width * height <= usize::MAX,
        ensures
            img.spec_width() == width,
            img.spec_height() == height,
            img@ == Seq::new((width * height) as nat, |i: int| false),
    {
        proof {
            lemma_area_fits(width, height);
        }
        let count = (width as u64 * height as u64) as usize;
        let img = BinaryImage { width, height, buffer: bits_filled(count, false) };
        assert(img@ =~= Seq::new((width * height) as nat, |i: int| false));
        img
    }

    /// Reads a mask out of raw bytes. With `n = width * height` pixels and a
    /// buffer of `len` bytes, each pixel takes `len / n` consecutive bytes and
    /// is foreground iff any of them is non-zero; bytes past the last whole
    /// pixel are ignored. An empty image or a buffer shorter than `n` bytes
    /// is refused.
    pub fn from_raw(width: u32, height: u32, buffer: &[u8]) -> (res: Result<BinaryImage, Error>)
        ensures
            res is Ok <==> 0 < width * height <= buffer@.len(),
            res matches Ok(img) ==> {
                &&& img.spec_width() == width
                &&& img.spec_height() == height
                &&& img@ == raw_pixels(
                    buffer@,
                    (width * height) as nat,
                    buffer@.len() as int / (width * height),
                )
            },
            res matches Err(e) ==> e is InvalidDimensions,
    {
        proof {
            lemma_area_fits(width, height);
        }
        let area: u64 = width as u64 * height as u64;
        if area == 0 || area > buffer.len() as u64 {
            return Err(Error::InvalidDimensions);
        }
        let count: usize = area as usize;
        let step: usize = buffer.len() / count;
        let mut bits = bits_filled(count, false);
        let mut i: usize = 0;
        while i < count
            invariant
                0 < count <= buffer@.len() <= usize::MAX,
                step == buffer@.len() as int / (count as int),
                i <= count,
                bit_seq(bits).len() == count,
                forall|p: int| 0 <= p < i ==> bit_seq(bits)[p] == any_nonzero(buffer@, p * step, step as int),
            decreases count - i,
        {
            proof {
                lemma_chunk_in_range(i as int, count as int, buffer@.len() as int, step as int);
            }
            let start: usize = i * step;
            let mut j: usize = 0;
            let mut found = false;
            while j < step
                invariant
                    j <= step,
                    start + step <= buffer@.len() <= usize::MAX,
                    found == any_nonzero(buffer@, start as int, j as int),
                decreases step - j,
            {
                if buffer[start + j] != 0 {
                    found = true;
                }
                proof {
                    let at = start + j;
                    assert(buffer@[at] != 0 ==> any_nonzero(buffer@, start as int, j + 1));
                }
                j += 1;
            }
            bits_set(&mut bits, i, found);
            i += 1;
        }
        let img = BinaryImage { width, height, buffer: bits };
        assert(img@ =~= raw_pixels(buffer@, count as nat, step as int));
        Ok(img)
    }

    /// Wraps an existing bit vector, whose first `width * height` bits are
    /// the pixels. A vector that holds fewer bits is refused.
    pub fn from_bitvec(width: u32, height: u32, buffer: BitVec) -> (res: Result<BinaryImage, Error>)
        ensures
            res is Ok <==> width * height <= bit_seq(buffer).len(),
            res matches Ok(img) ==> {
                &&& img.spec_width() == width
                &&& img.spec_height() == height
                &&& img@ == bit_seq(buffer).take(width * height)
            },
            res matches Err(e) ==> e is InvalidDimensions,
    {
        proof {
            lemma_area_fits(width, height);
        }
        let area: u64 = width as u64 * height as u64;
        if area > bits_len(&buffer) as u64 {
            return Err(Error::InvalidDimensions);
        }
        let ghost bits = bit_seq(buffer);
        let img = BinaryImage { width, height, buffer };
        assert(img@ =~= bits.take(width * height));
        Ok(img)
    }

    /// Reads a mask out of a grayscale buffer, one byte per pixel: a pixel
    /// is foreground iff its byte is 255. A buffer shorter than
    /// `width * height` bytes is refused.
    pub fn from_mask(width: u32, height: u32, buffer: &[u8]) -> (res: Result<BinaryImage, Error>)
        ensures
            res is Ok <==> width * height <= buffer@.len(),
            res matches Ok(img) ==> {
                &&& img.spec_width() == width
                &&& img.spec_height() == height
                &&& img@ == mask_pixels(buffer@, (width * height) as nat)
            },
            res matches Err(e) ==> e is InvalidDimensions,
    {
        proof {
            lemma_area_fits(width, height);
        }
        let area: u64 = width as u64 * height as u64;
        if area > buffer.len() as u64 {
            return Err(Error::InvalidDimensions);
        }
        let count: usize = area as usize;
        let mut bits = bits_filled(count, false);
        let mut i: usize = 0;
        while i < count
            invariant
                count <= buffer@.len(),
                i <= count,
                bit_seq(bits).len() == count,
                forall|p: int| 0 <= p < i ==> bit_seq(bits)[p] == (buffer@[p] == 255),
            decreases count - i,
        {
            bits_set(&mut bits, i, buffer[i] == 255);
            i += 1;
        }
        let img = BinaryImage { width, height, buffer: bits };
        assert(img@ =~= mask_pixels(buffer@, count as nat));
        Ok(img)
    }

    /// Whether the pixel at column `x` of row `y` is foreground.
    pub fn get_pixel(&self, x: u32, y: u32) -> (bit: bool)
        requires
            x < self.spec_width(),
            y < self.spec_height(),
        ensures
            bit == self.pixel(x as int, y as int),
    {
        proof {
            use_type_invariant(self);
            lemma_index_in_range(x as int, y as int, self.width as int, self.height as int);
        }
        let index: usize = y as usize * self.width as usize + x as usize;
        match bits_get(&self.buffer, index) {
            Some(bit) => bit,
            None => false,
        }
    }

    /// The height in pixels.
    #[verifier::when_used_as_spec(spec_height)]
    pub fn height(&self) -> (h: u32)
        ensures
            h == self.spec_height(),
    {
        self.height
    }

    /// The width in pixels.
    #[verifier::when_used_as_spec(spec_width)]
    pub fn width(&self) -> (w: u32)
        ensures
            w == self.spec_width(),
    {
        self.width
    }
}

/// The `i`-th chunk of a buffer cut into `count` chunks lies inside it.
proof fn lemma_chunk_in_range(i: int, count: int, len: int, step: int)
    requires
        0 <= i < count <= len,
        step == len / count,
    ensures
        0 <= i * step,
        i * step + step <= len,
{
    assert(step * count <= len) by (nonlinear_arith)
        requires
            step == len / count,
            0 < count,
            0 <= len,
    ;
    assert(0 <= step) by (nonlinear_arith)
        requires
            step == len / count,
            0 < count,
            0 <= len,
    ;
    assert(0 <= i * step && i * step + step <= step * count) by (nonlinear_arith)
        requires
            0 <= i < count,
            0 <= step,
    ;
}

} // verus!
