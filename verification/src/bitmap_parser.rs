//! Decoding of a minimal uncompressed 24-bit bitmap byte buffer into a
//! rectangular pixel grid.
//!
//! The on-disk layout relied upon: the image width is a little-endian `u32` at
//! byte offset 18, the height at offset 22, and the pixel data starts at the
//! fixed offset 54. Each scanline occupies `stride` bytes and holds one
//! blue-green-red byte triple per pixel; scanlines are stored bottom-to-top,
//! while the decoded grid presents rows top-to-bottom.

use vstd::prelude::*;
use vstd::arithmetic::div_mod::{lemma_fundamental_div_mod, lemma_fundamental_div_mod_converse};
use vstd::arithmetic::mul::{
    lemma_mul_inequality, lemma_mul_is_distributive_add_other_way, lemma_mul_upper_bound,
};

verus! {

/// One decoded pixel: red, green and blue channels.
#[derive(Clone, Copy, Debug, PartialEq, Eq, Structural)]
pub struct RGB {
    pub r: u8,
    pub g: u8,
    pub b: u8,
}

/// Why a byte buffer could not be decoded into a bitmap.
#[derive(Clone, Copy, Debug, PartialEq, Eq, Structural)]
pub enum DecodeError {
    /// The buffer is shorter than the 54-byte header, or shorter than the
    /// pixel data extent implied by the header's width and height.
    TruncatedFile,
    /// The byte length of one padded scanline does not fit in `u32`.
    StrideOverflow,
}

/// The value of the little-endian 32-bit integer stored in the four bytes of
/// `s` starting at offset `off`.
pub open spec fn le_u32_at(s: Seq<u8>, off: int) -> int {
    s[off] + s[off + 1] * 0x100 + s[off + 2] * 0x1_0000 + s[off + 3] * 0x100_0000
}

/// The padded byte length of one scanline for an image `width` pixels wide:
/// `3 * width` when the width is a multiple of 4 (no re-padding happens on
/// that branch), otherwise `3 * width` rounded up to the next multiple of 4.
pub open spec fn stride_of(width: int) -> int {
    if width % 4 == 0 {
        3 * width
    } else {
        3 * width - ((3 * width) % 4) + 4
    }
}

/// Whether the padded scanline length for `width` is representable as a `u32`.
pub open spec fn stride_fits(width: int) -> bool {
    stride_of(width) <= u32::MAX
}

/// The image width recorded in the header of the buffer `s`.
pub open spec fn header_width(s: Seq<u8>) -> int {
    le_u32_at(s, 18)
}

/// The image height recorded in the header of the buffer `s`.
pub open spec fn header_height(s: Seq<u8>) -> int {
    le_u32_at(s, 22)
}

/// The pixel stored in buffer `s` at column `x` of on-disk scanline `row`
/// (scanlines are counted bottom-to-top on disk): a blue-green-red triple at
/// byte offset `54 + row * stride + 3 * x`.
pub open spec fn disk_pixel(s: Seq<u8>, stride: int, row: int, x: int) -> RGB {
    RGB {
        r: s[54 + row * stride + 3 * x + 2],
        g: s[54 + row * stride + 3 * x + 1],
        b: s[54 + row * stride + 3 * x],
    }
}

/// The whole on-disk scanline `row` of buffer `s` as a pixel sequence.
pub open spec fn disk_row_seq(s: Seq<u8>, stride: int, row: int, width: int) -> Seq<RGB> {
    Seq::new(width as nat, |x: int| disk_pixel(s, stride, row, x))
}

/// Whether the buffer `s` decodes successfully: it holds the full 54-byte
/// header, the padded scanline length fits in `u32`, and the buffer covers
/// the whole pixel data extent implied by the header.
pub open spec fn decodes(s: Seq<u8>) -> bool {
    &&& s.len() >= 54
    &&& stride_fits(header_width(s))
    &&& s.len() >= 54 + header_height(s) * stride_of(header_width(s))
}

impl RGB {
    /// Reads one pixel from its on-disk blue-green-red byte triple.
    pub fn from_bytes(bytes: &[u8]) -> (p: RGB)
        requires
            bytes@.len() >= 3,
        ensures
            p.b == bytes@[0],
            p.g == bytes@[1],
            p.r == bytes@[2],
    {
        RGB { b: bytes[0], g: bytes[1], r: bytes[2] }
    }
}

/// Reads a little-endian 32-bit unsigned integer from a four-byte slice.
pub fn read_4_bytes(bytes: &[u8]) -> (n: u32)
    requires
        bytes@.len() == 4,
    ensures
        n == le_u32_at(bytes@, 0),
{
    (bytes[0] as u32) + (bytes[1] as u32) * 0x100 + (bytes[2] as u32) * 0x1_0000
        + (bytes[3] as u32) * 0x100_0000
}

/// Computes the padded byte length of one scanline from the image width,
/// failing with [`DecodeError::StrideOverflow`] when it does not fit in `u32`.
///
/// A width that is a multiple of 4 yields exactly `3 * width`, with no
/// re-padding to a 4-byte boundary; every other width yields `3 * width`
/// rounded up to the next multiple of 4, computed through signed 64-bit
/// intermediates and narrowed back to `u32`.
pub fn round_to_4_bytes(number: u32) -> (r: Result<u32, DecodeError>)
    ensures
        stride_fits(number as int) ==> r == Ok::<u32, DecodeError>(stride_of(number as int) as u32),
        !stride_fits(number as int) ==> r == Err::<u32, DecodeError>(DecodeError::StrideOverflow),
{
    let inumber: i64 = number as i64;
    if number % 4 == 0 {
        if number <= u32::MAX / 3 {
            Ok(number * 3)
        } else {
            Err(DecodeError::StrideOverflow)
        }
    } else {
        let padded: i64 = inumber * 3 - (inumber * 3) % 4 + 4;
        if padded <= u32::MAX as i64 {
            Ok(padded as u32)
        } else {
            Err(DecodeError::StrideOverflow)
        }
    }
}

/// The padded scanline length covers the `3 * width` payload bytes.
pub proof fn lemma_stride_ge_payload(width: int)
    requires
        0 <= width,
    ensures
        3 * width <= stride_of(width),
{
    if width % 4 != 0 {
        assert(0 <= (3 * width) % 4 < 4);
    }
}

/// The stride is exactly `3 * width` for a width divisible by 4, and the
/// smallest multiple of 4 that is at least `3 * width` for every other width.
pub proof fn lemma_stride_rounds_up(width: int)
    requires
        0 <= width,
    ensures
        width % 4 == 0 ==> stride_of(width) == 3 * width,
        width % 4 != 0 ==> {
            &&& stride_of(width) % 4 == 0
            &&& 3 * width <= stride_of(width)
            &&& stride_of(width) - 4 < 3 * width
        },
{
    if width % 4 != 0 {
        let q = width / 4;
        let r = width % 4;
        lemma_fundamental_div_mod(width, 4);
        assert(width == 4 * q + r);
        assert(3 * width == 12 * q + 3 * r);
        if r == 1 {
            lemma_fundamental_div_mod_converse(3 * width, 4, 3 * q, 3);
        } else if r == 2 {
            lemma_fundamental_div_mod_converse(3 * width, 4, 3 * q + 1, 2);
        } else {
            assert(r == 3);
            lemma_fundamental_div_mod_converse(3 * width, 4, 3 * q + 2, 1);
        }
        assert((3 * width) % 4 != 0);
        let m = (3 * width) % 4;
        let s = stride_of(width);
        assert(s == 3 * width - m + 4);
        lemma_fundamental_div_mod(3 * width, 4);
        assert(s == 4 * ((3 * width) / 4) + 4);
        lemma_fundamental_div_mod_converse(s, 4, (3 * width) / 4 + 1, 0);
    }
}

/// A decoded image: its dimensions and a row-major pixel grid whose row 0 is
/// the visually topmost scanline.
#[derive(Clone, Debug, PartialEq, Eq)]
pub struct Bitmap {
    pub width: u32,
    pub height: u32,
    pub pixels: Vec<Vec<RGB>>,
}

impl View for Bitmap {
    type V = Seq<Seq<RGB>>;

    open spec fn view(&self) -> Seq<Seq<RGB>> {
        self.pixels@.map_values(|row: Vec<RGB>| row@)
    }
}

impl Bitmap {
    /// Well-formedness: the grid holds `height` rows of `width` pixels each.
    pub open spec fn wf(self) -> bool {
        &&& self@.len() == self.height
        &&& forall|y: int| 0 <= y < self.height ==> (#[trigger] self@[y]).len() == self.width
    }

    /// The pixel in column `x` of row `y`, row 0 being the top of the image.
    pub open spec fn pixel(self, x: int, y: int) -> RGB {
        self@[y][x]
    }

    /// Whether this grid is the decoding of buffer `s`: the dimensions come
    /// from the header, and row `y` of the grid holds, pixel for pixel, the
    /// on-disk scanline `height - 1 - y` (the row order is reversed, so the
    /// bottom-to-top storage order becomes top-to-bottom).
    pub open spec fn decoded_from(self, s: Seq<u8>) -> bool {
        &&& self.wf()
        &&& self.width == header_width(s)
        &&& self.height == header_height(s)
        &&& forall|x: int, y: int|
            0 <= x < self.width && 0 <= y < self.height ==> #[trigger] self.pixel(x, y)
                == disk_pixel(s, stride_of(header_width(s)), self.height - 1 - y, x)
    }

    /// The byte offset where on-disk scanline `row` begins.
    pub fn row_start_slice(bytes_per_row: u32, row: u32) -> (start: usize)
        requires
            54 + (row as int) * (bytes_per_row as int) <= usize::MAX,
        ensures
            start == 54 + (row as int) * (bytes_per_row as int),
    {
        54 + (row as usize) * (bytes_per_row as usize)
    }

    /// The byte offset just past the end of on-disk scanline `row`.
    pub fn row_end_slice(bytes_per_row: u32, row: u32) -> (end: usize)
        requires
            54 + ((row as int) + 1) * (bytes_per_row as int) <= usize::MAX,
        ensures
            end == 54 + ((row as int) + 1) * (bytes_per_row as int),
    {
        proof {
            lemma_mul_is_distributive_add_other_way(bytes_per_row as int, row as int, 1);
        }
        54 + (row as usize) * (bytes_per_row as usize) + (bytes_per_row as usize)
    }

    /// Decodes a raw image byte buffer into a pixel grid.
    ///
    /// Succeeds exactly on buffers that hold the whole 54-byte header, a
    /// representable scanline stride, and the full pixel data extent; a
    /// buffer failing the first or third condition is reported as truncated,
    /// one failing the second as a stride overflow.
    pub fn from(bytes: &[u8]) -> (r: Result<Bitmap, DecodeError>)
        ensures
            r is Ok <==> decodes(bytes@),
            (match r {
                Ok(bm) => bm.decoded_from(bytes@),
                Err(e) => if bytes@.len() < 54 {
                    e == DecodeError::TruncatedFile
                } else if !stride_fits(header_width(bytes@)) {
                    e == DecodeError::StrideOverflow
                } else {
                    e == DecodeError::TruncatedFile
                },
            }),
    {
        if bytes.len() < 54 {
            return Err(DecodeError::TruncatedFile);
        }
        let width = read_4_bytes(&bytes[18..22]);
        let height = read_4_bytes(&bytes[22..26]);
        proof {
            assert(width == header_width(bytes@));
            assert(height == header_height(bytes@));
        }
        let bytes_per_row = match round_to_4_bytes(width) {
            Ok(n) => n,
            Err(e) => {
                return Err(e);
            },
        };
        proof {
            lemma_mul_upper_bound(height as int, u32::MAX as int, bytes_per_row as int, u32::MAX as int);
        }
        let needed: u64 = 54 + (height as u64) * (bytes_per_row as u64);
        if (bytes.len() as u64) < needed {
            return Err(DecodeError::TruncatedFile);
        }
        let ghost stride: int = bytes_per_row as int;
        let total_len = bytes.len();
        proof {
            lemma_stride_ge_payload(width as int);
        }

        let mut pixels: Vec<Vec<RGB>> = Vec::new();
        let mut y: u32 = 0;
        while y < height
            invariant
                y <= height,
                width == header_width(bytes@),
                height == header_height(bytes@),
                stride == bytes_per_row as int,
                stride == stride_of(width as int),
                3 * width <= stride,
                total_len == bytes@.len(),
                bytes@.len() >= 54 + (height as int) * stride,
                pixels@.len() == y,
                forall|i: int|
                    0 <= i < y ==> (#[trigger] pixels@[i])@ == disk_row_seq(
                        bytes@,
                        stride,
                        height - 1 - i,
                        width as int,
                    ),
            decreases height - y,
        {
            let disk_row = height - 1 - y;
            proof {
                lemma_mul_inequality(disk_row as int + 1, height as int, stride);
                lemma_mul_is_distributive_add_other_way(stride, disk_row as int, 1);
                assert(54 + ((disk_row as int) + 1) * stride <= bytes@.len());
                assert(bytes@.len() <= usize::MAX);
            }
            let start = Bitmap::row_start_slice(bytes_per_row, disk_row);
            let end = Bitmap::row_end_slice(bytes_per_row, disk_row);
            let row_bytes = &bytes[start..end];

            let mut row_pixels: Vec<RGB> = Vec::new();
            let mut x: u32 = 0;
            while x < width
                invariant
                    x <= width,
                    3 * width <= stride,
                    stride <= u32::MAX,
                    start == 54 + (disk_row as int) * stride,
                    start + stride <= bytes@.len(),
                    row_bytes@ == bytes@.subrange(start as int, start as int + stride),
                    row_bytes@.len() == stride,
                    row_pixels@.len() == x,
                    forall|j: int|
                        0 <= j < x ==> row_pixels@[j] == disk_pixel(
                            bytes@,
                            stride,
                            disk_row as int,
                            j,
                        ),
                decreases width - x,
            {
                proof {
                    assert(3 * (x as int) + 3 <= 3 * (width as int));
                    assert(usize::MAX >= u32::MAX);
                }
                let pixel_start = 3 * (x as usize);
                let pixel_end = pixel_start + 3;
                let pixel_bytes = &row_bytes[pixel_start..pixel_end];
                let p = RGB::from_bytes(pixel_bytes);
                proof {
                    assert(pixel_bytes@[0] == row_bytes@[pixel_start as int]);
                    assert(pixel_bytes@[1] == row_bytes@[pixel_start as int + 1]);
                    assert(pixel_bytes@[2] == row_bytes@[pixel_start as int + 2]);
                    assert(row_bytes@[pixel_start as int] == bytes@[start as int + 3 * x]);
                    assert(row_bytes@[pixel_start as int + 1] == bytes@[start as int + 3 * x + 1]);
                    assert(row_bytes@[pixel_start as int + 2] == bytes@[start as int + 3 * x + 2]);
                    assert(p == disk_pixel(bytes@, stride, disk_row as int, x as int));
                }
                row_pixels.push(p);
                x = x + 1;
            }
            proof {
                assert(row_pixels@ =~= disk_row_seq(bytes@, stride, disk_row as int, width as int));
            }
            pixels.push(row_pixels);
            y = y + 1;
        }

        let bm = Bitmap { width, height, pixels };
        proof {
            assert(bm.wf());
            assert forall|x: int, yy: int|
                0 <= x < bm.width && 0 <= yy < bm.height implies #[trigger] bm.pixel(x, yy)
                == disk_pixel(bytes@, stride_of(header_width(bytes@)), bm.height - 1 - yy, x) by {
                assert(bm@[yy] == pixels@[yy]@);
                assert(pixels@[yy]@ == disk_row_seq(bytes@, stride, height - 1 - yy, width as int));
            }
        }
        Ok(bm)
    }

    /// Row 0 of a decoded grid is the scanline stored last in the buffer:
    /// decoding reverses the bottom-to-top storage order, so the topmost
    /// grid row re-reads, pixel for pixel, the physically last scanline.
    pub proof fn lemma_top_row_is_last_scanline(self, s: Seq<u8>)
        requires
            self.decoded_from(s),
            self.height > 0,
        ensures
            forall|x: int|
                0 <= x < self.width ==> #[trigger] self.pixel(x, 0) == disk_pixel(
                    s,
                    stride_of(header_width(s)),
                    self.height - 1,
                    x,
                ),
    {
    }

    /// The pixel in column `x` of row `y` of the decoded grid.
    pub fn get_pixel_at(&self, x: u32, y: u32) -> (p: &RGB)
        requires
            self.wf(),
            x < self.width,
            y < self.height,
        ensures
            *p == self.pixel(x as int, y as int),
    {
        proof {
            assert(self.pixels@.len() == self@.len());
            assert(self@[y as int] == self.pixels@[y as int]@);
        }
        &self.pixels[y as usize][x as usize]
    }
}

} // verus!
