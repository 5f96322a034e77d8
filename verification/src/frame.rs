use image::DynamicImage;
use vstd::prelude::*;

verus! {

#[verifier::external_type_specification]
#[verifier::external_body]
pub struct ExDynamicImage(image::DynamicImage);

/// What image's `DynamicImage::to_rgba8` makes of `img`, read through the converted
/// buffer's `dimensions` and `into_raw`: its width, its height and its RGBA8 bytes.
/// The conversion is a function of the image alone (a match on the image's variant
/// that clones or converts its pixel buffer).
pub uninterp spec fn rgba8_of(img: DynamicImage) -> (u32, u32, Seq<u8>);

/// Calls image's `DynamicImage::to_rgba8`, and hands back the converted buffer's
/// `dimensions` and its `into_raw` bytes. Claimed: the result is `rgba8_of(img)`, and the
/// bytes hold at least four per pixel of the reported width and height; every
/// `ImageBuffer` is built only when its container is that large (`ImageBuffer::from_raw`
/// checks it, `ImageBuffer::new` and the conversions allocate exactly that much). Which
/// colours the bytes hold, and how the width and height relate to the image's own
/// size, is left unsaid: the image is opaque here and `rgba8_of` has no definition.
#[verifier::external_body]
fn rgba8_parts(img: DynamicImage) -> (parts: (u32, u32, Vec<u8>))
    ensures
        (parts.0, parts.1, parts.2@) == rgba8_of(img),
        parts.0 * parts.1 * 4 <= parts.2@.len(),
{
    let rgba = img.to_rgba8();
    let (width, height) = rgba.dimensions();
    (width, height, rgba.into_raw())
}

/// A captured screenshot held as tightly packed RGBA8 rows.
#[derive(Debug, Clone)]
pub struct FrozenFrame {
    pub width: u32,
    pub height: u32,
    pub rgba: Vec<u8>,
}

impl FrozenFrame {
    /// The buffer holds every pixel of the `width` x `height` grid, and the byte
    /// offset of every pixel is addressable with a `u32`.
    pub open spec fn wf(&self) -> bool {
        &&& self.width * self.height <= 0x4000_0000
        &&& self.width * self.height * 4 <= self.rgba@.len()
    }

    /// Byte offset of the pixel at column `x`, row `y`.
    pub open spec fn offset(&self, x: int, y: int) -> int {
        (y * self.width + x) * 4
    }

    /// The four channels (R, G, B, A) of the pixel at column `x`, row `y`.
    pub open spec fn pixel(&self, x: int, y: int) -> Seq<u8> {
        self.rgba@.subrange(self.offset(x, y), self.offset(x, y) + 4)
    }

    /// Converts a decoded image to RGBA8 and keeps its size and bytes.
    pub fn from_dynamic(img: DynamicImage) -> (frame: Self)
        ensures
            (frame.width, frame.height, frame.rgba@) == rgba8_of(img),
            frame.width * frame.height * 4 <= frame.rgba@.len(),
    {
        let (width, height, rgba) = rgba8_parts(img);
        FrozenFrame { width, height, rgba }
    }

    /// The frame is well formed (see `wf`): every pixel is in the buffer and its
    /// offset fits in a `u32`.
    pub fn is_valid(&self) -> (b: bool)
        ensures
            b == self.wf(),
    {
        assert(self.width as int * self.height as int <= 0xffff_ffff * 0xffff_ffff) by (nonlinear_arith)
            requires
                self.width <= 0xffff_ffff,
                self.height <= 0xffff_ffff,
        ;
        let pixels: u64 = self.width as u64 * self.height as u64;
        pixels <= 0x4000_0000 && pixels * 4 <= self.rgba.len() as u64
    }

    /// Reads the pixel at column `x`, row `y`.
    pub fn load(&self, x: u32, y: u32) -> (px: [u8; 4])
        requires
            self.wf(),
            x < self.width,
            y < self.height,
        ensures
            px@ == self.pixel(x as int, y as int),
    {
        proof {
            lemma_offset_in_bounds(self.width as int, self.height as int, x as int, y as int);
        }
        let idx = ((y * self.width + x) * 4) as usize;
        let px = [self.rgba[idx], self.rgba[idx + 1], self.rgba[idx + 2], self.rgba[idx + 3]];
        assert(px@ =~= self.pixel(x as int, y as int));
        px
    }
}

/// A frame is well formed exactly when every pixel of its grid can be read the way
/// `load` reads it: the byte offset `(y * width + x) * 4` fits in a `u32` and the pixel's
/// four bytes lie inside the buffer.
pub proof fn lemma_wf_means_every_pixel_readable(frame: FrozenFrame)
    ensures
        frame.wf() <==> forall|x: int, y: int|
            0 <= x < frame.width && 0 <= y < frame.height ==> {
                &&& #[trigger] ((y * frame.width + x) * 4) <= u32::MAX
                &&& (y * frame.width + x) * 4 + 4 <= frame.rgba@.len()
            },
{
    let w = frame.width as int;
    let h = frame.height as int;
    if frame.wf() {
        assert forall|x: int, y: int| 0 <= x < w && 0 <= y < h implies {
            &&& #[trigger] ((y * w + x) * 4) <= u32::MAX
            &&& (y * w + x) * 4 + 4 <= frame.rgba@.len()
        } by {
            lemma_offset_in_bounds(w, h, x, y);
        }
    }
    if forall|x: int, y: int|
        0 <= x < w && 0 <= y < h ==> {
            &&& #[trigger] ((y * w + x) * 4) <= u32::MAX
            &&& (y * w + x) * 4 + 4 <= frame.rgba@.len()
        } {
        if w > 0 && h > 0 {
            let x = w - 1;
            let y = h - 1;
            assert(((y * w + x) * 4) <= u32::MAX);
            assert(y * w + x == w * h - 1) by (nonlinear_arith)
                requires
                    x == w - 1,
                    y == h - 1,
            ;
        } else {
            assert(w * h == 0) by (nonlinear_arith)
                requires
                    w == 0 || h == 0,
            ;
        }
    }
}

/// A pixel inside the grid starts at least four bytes before the end of the grid.
pub proof fn lemma_offset_in_bounds(w: int, h: int, x: int, y: int)
    requires
        0 <= x < w,
        0 <= y < h,
    ensures
        0 <= y * w + x,
        (y * w + x) * 4 + 4 <= w * h * 4,
        y * w + x < w * h,
{
    assert(y * w + x < w * h) by (nonlinear_arith)
        requires
            0 <= x < w,
            0 <= y < h,
    ;
    assert(0 <= y * w) by (nonlinear_arith)
        requires
            0 <= y,
            0 <= w,
    ;
}

} // verus!
