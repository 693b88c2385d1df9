use vstd::prelude::*;

verus! {

/// A decoded raster image: `image_width * image_height` pixels of three
/// bytes each, row by row. An image that could not be loaded has no pixels.
#[derive(Clone, Debug)]
pub struct RTWImage {
    pub data: Vec<u8>,
    pub image_width: u32,
    pub image_height: u32,
}

/// The byte offset of pixel `(x, y)` in an image `w` pixels wide.
pub open spec fn pixel_offset(x: int, y: int, w: int) -> int {
    3 * (y * w + x)
}

/// `x` held to `[low, high - 1]`.
pub open spec fn clamp_spec(x: int, low: int, high: int) -> int {
    if x < low {
        low
    } else if x < high {
        x
    } else {
        high - 1
    }
}

impl RTWImage {
    /// Whether the pixel bytes match the dimensions.
    pub open spec fn wf(self) -> bool {
        self.data@.len() == 3 * self.image_width * self.image_height
    }

    /// The image that stands in for one that could not be loaded.
    pub fn empty() -> (r: Self)
        ensures
            r.wf(),
            r.image_width == 0,
            r.image_height == 0,
    {
        RTWImage { data: Vec::new(), image_width: 0, image_height: 0 }
    }

    /// The image of the given size over `data`, three bytes per pixel; the
    /// empty image where the length of `data` does not match the size.
    pub fn from_pixels(width: u32, height: u32, data: Vec<u8>) -> (r: Self)
        ensures
            r.wf(),
            data@.len() == 3 * width * height ==> r.data@ == data@ && r.image_width == width
                && r.image_height == height,
            data@.len() != 3 * width * height ==> r.image_width == 0 && r.image_height == 0,
    {
        proof {
            crate::arith::lemma_mul_abs_bound(width as int, height as int, u32::MAX as int, u32::MAX as int);
            assert(u32::MAX as int * u32::MAX as int <= 0x1_0000_0000_0000_0000) by (nonlinear_arith);
        }
        let expected: u128 = 3 * ((width as u128) * (height as u128));
        assert(3 * width * height == 3 * (width * height)) by (nonlinear_arith);
        if data.len() as u128 == expected {
            RTWImage { data, image_width: width, image_height: height }
        } else {
            Self::empty()
        }
    }

    pub fn width(&self) -> (r: u32)
        ensures
            r == self.image_width,
    {
        self.image_width
    }

    pub fn height(&self) -> (r: u32)
        ensures
            r == self.image_height,
    {
        self.image_height
    }

    /// The three bytes of pixel `(x, y)`, each coordinate held to the image;
    /// magenta for an image with no pixels.
    pub fn pixel_data(&self, x: u32, y: u32) -> (r: [u8; 3])
        requires
            self.wf(),
        ensures
            self.image_width == 0 || self.image_height == 0 ==> r@ == seq![255u8, 0u8, 255u8],
            self.image_width > 0 && self.image_height > 0 ==> ({
                let off = pixel_offset(
                    clamp_spec(x as int, 0, self.image_width as int),
                    clamp_spec(y as int, 0, self.image_height as int),
                    self.image_width as int,
                );
                r@ == seq![self.data@[off], self.data@[off + 1], self.data@[off + 2]]
            }),
    {
        if self.image_width == 0 || self.image_height == 0 {
            let m = [255u8, 0u8, 255u8];
            assert(m@ =~= seq![255u8, 0u8, 255u8]);
            return m;
        }
        let x = Self::clamp(x, 0, self.image_width);
        let y = Self::clamp(y, 0, self.image_height);
        let w = self.image_width as usize;
        let h = self.image_height as usize;
        proof {
            let (xi, yi, wi, hi) = (x as int, y as int, w as int, h as int);
            assert((yi * wi + xi) < wi * hi) by (nonlinear_arith)
                requires
                    0 <= xi < wi,
                    0 <= yi < hi,
            ;
            assert(3 * (wi * hi) == 3 * wi * hi) by (nonlinear_arith);
            assert(yi * wi <= yi * wi + xi);
        }
        let total: usize = self.data.len();
        assert(3 * (y * w + x) + 2 < total);
        let off: usize = 3 * (y as usize * w + x as usize);
        let px = [self.data[off], self.data[off + 1], self.data[off + 2]];
        assert(px@ =~= seq![self.data@[off as int], self.data@[off + 1], self.data@[off + 2]]);
        px
    }

    /// `x` held to `[low, high - 1]`.
    pub fn clamp(x: u32, low: u32, high: u32) -> (r: u32)
        requires
            low < high,
        ensures
            r == clamp_spec(x as int, low as int, high as int),
    {
        if x < low {
            low
        } else if x < high {
            x
        } else {
            high - 1
        }
    }
}

} // verus!
