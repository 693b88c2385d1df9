use vstd::prelude::*;
use crate::rtw_stb_image::RTWImage;

verus! {

/// The gray level of pixel `(x, y)`: 0.299 red + 0.587 green + 0.114 blue,
/// rounded down.
pub open spec fn gray_at(img: RTWImage, x: int, y: int) -> int {
    let off = 3 * (y * img.image_width + x);
    (299 * img.data@[off] + 587 * img.data@[off + 1] + 114 * img.data@[off + 2]) / 1000
}

/// The horizontal Sobel response of the 3×3 block whose top-left corner is `(i, j)`.
pub open spec fn sobel_x(img: RTWImage, i: int, j: int) -> int {
    -gray_at(img, i, j) + gray_at(img, i + 2, j) - 2 * gray_at(img, i, j + 1) + 2 * gray_at(img, i + 2, j + 1)
        - gray_at(img, i, j + 2) + gray_at(img, i + 2, j + 2)
}

/// The vertical Sobel response of the 3×3 block whose top-left corner is `(i, j)`.
pub open spec fn sobel_y(img: RTWImage, i: int, j: int) -> int {
    -gray_at(img, i, j) - 2 * gray_at(img, i + 1, j) - gray_at(img, i + 2, j) + gray_at(img, i, j + 2) + 2
        * gray_at(img, i + 1, j + 2) + gray_at(img, i + 2, j + 2)
}

/// The gradient strength above which a pixel counts as an edge.
pub const EDGE_THRESHOLD: i64 = 100;

/// The byte of output pixel `(i, j)`: black on an edge, white elsewhere.
pub open spec fn edge_byte(img: RTWImage, i: int, j: int) -> u8 {
    let fx = sobel_x(img, i, j);
    let fy = sobel_y(img, i, j);
    let f = (if fx < 0 { -fx } else { fx }) + (if fy < 0 { -fy } else { fy });
    if f > EDGE_THRESHOLD {
        0
    } else {
        255
    }
}

proof fn lemma_pixel_in_image(x: int, y: int, w: int, h: int)
    requires
        0 <= x < w,
        0 <= y < h,
    ensures
        0 <= y * w + x < w * h,
        3 * (y * w + x) + 2 < 3 * (w * h),
{
    assert(y * w + x < w * h) by (nonlinear_arith)
        requires
            0 <= x < w,
            0 <= y < h,
    ;
    assert(0 <= y * w) by (nonlinear_arith)
        requires
            0 <= y,
            0 <= w,
    ;
}

fn gray(img: &RTWImage, x: u32, y: u32) -> (g: i64)
    requires
        img.wf(),
        x < img.image_width,
        y < img.image_height,
    ensures
        g == gray_at(*img, x as int, y as int),
{
    proof {
        lemma_pixel_in_image(x as int, y as int, img.image_width as int, img.image_height as int);
        assert(3 * (img.image_width * img.image_height) == 3 * img.image_width * img.image_height)
            by (nonlinear_arith);
    }
    let total: usize = img.data.len();
    assert(3 * (y * img.image_width + x) + 2 < total);
    let off: usize = 3 * (y as usize * img.image_width as usize + x as usize);
    (299 * img.data[off] as i64 + 587 * img.data[off + 1] as i64 + 114 * img.data[off + 2] as i64) / 1000
}

/// The edge map of an image by the Sobel operator on its gray levels: one
/// pixel for each 3×3 block, black where the gradient is strong, white
/// elsewhere. The result is two pixels narrower and lower than the input.
pub fn edge_detection(img: &RTWImage) -> (r: RTWImage)
    requires
        img.wf(),
        img.image_width >= 3,
        img.image_height >= 3,
    ensures
        r.wf(),
        r.image_width == img.image_width - 2,
        r.image_height == img.image_height - 2,
        forall|i: int, j: int, c: int|
            0 <= i < r.image_width && 0 <= j < r.image_height && 0 <= c < 3 ==> #[trigger] r.data@[3 * (j
                * r.image_width + i) + c] == edge_byte(*img, i, j),
{
    let w = img.image_width - 2;
    let h = img.image_height - 2;
    let mut data: Vec<u8> = Vec::new();
    let mut j: u32 = 0;
    while j < h
        invariant
            img.wf(),
            w == img.image_width - 2,
            h == img.image_height - 2,
            j <= h,
            data@.len() == 3 * (j * w),
            forall|i: int, jj: int, c: int|
                0 <= i < w && 0 <= jj < j && 0 <= c < 3 ==> #[trigger] data@[3 * (jj * w + i) + c]
                    == edge_byte(*img, i, jj),
        decreases h - j,
    {
        let mut i: u32 = 0;
        while i < w
            invariant
                img.wf(),
                w == img.image_width - 2,
                h == img.image_height - 2,
                j < h,
                i <= w,
                data@.len() == 3 * (j * w + i),
                forall|ii: int, jj: int, c: int|
                    0 <= ii < w && 0 <= jj < j && 0 <= c < 3 ==> #[trigger] data@[3 * (jj * w + ii) + c]
                        == edge_byte(*img, ii, jj),
                forall|ii: int, c: int|
                    0 <= ii < i && 0 <= c < 3 ==> #[trigger] data@[3 * (j * w + ii) + c] == edge_byte(
                        *img,
                        ii,
                        j as int,
                    ),
            decreases w - i,
        {
            let fx = -gray(img, i, j) + gray(img, i + 2, j) - 2 * gray(img, i, j + 1) + 2 * gray(img, i + 2, j + 1)
                - gray(img, i, j + 2) + gray(img, i + 2, j + 2);
            let fy = -gray(img, i, j) - 2 * gray(img, i + 1, j) - gray(img, i + 2, j) + gray(img, i, j + 2) + 2
                * gray(img, i + 1, j + 2) + gray(img, i + 2, j + 2);
            let f = (if fx < 0 { -fx } else { fx }) + (if fy < 0 { -fy } else { fy });
            let b: u8 = if f > EDGE_THRESHOLD { 0 } else { 255 };
            assert(b == edge_byte(*img, i as int, j as int));
            let ghost before = data@;
            data.push(b);
            data.push(b);
            data.push(b);
            proof {
                assert forall|ii: int, jj: int, c: int|
                    0 <= ii < w && 0 <= jj < j && 0 <= c < 3 implies #[trigger] data@[3 * (jj * w + ii) + c]
                        == edge_byte(*img, ii, jj) by {
                    lemma_row_before(ii, jj, j as int, i as int, w as int, c);
                    assert(data@[3 * (jj * w + ii) + c] == before[3 * (jj * w + ii) + c]);
                }
                assert forall|ii: int, c: int|
                    0 <= ii < i + 1 && 0 <= c < 3 implies #[trigger] data@[3 * (j * w + ii) + c] == edge_byte(
                        *img,
                        ii,
                        j as int,
                    ) by {
                    if ii < i {
                        assert(data@[3 * (j * w + ii) + c] == before[3 * (j * w + ii) + c]);
                    }
                }
            }
            i = i + 1;
        }
        proof {
            assert(3 * (j * w + w) == 3 * ((j + 1) * w)) by (nonlinear_arith);
            assert forall|ii: int, jj: int, c: int|
                0 <= ii < w && 0 <= jj < j + 1 && 0 <= c < 3 implies #[trigger] data@[3 * (jj * w + ii) + c]
                    == edge_byte(*img, ii, jj) by {
                if jj == j {
                    assert(data@[3 * (j * w + ii) + c] == edge_byte(*img, ii, j as int));
                }
            }
        }
        j = j + 1;
    }
    assert(3 * (h * w) == 3 * w * h) by (nonlinear_arith);
    RTWImage { data, image_width: w, image_height: h }
}

/// A pixel of an earlier row lies before every pixel of the current row.
proof fn lemma_row_before(ii: int, jj: int, j: int, i: int, w: int, c: int)
    requires
        0 <= ii < w,
        0 <= jj < j,
        0 <= i,
        0 <= c < 3,
    ensures
        3 * (jj * w + ii) + c < 3 * (j * w + i),
{
    assert(jj * w + ii < j * w + i) by (nonlinear_arith)
        requires
            0 <= ii < w,
            0 <= jj < j,
            0 <= i,
    ;
}

} // verus!
