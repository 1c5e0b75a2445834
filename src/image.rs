use vstd::prelude::*;

verus! {

/// A single-channel image stored row by row; a pixel is set when it is not zero.
pub struct BinaryImage {
    width: usize,
    height: usize,
    pixels: Vec<u8>,
}

/// What a `BinaryImage` holds, as mathematical values.
pub struct ImageView {
    pub width: int,
    pub height: int,
    pub pixels: Seq<u8>,
}

impl View for BinaryImage {
    type V = ImageView;

    closed spec fn view(&self) -> ImageView {
        ImageView { width: self.width as int, height: self.height as int, pixels: self.pixels@ }
    }
}

pub open spec fn pixel_at(v: ImageView, x: int, y: int) -> u8 {
    v.pixels[y * v.width + x]
}

/// Whether the region with top-left corner `(x, y)` and size `w` by `h` lies within the image.
pub open spec fn region_inside(v: ImageView, x: int, y: int, w: int, h: int) -> bool {
    0 <= x && 0 <= y && 0 <= w && 0 <= h && x + w <= v.width && y + h <= v.height
}

/// Number of set pixels among the first `n` pixels of row `y` from column `x`.
pub open spec fn filled_in_row(v: ImageView, x: int, y: int, n: int) -> int
    decreases n,
{
    if n <= 0 {
        0
    } else {
        filled_in_row(v, x, y, n - 1) + if pixel_at(v, x + n - 1, y) != 0 {
            1int
        } else {
            0int
        }
    }
}

/// Number of set pixels in the region with top-left corner `(x, y)` and size `w` by `h`.
pub open spec fn filled_in_region(v: ImageView, x: int, y: int, w: int, h: int) -> int
    decreases h,
{
    if h <= 0 {
        0
    } else {
        filled_in_region(v, x, y, w, h - 1) + filled_in_row(v, x, y + h - 1, w)
    }
}

proof fn lemma_index_in_image(width: int, height: int, x: int, y: int)
    requires
        0 <= x < width,
        0 <= y < height,
    ensures
        0 <= y * width + x < width * height,
{
    assert(y * width + x < width * height) by (nonlinear_arith)
        requires
            0 <= x < width,
            0 <= y < height,
    ;
    assert(0 <= y * width) by (nonlinear_arith)
        requires
            0 <= y,
            0 <= width,
    ;
}

/// The dimensions of an image are machine-sized.
pub proof fn lemma_image_size(img: &BinaryImage)
    ensures
        0 <= img@.width <= usize::MAX,
        0 <= img@.height <= usize::MAX,
{
}

impl BinaryImage {
    #[verifier::type_invariant]
    spec fn well_formed(&self) -> bool {
        self.pixels@.len() == self.width * self.height
    }

    /// An image of `width` by `height` pixels given row by row; `None` when the
    /// number of pixels does not match.
    pub fn new(width: usize, height: usize, pixels: Vec<u8>) -> (r: Option<BinaryImage>)
        ensures
            r matches Some(img) ==> img@ == (ImageView {
                width: width as int,
                height: height as int,
                pixels: pixels@,
            }),
            r is Some <==> pixels@.len() == width * height,
    {
        if height == 0 {
            if pixels.len() == 0 {
                Some(BinaryImage { width, height, pixels })
            } else {
                None
            }
        } else if width > pixels.len() / height {
            proof {
                assert(width * height > pixels.len()) by (nonlinear_arith)
                    requires
                        height > 0,
                        width > pixels.len() / height,
                ;
            }
            None
        } else {
            proof {
                assert(width * height <= pixels.len()) by (nonlinear_arith)
                    requires
                        height > 0,
                        width <= pixels.len() / height,
                ;
            }
            if width * height == pixels.len() {
                Some(BinaryImage { width, height, pixels })
            } else {
                None
            }
        }
    }

    pub fn width(&self) -> (r: usize)
        ensures
            r == self@.width,
    {
        self.width
    }

    pub fn height(&self) -> (r: usize)
        ensures
            r == self@.height,
    {
        self.height
    }

    /// Counts the set pixels of a region that lies within the image.
    pub fn count_non_zero(&self, x: usize, y: usize, w: usize, h: usize) -> (r: u64)
        requires
            region_inside(self@, x as int, y as int, w as int, h as int),
        ensures
            r == filled_in_region(self@, x as int, y as int, w as int, h as int),
            r <= w * h,
            w * h <= usize::MAX,
    {
        proof {
            use_type_invariant(self);
        }
        let ghost v = self@;
        let total: usize = self.pixels.len();
        let mut count: u64 = 0;
        let mut row: usize = 0;
        while row < h
            invariant
                v == self@,
                self.pixels@.len() == self.width * self.height,
                total == self.pixels@.len(),
                region_inside(v, x as int, y as int, w as int, h as int),
                row <= h,
                count == filled_in_region(v, x as int, y as int, w as int, row as int),
                count <= row * w,
            decreases h - row,
        {
            let mut col: usize = 0;
            let mut in_row: u64 = 0;
            while col < w
                invariant
                    v == self@,
                    self.pixels@.len() == self.width * self.height,
                    total == self.pixels@.len(),
                    region_inside(v, x as int, y as int, w as int, h as int),
                    row < h,
                    col <= w,
                    in_row == filled_in_row(v, x as int, y + row, col as int),
                    in_row <= col,
                decreases w - col,
            {
                proof {
                    lemma_index_in_image(
                        self.width as int,
                        self.height as int,
                        x + col,
                        y + row,
                    );
                }
                let index = (y + row) * self.width + (x + col);
                if self.pixels[index] != 0 {
                    in_row = in_row + 1;
                }
                col = col + 1;
            }
            proof {
                assert((row + 1) * w == row * w + w) by (nonlinear_arith);
                assert(row * w + w <= h * w) by (nonlinear_arith)
                    requires
                        row < h,
                ;
                assert(h * w <= self.width * self.height) by (nonlinear_arith)
                    requires
                        h <= self.height,
                        w <= self.width,
                ;
            }
            count = count + in_row;
            row = row + 1;
        }
        proof {
            assert(h * w == w * h) by (nonlinear_arith);
            assert(h * w <= self.width * self.height) by (nonlinear_arith)
                requires
                    h <= self.height,
                    w <= self.width,
            ;
        }
        count
    }
}

} // verus!
