use vstd::prelude::*;

verus! {

/// The iteration budget of the escape-time test behind each pixel.
pub const ESCAPE_LIMIT: usize = 255;

/// The intensity of a pixel: black (`0`) for a point that did not escape, and
/// `255 - i` for one that escaped at iteration `i`, so that quick escapes are bright.
/// The iteration count is taken modulo 256, as a byte holds it.
pub open spec fn shade_of(escape: Option<usize>) -> u8 {
    match escape {
        None => 0,
        Some(i) => (255 - i % 256) as u8,
    }
}

/// The (column, row) pixel that index `i` of a row-major buffer `width` wide holds.
pub open spec fn pixel_of(width: usize, i: int) -> (usize, usize) {
    ((i % width as int) as usize, (i / width as int) as usize)
}

/// Whether `value` is the intensity of pixel `i` of a grid `width` wide, for some
/// outcome that `escape_at` may give for that pixel.
pub open spec fn shows_pixel<F: Fn((usize, usize)) -> Option<usize>>(
    escape_at: F,
    width: usize,
    value: u8,
    i: int,
) -> bool {
    exists|e: Option<usize>| #[trigger] escape_at.ensures((pixel_of(width, i),), e) && value == shade_of(e)
}

/// The intensity byte for an escape-time outcome.
pub fn shade(escape: Option<usize>) -> (r: u8)
    ensures
        r == shade_of(escape),
{
    match escape {
        None => 0,
        Some(time) => 255 - (time % 256) as u8,
    }
}

/// Each pixel `(col, row)` of a `width` by `height` grid has the one index
/// `row * width + col` of the row-major buffer, and each index below
/// `width * height` stands for one pixel of the grid, so that filling every index
/// fills every pixel exactly once.
pub proof fn row_major_indexing(width: usize, height: usize, col: usize, row: usize, i: int)
    requires
        width > 0,
    ensures
        col < width && row < height ==> {
            &&& 0 <= row * width + col < width * height
            &&& pixel_of(width, row * width + col) == (col, row)
        },
        0 <= i < width * height ==> {
            &&& pixel_of(width, i).0 < width
            &&& pixel_of(width, i).1 < height
            &&& i == pixel_of(width, i).1 * width + pixel_of(width, i).0
        },
{
    if col < width && row < height {
        assert(0 <= row * width + col < width * height) by (nonlinear_arith)
            requires
                row < height,
                col < width,
        ;
        vstd::arithmetic::div_mod::lemma_fundamental_div_mod_converse(
            row * width + col,
            width as int,
            row as int,
            col as int,
        );
    }
    if 0 <= i < width * height {
        vstd::arithmetic::div_mod::lemma_fundamental_div_mod(i, width as int);
        vstd::arithmetic::div_mod::lemma_div_pos_is_pos(i, width as int);
        vstd::arithmetic::div_mod::lemma_mod_bound(i, width as int);
        let q = i / width as int;
        assert(q < height) by (nonlinear_arith)
            requires
                i == width * q + i % width as int,
                0 <= i % width as int,
                i < width * height,
                width > 0,
        ;
        assert(i == q * width + i % width as int) by (nonlinear_arith)
            requires
                i == width * q + i % width as int,
        ;
        assert(pixel_of(width, i).0 == i % width as int);
        assert(pixel_of(width, i).1 == q);
    }
}

/// Fills `pixels`, a row-major grid of `bounds.0` columns and `bounds.1` rows,
/// with the intensity of each pixel, where `escape_at((col, row))` gives the
/// escape-time outcome of the point that pixel stands for.
///
/// The buffer must hold exactly `bounds.0 * bounds.1` bytes. Afterwards each
/// index `i` holds the intensity of an outcome that `escape_at` gives for the
/// pixel `(i % bounds.0, i / bounds.0)`: no index is left as it was.
pub fn render_set<F: Fn((usize, usize)) -> Option<usize>>(
    pixels: &mut [u8],
    bounds: (usize, usize),
    escape_at: F,
)
    requires
        old(pixels)@.len() == bounds.0 * bounds.1,
        forall|col: usize, row: usize|
            col < bounds.0 && row < bounds.1 ==> #[trigger] escape_at.requires(((col, row),)),
    ensures
        final(pixels)@.len() == old(pixels)@.len(),
        forall|i: int|
            #![trigger final(pixels)@[i]]
            0 <= i < final(pixels)@.len() ==> shows_pixel(escape_at, bounds.0, final(pixels)@[i], i),
{
    let (width, height) = bounds;
    let n = pixels.len();
    let ghost len = pixels@.len();
    let mut row: usize = 0;
    while row < height
        invariant
            pixels@.len() == len,
            len == width * height,
            len == n,
            row <= height,
            row * width <= len,
            forall|col: usize, row: usize|
                col < width && row < height ==> #[trigger] escape_at.requires(((col, row),)),
            forall|i: int|
                #![trigger pixels@[i]]
                0 <= i < row * width ==> shows_pixel(escape_at, width, pixels@[i], i),
        decreases height - row,
    {
        let mut col: usize = 0;
        while col < width
            invariant
                pixels@.len() == len,
                len == width * height,
                len == n,
                row < height,
                col <= width,
                row * width + col <= len,
                forall|col: usize, row: usize|
                    col < width && row < height ==> #[trigger] escape_at.requires(((col, row),)),
                forall|i: int|
                    #![trigger pixels@[i]]
                    0 <= i < row * width + col ==> shows_pixel(escape_at, width, pixels@[i], i),
            decreases width - col,
        {
            assert(row * width + col < width * height) by (nonlinear_arith)
                requires
                    row < height,
                    col < width,
            ;
            let index = row * width + col;
            let escape = escape_at((col, row));
            proof {
                vstd::arithmetic::div_mod::lemma_fundamental_div_mod_converse(
                    index as int,
                    width as int,
                    row as int,
                    col as int,
                );
                assert(pixel_of(width, index as int) == (col, row));
            }
            let ghost before = pixels@;
            pixels[index] = shade(escape);
            proof {
                assert(shows_pixel(escape_at, width, pixels@[index as int], index as int));
                assert forall|i: int| 0 <= i < row * width + col + 1 implies #[trigger] shows_pixel(
                    escape_at,
                    width,
                    pixels@[i],
                    i,
                ) by {
                    if i < index {
                        assert(pixels@[i] == before[i]);
                    }
                }
            }
            col = col + 1;
        }
        assert((row + 1) * width == row * width + width) by (nonlinear_arith);
        assert((row + 1) * width <= width * height) by (nonlinear_arith)
            requires
                row < height,
        ;
        row = row + 1;
    }
    assert(row * width == len) by (nonlinear_arith)
        requires
            row == height,
            len == width * height,
    ;
}

} // verus!
