//! Pixel buffers: the contracts of `tiny_skia`'s pixmap, glyph blending, and
//! the byte order of a Wayland buffer.

use tiny_skia::Color;
use tiny_skia::Pixmap;
use vstd::arithmetic::div_mod::{lemma_fundamental_div_mod, lemma_fundamental_div_mod_converse};
use vstd::prelude::*;

verus! {

// ---------------------------------------------------------------------------
// tiny_skia
// ---------------------------------------------------------------------------

/// `tiny_skia::Pixmap`: a rectangle of premultiplied RGBA pixels.
#[verifier::external_type_specification]
#[verifier::external_body]
pub struct ExPixmap(tiny_skia::Pixmap);

/// `tiny_skia::Color`: a colour whose four components are floating point.
#[verifier::external_type_specification]
#[verifier::external_body]
pub struct ExColor(tiny_skia::Color);

/// The bytes that a pixmap holds: row by row, four to a pixel, in the order
/// red, green, blue, alpha.
pub uninterp spec fn pixmap_bytes(pixmap: Pixmap) -> Seq<u8>;

/// The width of a pixmap in pixels.
pub uninterp spec fn pixmap_width(pixmap: Pixmap) -> u32;

/// The height of a pixmap in pixels.
pub uninterp spec fn pixmap_height(pixmap: Pixmap) -> u32;

/// The colour that `tiny_skia::Color::from_rgba8` makes of four bytes.
pub uninterp spec fn rgba8_color(r: u8, g: u8, b: u8, a: u8) -> Color;

/// Whether a pixmap has exactly the four bytes of each of its pixels. One that
/// was copied from a longer slice has more.
pub open spec fn is_whole(pixmap: Pixmap) -> bool {
    pixmap_bytes(pixmap).len() == 4 * (pixmap_width(pixmap) * pixmap_height(pixmap))
}

/// Whether a pixmap of this size can be had: neither side is zero, a row has
/// at most `i32::MAX` bytes, and all bytes can be counted.
pub open spec fn pixmap_size_fits(width: u32, height: u32) -> bool {
    &&& width > 0
    &&& height > 0
    &&& 4 * width <= i32::MAX
    &&& 4 * (width * height) <= usize::MAX
}

/// Whether asking for a pixmap of this size is harmless: no more bytes are
/// wanted than a vector can have.
pub open spec fn pixmap_size_allowed(width: u32, height: u32) -> bool {
    pixmap_size_fits(width, height) ==> 4 * (width * height) <= isize::MAX
}

/// `tiny_skia::Pixmap::new`: a pixmap of the given size, all of it transparent
/// black, or nothing where the size does not fit. More bytes than a vector can
/// have (`isize::MAX`) would make it panic.
pub assume_specification[ tiny_skia::Pixmap::new ](width: u32, height: u32) -> (r: Option<Pixmap>)
    requires
        pixmap_size_allowed(width, height),
    ensures
        r is Some <==> pixmap_size_fits(width, height),
        r matches Some(p) ==> pixmap_width(p) == width && pixmap_height(p) == height
            && pixmap_bytes(p) == Seq::new((4 * (width * height)) as nat, |k: int| 0u8),
;

/// `tiny_skia::Pixmap::width`: the width, whose rows have at most `i32::MAX` bytes.
pub assume_specification[ tiny_skia::Pixmap::width ](pixmap: &Pixmap) -> (w: u32)
    ensures
        w == pixmap_width(*pixmap),
        0 < w,
        4 * w <= i32::MAX,
;

/// `tiny_skia::Pixmap::height`: the height.
pub assume_specification[ tiny_skia::Pixmap::height ](pixmap: &Pixmap) -> (h: u32)
    ensures
        h == pixmap_height(*pixmap),
        0 < h,
;

/// `tiny_skia::Pixmap::data`: all bytes that the pixmap holds.
pub assume_specification[ tiny_skia::Pixmap::data ](pixmap: &Pixmap) -> (data: &[u8])
    ensures
        data@ == pixmap_bytes(*pixmap),
;

/// `tiny_skia::Pixmap::data_mut`: all bytes that the pixmap holds, to be
/// written in place; the size stays.
pub assume_specification[ tiny_skia::Pixmap::data_mut ](pixmap: &mut Pixmap) -> (data: &mut [u8])
    ensures
        data@ == pixmap_bytes(*old(pixmap)),
        pixmap_bytes(*final(pixmap)) == final(data)@,
        pixmap_width(*final(pixmap)) == pixmap_width(*old(pixmap)),
        pixmap_height(*final(pixmap)) == pixmap_height(*old(pixmap)),
;

/// `tiny_skia::Color::from_rgba8`.
pub assume_specification[ tiny_skia::Color::from_rgba8 ](r: u8, g: u8, b: u8, a: u8) -> (c: Color)
    ensures
        c == rgba8_color(r, g, b, a),
;

/// `tiny_skia::Pixmap::fill` with an opaque colour: every pixel becomes that
/// colour, and the size stays. Bytes that do not make up whole pixels would
/// make it panic.
#[verifier::external_body]
pub(crate) fn fill_opaque(pixmap: &mut Pixmap, r: u8, g: u8, b: u8)
    requires
        is_whole(*old(pixmap)),
    ensures
        pixmap_width(*final(pixmap)) == pixmap_width(*old(pixmap)),
        pixmap_height(*final(pixmap)) == pixmap_height(*old(pixmap)),
        pixmap_bytes(*final(pixmap)) == Seq::new(
            pixmap_bytes(*old(pixmap)).len(),
            |k: int| channel(r, g, b, 255, k % 4),
        ),
{
    pixmap.fill(Color::from_rgba8(r, g, b, 255))
}

/// A pixmap can be had of any size with neither side zero, a width of up to
/// 536870911 pixels, and no more bytes than can be counted; it is whole if it
/// has four bytes for each pixel. Asking is harmless as long as a vector can
/// have as many bytes.
pub proof fn lemma_pixmap_sizes(width: u32, height: u32, pixmap: Pixmap)
    ensures
        pixmap_size_fits(width, height) <==> 0 < width <= 536870911 && 0 < height && width * height
            * 4 <= usize::MAX,
        width * height * 4 <= isize::MAX ==> pixmap_size_allowed(width, height),
        is_whole(pixmap) <==> pixmap_bytes(pixmap).len() == pixmap_width(pixmap) * pixmap_height(
            pixmap,
        ) * 4,
{
}

// ---------------------------------------------------------------------------
// Blending
// ---------------------------------------------------------------------------

/// The byte at `offset` of the pixel with these components.
pub open spec fn channel(r: u8, g: u8, b: u8, a: u8, offset: int) -> u8 {
    if offset == 0 {
        r
    } else if offset == 1 {
        g
    } else if offset == 2 {
        b
    } else {
        a
    }
}

/// The opacity of a glyph's ink: the text's alpha scaled by the coverage.
pub open spec fn ink_alpha(a: u8, coverage: u8) -> int {
    a as int * coverage as int / 255
}

/// A component after ink of opacity `alpha` was laid over it: the rest of what
/// was there plus the ink's share.
pub open spec fn inked(under: u8, ink: u8, alpha: int) -> u8 {
    (under as int * (255 - alpha) / 255 + ink as int * alpha / 255) as u8
}

/// The column of the pixel that byte `k` belongs to, in rows of `width` pixels.
pub open spec fn column(k: int, width: u32) -> int {
    (k / 4) % (width as int)
}

/// The row of the pixel that byte `k` belongs to, in rows of `width` pixels.
pub open spec fn line(k: int, width: u32) -> int {
    (k / 4) / (width as int)
}

/// The place of a cell in a coverage bitmap whose rows have `gw` cells.
pub open spec fn cell(row: int, col: int, gw: usize) -> int {
    row * gw + col
}

/// The bytes `data` of a pixmap after a coverage bitmap was blended over it
/// with its top left corner at column `gx` and row `gy`.
pub open spec fn blitted(
    data: Seq<u8>,
    width: u32,
    bitmap: Seq<u8>,
    gw: usize,
    gh: usize,
    gx: int,
    gy: int,
    r: u8,
    g: u8,
    b: u8,
    a: u8,
) -> Seq<u8> {
    Seq::new(
        data.len(),
        |k: int|
            {
                let col = column(k, width) - gx;
                let row = line(k, width) - gy;
                if 0 <= col < gw && 0 <= row < gh {
                    inked(
                        data[k],
                        channel(r, g, b, 255, k % 4),
                        ink_alpha(a, bitmap[cell(row, col, gw)]),
                    )
                } else {
                    data[k]
                }
            },
    )
}

/// Whether the bitmap has a cell for every pixel that it reaches in a pixmap
/// of the given size.
pub open spec fn bitmap_suffices(
    width: u32,
    height: u32,
    bitmap: Seq<u8>,
    gw: usize,
    gh: usize,
    gx: int,
    gy: int,
) -> bool {
    forall|row: int, col: int|
        0 <= row < gh && 0 <= col < gw && 0 <= gy + row < height && 0 <= gx + col < width
            ==> #[trigger] cell(row, col, gw) < bitmap.len()
}

proof fn lemma_ink_bounds(a: u8, coverage: u8)
    ensures
        0 <= a as int * coverage as int <= 65025,
        0 <= ink_alpha(a, coverage) <= 255,
{
    assert(0 <= a as int * coverage as int <= 255 * 255) by (nonlinear_arith)
        requires
            0 <= a <= 255,
            0 <= coverage <= 255,
    ;
}

proof fn lemma_inked_bounds(under: u8, ink: u8, alpha: int)
    requires
        0 <= alpha <= 255,
    ensures
        0 <= under as int * (255 - alpha) <= 65025,
        0 <= ink as int * alpha <= 65025,
        0 <= under as int * (255 - alpha) / 255 <= 255 - alpha,
        0 <= ink as int * alpha / 255 <= alpha,
        inked(under, ink, alpha) == under as int * (255 - alpha) / 255 + ink as int * alpha / 255,
{
    let rest = 255 - alpha;
    assert(0 <= under as int * rest <= 255 * rest) by (nonlinear_arith)
        requires
            0 <= under <= 255,
            0 <= rest,
    ;
    assert(0 <= ink as int * alpha <= 255 * alpha) by (nonlinear_arith)
        requires
            0 <= ink <= 255,
            0 <= alpha,
    ;
}

/// Where a glyph does not cover a pixel, the pixel stays as it is.
pub proof fn lemma_no_coverage_leaves_pixel(under: u8, ink: u8, a: u8)
    ensures
        inked(under, ink, ink_alpha(a, 0)) == under,
{
    lemma_inked_bounds(under, ink, 0);
    assert(a as int * 0 == 0) by (nonlinear_arith);
    assert(ink as int * 0 == 0) by (nonlinear_arith);
    assert(under as int * 255 / 255 == under) by (nonlinear_arith);
}

/// Where opaque ink covers a pixel fully, it replaces the pixel.
pub proof fn lemma_full_coverage_replaces_pixel(under: u8, ink: u8)
    ensures
        inked(under, ink, ink_alpha(255, 255)) == ink,
{
    lemma_inked_bounds(under, ink, 255);
    assert(under as int * 0 == 0) by (nonlinear_arith);
    assert(ink as int * 255 / 255 == ink) by (nonlinear_arith);
}

/// The pixel that a byte belongs to, and the bytes that a pixel has.
proof fn lemma_pixel_bytes(width: u32, height: u32, k: int)
    requires
        width > 0,
        0 <= k < 4 * (width * height),
    ensures
        0 <= column(k, width) < width,
        0 <= line(k, width) < height,
        k == (line(k, width) * width + column(k, width)) * 4 + k % 4,
{
    lemma_fundamental_div_mod(k / 4, width as int);
    let q = line(k, width);
    assert(width as int * q == q * width) by (nonlinear_arith);
    assert(k / 4 < width * height);
    assert(q < height) by (nonlinear_arith)
        requires
            q * width <= k / 4,
            k / 4 < width * height,
            width > 0,
    ;
    assert(q >= 0) by (nonlinear_arith)
        requires
            k >= 0,
            width > 0,
            q == (k / 4) / (width as int),
    ;
}

/// Where the bytes of the pixel in column `x` and row `y` lie.
proof fn lemma_byte_of_pixel(width: u32, height: u32, x: int, y: int, offset: int)
    requires
        0 <= x < width,
        0 <= y < height,
        0 <= offset < 4,
    ensures
        0 <= (y * width + x) * 4 + offset < 4 * (width * height),
        0 <= y * width + x < width * height,
        column((y * width + x) * 4 + offset, width) == x,
        line((y * width + x) * 4 + offset, width) == y,
        ((y * width + x) * 4 + offset) % 4 == offset,
{
    let p = y * width + x;
    assert(0 <= y * width <= (height - 1) * width) by (nonlinear_arith)
        requires
            0 <= y <= height - 1,
            0 <= width,
    ;
    assert((height - 1) * width + width == width * height) by (nonlinear_arith);
    assert((p * 4 + offset) / 4 == p);
    lemma_fundamental_div_mod_converse(p, width as int, y, x);
}

/// Byte `k` on its way from `before` to `after`: of the glyph's cells, those in
/// the first `row` rows and the first `col` of the next one are done.
spec fn byte_up_to(
    before: Seq<u8>,
    after: Seq<u8>,
    width: u32,
    gx: i32,
    gy: i32,
    row: int,
    col: int,
    k: int,
) -> u8 {
    let y = line(k, width) - gy;
    if y < row || (y == row && column(k, width) - gx < col) {
        after[k]
    } else {
        before[k]
    }
}

/// Whether `data` has come so far on its way from `before` to `after`.
spec fn is_blitted_up_to(
    data: Seq<u8>,
    before: Seq<u8>,
    after: Seq<u8>,
    width: u32,
    gx: i32,
    gy: i32,
    row: int,
    col: int,
) -> bool {
    &&& data.len() == before.len()
    &&& forall|k: int|
        0 <= k < before.len() ==> #[trigger] data[k] == byte_up_to(
            before,
            after,
            width,
            gx,
            gy,
            row,
            col,
            k,
        )
}

/// Blend a coverage bitmap over the bytes of a pixmap.
fn blit_bytes(
    data: &mut [u8],
    width: u32,
    height: u32,
    bitmap: &[u8],
    gw: usize,
    gh: usize,
    gx: i32,
    gy: i32,
    r: u8,
    g: u8,
    b: u8,
    a: u8,
)
    requires
        old(data)@.len() == 4 * (width * height),
        0 < width,
        4 * width <= i32::MAX,
        height <= i32::MAX,
        gw <= i32::MAX,
        gh <= i32::MAX,
        bitmap_suffices(width, height, bitmap@, gw, gh, gx as int, gy as int),
    ensures
        final(data)@ == blitted(
            old(data)@,
            width,
            bitmap@,
            gw,
            gh,
            gx as int,
            gy as int,
            r,
            g,
            b,
            a,
        ),
{
    let ghost before = data@;
    let ghost after = blitted(before, width, bitmap@, gw, gh, gx as int, gy as int, r, g, b, a);
    let cells: usize = bitmap.len();
    let total: usize = data.len();
    let mut row: usize = 0;
    while row < gh
        invariant
            row <= gh <= i32::MAX,
            gw <= i32::MAX,
            cells == bitmap@.len(),
            total == before.len() == 4 * (width * height),
            0 < width,
            4 * width <= i32::MAX,
            height <= i32::MAX,
            bitmap_suffices(width, height, bitmap@, gw, gh, gx as int, gy as int),
            after == blitted(before, width, bitmap@, gw, gh, gx as int, gy as int, r, g, b, a),
            is_blitted_up_to(data@, before, after, width, gx, gy, row as int, 0),
        decreases gh - row,
    {
        let py: i64 = gy as i64 + row as i64;
        if 0 <= py && py < height as i64 {
            let mut col: usize = 0;
            while col < gw
                invariant
                    row < gh <= i32::MAX,
                    col <= gw <= i32::MAX,
                    py == gy + row,
                    0 <= py < height,
                    cells == bitmap@.len(),
                    total == before.len() == 4 * (width * height),
                    0 < width,
                    4 * width <= i32::MAX,
                    height <= i32::MAX,
                    bitmap_suffices(width, height, bitmap@, gw, gh, gx as int, gy as int),
                    after == blitted(
                        before,
                        width,
                        bitmap@,
                        gw,
                        gh,
                        gx as int,
                        gy as int,
                        r,
                        g,
                        b,
                        a,
                    ),
                    is_blitted_up_to(data@, before, after, width, gx, gy, row as int, col as int),
                decreases gw - col,
            {
                let px: i64 = gx as i64 + col as i64;
                let ghost previous = data@;
                if 0 <= px && px < width as i64 {
                    let x: usize = px as usize;
                    let y: usize = py as usize;
                    proof {
                        lemma_byte_of_pixel(width, height, px as int, py as int, 0);
                        lemma_byte_of_pixel(width, height, px as int, py as int, 3);
                        assert(cell(row as int, col as int, gw) < bitmap@.len());
                        assert(0 <= row * gw) by (nonlinear_arith)
                            requires
                                0 <= row,
                                0 <= gw,
                        ;
                    }
                    let coverage: u8 = bitmap[row * gw + col];
                    let idx: usize = (y * width as usize + x) * 4;
                    blend_pixel(data, idx, coverage, r, g, b, a);
                }
                proof {
                    let (i, j) = (row as int, col + 1);
                    assert forall|k: int| 0 <= k < before.len() implies #[trigger] data@[k]
                        == byte_up_to(before, after, width, gx, gy, i, j, k) by {
                        lemma_pixel_bytes(width, height, k);
                        assert(previous[k] == previous[k]);
                    }
                }
                col += 1;
            }
        }
        proof {
            assert forall|k: int| 0 <= k < before.len() implies #[trigger] data@[k] == byte_up_to(
                before,
                after,
                width,
                gx,
                gy,
                row + 1,
                0,
                k,
            ) by {
                lemma_pixel_bytes(width, height, k);
            }
        }
        row += 1;
    }
    assert(data@ =~= after);
}

/// Blend ink over the pixel whose bytes start at `idx`.
fn blend_pixel(data: &mut [u8], idx: usize, coverage: u8, r: u8, g: u8, b: u8, a: u8)
    requires
        idx + 4 <= old(data)@.len(),
    ensures
        final(data)@.len() == old(data)@.len(),
        forall|k: int|
            #![trigger final(data)@[k]]
            0 <= k < old(data)@.len() ==> final(data)@[k] == if idx <= k < idx + 4 {
                inked(old(data)@[k], channel(r, g, b, 255, k - idx), ink_alpha(a, coverage))
            } else {
                old(data)@[k]
            },
{
    proof {
        lemma_ink_bounds(a, coverage);
    }
    if coverage == 0 {
        proof {
            assert forall|under: u8, ink: u8|
                inked(under, ink, ink_alpha(a, coverage)) == under by {
                lemma_no_coverage_leaves_pixel(under, ink, a);
            }
        }
        return;
    }
    // Effective alpha: the text's alpha scaled by the glyph's coverage.
    let alpha: u16 = (a as u16 * coverage as u16) / 255;
    data[idx] = blend_byte(data[idx], r, alpha);
    data[idx + 1] = blend_byte(data[idx + 1], g, alpha);
    data[idx + 2] = blend_byte(data[idx + 2], b, alpha);
    data[idx + 3] = blend_byte(data[idx + 3], 255, alpha);
}

/// Blend one component of ink of opacity `alpha` over a premultiplied one.
fn blend_byte(under: u8, ink: u8, alpha: u16) -> (r: u8)
    requires
        alpha <= 255,
    ensures
        r == inked(under, ink, alpha as int),
{
    proof {
        lemma_inked_bounds(under, ink, alpha as int);
    }
    ((under as u16 * (255 - alpha)) / 255 + (ink as u16 * alpha) / 255) as u8
}

/// Blit a single-channel coverage bitmap onto the pixmap with alpha blending.
/// What falls outside the pixmap is clipped.
pub fn blit_glyph(
    pixmap: &mut Pixmap,
    bitmap: &[u8],
    gw: usize,
    gh: usize,
    gx: i32,
    gy: i32,
    r: u8,
    g: u8,
    b: u8,
    a: u8,
)
    requires
        is_whole(*old(pixmap)),
        pixmap_height(*old(pixmap)) <= i32::MAX,
        gw <= i32::MAX,
        gh <= i32::MAX,
        bitmap_suffices(
            pixmap_width(*old(pixmap)),
            pixmap_height(*old(pixmap)),
            bitmap@,
            gw,
            gh,
            gx as int,
            gy as int,
        ),
    ensures
        is_whole(*final(pixmap)),
        pixmap_width(*final(pixmap)) == pixmap_width(*old(pixmap)),
        pixmap_height(*final(pixmap)) == pixmap_height(*old(pixmap)),
        pixmap_bytes(*final(pixmap)) == blitted(
            pixmap_bytes(*old(pixmap)),
            pixmap_width(*old(pixmap)),
            bitmap@,
            gw,
            gh,
            gx as int,
            gy as int,
            r,
            g,
            b,
            a,
        ),
{
    let width: u32 = pixmap.width();
    let height: u32 = pixmap.height();
    blit_bytes(pixmap.data_mut(), width, height, bitmap, gw, gh, gx, gy, r, g, b, a);
}

/// Each cell of the bitmap acts on the pixel at its own place, row by row from
/// the top: the cell in row `row` and column `col` is the bitmap's byte
/// `row * gw + col`, and decides what becomes of the pixel in column
/// `gx + col` and row `gy + row`. Opaque ink replaces that pixel where the
/// cell is full, and no ink touches it where the cell is empty; in between,
/// every component is the rest of what was there plus the ink's share.
pub proof fn lemma_cell_inks_its_own_pixel(
    data: Seq<u8>,
    width: u32,
    height: u32,
    bitmap: Seq<u8>,
    gw: usize,
    gh: usize,
    gx: int,
    gy: int,
    r: u8,
    g: u8,
    b: u8,
    a: u8,
    row: int,
    col: int,
)
    requires
        data.len() == 4 * (width * height),
        0 <= row < gh,
        0 <= col < gw,
        0 <= gx + col < width,
        0 <= gy + row < height,
    ensures
        ({
            let after = blitted(data, width, bitmap, gw, gh, gx, gy, r, g, b, a);
            let p = ((gy + row) * width + (gx + col)) * 4;
            let coverage = bitmap[row * gw + col];
            let alpha = a as int * coverage as int / 255;
            &&& after.len() == data.len()
            &&& 0 <= p && p + 4 <= data.len()
            &&& a == 255 && coverage == 255 ==> after[p] == r && after[p + 1] == g && after[p + 2]
                == b && after[p + 3] == 255
            &&& coverage == 0 ==> after.subrange(p, p + 4) == data.subrange(p, p + 4)
            &&& after[p] == data[p] as int * (255 - alpha) / 255 + r as int * alpha / 255
            &&& after[p + 1] == data[p + 1] as int * (255 - alpha) / 255 + g as int * alpha / 255
            &&& after[p + 2] == data[p + 2] as int * (255 - alpha) / 255 + b as int * alpha / 255
            &&& after[p + 3] == data[p + 3] as int * (255 - alpha) / 255 + alpha
        }),
{
    let after = blitted(data, width, bitmap, gw, gh, gx, gy, r, g, b, a);
    let p = ((gy + row) * width + (gx + col)) * 4;
    let coverage = bitmap[row * gw + col];
    let alpha = ink_alpha(a, coverage);
    lemma_ink_bounds(a, coverage);
    assert forall|c: int| 0 <= c < 4 implies #[trigger] after[p + c] == inked(
        data[p + c],
        channel(r, g, b, 255, c),
        alpha,
    ) && 0 <= p + c < data.len() by {
        lemma_byte_of_pixel(width, height, gx + col, gy + row, c);
    }
    assert forall|under: u8, ink: u8| #[trigger]
        inked(under, ink, alpha) == under as int * (255 - alpha) / 255 + ink as int * alpha
            / 255 by {
        lemma_inked_bounds(under, ink, alpha);
    }
    assert(255 * alpha / 255 == alpha);
    assert(after[p + 0] == inked(data[p + 0], r, alpha));
    assert(after[p + 1] == inked(data[p + 1], g, alpha));
    assert(after[p + 2] == inked(data[p + 2], b, alpha));
    assert(after[p + 3] == inked(data[p + 3], 255, alpha));
    if a == 255 && coverage == 255 {
        assert forall|under: u8, ink: u8| #[trigger] inked(under, ink, alpha) == ink by {
            lemma_full_coverage_replaces_pixel(under, ink);
        }
    }
    if coverage == 0 {
        assert forall|under: u8, ink: u8| #[trigger] inked(under, ink, alpha) == under by {
            lemma_no_coverage_leaves_pixel(under, ink, a);
        }
        assert(after.subrange(p, p + 4) =~= data.subrange(p, p + 4));
    }
}

/// A pixel that no cell of the bitmap lies over keeps all of its bytes.
pub proof fn lemma_pixel_beside_the_glyph_is_kept(
    data: Seq<u8>,
    width: u32,
    height: u32,
    bitmap: Seq<u8>,
    gw: usize,
    gh: usize,
    gx: int,
    gy: int,
    r: u8,
    g: u8,
    b: u8,
    a: u8,
    x: int,
    y: int,
)
    requires
        data.len() == 4 * (width * height),
        0 <= x < width,
        0 <= y < height,
        x < gx || x >= gx + gw || y < gy || y >= gy + gh,
    ensures
        ({
            let after = blitted(data, width, bitmap, gw, gh, gx, gy, r, g, b, a);
            let p = (y * width + x) * 4;
            &&& after.len() == data.len()
            &&& 0 <= p && p + 4 <= data.len()
            &&& after.subrange(p, p + 4) == data.subrange(p, p + 4)
        }),
{
    let after = blitted(data, width, bitmap, gw, gh, gx, gy, r, g, b, a);
    let p = (y * width + x) * 4;
    assert forall|c: int| 0 <= c < 4 implies #[trigger] after[p + c] == data[p + c] && 0 <= p + c
        < data.len() by {
        lemma_byte_of_pixel(width, height, x, y, c);
    }
    assert(after[p + 0] == data[p + 0]);
    assert(after[p + 1] == data[p + 1]);
    assert(after[p + 2] == data[p + 2]);
    assert(after[p + 3] == data[p + 3]);
    assert(after.subrange(p, p + 4) =~= data.subrange(p, p + 4));
}

/// A bitmap with a byte for every cell suffices, wherever it is put.
pub proof fn lemma_complete_bitmap_suffices(
    width: u32,
    height: u32,
    bitmap: Seq<u8>,
    gw: usize,
    gh: usize,
    gx: int,
    gy: int,
)
    requires
        bitmap.len() >= gw * gh,
    ensures
        bitmap_suffices(width, height, bitmap, gw, gh, gx, gy),
{
    assert forall|row: int, col: int| 0 <= row < gh && 0 <= col < gw implies #[trigger] cell(
        row,
        col,
        gw,
    ) < bitmap.len() by {
        assert(row * gw + col < gw * gh) by (nonlinear_arith)
            requires
                0 <= row <= gh - 1,
                0 <= col < gw,
        ;
    }
}

/// Whether the pixels are premultiplied: no component exceeds its pixel's alpha.
pub open spec fn premultiplied(data: Seq<u8>) -> bool {
    forall|k: int| 0 <= k < data.len() ==> #[trigger] data[k] <= data[alpha_byte(k)]
}

/// The byte that holds the alpha of the pixel that byte `k` belongs to.
pub open spec fn alpha_byte(k: int) -> int {
    k - k % 4 + 3
}

proof fn lemma_inked_monotonic(under: u8, over: u8, ink: u8, alpha: int)
    requires
        under <= over,
        0 <= alpha <= 255,
    ensures
        inked(under, ink, alpha) <= inked(over, 255, alpha),
{
    lemma_inked_bounds(under, ink, alpha);
    lemma_inked_bounds(over, 255, alpha);
    let rest = 255 - alpha;
    assert(under as int * rest <= over as int * rest) by (nonlinear_arith)
        requires
            under <= over,
            0 <= rest,
    ;
    assert(ink as int * alpha <= 255 * alpha) by (nonlinear_arith)
        requires
            0 <= ink <= 255,
            0 <= alpha,
    ;
}

/// Blending a glyph keeps the pixels premultiplied.
pub proof fn lemma_blitting_keeps_premultiplied(
    data: Seq<u8>,
    width: u32,
    bitmap: Seq<u8>,
    gw: usize,
    gh: usize,
    gx: int,
    gy: int,
    r: u8,
    g: u8,
    b: u8,
    a: u8,
)
    requires
        data.len() % 4 == 0,
        premultiplied(data),
    ensures
        premultiplied(blitted(data, width, bitmap, gw, gh, gx, gy, r, g, b, a)),
{
    let after = blitted(data, width, bitmap, gw, gh, gx, gy, r, g, b, a);
    assert forall|k: int| 0 <= k < after.len() implies #[trigger] after[k] <= after[alpha_byte(
        k,
    )] by {
        let m = alpha_byte(k);
        assert(m / 4 == k / 4);
        assert(data[k] <= data[m]);
        let col = column(k, width) - gx;
        let row = line(k, width) - gy;
        if 0 <= col < gw && 0 <= row < gh {
            let coverage = bitmap[cell(row, col, gw)];
            lemma_ink_bounds(a, coverage);
            lemma_inked_monotonic(
                data[k],
                data[m],
                channel(r, g, b, 255, k % 4),
                ink_alpha(a, coverage),
            );
        }
    }
}

/// Whether every pixel is opaque.
pub open spec fn opaque_pixels(data: Seq<u8>) -> bool {
    forall|k: int| 0 <= k < data.len() && k % 4 == 3 ==> #[trigger] data[k] == 255
}

/// Ink over an opaque pixel leaves it opaque.
proof fn lemma_inked_opaque(alpha: int)
    requires
        0 <= alpha <= 255,
    ensures
        inked(255, 255, alpha) == 255,
{
    assert(255 * (255 - alpha) / 255 == 255 - alpha);
    assert(255 * alpha / 255 == alpha);
}

/// Blending a glyph keeps opaque pixels opaque, whatever the ink's alpha.
pub proof fn lemma_blitting_keeps_opaque(
    data: Seq<u8>,
    width: u32,
    bitmap: Seq<u8>,
    gw: usize,
    gh: usize,
    gx: int,
    gy: int,
    r: u8,
    g: u8,
    b: u8,
    a: u8,
)
    requires
        opaque_pixels(data),
    ensures
        opaque_pixels(blitted(data, width, bitmap, gw, gh, gx, gy, r, g, b, a)),
{
    let after = blitted(data, width, bitmap, gw, gh, gx, gy, r, g, b, a);
    assert forall|k: int| 0 <= k < after.len() && k % 4 == 3 implies #[trigger] after[k] == 255 by {
        assert(data[k] == 255);
        let col = column(k, width) - gx;
        let row = line(k, width) - gy;
        if 0 <= col < gw && 0 <= row < gh {
            let coverage = bitmap[cell(row, col, gw)];
            lemma_ink_bounds(a, coverage);
            lemma_inked_opaque(ink_alpha(a, coverage));
        }
    }
}

/// Blending changes nothing outside the glyph's rectangle.
pub proof fn lemma_blitting_stays_inside(
    data: Seq<u8>,
    width: u32,
    bitmap: Seq<u8>,
    gw: usize,
    gh: usize,
    gx: int,
    gy: int,
    r: u8,
    g: u8,
    b: u8,
    a: u8,
    k: int,
)
    requires
        0 <= k < data.len(),
        !(gx <= column(k, width) < gx + gw && gy <= line(k, width) < gy + gh),
    ensures
        blitted(data, width, bitmap, gw, gh, gx, gy, r, g, b, a)[k] == data[k],
{
}

// ---------------------------------------------------------------------------
// Byte order
// ---------------------------------------------------------------------------

/// The byte of an RGBA pixel that stands at place `k` of an ARGB8888 pixel:
/// red and blue change places.
pub open spec fn swapped_byte(k: int) -> int {
    if k % 4 == 0 {
        k + 2
    } else if k % 4 == 2 {
        k - 2
    } else {
        k
    }
}

/// `dst` with its whole pixels replaced by those of `src` in ARGB8888 order.
pub open spec fn argb_bytes(src: Seq<u8>, dst: Seq<u8>) -> Seq<u8> {
    Seq::new(
        dst.len(),
        |k: int|
            if k < dst.len() - dst.len() % 4 {
                src[swapped_byte(k)]
            } else {
                dst[k]
            },
    )
}

/// Convert premultiplied RGBA pixels (tiny-skia) to ARGB8888 pixels (Wayland LE).
///
/// tiny-skia byte order: `[R, G, B, A]`
/// Wayland ARGB8888 LE:  `[B, G, R, A]`
pub fn rgba_to_argb8888(src: &[u8], dst: &mut [u8])
    requires
        src@.len() == old(dst)@.len(),
    ensures
        final(dst)@ == argb_bytes(src@, old(dst)@),
        final(dst)@.len() == src@.len(),
        forall|k: int|
            0 <= k < src@.len() / 4 * 4 ==> #[trigger] final(dst)@[k] == src@[if k % 4 == 0 {
                k + 2
            } else if k % 4 == 2 {
                k - 2
            } else {
                k
            }],
{
    let ghost before = dst@;
    let n: usize = dst.len();
    let mut i: usize = 0;
    while n - i >= 4
        invariant
            i <= n,
            i % 4 == 0,
            n == src@.len(),
            n == dst@.len(),
            n == before.len(),
            forall|k: int|
                #![trigger dst@[k]]
                0 <= k < n ==> dst@[k] == if k < i {
                    src@[swapped_byte(k)]
                } else {
                    before[k]
                },
        decreases n - i,
    {
        dst[i] = src[i + 2];
        dst[i + 1] = src[i + 1];
        dst[i + 2] = src[i];
        dst[i + 3] = src[i + 3];
        i += 4;
    }
    proof {
        assert(dst@ =~= argb_bytes(src@, before));
    }
}

/// Every pixel keeps its place in the buffer, with red and blue changing theirs
/// within it.
pub proof fn lemma_pixels_keep_their_place(src: Seq<u8>, dst: Seq<u8>, p: int)
    requires
        src.len() == dst.len(),
        0 <= p < src.len() / 4,
    ensures
        argb_bytes(src, dst).len() == dst.len(),
        argb_bytes(src, dst)[4 * p] == src[4 * p + 2],
        argb_bytes(src, dst)[4 * p + 1] == src[4 * p + 1],
        argb_bytes(src, dst)[4 * p + 2] == src[4 * p],
        argb_bytes(src, dst)[4 * p + 3] == src[4 * p + 3],
{
}

/// The bytes behind the last whole pixel stay as they are.
pub proof fn lemma_partial_pixel_is_kept(src: Seq<u8>, dst: Seq<u8>, k: int)
    requires
        src.len() == dst.len(),
        src.len() / 4 * 4 <= k < src.len(),
    ensures
        argb_bytes(src, dst)[k] == dst[k],
{
}

/// A pixel of the result depends on that pixel alone: two buffers that agree on
/// a pixel agree on it after the conversion, whatever else they hold.
pub proof fn lemma_pixels_are_converted_one_by_one(
    one: Seq<u8>,
    other: Seq<u8>,
    dst: Seq<u8>,
    p: int,
)
    requires
        one.len() == dst.len(),
        other.len() == dst.len(),
        0 <= p < dst.len() / 4,
        one.subrange(4 * p, 4 * p + 4) == other.subrange(4 * p, 4 * p + 4),
    ensures
        argb_bytes(one, dst).subrange(4 * p, 4 * p + 4) == argb_bytes(other, dst).subrange(
            4 * p,
            4 * p + 4,
        ),
{
    let a = one.subrange(4 * p, 4 * p + 4);
    let b = other.subrange(4 * p, 4 * p + 4);
    assert(one[4 * p] == a[0] && other[4 * p] == b[0]);
    assert(one[4 * p + 1] == a[1] && other[4 * p + 1] == b[1]);
    assert(one[4 * p + 2] == a[2] && other[4 * p + 2] == b[2]);
    assert(one[4 * p + 3] == a[3] && other[4 * p + 3] == b[3]);
    lemma_pixels_keep_their_place(one, dst, p);
    lemma_pixels_keep_their_place(other, dst, p);
    let c = argb_bytes(one, dst).subrange(4 * p, 4 * p + 4);
    let d = argb_bytes(other, dst).subrange(4 * p, 4 * p + 4);
    assert(c[0] == d[0] && c[1] == d[1] && c[2] == d[2] && c[3] == d[3]);
    assert forall|k: int| 0 <= k < 4 implies #[trigger] c[k] == d[k] by {
        assert(k == 0 || k == 1 || k == 2 || k == 3);
    }
    assert(c =~= d);
}

/// Converting whole pixels twice gives them back.
pub proof fn lemma_argb_twice_is_identity(src: Seq<u8>, dst: Seq<u8>)
    requires
        src.len() == dst.len(),
        src.len() % 4 == 0,
    ensures
        argb_bytes(argb_bytes(src, dst), dst) == src,
{
    let once = argb_bytes(src, dst);
    assert forall|k: int| 0 <= k < src.len() implies argb_bytes(once, dst)[k] == src[k] by {
        let m = swapped_byte(k);
        assert(0 <= m < src.len());
        assert(swapped_byte(m) == k);
    }
    assert(argb_bytes(once, dst) =~= src);
}

/// Converting opaque pixels gives opaque pixels.
pub proof fn lemma_argb_keeps_opaque(src: Seq<u8>, dst: Seq<u8>)
    requires
        src.len() == dst.len(),
        src.len() % 4 == 0,
        opaque_pixels(src),
    ensures
        opaque_pixels(argb_bytes(src, dst)),
{
    let after = argb_bytes(src, dst);
    assert forall|k: int| 0 <= k < after.len() && k % 4 == 3 implies #[trigger] after[k] == 255 by {
        assert(src[k] == 255);
    }
}

/// Converting one opaque pixel gives the bytes of [`crate::config::rgb_to_argb8888`].
pub proof fn lemma_argb_of_opaque_pixel(r: u8, g: u8, b: u8, dst: Seq<u8>)
    requires
        dst.len() == 4,
    ensures
        argb_bytes(seq![r, g, b, 0xFFu8], dst) == seq![b, g, r, 0xFFu8],
{
    assert(argb_bytes(seq![r, g, b, 0xFFu8], dst) =~= seq![b, g, r, 0xFFu8]);
}

} // verus!
