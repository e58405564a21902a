//! Laying the original and the remapped pixel sets out side by side in one
//! double-width canvas.
//!
//! The canvas is a row-major, top-down grid. A pixel at bottom-up
//! coordinates `(x, y)` lands in canvas row `height - y`: the intermediate
//! pixel representation counts rows upward from 1, the canvas counts them
//! downward from 0, so composing flips the vertical axis a second time and
//! restores the top-down convention of an encoded file. Original pixels
//! keep their column; remapped pixels are shifted right by the source
//! width. The remapped half is painted first, then the original half, each
//! pixel into exactly one cell.

use vstd::prelude::*;

use crate::pixel::ImageBuffer;
use crate::pixel::Pixel;
use crate::pixel::Rgb8;

verus! {

/// The composed comparison canvas: a row-major, top-down grid of colors,
/// twice as wide as the source image.
pub struct Canvas {
    pub width: u32,
    pub height: u32,
    pub data: Vec<Rgb8>,
}

impl Canvas {
    /// The grid holds exactly one color per cell.
    pub open spec fn wf(self) -> bool {
        self.data@.len() == self.width as int * self.height as int
    }
}

/// The canvas cell that a pixel is written to: row `h - y` of a grid
/// `w2` cells wide, column `xoff + x`.
pub open spec fn slot(p: Pixel, xoff: int, w2: int, h: int) -> int {
    (h - p.y) * w2 + xoff + p.x
}

/// An all-black grid of `n` cells, as a fresh canvas starts out.
pub open spec fn blank(n: int) -> Seq<Rgb8> {
    Seq::new(n as nat, |i: int| Rgb8 { r: 0, g: 0, b: 0 })
}

/// The grid after writing each pixel of `pts`, in order, into its slot;
/// a later pixel overwrites an earlier one that shares its cell.
pub open spec fn paint(data: Seq<Rgb8>, pts: Seq<Pixel>, xoff: int, w2: int, h: int) -> Seq<Rgb8>
    decreases pts.len(),
{
    if pts.len() == 0 {
        data
    } else {
        let rest = paint(data, pts.drop_last(), xoff, w2, h);
        let cell = slot(pts.last(), xoff, w2, h);
        if 0 <= cell < rest.len() {
            rest.update(cell, pts.last().rgb())
        } else {
            rest
        }
    }
}

/// The full comparison canvas of a source pixel set and its remapped
/// counterpart: a blank double-width grid, the remapped pixels painted
/// into the right half, the original pixels into the left half.
pub open spec fn composed(orig: Seq<Pixel>, mapped: Seq<Pixel>, w: int, h: int) -> Seq<Rgb8> {
    paint(paint(blank(2 * w * h), mapped, w, 2 * w, h), orig, 0, 2 * w, h)
}

/// No two pixels of the set share a coordinate pair.
pub open spec fn distinct_coords(pts: Seq<Pixel>) -> bool {
    forall|i: int, j: int|
        0 <= i < j < pts.len() ==> !((#[trigger] pts[i]).x == (#[trigger] pts[j]).x && pts[i].y
            == pts[j].y)
}

/// Some pixel of the set sits at the coordinate pair `(x, y)`.
pub open spec fn has_pixel_at(pts: Seq<Pixel>, x: int, y: int) -> bool {
    exists|i: int| 0 <= i < pts.len() && (#[trigger] pts[i]).x == x && pts[i].y == y
}

/// The set has a pixel for every coordinate pair of a `w` by `h` image:
/// no column in `[0, w)` and bottom-up row in `[1, h]` is missing.
pub open spec fn covers(pts: Seq<Pixel>, w: int, h: int) -> bool {
    forall|x: int, y: int| 0 <= x < w && 1 <= y <= h ==> #[trigger] has_pixel_at(pts, x, y)
}

/// Painting never changes the size of the grid.
pub proof fn lemma_paint_len(data: Seq<Rgb8>, pts: Seq<Pixel>, xoff: int, w2: int, h: int)
    ensures
        paint(data, pts, xoff, w2, h).len() == data.len(),
    decreases pts.len(),
{
    if pts.len() > 0 {
        lemma_paint_len(data, pts.drop_last(), xoff, w2, h);
    }
}

/// A cell that is no pixel's slot keeps its previous color.
pub proof fn lemma_paint_untouched(
    data: Seq<Rgb8>,
    pts: Seq<Pixel>,
    xoff: int,
    w2: int,
    h: int,
    cell: int,
)
    requires
        0 <= cell < data.len(),
        forall|k: int| 0 <= k < pts.len() ==> slot(#[trigger] pts[k], xoff, w2, h) != cell,
    ensures
        paint(data, pts, xoff, w2, h)[cell] == data[cell],
    decreases pts.len(),
{
    if pts.len() > 0 {
        let prefix = pts.drop_last();
        assert(forall|k: int|
            0 <= k < prefix.len() ==> slot(#[trigger] prefix[k], xoff, w2, h) != cell);
        lemma_paint_untouched(data, prefix, xoff, w2, h, cell);
        lemma_paint_len(data, prefix, xoff, w2, h);
        assert(slot(pts.last(), xoff, w2, h) != cell);
    }
}

/// A pixel's slot lies inside the grid, when the pixel is valid for a
/// `w` by `h` image whose columns land in `[xoff, xoff + w)` of a grid
/// `w2` cells wide.
pub proof fn lemma_slot_in_range(p: Pixel, xoff: int, w: int, w2: int, h: int)
    requires
        p.valid_for(w, h),
        0 <= xoff,
        xoff + w <= w2,
    ensures
        0 <= slot(p, xoff, w2, h) < w2 * h,
{
    let row = h - p.y;
    let col = xoff + p.x;
    assert(0 <= row <= h - 1);
    assert(0 <= col < w2);
    assert(0 <= row * w2 + col < w2 * h) by (nonlinear_arith)
        requires
            0 <= row <= h - 1,
            0 <= col < w2,
            1 <= w2,
    ;
}

/// A grid cell determines its row and column: two decompositions of the
/// same cell index agree.
pub proof fn lemma_grid_decompose(r1: int, c1: int, r2: int, c2: int, w2: int)
    requires
        0 <= c1 < w2,
        0 <= c2 < w2,
        r1 * w2 + c1 == r2 * w2 + c2,
    ensures
        r1 == r2,
        c1 == c2,
{
    assert(r1 == r2 && c1 == c2) by (nonlinear_arith)
        requires
            0 <= c1 < w2,
            0 <= c2 < w2,
            r1 * w2 + c1 == r2 * w2 + c2,
    ;
}

/// Within one half, distinct coordinate pairs go to distinct cells: no
/// pixel overwrites another.
pub proof fn lemma_slot_injective(p: Pixel, q: Pixel, xoff: int, w: int, w2: int, h: int)
    requires
        p.valid_for(w, h),
        q.valid_for(w, h),
        0 <= xoff,
        xoff + w <= w2,
        slot(p, xoff, w2, h) == slot(q, xoff, w2, h),
    ensures
        p.x == q.x,
        p.y == q.y,
{
    lemma_grid_decompose(h - p.y, xoff + p.x, h - q.y, xoff + q.x, w2);
}

/// The two halves never collide: a left-half cell and a right-half cell
/// are distinct, whatever the two pixels are.
pub proof fn lemma_halves_disjoint(p: Pixel, q: Pixel, w: int, h: int)
    requires
        p.valid_for(w, h),
        q.valid_for(w, h),
    ensures
        slot(p, 0, 2 * w, h) != slot(q, w, 2 * w, h),
{
    if slot(p, 0, 2 * w, h) == slot(q, w, 2 * w, h) {
        lemma_grid_decompose(h - p.y, p.x as int, h - q.y, w + q.x, 2 * w);
    }
}

/// Painting a set of valid pixels with distinct coordinates puts each
/// pixel's color into its own cell.
pub proof fn lemma_paint_hits(
    data: Seq<Rgb8>,
    pts: Seq<Pixel>,
    xoff: int,
    w: int,
    w2: int,
    h: int,
    i: int,
)
    requires
        data.len() == w2 * h,
        0 <= xoff,
        xoff + w <= w2,
        forall|k: int| 0 <= k < pts.len() ==> (#[trigger] pts[k]).valid_for(w, h),
        distinct_coords(pts),
        0 <= i < pts.len(),
    ensures
        paint(data, pts, xoff, w2, h)[slot(pts[i], xoff, w2, h)] == pts[i].rgb(),
    decreases pts.len(),
{
    let prefix = pts.drop_last();
    let last = pts.last();
    lemma_slot_in_range(last, xoff, w, w2, h);
    lemma_paint_len(data, prefix, xoff, w2, h);
    if i == pts.len() - 1 {
        assert(pts[i] == last);
    } else {
        assert(forall|k: int| 0 <= k < prefix.len() ==> prefix[k] == pts[k]);
        assert(distinct_coords(prefix));
        lemma_paint_hits(data, prefix, xoff, w, w2, h, i);
        lemma_slot_in_range(pts[i], xoff, w, w2, h);
        if slot(pts[i], xoff, w2, h) == slot(last, xoff, w2, h) {
            lemma_slot_injective(pts[i], last, xoff, w, w2, h);
            assert(false);
        }
    }
}

/// For a complete pixel set — one pixel per coordinate pair — every cell
/// of the half receives the color of the one pixel that maps there: no
/// cell of the half is left unwritten.
pub proof fn lemma_complete_half_covered(
    data: Seq<Rgb8>,
    pts: Seq<Pixel>,
    xoff: int,
    w: int,
    w2: int,
    h: int,
    row: int,
    col: int,
)
    requires
        data.len() == w2 * h,
        0 <= xoff,
        xoff + w <= w2,
        forall|k: int| 0 <= k < pts.len() ==> (#[trigger] pts[k]).valid_for(w, h),
        distinct_coords(pts),
        covers(pts, w, h),
        0 <= row < h,
        0 <= col < w,
    ensures
        exists|i: int|
            0 <= i < pts.len() && (#[trigger] pts[i]).x == col && pts[i].y == h - row && paint(
                data,
                pts,
                xoff,
                w2,
                h,
            )[row * w2 + xoff + col] == pts[i].rgb(),
{
    assert(has_pixel_at(pts, col, h - row));
    let i = choose|i: int| 0 <= i < pts.len() && (#[trigger] pts[i]).x == col && pts[i].y == h
        - row;
    lemma_paint_hits(data, pts, xoff, w, w2, h, i);
    assert(slot(pts[i], xoff, w2, h) == row * w2 + xoff + col);
}

/// In the composed canvas, the left half shows the original pixels and the
/// right half the remapped ones: the cell in row `h - y`, column `x` holds
/// the original pixel at `(x, y)`, and the cell in the same row at column
/// `w + x` holds the remapped pixel at `(x, y)`.
pub proof fn lemma_composed_cells(
    orig: Seq<Pixel>,
    mapped: Seq<Pixel>,
    w: int,
    h: int,
    i: int,
    j: int,
)
    requires
        1 <= w,
        1 <= h,
        forall|k: int| 0 <= k < orig.len() ==> (#[trigger] orig[k]).valid_for(w, h),
        forall|k: int| 0 <= k < mapped.len() ==> (#[trigger] mapped[k]).valid_for(w, h),
        distinct_coords(orig),
        distinct_coords(mapped),
        0 <= i < orig.len(),
        0 <= j < mapped.len(),
    ensures
        composed(orig, mapped, w, h)[slot(orig[i], 0, 2 * w, h)] == orig[i].rgb(),
        composed(orig, mapped, w, h)[slot(mapped[j], w, 2 * w, h)] == mapped[j].rgb(),
{
    let n = 2 * w * h;
    assert(0 <= 2 * w * h) by (nonlinear_arith)
        requires
            1 <= w,
            1 <= h,
    ;
    let base = blank(n);
    let right = paint(base, mapped, w, 2 * w, h);
    assert(base.len() == n);
    lemma_paint_len(base, mapped, w, 2 * w, h);
    lemma_paint_hits(right, orig, 0, w, 2 * w, h, i);
    lemma_paint_hits(base, mapped, w, w, 2 * w, h, j);
    lemma_slot_in_range(mapped[j], w, w, 2 * w, h);
    assert(forall|k: int|
        0 <= k < orig.len() ==> slot(#[trigger] orig[k], 0, 2 * w, h) != slot(
            mapped[j],
            w,
            2 * w,
            h,
        )) by {
        assert forall|k: int| 0 <= k < orig.len() implies slot(#[trigger] orig[k], 0, 2 * w, h)
            != slot(mapped[j], w, 2 * w, h) by {
            lemma_halves_disjoint(orig[k], mapped[j], w, h);
        }
    }
    lemma_paint_untouched(right, orig, 0, 2 * w, h, slot(mapped[j], w, 2 * w, h));
}

/// Compose the comparison canvas: the original image in the left half, the
/// remapped pixel set in the right half, both flipped back to top-down
/// rows.
pub fn compose(img: &ImageBuffer, mapped: &Vec<Pixel>) -> (canvas: Canvas)
    requires
        img.wf(),
        forall|k: int|
            0 <= k < mapped@.len() ==> (#[trigger] mapped@[k]).valid_for(
                img.width as int,
                img.height as int,
            ),
        2 * (img.width as int) <= u32::MAX as int,
        2 * (img.width as int) * (img.height as int) <= usize::MAX as int,
    ensures
        canvas.width as int == 2 * img.width as int,
        canvas.height == img.height,
        canvas.wf(),
        canvas.data@ == composed(
            img.points@,
            mapped@,
            img.width as int,
            img.height as int,
        ),
{
    let w = img.width;
    let h = img.height;
    let w2: u32 = 2 * w;
    proof {
        assert((w2 as int) * (h as int) == 2 * (w as int) * (h as int)) by (nonlinear_arith)
            requires
                w2 as int == 2 * (w as int),
        ;
    }
    let n: usize = (w2 as usize) * (h as usize);
    let mut data: Vec<Rgb8> = Vec::new();
    while data.len() < n
        invariant
            data@.len() <= n,
            forall|c: int| 0 <= c < data@.len() ==> data@[c] == (Rgb8 { r: 0, g: 0, b: 0 }),
        decreases n - data.len(),
    {
        data.push(Rgb8 { r: 0, g: 0, b: 0 });
    }
    proof {
        assert(data@ =~= blank(n as int));
    }
    let ghost base = data@;
    let mut k: usize = 0;
    while k < mapped.len()
        invariant
            img.wf(),
            forall|t: int|
                0 <= t < mapped@.len() ==> (#[trigger] mapped@[t]).valid_for(
                    img.width as int,
                    img.height as int,
                ),
            w == img.width,
            h == img.height,
            w2 as int == 2 * (w as int),
            n as int == (w2 as int) * (h as int),
            base.len() == n,
            0 <= k <= mapped@.len(),
            data@.len() == n,
            data@ == paint(base, mapped@.take(k as int), w as int, w2 as int, h as int),
        decreases mapped@.len() - k,
    {
        let p = &mapped[k];
        let row: u32 = h - p.y;
        proof {
            lemma_slot_in_range(mapped@[k as int], w as int, w as int, w2 as int, h as int);
        }
        let idx: usize = (row as usize) * (w2 as usize) + (w as usize) + (p.x as usize);
        data.set(idx, Rgb8 { r: p.r, g: p.g, b: p.b });
        proof {
            let t1 = mapped@.take(k as int + 1);
            assert(t1.drop_last() =~= mapped@.take(k as int));
            assert(t1.last() == mapped@[k as int]);
            assert(mapped@[k as int].rgb() == (Rgb8 {
                r: mapped@[k as int].r,
                g: mapped@[k as int].g,
                b: mapped@[k as int].b,
            }));
        }
        k += 1;
    }
    proof {
        assert(mapped@.take(mapped@.len() as int) =~= mapped@);
    }
    let ghost right = data@;
    let mut k2: usize = 0;
    while k2 < img.points.len()
        invariant
            img.wf(),
            w == img.width,
            h == img.height,
            w2 as int == 2 * (w as int),
            n as int == (w2 as int) * (h as int),
            right.len() == n,
            0 <= k2 <= img.points@.len(),
            data@.len() == n,
            data@ == paint(right, img.points@.take(k2 as int), 0, w2 as int, h as int),
        decreases img.points@.len() - k2,
    {
        let p = &img.points[k2];
        let row: u32 = h - p.y;
        proof {
            lemma_slot_in_range(img.points@[k2 as int], 0, w as int, w2 as int, h as int);
        }
        let idx: usize = (row as usize) * (w2 as usize) + (p.x as usize);
        data.set(idx, Rgb8 { r: p.r, g: p.g, b: p.b });
        proof {
            let t1 = img.points@.take(k2 as int + 1);
            assert(t1.drop_last() =~= img.points@.take(k2 as int));
            assert(t1.last() == img.points@[k2 as int]);
            assert(img.points@[k2 as int].rgb() == (Rgb8 {
                r: img.points@[k2 as int].r,
                g: img.points@[k2 as int].g,
                b: img.points@[k2 as int].b,
            }));
        }
        k2 += 1;
    }
    proof {
        assert(img.points@.take(img.points@.len() as int) =~= img.points@);
    }
    Canvas { width: w2, height: h, data }
}

} // verus!
