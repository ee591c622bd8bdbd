//! Software rendering into a flat `u32` framebuffer (`0x00RRGGBB` per pixel,
//! row-major, `width` pixels per row): color resolution, solid fills, borders,
//! glyph blending, and painting a grid cell by cell.

use vstd::prelude::*;
use crate::cell::{Cell, Color, BOLD, REVERSE};
use crate::pane::Rect;
use crate::grid::{Grid, GridState};
use crate::search::{first_cover, Search};
use crate::selection::Selection;
use crate::theme::{Col, Terminal, Theme};

verus! {

pub type Rgb = (u8, u8, u8);

/// One component of the xterm 6×6×6 color cube.
pub open spec fn cube_step(v: int) -> u8 {
    if v == 0 { 0 } else { (55 + v * 40) as u8 }
}

/// xterm's 256-color map for indices 16–255: the 6×6×6 cube, then a grey ramp.
pub open spec fn xterm_256_spec(i: u8) -> Rgb {
    if i < 232 {
        let k = i - 16;
        (cube_step(k / 36), cube_step((k / 6) % 6), cube_step(k % 6))
    } else {
        let v = (8 + (i - 232) * 10) as u8;
        (v, v, v)
    }
}

/// The concrete RGB of a logical color, given the default and the palette.
pub open spec fn resolve_spec(c: Color, default: Rgb, palette: [Col; 16]) -> Rgb {
    match c {
        Color::Default => default,
        Color::Rgb(r, g, b) => (r, g, b),
        Color::Indexed(i) => if i < 16 {
            let p = palette@[i as int];
            (p.0, p.1, p.2)
        } else {
            xterm_256_spec(i)
        },
    }
}

/// The packed pixel of an RGB triple.
pub open spec fn pack_spec(c: Rgb) -> u32 {
    (c.0 as u32 * 0x10000 + c.1 as u32 * 0x100 + c.2 as u32) as u32
}

fn step(v: u8) -> (s: u8)
    requires
        v < 6,
    ensures
        s == cube_step(v as int),
{
    if v == 0 { 0 } else { 55 + v * 40 }
}

/// xterm's 256-color map for indices 16–255 (6×6×6 cube, then a grey ramp).
pub fn xterm_256(i: u8) -> (c: Rgb)
    requires
        i >= 16,
    ensures
        c == xterm_256_spec(i),
{
    if i < 232 {
        let k = i - 16;
        (step(k / 36), step((k / 6) % 6), step(k % 6))
    } else {
        let v = 8 + (i - 232) * 10;
        (v, v, v)
    }
}

/// Resolve a logical color to concrete RGB.
pub fn resolve(c: Color, default: Rgb, palette: &[Col; 16]) -> (r: Rgb)
    ensures
        r == resolve_spec(c, default, *palette),
{
    match c {
        Color::Default => default,
        Color::Rgb(r, g, b) => (r, g, b),
        Color::Indexed(i) => {
            if i < 16 {
                let p = palette[i as usize];
                (p.0, p.1, p.2)
            } else {
                xterm_256(i)
            }
        },
    }
}

/// Pack an RGB triple into a `0x00RRGGBB` pixel.
pub fn pack(c: Rgb) -> (p: u32)
    ensures
        p == pack_spec(c),
{
    let (r, g, b) = c;
    let p = ((r as u32) << 16) | ((g as u32) << 8) | (b as u32);
    assert(((r as u32) << 16) | ((g as u32) << 8) | (b as u32) == ((r as u32) * 0x10000 + (g as u32)
        * 0x100 + (b as u32)) as u32) by (bit_vector);
    p
}

/// One channel of `fg` blended over `dst` by `a`/255.
pub open spec fn mix(f: u8, d: int, a: u8) -> int {
    (f * a + d * (255 - a)) / 255
}

/// `fg` blended over the packed pixel `dst` by `coverage` (0–255).
pub open spec fn blend_spec(fg: Rgb, dst: u32, coverage: u8) -> u32 {
    let dr = (dst / 0x10000) % 0x100;
    let dg = (dst / 0x100) % 0x100;
    let db = dst % 0x100;
    (mix(fg.0, dr as int, coverage) * 0x10000 + mix(fg.1, dg as int, coverage) * 0x100 + mix(
        fg.2,
        db as int,
        coverage,
    )) as u32
}

proof fn lemma_mix_bounded(f: u8, d: u32, a: u8)
    requires
        d < 256,
    ensures
        0 <= mix(f, d as int, a) <= 255,
{
    assert(f * a + d * (255 - a) <= 255 * 255) by (nonlinear_arith)
        requires
            f <= 255,
            d <= 255,
            a <= 255,
    ;
    assert(f * a + d * (255 - a) >= 0) by (nonlinear_arith)
        requires
            a <= 255,
    ;
}

/// Blend `fg` over an existing packed pixel by `coverage` (0–255).
pub fn blend(fg: Rgb, dst: u32, coverage: u8) -> (p: u32)
    ensures
        p == blend_spec(fg, dst, coverage),
{
    let a = coverage as u32;
    let inv = 255 - a;
    let dr = (dst >> 16) & 0xff;
    let dg = (dst >> 8) & 0xff;
    let db = dst & 0xff;
    assert(dr == (dst / 0x10000) % 0x100) by (bit_vector)
        requires
            dr == (dst >> 16) & 0xff,
    ;
    assert(dg == (dst / 0x100) % 0x100) by (bit_vector)
        requires
            dg == (dst >> 8) & 0xff,
    ;
    assert(db == dst % 0x100) by (bit_vector)
        requires
            db == dst & 0xff,
    ;
    proof {
        lemma_mix_bounded(fg.0, dr, coverage);
        lemma_mix_bounded(fg.1, dg, coverage);
        lemma_mix_bounded(fg.2, db, coverage);
        assert(fg.0 as u32 * a + dr * inv <= 255 * 255) by (nonlinear_arith)
            requires
                fg.0 <= 255,
                dr <= 255,
                a <= 255,
                inv == 255 - a,
        ;
        assert(fg.1 as u32 * a + dg * inv <= 255 * 255) by (nonlinear_arith)
            requires
                fg.1 <= 255,
                dg <= 255,
                a <= 255,
                inv == 255 - a,
        ;
        assert(fg.2 as u32 * a + db * inv <= 255 * 255) by (nonlinear_arith)
            requires
                fg.2 <= 255,
                db <= 255,
                a <= 255,
                inv == 255 - a,
        ;
    }
    let r = (fg.0 as u32 * a + dr * inv) / 255;
    let g = (fg.1 as u32 * a + dg * inv) / 255;
    let b = (fg.2 as u32 * a + db * inv) / 255;
    assert(r == mix(fg.0, dr as int, coverage));
    assert(g == mix(fg.1, dg as int, coverage));
    assert(b == mix(fg.2, db as int, coverage));
    let p = (r << 16) | (g << 8) | b;
    assert((r << 16) | (g << 8) | b == r * 0x10000 + g * 0x100 + b) by (bit_vector)
        requires
            r <= 255,
            g <= 255,
            b <= 255,
    ;
    p
}

/// Whether pixel `i` of a `width`-wide framebuffer lies in the rectangle of
/// `w`×`h` pixels at (`x`, `y`), clipped to `width`×`height`.
pub open spec fn in_rect(i: int, width: usize, height: usize, x: usize, y: usize, w: usize, h: usize) -> bool {
    width > 0 && y <= i / (width as int) && i / (width as int) < y + h && i / (width as int) < height
        && x <= i % (width as int) && i % (width as int) < x + w
}

/// The framebuffer `s` with the clipped rectangle set to `color`.
pub open spec fn filled(
    s: Seq<u32>,
    width: usize,
    height: usize,
    x: usize,
    y: usize,
    w: usize,
    h: usize,
    color: u32,
) -> Seq<u32> {
    Seq::new(s.len(), |i: int| if in_rect(i, width, height, x, y, w, h) { color } else { s[i] })
}

/// What a fill of the rectangle at (`x`, `y`) needs: a framebuffer of at least
/// `width`×`height` pixels and, when a row is touched, a left edge within it.
pub open spec fn fill_ok(len: nat, width: usize, height: usize, x: usize, y: usize, h: usize) -> bool {
    &&& width * height <= len
    &&& (h > 0 && y < height ==> x <= width)
}

proof fn lemma_row_index(i: int, width: int, py: int, px: int)
    requires
        width > 0,
        0 <= px < width,
        i == py * width + px,
    ensures
        i / width == py,
        i % width == px,
{
    vstd::arithmetic::div_mod::lemma_fundamental_div_mod_converse(i, width, py, px);
}

/// Fill the rectangle at (`x`, `y`) of `w`×`h` pixels with `color`, clipped
/// to the `width`×`height` framebuffer.
pub fn fill_rect(
    buf: &mut [u32],
    width: usize,
    height: usize,
    x: usize,
    y: usize,
    w: usize,
    h: usize,
    color: u32,
)
    requires
        fill_ok(old(buf)@.len(), width, height, x, y, h),
    ensures
        final(buf)@ == filled(old(buf)@, width, height, x, y, w, h, color),
{
    if h == 0 || y >= height || width == 0 {
        assert(final(buf)@ =~= filled(old(buf)@, width, height, x, y, w, h, color)) by {
            assert forall|i: int| 0 <= i < old(buf)@.len() implies !in_rect(
                i,
                width,
                height,
                x,
                y,
                w,
                h,
            ) by {}
        }
        return;
    }
    let y_end: usize = if h > height - y { height } else { y + h };
    let total = buf.len();
    let mut py = y;
    while py < y_end
        invariant
            y <= py <= y_end <= height,
            y_end == (if h > height - y { height as int } else { y + h }),
            x <= width,
            width > 0,
            width * height <= buf@.len(),
            buf@.len() == total,
            buf@.len() == old(buf)@.len(),
            forall|i: int| 0 <= i < buf@.len() ==> #[trigger] buf@[i] == (if in_rect(i, width, height, x, y, w, h) && i / (width as int) < py {
                color
            } else {
                old(buf)@[i]
            }),
        decreases y_end - py,
    {
        assert(py * width + width <= height * width) by (nonlinear_arith)
            requires
                py < height,
        ;
        assert(height * width == width * height) by (nonlinear_arith);
        let row = py * width;
        let start = row + x;
        let row_end = row + width;
        let end: usize = if w > row_end - start { row_end } else { start + w };
        let mut k = start;
        while k < end
            invariant
                start <= k <= end <= row_end <= buf@.len(),
                row == py * width,
                start == row + x,
                row_end == row + width,
                end == (if w > row_end - start { row_end as int } else { start + w }),
                y <= py < y_end <= height,
                y_end == (if h > height - y { height as int } else { y + h }),
                x <= width,
                width > 0,
                buf@.len() == old(buf)@.len(),
                forall|i: int| 0 <= i < buf@.len() ==> #[trigger] buf@[i] == (if (in_rect(i, width, height, x, y, w, h) && i / (width as int) < py) || (start <= i < k) {
                    color
                } else {
                    old(buf)@[i]
                }),
            decreases end - k,
        {
            buf[k] = color;
            k += 1;
        }
        py += 1;
        assert forall|i: int| 0 <= i < buf@.len() implies #[trigger] buf@[i] == (if in_rect(i, width, height, x, y, w, h) && i / (width as int) < py {
            color
        } else {
            old(buf)@[i]
        }) by {
            let q = i / (width as int);
            let r = i % (width as int);
            vstd::arithmetic::div_mod::lemma_fundamental_div_mod(i, width as int);
            assert(0 <= r < width);
            if start <= i < end {
                lemma_row_index(i, width as int, (py - 1) as int, i - row);
            } else if q == py - 1 {
                assert(i == (py - 1) * width + r) by (nonlinear_arith)
                    requires
                        i == width * q + r,
                        q == py - 1,
                ;
            }
        }
    }
    assert forall|i: int| 0 <= i < buf@.len() implies #[trigger] buf@[i] == filled(old(buf)@, width, height, x, y, w, h, color)[i] by {
    }
    assert(buf@ =~= filled(old(buf)@, width, height, x, y, w, h, color));
}

/// Fill `rect` with a solid color (used for overlay panels and bars).
pub fn fill(buf: &mut [u32], width: usize, height: usize, rect: Rect, color: Rgb)
    requires
        fill_ok(old(buf)@.len(), width, height, rect.x, rect.y, rect.h),
    ensures
        final(buf)@ == filled(old(buf)@, width, height, rect.x, rect.y, rect.w, rect.h, pack_spec(color)),
{
    fill_rect(buf, width, height, rect.x, rect.y, rect.w, rect.h, pack(color));
}

/// The first `n` horizontal edge lines of a border (top row `d` and bottom row
/// `d` for each `d < n`).
pub open spec fn border_rows(s: Seq<u32>, width: usize, height: usize, r: Rect, color: u32, n: int) -> Seq<u32>
    decreases n,
{
    if n <= 0 {
        s
    } else {
        let d = n - 1;
        let s1 = border_rows(s, width, height, r, color, d);
        let s2 = filled(s1, width, height, r.x, (r.y + d) as usize, r.w, 1, color);
        filled(s2, width, height, r.x, (r.y + r.h - 1 - d) as usize, r.w, 1, color)
    }
}

/// The first `n` vertical edge lines of a border (left column `d` and right
/// column `d` for each `d < n`).
pub open spec fn border_cols(s: Seq<u32>, width: usize, height: usize, r: Rect, color: u32, n: int) -> Seq<u32>
    decreases n,
{
    if n <= 0 {
        s
    } else {
        let d = n - 1;
        let s1 = border_cols(s, width, height, r, color, d);
        let s2 = filled(s1, width, height, (r.x + d) as usize, r.y, 1, r.h, color);
        filled(s2, width, height, (r.x + r.w - 1 - d) as usize, r.y, 1, r.h, color)
    }
}

/// A `t`-pixel border drawn just inside `r`.
pub open spec fn bordered(s: Seq<u32>, width: usize, height: usize, r: Rect, color: u32, t: usize) -> Seq<u32> {
    if r.w == 0 || r.h == 0 {
        s
    } else {
        let th = if t < r.h { t } else { r.h };
        let tw = if t < r.w { t } else { r.w };
        border_cols(border_rows(s, width, height, r, color, th as int), width, height, r, color, tw as int)
    }
}

/// What drawing a border round `r` needs: a `width`×`height` framebuffer,
/// and a non-empty `r` that starts within the framebuffer's height ending at
/// most one pixel past its right edge (its right column then falls just
/// outside and is clipped).
pub open spec fn rect_ok(len: nat, width: usize, height: usize, r: Rect) -> bool {
    &&& width * height <= len
    &&& (r.y < height && r.w > 0 && r.h > 0 ==> r.x + r.w <= width + 1)
    &&& r.y + r.h <= usize::MAX
    &&& r.x + r.w <= usize::MAX
}

/// Draw a `t`-pixel-thick border just inside `rect`.
pub fn draw_border(buf: &mut [u32], width: usize, height: usize, rect: Rect, color: u32, t: usize)
    requires
        rect_ok(old(buf)@.len(), width, height, rect),
    ensures
        final(buf)@ == bordered(old(buf)@, width, height, rect, color, t),
{
    if rect.w == 0 || rect.h == 0 {
        return;
    }
    let th = if t < rect.h { t } else { rect.h };
    let tw = if t < rect.w { t } else { rect.w };
    let mut d: usize = 0;
    while d < th
        invariant
            d <= th <= rect.h,
            rect.w > 0,
            rect_ok(buf@.len(), width, height, rect),
            buf@ == border_rows(old(buf)@, width, height, rect, color, d as int),
        decreases th - d,
    {
        fill_rect(buf, width, height, rect.x, rect.y + d, rect.w, 1, color);
        fill_rect(buf, width, height, rect.x, rect.y + rect.h - 1 - d, rect.w, 1, color);
        d += 1;
    }
    let ghost mid = buf@;
    let mut d: usize = 0;
    while d < tw
        invariant
            d <= tw <= rect.w,
            th <= rect.h,
            rect.h > 0,
            rect_ok(buf@.len(), width, height, rect),
            mid == border_rows(old(buf)@, width, height, rect, color, th as int),
            buf@ == border_cols(mid, width, height, rect, color, d as int),
        decreases tw - d,
    {
        fill_rect(buf, width, height, rect.x + d, rect.y, 1, rect.h, color);
        fill_rect(buf, width, height, rect.x + rect.w - 1 - d, rect.y, 1, rect.h, color);
        d += 1;
    }
}

/// A rasterized glyph: a `width`×`height` coverage bitmap (row-major,
/// 0–255), placed `xmin` pixels right of the pen and with its bottom edge
/// `ymin` pixels above the baseline.
#[derive(Clone, Debug)]
pub struct GlyphBitmap {
    pub width: usize,
    pub height: usize,
    pub xmin: i32,
    pub ymin: i32,
    pub coverage: Vec<u8>,
}

/// A coordinate well within `i32`.
pub open spec fn small(v: int) -> bool {
    -0x1000_0000 < v < 0x1000_0000
}

/// What blending a glyph at (`x0`, `y0`) needs: a consistent bitmap, a
/// framebuffer of `width`×`height`, and coordinates within `i32`.
pub open spec fn glyph_ok(g: GlyphBitmap, len: nat, width: usize, height: usize, x0: usize, y0: usize, baseline: usize) -> bool {
    &&& g.coverage@.len() == g.width * g.height
    &&& width * height <= len
    &&& small(x0 as int) && small(y0 as int) && small(baseline as int)
    &&& small(width as int) && small(height as int)
    &&& small(g.width as int) && small(g.height as int)
    &&& small(g.xmin as int) && small(g.ymin as int)
}

/// The coverage a glyph drawn with its cell at (`x0`, `y0`) lays on pixel `i`
/// of a `width`-wide framebuffer, when it lays a nonzero one.
pub open spec fn glyph_cov(g: GlyphBitmap, i: int, width: usize, x0: usize, y0: usize, baseline: usize) -> Option<u8> {
    if width == 0 {
        None
    } else {
        let gx = x0 + g.xmin;
        let gy = y0 + baseline - g.ymin - g.height;
        let bx = i % (width as int) - gx;
        let by = i / (width as int) - gy;
        if 0 <= bx < g.width && 0 <= by < g.height && g.coverage@[by * g.width + bx] != 0 {
            Some(g.coverage@[by * g.width + bx])
        } else {
            None
        }
    }
}

/// The framebuffer `s` with glyph `g` blended in `fg` at its cell (`x0`, `y0`).
pub open spec fn glyph_drawn(
    s: Seq<u32>,
    width: usize,
    height: usize,
    g: GlyphBitmap,
    x0: usize,
    y0: usize,
    baseline: usize,
    fg: Rgb,
) -> Seq<u32> {
    Seq::new(
        s.len(),
        |i: int|
            if i < width * height && glyph_cov(g, i, width, x0, y0, baseline) is Some {
                blend_spec(fg, s[i], glyph_cov(g, i, width, x0, y0, baseline)->0)
            } else {
                s[i]
            },
    )
}

/// Blend glyph `g` in `fg` into the cell whose top-left pixel is (`x0`, `y0`).
pub fn draw_glyph(
    buf: &mut [u32],
    width: usize,
    height: usize,
    g: &GlyphBitmap,
    x0: usize,
    y0: usize,
    baseline: usize,
    fg: Rgb,
)
    requires
        glyph_ok(*g, old(buf)@.len(), width, height, x0, y0, baseline),
    ensures
        final(buf)@ == glyph_drawn(old(buf)@, width, height, *g, x0, y0, baseline, fg),
{
    if g.width == 0 || g.height == 0 || width == 0 {
        assert(buf@ =~= glyph_drawn(old(buf)@, width, height, *g, x0, y0, baseline, fg));
        return;
    }
    let gx: i64 = x0 as i64 + g.xmin as i64;
    let gy: i64 = y0 as i64 + baseline as i64 - g.ymin as i64 - g.height as i64;
    let gw = g.width;
    let gh = g.height;
    let total = buf.len();
    let clen = g.coverage.len();
    let mut by: usize = 0;
    while by < gh
        invariant
            by <= gh == g.height,
            gw == g.width,
            gw > 0,
            width > 0,
            glyph_ok(*g, buf@.len(), width, height, x0, y0, baseline),
            gx == x0 + g.xmin,
            gy == y0 + baseline - g.ymin - g.height,
            buf@.len() == total == old(buf)@.len(),
            g.coverage@.len() == clen,
            forall|i: int| 0 <= i < buf@.len() ==> #[trigger] buf@[i] == (if i < width * height
                && glyph_cov(*g, i, width, x0, y0, baseline) is Some && i / (width as int) - gy < by {
                blend_spec(fg, old(buf)@[i], glyph_cov(*g, i, width, x0, y0, baseline)->0)
            } else {
                old(buf)@[i]
            }),
        decreases gh - by,
    {
        let mut bx: usize = 0;
        while bx < gw
            invariant
                by < gh == g.height,
                bx <= gw == g.width,
                gw > 0,
                width > 0,
                glyph_ok(*g, buf@.len(), width, height, x0, y0, baseline),
                gx == x0 + g.xmin,
                gy == y0 + baseline - g.ymin - g.height,
                buf@.len() == total == old(buf)@.len(),
                g.coverage@.len() == clen,
                forall|i: int| 0 <= i < buf@.len() ==> #[trigger] buf@[i] == (if i < width * height
                    && glyph_cov(*g, i, width, x0, y0, baseline) is Some && (i / (width as int) - gy < by
                    || (i / (width as int) - gy == by && i % (width as int) - gx < bx)) {
                    blend_spec(fg, old(buf)@[i], glyph_cov(*g, i, width, x0, y0, baseline)->0)
                } else {
                    old(buf)@[i]
                }),
            decreases gw - bx,
        {
            proof {
                assert(by * gw + bx < gw * gh) by (nonlinear_arith)
                    requires
                        by < gh,
                        bx < gw,
                ;
            }
            let cov = g.coverage[by * gw + bx];
            let px: i64 = gx + bx as i64;
            let py: i64 = gy + by as i64;
            if cov != 0 && px >= 0 && py >= 0 && px < width as i64 && py < height as i64 {
                proof {
                    assert(py * width + px < width * height) by (nonlinear_arith)
                        requires
                            0 <= px < width,
                            0 <= py < height,
                    ;
                }
                let idx = py as usize * width + px as usize;
                proof {
                    lemma_row_index(idx as int, width as int, py as int, px as int);
                }
                let old_px = buf[idx];
                buf[idx] = blend(fg, old_px, cov);
            }
            proof {
                assert forall|i: int| 0 <= i < buf@.len() implies #[trigger] buf@[i] == (if i < width * height
                    && glyph_cov(*g, i, width, x0, y0, baseline) is Some && (i / (width as int) - gy < by
                    || (i / (width as int) - gy == by && i % (width as int) - gx < bx + 1)) {
                    blend_spec(fg, old(buf)@[i], glyph_cov(*g, i, width, x0, y0, baseline)->0)
                } else {
                    old(buf)@[i]
                }) by {
                    if i / (width as int) - gy == by && i % (width as int) - gx == bx && i < width * height {
                        vstd::arithmetic::div_mod::lemma_fundamental_div_mod(i, width as int);
                        let q = i / (width as int);
                        let r = i % (width as int);
                        assert(0 <= r < width);
                        assert(q < height) by (nonlinear_arith)
                            requires
                                i == width * q + r,
                                0 <= r,
                                i < width * height,
                                width > 0,
                        ;
                        assert(q >= 0) by (nonlinear_arith)
                            requires
                                i == width * q + r,
                                r < width,
                                i >= 0,
                                width > 0,
                        ;
                        assert(i == q * width + r) by (nonlinear_arith)
                            requires
                                i == width * q + r,
                        ;
                    }
                }
            }
            bx += 1;
        }
        by += 1;
        proof {
            assert forall|i: int| 0 <= i < buf@.len() implies #[trigger] buf@[i] == (if i < width * height
                && glyph_cov(*g, i, width, x0, y0, baseline) is Some && i / (width as int) - gy < by {
                blend_spec(fg, old(buf)@[i], glyph_cov(*g, i, width, x0, y0, baseline)->0)
            } else {
                old(buf)@[i]
            }) by {
                if i / (width as int) - gy == by - 1 && glyph_cov(*g, i, width, x0, y0, baseline) is Some {
                    assert(i % (width as int) - gx < gw);
                }
            }
        }
    }
    proof {
        assert forall|i: int| 0 <= i < buf@.len() implies #[trigger] buf@[i] == glyph_drawn(
            old(buf)@,
            width,
            height,
            *g,
            x0,
            y0,
            baseline,
            fg,
        )[i] by {
            if glyph_cov(*g, i, width, x0, y0, baseline) is Some {
                assert(i / (width as int) - gy < gh);
            }
        }
    }
    assert(buf@ =~= glyph_drawn(old(buf)@, width, height, *g, x0, y0, baseline, fg));
}

// --- painting a grid -----------------------------------------------------------

/// The cell size and baseline of the font, in pixels.
#[derive(Clone, Copy, Debug, PartialEq, Eq, Structural)]
pub struct CellMetrics {
    pub cw: usize,
    pub ch: usize,
    pub baseline: usize,
}

/// The colors (fg, bg) a cell paints with: its logical colors resolved, bold
/// brightening a base ANSI foreground, reverse video and the block cursor each
/// swapping them, and a highlight replacing the background.
pub open spec fn cell_colors_spec(cell: Cell, is_cursor: bool, term: Terminal, highlight: Option<Col>) -> (Rgb, Rgb) {
    let fg0 = resolve_spec(cell.fg, (term.fg.0, term.fg.1, term.fg.2), term.palette);
    let bg0 = resolve_spec(cell.bg, (term.bg.0, term.bg.1, term.bg.2), term.palette);
    let fg1 = match cell.fg {
        Color::Indexed(i) => if cell.attrs & BOLD != 0 && i < 8 {
            let p = term.palette@[i + 8];
            (p.0, p.1, p.2)
        } else {
            fg0
        },
        _ => fg0,
    };
    let swapped = (cell.attrs & REVERSE != 0) != is_cursor;
    let fg2 = if swapped { bg0 } else { fg1 };
    let bg2 = if swapped { fg1 } else { bg0 };
    match highlight {
        Some(c) => (fg2, (c.0, c.1, c.2)),
        None => (fg2, bg2),
    }
}

/// The colors (fg, bg) a cell paints with.
pub fn cell_colors(cell: Cell, is_cursor: bool, term: &Terminal, highlight: Option<Col>) -> (c: (Rgb, Rgb))
    ensures
        c == cell_colors_spec(cell, is_cursor, *term, highlight),
{
    let mut fg = resolve(cell.fg, term.fg.rgb(), &term.palette);
    let mut bg = resolve(cell.bg, term.bg.rgb(), &term.palette);
    if cell.attrs & BOLD != 0 {
        if let Color::Indexed(i) = cell.fg {
            if i < 8 {
                fg = term.palette[(i + 8) as usize].rgb();
            }
        }
    }
    if (cell.attrs & REVERSE != 0) != is_cursor {
        let t = fg;
        fg = bg;
        bg = t;
    }
    match highlight {
        Some(c) => (fg, c.rgb()),
        None => (fg, bg),
    }
}

/// The glyph the set holds for `c` (the first entry for it).
pub open spec fn glyph_for(glyphs: Seq<(char, GlyphBitmap)>, c: char) -> Option<GlyphBitmap>
    decreases glyphs.len(),
{
    if glyphs.len() == 0 {
        None
    } else if glyphs[0].0 == c {
        Some(glyphs[0].1)
    } else {
        glyph_for(glyphs.drop_first(), c)
    }
}

fn find_glyph(glyphs: &Vec<(char, GlyphBitmap)>, c: char) -> (r: Option<&GlyphBitmap>)
    ensures
        match r {
            Some(g) => glyph_for(glyphs@, c) == Some(*g),
            None => glyph_for(glyphs@, c) is None,
        },
{
    let mut i: usize = 0;
    assert(glyphs@.skip(0) =~= glyphs@);
    while i < glyphs.len()
        invariant
            i <= glyphs@.len(),
            glyph_for(glyphs@, c) == glyph_for(glyphs@.skip(i as int), c),
        decreases glyphs.len() - i,
    {
        assert(glyphs@.skip(i as int).drop_first() =~= glyphs@.skip(i + 1));
        if glyphs[i].0 == c {
            return Some(&glyphs[i].1);
        }
        i += 1;
    }
    None
}

/// Everything painting a grid reads.
pub struct PaintCtx {
    pub width: usize,
    pub height: usize,
    pub rect: Rect,
    pub grid: GridState,
    pub glyphs: Seq<(char, GlyphBitmap)>,
    pub m: CellMetrics,
    pub show_cursor: bool,
    pub sel: Option<Selection>,
    pub search: Option<Search>,
    pub theme: Theme,
}

/// The tint of viewport cell (`row`, `col`): a search match (the current one
/// brighter), else the selection.
pub open spec fn highlight_spec(p: PaintCtx, row: int, col: int) -> Option<Col> {
    let sel_hl = match p.sel {
        Some(sl) => if sl.contains_spec(row as usize, col as usize) {
            Some(p.theme.terminal.selection)
        } else {
            None
        },
        None => None,
    };
    let abs = p.grid.scrollback.len() - p.grid.view_offset + row;
    match p.search {
        Some(s) => match first_cover(s.matches_spec(), abs, col, 0) {
            Some(i) => Some(
                if s.current_match_spec() == Some(s.matches_spec()[i]) {
                    p.theme.search.current_bg
                } else {
                    p.theme.search.match_bg
                },
            ),
            None => sel_hl,
        },
        None => sel_hl,
    }
}

/// The framebuffer after painting viewport cell (`row`, `col`): its background
/// over the cell's pixels, then its glyph (unless a space).
pub open spec fn paint_cell(s: Seq<u32>, p: PaintCtx, row: int, col: int) -> Seq<u32> {
    let cell = p.grid.visible(row, col);
    let is_cursor = p.show_cursor && row == p.grid.cursor_row && col == p.grid.cursor_col;
    let (fg, bg) = cell_colors_spec(cell, is_cursor, p.theme.terminal, highlight_spec(p, row, col));
    let x0 = (p.rect.x + col * p.m.cw) as usize;
    let y0 = (p.rect.y + row * p.m.ch) as usize;
    let s1 = filled(s, p.width, p.height, x0, y0, p.m.cw, p.m.ch, pack_spec(bg));
    if cell.ch != ' ' && glyph_for(p.glyphs, cell.ch) is Some {
        glyph_drawn(s1, p.width, p.height, glyph_for(p.glyphs, cell.ch)->0, x0, y0, p.m.baseline, fg)
    } else {
        s1
    }
}

/// The first `n` cells of viewport row `row` painted, left to right.
pub open spec fn paint_row(s: Seq<u32>, p: PaintCtx, row: int, n: int) -> Seq<u32>
    decreases n,
{
    if n <= 0 {
        s
    } else {
        paint_cell(paint_row(s, p, row, n - 1), p, row, n - 1)
    }
}

/// The first `n` viewport rows painted, top to bottom.
pub open spec fn paint_rows(s: Seq<u32>, p: PaintCtx, n: int) -> Seq<u32>
    decreases n,
{
    if n <= 0 {
        s
    } else {
        paint_row(paint_rows(s, p, n - 1), p, n - 1, p.grid.cols as int)
    }
}

/// The framebuffer after painting a grid into `rect`: the pane cleared to the
/// terminal background, then every cell.
pub open spec fn painted(s: Seq<u32>, p: PaintCtx) -> Seq<u32> {
    let t = p.theme.terminal.bg;
    let cleared = filled(s, p.width, p.height, p.rect.x, p.rect.y, p.rect.w, p.rect.h, pack_spec((t.0, t.1, t.2)));
    paint_rows(cleared, p, p.grid.rows as int)
}

/// What painting needs: the framebuffer holds `width`×`height` pixels, every
/// cell starts within the framebuffer's width, coordinates stay within `i32`,
/// and every glyph is a consistent bitmap.
pub open spec fn paint_ok(len: nat, p: PaintCtx) -> bool {
    &&& p.width * p.height <= len
    &&& p.grid.wf()
    &&& p.grid.scrollback.len() + p.grid.rows <= usize::MAX
    &&& p.rect.x + (p.grid.cols - 1) * p.m.cw <= p.width
    &&& small(p.rect.x + p.grid.cols * p.m.cw)
    &&& small(p.rect.y + p.grid.rows * p.m.ch)
    &&& small(p.m.baseline as int) && small(p.width as int) && small(p.height as int)
    &&& forall|k: int| 0 <= k < p.glyphs.len() ==> {
        let g = #[trigger] p.glyphs[k].1;
        &&& g.coverage@.len() == g.width * g.height
        &&& small(g.width as int) && small(g.height as int)
        &&& small(g.xmin as int) && small(g.ymin as int)
    }
}

proof fn lemma_glyph_for_in(glyphs: Seq<(char, GlyphBitmap)>, c: char)
    requires
        glyph_for(glyphs, c) is Some,
    ensures
        exists|k: int| 0 <= k < glyphs.len() && glyphs[k].1 == glyph_for(glyphs, c)->0,
    decreases glyphs.len(),
{
    if glyphs[0].0 != c {
        lemma_glyph_for_in(glyphs.drop_first(), c);
        let k = choose|k: int| 0 <= k < glyphs.drop_first().len() && glyphs.drop_first()[k].1 == glyph_for(glyphs, c)->0;
        assert(glyphs[k + 1].1 == glyph_for(glyphs, c)->0);
    } else {
        assert(glyphs[0].1 == glyph_for(glyphs, c)->0);
    }
}

/// Paint `grid` into the `rect` sub-region of `buf` (a `width`×`height`
/// framebuffer), with `glyphs` rasterized at cell size `m`. The block cursor
/// shows only when `focused`, at the bottom of history, and not hidden;
/// `sel` and `search` tint their cells.
pub fn paint(
    buf: &mut [u32],
    width: usize,
    height: usize,
    rect: Rect,
    grid: &Grid,
    glyphs: &Vec<(char, GlyphBitmap)>,
    m: CellMetrics,
    focused: bool,
    sel: Option<&Selection>,
    search: Option<&Search>,
    theme: &Theme,
)
    requires
        paint_ok(
            old(buf)@.len(),
            PaintCtx {
                width,
                height,
                rect,
                grid: grid@,
                glyphs: glyphs@,
                m,
                show_cursor: focused && grid@.view_offset == 0 && grid@.cursor_visible,
                sel: match sel {
                    Some(s) => Some(*s),
                    None => None,
                },
                search: match search {
                    Some(s) => Some(*s),
                    None => None,
                },
                theme: *theme,
            },
        ),
    ensures
        final(buf)@ == painted(
            old(buf)@,
            PaintCtx {
                width,
                height,
                rect,
                grid: grid@,
                glyphs: glyphs@,
                m,
                show_cursor: focused && grid@.view_offset == 0 && grid@.cursor_visible,
                sel: match sel {
                    Some(s) => Some(*s),
                    None => None,
                },
                search: match search {
                    Some(s) => Some(*s),
                    None => None,
                },
                theme: *theme,
            },
        ),
{
    let show_cursor = focused && grid.view_offset() == 0 && grid.cursor_visible();
    let ghost p = PaintCtx {
        width,
        height,
        rect,
        grid: grid@,
        glyphs: glyphs@,
        m,
        show_cursor,
        sel: match sel {
            Some(s) => Some(*s),
            None => None,
        },
        search: match search {
            Some(s) => Some(*s),
            None => None,
        },
        theme: *theme,
    };
    let rows = grid.rows();
    let cols = grid.cols();
    proof {
        assert((cols - 1) * m.cw >= 0) by (nonlinear_arith)
            requires
                cols >= 1,
        ;
    }
    fill_rect(buf, width, height, rect.x, rect.y, rect.w, rect.h, pack(theme.terminal.bg.rgb()));
    let ghost cleared = buf@;
    let sb = grid.scrollback_len();
    let vo = grid.view_offset();
    let crow = grid.cursor_row();
    let ccol = grid.cursor_col();
    let mut row: usize = 0;
    while row < rows
        invariant
            row <= rows == p.grid.rows,
            cols == p.grid.cols,
            p.grid == grid@,
            grid.wf(),
            sb == p.grid.scrollback.len(),
            vo == p.grid.view_offset,
            crow == p.grid.cursor_row,
            ccol == p.grid.cursor_col,
            show_cursor == p.show_cursor,
            p.width == width && p.height == height && p.rect == rect && p.m == m,
            p.glyphs == glyphs@,
            p.theme == *theme,
            p.sel == (match sel {
                Some(s) => Some(*s),
                None => None,
            }),
            p.search == (match search {
                Some(s) => Some(*s),
                None => None,
            }),
            paint_ok(buf@.len(), p),
            buf@ == paint_rows(cleared, p, row as int),
        decreases rows - row,
    {
        let mut col: usize = 0;
        while col < cols
            invariant
                row < rows == p.grid.rows,
                col <= cols == p.grid.cols,
                p.grid == grid@,
                grid.wf(),
                sb == p.grid.scrollback.len(),
                vo == p.grid.view_offset,
                crow == p.grid.cursor_row,
                ccol == p.grid.cursor_col,
                show_cursor == p.show_cursor,
                p.width == width && p.height == height && p.rect == rect && p.m == m,
                p.glyphs == glyphs@,
                p.theme == *theme,
                p.sel == (match sel {
                    Some(s) => Some(*s),
                    None => None,
                }),
                p.search == (match search {
                    Some(s) => Some(*s),
                    None => None,
                }),
                paint_ok(buf@.len(), p),
                buf@ == paint_row(paint_rows(cleared, p, row as int), p, row as int, col as int),
            decreases cols - col,
        {
            let cell = grid.visible_cell(row, col);
            let is_cursor = show_cursor && row == crow && col == ccol;
            let sel_hl: Option<Col> = match sel {
                Some(sl) => if sl.contains(row, col) {
                    Some(theme.terminal.selection)
                } else {
                    None
                },
                None => None,
            };
            let hl: Option<Col> = match search {
                Some(s) => {
                    proof {
                        assert(sb - vo + row >= 0);
                    }
                    match s.hit(sb - vo + row, col) {
                        Some(true) => Some(theme.search.current_bg),
                        Some(false) => Some(theme.search.match_bg),
                        None => sel_hl,
                    }
                },
                None => sel_hl,
            };
            assert(hl == highlight_spec(p, row as int, col as int));
            let (fg, bg) = cell_colors(cell, is_cursor, &theme.terminal, hl);
            proof {
                assert(col * m.cw <= (cols - 1) * m.cw) by (nonlinear_arith)
                    requires
                        col <= cols - 1,
                ;
                assert(row * m.ch <= rows * m.ch) by (nonlinear_arith)
                    requires
                        row <= rows,
                ;
                assert(col * m.cw <= cols * m.cw) by (nonlinear_arith)
                    requires
                        col <= cols,
                ;
            }
            let x0 = rect.x + col * m.cw;
            let y0 = rect.y + row * m.ch;
            fill_rect(buf, width, height, x0, y0, m.cw, m.ch, pack(bg));
            if cell.ch != ' ' {
                match find_glyph(glyphs, cell.ch) {
                    Some(g) => {
                        proof {
                            lemma_glyph_for_in(glyphs@, cell.ch);
                        }
                        draw_glyph(buf, width, height, g, x0, y0, m.baseline, fg);
                    },
                    None => {},
                }
            }
            col += 1;
        }
        row += 1;
    }
}

/// The six intensity levels of the xterm color cube.
pub open spec fn cube_level(v: int) -> u8 {
    if v == 0 {
        0
    } else if v == 1 {
        95
    } else if v == 2 {
        135
    } else if v == 3 {
        175
    } else if v == 4 {
        215
    } else {
        255
    }
}

/// xterm's 256-color table above the 16 ANSI colors: index 16 + 36r + 6g + b
/// (each of r, g, b from 0 to 5) is the cube color with levels 0, 95, 135,
/// 175, 215 and 255 in red, green and blue; index 232 + k is the grey
/// 8 + 10k.
pub proof fn law_xterm_table(r: u8, g: u8, b: u8, k: u8)
    requires
        r < 6,
        g < 6,
        b < 6,
        k < 24,
    ensures
        xterm_256_spec((16 + 36 * r + 6 * g + b) as u8) == (
            cube_level(r as int),
            cube_level(g as int),
            cube_level(b as int),
        ),
        xterm_256_spec((232 + k) as u8) == ((8 + 10 * k) as u8, (8 + 10 * k) as u8, (8 + 10 * k) as u8),
{
    let idx: int = 36 * r + 6 * g + b;
    vstd::arithmetic::div_mod::lemma_fundamental_div_mod_converse(idx, 36, r as int, 6 * g + b);
    vstd::arithmetic::div_mod::lemma_fundamental_div_mod_converse(idx, 6, 6 * r + g, b as int);
    vstd::arithmetic::div_mod::lemma_fundamental_div_mod_converse(6 * r + g, 6, r as int, g as int);
    assert(((16 + 36 * r + 6 * g + b) as u8) - 16 == idx);
}

/// A packed pixel holds red, green and blue a byte each, in that order;
/// blending a color at full coverage paints it, and at zero coverage leaves
/// the pixel as it was.
pub proof fn law_pack_and_blend(c: Rgb, dst: u32)
    requires
        dst < 0x1000000,
    ensures
        pack_spec(c) < 0x1000000,
        pack_spec(c) / 0x10000 == c.0,
        (pack_spec(c) / 0x100) % 0x100 == c.1,
        pack_spec(c) % 0x100 == c.2,
        blend_spec(c, dst, 255) == pack_spec(c),
        blend_spec(c, dst, 0) == dst,
{
    let v: int = c.0 * 0x10000 + c.1 * 0x100 + c.2;
    assert(pack_spec(c) == v);
    vstd::arithmetic::div_mod::lemma_fundamental_div_mod_converse(v, 0x10000, c.0 as int, c.1 * 0x100 + c.2);
    vstd::arithmetic::div_mod::lemma_fundamental_div_mod_converse(v, 0x100, c.0 * 0x100 + c.1, c.2 as int);
    vstd::arithmetic::div_mod::lemma_fundamental_div_mod_converse(c.0 * 0x100 + c.1, 0x100, c.0 as int, c.1 as int);
    assert forall|f: u8, d: int| mix(f, d, 255) == f && mix(f, d, 0) == d by {
        vstd::arithmetic::div_mod::lemma_fundamental_div_mod_converse(f * 255 + d * 0, 255, f as int, 0);
        vstd::arithmetic::div_mod::lemma_fundamental_div_mod_converse(f * 0 + d * 255, 255, d, 0);
    }
    assert(((dst / 0x10000) % 0x100) * 0x10000 + ((dst / 0x100) % 0x100) * 0x100 + dst % 0x100 == dst)
        by (bit_vector)
        requires
            dst < 0x1000000,
    ;
}

/// The cursor shows a cell with its colors swapped, and so does reverse
/// video, the two together cancelling; a search highlight replaces the
/// background and keeps the foreground; bold brightens a base ANSI
/// foreground (0 to 7) to its bright twin (8 to 15); and a cell in the
/// default colors without attributes paints in the terminal's foreground
/// over its background.
pub proof fn law_cell_colors(cell: Cell, term: Terminal, h: Col, cur: bool, i: u8)
    ensures
        ({
            let p = cell_colors_spec(cell, cur, term, None);
            cell_colors_spec(cell, !cur, term, None) == (p.1, p.0)
        }),
        ({
            let p = cell_colors_spec(cell, cur, term, None);
            cell_colors_spec(Cell { attrs: cell.attrs ^ REVERSE, ..cell }, cur, term, None) == (p.1, p.0)
        }),
        cell_colors_spec(cell, cur, term, Some(h)) == (cell_colors_spec(cell, cur, term, None).0, (h.0, h.1, h.2)),
        cell_colors_spec(Cell { fg: Color::Default, bg: Color::Default, attrs: 0, ..cell }, false, term, None) == (
            (term.fg.0, term.fg.1, term.fg.2),
            (term.bg.0, term.bg.1, term.bg.2),
        ),
        i < 8 ==> cell_colors_spec(Cell { fg: Color::Indexed(i), attrs: BOLD, ..cell }, false, term, None).0 == (
            term.palette@[i + 8].0,
            term.palette@[i + 8].1,
            term.palette@[i + 8].2,
        ),
{
    let a = cell.attrs;
    assert(((a ^ 8u8) & 1u8) == (a & 1u8) && (((a ^ 8u8) & 8u8) != 0u8) != ((a & 8u8) != 0u8)) by (bit_vector);
    assert((1u8 & 1u8) != 0u8 && (1u8 & 8u8) == 0u8 && (0u8 & 8u8) == 0u8) by (bit_vector);
}

/// The pixel at column `px`, row `py` of a `width`-wide framebuffer (index
/// `py * width + px`) lies in a rectangle exactly when its column and row lie
/// within the rectangle's and its row within the framebuffer's height.
pub proof fn law_in_rect_by_coordinates(
    width: usize,
    height: usize,
    x: usize,
    y: usize,
    w: usize,
    h: usize,
    px: int,
    py: int,
)
    requires
        width > 0,
        0 <= px < width,
        0 <= py,
    ensures
        in_rect(py * width + px, width, height, x, y, w, h) == (x <= px < x + w && y <= py < y + h && py
            < height),
{
    lemma_row_index(py * width + px, width as int, py, px);
}

} // verus!
