//! The image compositor: draws a vertical crop of a source bitmap into a
//! destination column range, with clipping at the screen edges,
//! transparency, and distance-based dimming.
//!
//! All vertical coordinates are normalized to `[0, 1]` fixed-point against
//! the destination and source heights. Destination rows are mapped to
//! source rows by walking the crop range one source row at a time; each
//! destination row's offset is derived from the crop offset covered so
//! far, so the mapping is linear across the clipped range.

use crate::fx::{iabs, lemma_div_shrinks, lemma_mul_ok, Fx};
use crate::fx_range::lemma_measure_nonneg;
use crate::fx_range::{range, spec_range_next, FxRange};
use crate::mat2::Vec2x;
use crate::texture::VerticalImage;
use vstd::prelude::*;

verus! {

/// Largest admissible magnitude for a destination coordinate (raw units):
/// projected strips of very near geometry can tower far beyond the screen.
pub const DEST_LIMIT: i64 = 0x1_0000_0000_0000;

/// One destination column of a pixel buffer: the column's index, the
/// buffer's row stride, and its height in rows. Pixel `(column, row)` sits
/// at `row * stride + x`.
#[derive(Clone, Copy, PartialEq, Eq, Structural, Debug)]
pub struct ImageColumn {
    pub x: usize,
    pub stride: usize,
    pub height: usize,
}

impl ImageColumn {
    /// A column that lies within its buffer's bounds.
    pub open spec fn wf(self) -> bool {
        &&& self.x < self.stride <= 0x8000
        &&& 1 <= self.height <= 0x8000
    }

    /// The column `x` of a buffer with the given stride and height.
    pub fn new(x: usize, stride: usize, height: usize) -> (r: ImageColumn)
        requires
            x < stride <= 0x8000,
            1 <= height <= 0x8000,
        ensures
            r == (ImageColumn { x, stride, height }),
            r.wf(),
    {
        ImageColumn { x, stride, height }
    }
}

/// A red or green channel dimmed quadratically: `c * f * f`, truncated.
pub open spec fn spec_dim_sq(c: u8, f: Fx) -> int {
    (c * f.raw * f.raw) / 0x1_0000_0000int
}

/// A blue channel dimmed linearly: `c * f`, truncated.
pub open spec fn spec_dim_lin(c: u8, f: Fx) -> int {
    (c * f.raw) / 65536int
}

/// Multiplies a sampled color's red and green by the square of the
/// dimming factor and its blue by the factor itself, approximating
/// inverse-square light falloff with a bluish cast at distance.
pub fn dim_color(color: (u8, u8, u8, u8), dim_factor: Fx) -> (r: (u8, u8, u8, u8))
    requires
        0 <= dim_factor.raw <= 65536,
    ensures
        r.0 == spec_dim_sq(color.0, dim_factor),
        r.1 == spec_dim_sq(color.1, dim_factor),
        r.2 == spec_dim_lin(color.2, dim_factor),
        r.3 == 0,
{
    let f: u64 = dim_factor.raw as u64;
    proof {
        lemma_dim_bounds(color.0, dim_factor);
        lemma_dim_bounds(color.1, dim_factor);
        lemma_dim_bounds(color.2, dim_factor);
    }
    let r0: u64 = ((color.0 as u64) * f * f) / 0x1_0000_0000;
    let r1: u64 = ((color.1 as u64) * f * f) / 0x1_0000_0000;
    let r2: u64 = ((color.2 as u64) * f) / 65536;
    (r0 as u8, r1 as u8, r2 as u8, 0)
}

/// Dimming never brightens: the dimmed channels still fit in a byte.
proof fn lemma_dim_bounds(c: u8, f: Fx)
    requires
        0 <= f.raw <= 65536,
    ensures
        0 <= spec_dim_sq(c, f) <= 255,
        0 <= spec_dim_lin(c, f) <= 255,
        c * f.raw * f.raw <= 0xff_0000_0000_0000,
        c * f.raw <= 0xff_0000_0000,
{
    assert(c * f.raw * f.raw <= 255 * 65536 * 65536 && c * f.raw <= 255 * 65536)
        by (nonlinear_arith)
        requires
            0 <= f.raw <= 65536,
            0 <= c <= 255,
    ;
    lemma_div_shrinks(c * f.raw * f.raw, 0x1_0000_0000int);
    lemma_div_shrinks(c * f.raw, 65536int);
    assert((255int * 65536 * 65536) / 0x1_0000_0000int == 255) by (nonlinear_arith);
    assert((255int * 65536) / 65536int == 255) by (nonlinear_arith);
    vstd::arithmetic::div_mod::lemma_div_is_ordered(
        c * f.raw * f.raw,
        255int * 65536 * 65536,
        0x1_0000_0000int,
    );
    vstd::arithmetic::div_mod::lemma_div_is_ordered(c * f.raw, 255int * 65536, 65536int);
}

/// An opaque destination pixel: red, green and blue packed into one word.
pub open spec fn spec_pack_color(r: int, g: int, b: int) -> int {
    r * 65536 + g * 256 + b
}

/// Two buffers of one length that agree on every pixel outside column
/// `x`.
pub open spec fn agree_outside_column(a: Seq<u32>, b: Seq<u32>, x: int, stride: int) -> bool {
    &&& a.len() == b.len()
    &&& forall|k: int| 0 <= k < a.len() && k % stride != x ==> #[trigger] a[k] == b[k]
}

/// Agreement outside a column is transitive.
pub proof fn lemma_agree_outside_column_trans(
    a: Seq<u32>,
    b: Seq<u32>,
    c: Seq<u32>,
    x: int,
    stride: int,
)
    requires
        agree_outside_column(a, b, x, stride),
        agree_outside_column(b, c, x, stride),
    ensures
        agree_outside_column(a, c, x, stride),
{
}

/// Two buffers of one length that agree on every pixel whose column lies
/// outside `[x0, x1)`.
pub open spec fn agree_outside_range(a: Seq<u32>, b: Seq<u32>, x0: int, x1: int, stride: int) -> bool {
    &&& a.len() == b.len()
    &&& forall|k: int| 0 <= k < a.len() && !(x0 <= k % stride < x1) ==> #[trigger] a[k] == b[k]
}

/// The buffer with `color` written to the rows `lo <= row < hi` of one
/// column, every other pixel untouched.
pub open spec fn spec_write_rows(
    buf: Seq<u32>,
    x: int,
    stride: int,
    lo: int,
    hi: int,
    color: u32,
) -> Seq<u32> {
    Seq::new(
        buf.len(),
        |k: int|
            if k % stride == x && lo <= k / stride < hi {
                color
            } else {
                buf[k]
            },
    )
}

/// The source row a crop offset samples: its whole part, clamped to the
/// bitmap's last row.
pub open spec fn spec_src_row(v: Fx, ih: int) -> int {
    let f = v.raw as int / 65536int;
    if f < ih - 1 {
        f
    } else {
        ih - 1
    }
}

/// The destination coordinate (raw units) a crop offset `v` maps to:
/// the clipped destination start plus the covered crop span scaled by
/// `d` destination units per source unit.
pub open spec fn spec_dest_y(pys_h: int, d: int, start: int, v: int) -> int {
    pys_h + (d * (v - start)) / 65536int
}

/// The buffer after drawing the crop slice `[from, to)`: sample the source
/// row at `from`, and unless it is transparent, fill the destination rows
/// it covers with its dimmed color.
pub open spec fn spec_segment(
    buf: Seq<u32>,
    col: ImageColumn,
    image: VerticalImage,
    image_x: int,
    dim: Fx,
    d: int,
    pys_h: int,
    start: int,
    from: Fx,
    to: Fx,
) -> Seq<u32> {
    match image.spec_pixel(image_x, spec_src_row(from, image.height as int)) {
        None => buf,
        Some(c) => {
            let lo = spec_dest_y(pys_h, d, start, from.raw as int) / 65536int;
            let hi0 = spec_dest_y(pys_h, d, start, to.raw as int) / 65536int;
            let hi = if hi0 < col.height - 1 {
                hi0
            } else {
                col.height - 1
            };
            let color = spec_pack_color(spec_dim_sq(c[0], dim), spec_dim_sq(c[1], dim), spec_dim_lin(c[2], dim));
            spec_write_rows(buf, col.x as int, col.stride as int, lo, hi, color as u32)
        },
    }
}

/// The buffer after drawing every remaining crop slice: one per value the
/// range still yields.
pub open spec fn spec_draw_from(
    buf: Seq<u32>,
    col: ImageColumn,
    image: VerticalImage,
    image_x: int,
    dim: Fx,
    d: int,
    pys_h: int,
    start: int,
    from: Fx,
    st: FxRange,
) -> Seq<u32>
    decreases st.measure(),
    when st.wf()
    via spec_draw_from_dec
{
    if st.measure() <= 0 {
        buf
    } else {
        match spec_range_next(st) {
            None => buf,
            Some((to, st2)) => spec_draw_from(
                spec_segment(buf, col, image, image_x, dim, d, pys_h, start, from, to),
                col,
                image,
                image_x,
                dim,
                d,
                pys_h,
                start,
                to,
                st2,
            ),
        }
    }
}

#[via_fn]
proof fn spec_draw_from_dec(
    buf: Seq<u32>,
    col: ImageColumn,
    image: VerticalImage,
    image_x: int,
    dim: Fx,
    d: int,
    pys_h: int,
    start: int,
    from: Fx,
    st: FxRange,
) {
    if st.measure() > 0 {
        match spec_range_next(st) {
            None => {},
            Some((to, st2)) => {
                if st.current.raw < st.goal.raw {
                    let q = st.current.raw as int / 65536int;
                    assert((q * 65536 + 65536) / 65536int == q + 1) by (nonlinear_arith);
                    vstd::arithmetic::div_mod::lemma_div_is_ordered(
                        st.current.raw as int,
                        st.goal.raw as int,
                        65536,
                    );
                    if q * 65536 + 65536 < st.goal.raw {
                        vstd::arithmetic::div_mod::lemma_div_is_ordered(
                            q * 65536 + 65536,
                            st.goal.raw as int,
                            65536,
                        );
                    }
                }
            },
        }
    }
}

/// Writes `color` to rows `lo <= row < hi` of the column.
fn write_rows(col: ImageColumn, buffer: &mut Vec<u32>, lo: usize, hi: usize, color: u32)
    requires
        col.wf(),
        old(buffer)@.len() == col.stride * col.height,
        hi <= col.height,
    ensures
        final(buffer)@ == spec_write_rows(
            old(buffer)@,
            col.x as int,
            col.stride as int,
            lo as int,
            hi as int,
            color,
        ),
        final(buffer)@.len() == old(buffer)@.len(),
{
    let ghost buf0: Seq<u32> = buffer@;
    let mut row: usize = lo;
    if row >= hi {
        proof {
            assert(buffer@ =~= spec_write_rows(
                buf0,
                col.x as int,
                col.stride as int,
                lo as int,
                hi as int,
                color,
            ));
        }
        return ;
    }
    while row < hi
        invariant
            col.wf(),
            lo <= row,
            row <= hi,
            hi <= col.height,
            buffer@.len() == buf0.len(),
            buf0.len() == col.stride * col.height,
            buffer@ =~= spec_write_rows(
                buf0,
                col.x as int,
                col.stride as int,
                lo as int,
                row as int,
                color,
            ),
        decreases hi - row,
    {
        proof {
            assert(row * col.stride + col.x < col.stride * col.height && row * col.stride + col.x
                < 0x4000_0000) by (nonlinear_arith)
                requires
                    row < col.height,
                    col.x < col.stride,
                    col.stride <= 0x8000,
                    col.height <= 0x8000,
            ;
        }
        let idx: usize = row * col.stride + col.x;
        let ghost pre: Seq<u32> = buffer@;
        buffer.set(idx, color);
        proof {
            assert forall|k: int| 0 <= k < buffer@.len() implies buffer@[k] == spec_write_rows(
                buf0,
                col.x as int,
                col.stride as int,
                lo as int,
                row + 1,
                color,
            )[k] by {
                if k == idx {
                    vstd::arithmetic::div_mod::lemma_fundamental_div_mod_converse(
                        k,
                        col.stride as int,
                        row as int,
                        col.x as int,
                    );
                } else {
                    if k % (col.stride as int) == col.x && k / (col.stride as int) == row {
                        vstd::arithmetic::div_mod::lemma_fundamental_div_mod(
                            k,
                            col.stride as int,
                        );
                        vstd::arithmetic::mul::lemma_mul_is_commutative(
                            row as int,
                            col.stride as int,
                        );
                        assert(k == row * col.stride + col.x);
                    }
                }
            }
            assert(buffer@ =~= spec_write_rows(
                buf0,
                col.x as int,
                col.stride as int,
                lo as int,
                row + 1,
                color,
            ));
        }
        row = row + 1;
    }
}

/// The crop and destination ranges after clipping the destination to
/// `[0, 1]`: where the destination start lies below zero, the crop start
/// advances by the fraction of the destination range cut off, and
/// symmetrically at the top. Returned as (crop start, crop end,
/// destination start, destination end).
pub open spec fn spec_clip(cs: Fx, ce: Fx, ps: Fx, pe: Fx) -> (Fx, Fx, Fx, Fx) {
    let cs1 = if ps.raw < 0 {
        let frac = ((-ps.raw) * 65536) / (pe.raw - ps.raw);
        Fx { raw: (cs.raw + (frac * (ce.raw - cs.raw)) / 65536int) as i64 }
    } else {
        cs
    };
    let ps1 = if ps.raw < 0 {
        Fx { raw: 0 }
    } else {
        ps
    };
    let ce1 = if pe.raw > 65536 {
        let frac = ((pe.raw - 65536) * 65536) / (pe.raw - ps1.raw);
        Fx { raw: (ce.raw - (frac * (ce.raw - cs1.raw)) / 65536int) as i64 }
    } else {
        ce
    };
    let pe1 = if pe.raw > 65536 {
        Fx { raw: 65536 }
    } else {
        pe
    };
    (cs1, ce1, ps1, pe1)
}

/// The buffer after drawing the whole cropped strip: nothing where the
/// destination range lies entirely off screen or the clipped crop is
/// empty; otherwise every crop slice in turn.
pub open spec fn spec_draw_partial(
    buf: Seq<u32>,
    col: ImageColumn,
    image: VerticalImage,
    image_x: int,
    cs: Fx,
    ce: Fx,
    ps: Fx,
    pe: Fx,
    dim: Fx,
) -> Seq<u32> {
    if (ps.raw < 0 && pe.raw < 0) || (ps.raw > 65536 && pe.raw > 65536) {
        buf
    } else {
        let (cs1, ce1, ps1, pe1) = spec_clip(cs, ce, ps, pe);
        if ce1.raw <= cs1.raw {
            buf
        } else {
            let ih = image.height as int;
            let h = col.height as int;
            let start = cs1.raw * ih;
            let goal = ce1.raw * ih;
            let den = (ce1.raw - cs1.raw) * ih;
            let num = (pe1.raw - ps1.raw) * h;
            let d = (num * 65536) / den;
            let pys_h = ps1.raw * h;
            let st0 = FxRange {
                current: Fx { raw: start as i64 },
                goal: Fx { raw: goal as i64 },
                exhausted: false,
            };
            match spec_range_next(st0) {
                Some((from0, st1)) => spec_draw_from(
                    buf,
                    col,
                    image,
                    image_x,
                    dim,
                    d,
                    pys_h,
                    start,
                    from0,
                    st1,
                ),
                None => buf,
            }
        }
    }
}

/// A fraction of a nonnegative span is at most one.
proof fn lemma_frac_le_one(a: int, b: int)
    by (nonlinear_arith)
    requires
        0 <= a <= b,
        1 <= b,
    ensures
        0 <= (a * 65536) / b <= 65536,
{
}

/// Scaling a nonnegative span by a fraction of at most one shrinks it.
proof fn lemma_scale_le(f: int, s: int)
    by (nonlinear_arith)
    requires
        0 <= f <= 65536,
        0 <= s,
    ensures
        0 <= (f * s) / 65536int <= s,
{
}

impl ImageColumn {
    /// Draws a cropped source-bitmap column into the destination column:
    /// clips the destination range to the screen, maps each destination
    /// row linearly to a source row across the clipped crop, skips
    /// transparent source pixels, and writes every other pixel opaquely,
    /// dimmed by `dimming`.
    pub fn draw_partial_image(
        &self,
        buffer: &mut Vec<u32>,
        image: &VerticalImage,
        image_x: usize,
        crop_y_start: Fx,
        crop_y_end: Fx,
        pos_y_start: Fx,
        pos_y_end: Fx,
        dimming: Fx,
    )
        requires
            self.wf(),
            old(buffer)@.len() == self.stride * self.height,
            image.wf(),
            image_x < image.width,
            0 <= crop_y_start.raw,
            crop_y_start.raw < crop_y_end.raw,
            crop_y_end.raw <= 65536,
            pos_y_start.raw < pos_y_end.raw,
            iabs(pos_y_start.raw as int) <= DEST_LIMIT,
            iabs(pos_y_end.raw as int) <= DEST_LIMIT,
            0 <= dimming.raw <= 65536,
        ensures
            final(buffer)@ == spec_draw_partial(
                old(buffer)@,
                *self,
                *image,
                image_x as int,
                crop_y_start,
                crop_y_end,
                pos_y_start,
                pos_y_end,
                dimming,
            ),
            final(buffer)@.len() == old(buffer)@.len(),
            agree_outside_column(final(buffer)@, old(buffer)@, self.x as int, self.stride as int),
    {
        let ghost buf0: Seq<u32> = buffer@;
        if (pos_y_start.raw < 0 && pos_y_end.raw < 0) || (pos_y_start.raw > 65536
            && pos_y_end.raw > 65536) {
            return ;
        }
        // Clip the bottom of the destination range against the screen top.
        let mut cs1: Fx = crop_y_start;
        let mut ps1: Fx = pos_y_start;
        if pos_y_start.raw < 0 {
            let span: Fx = pos_y_end.sub(pos_y_start);
            proof {
                lemma_frac_le_one((-pos_y_start.raw) as int, span.raw as int);
            }
            let frac: Fx = pos_y_start.neg().div(span);
            proof {
                lemma_scale_le(frac.raw as int, (crop_y_end.raw - crop_y_start.raw) as int);
            }
            cs1 = crop_y_start.add(frac.mul(crop_y_end.sub(crop_y_start)));
            ps1 = Fx { raw: 0 };
        }
        // Clip the top of the destination range against the screen bottom.
        let mut ce1: Fx = crop_y_end;
        let mut pe1: Fx = pos_y_end;
        if pos_y_end.raw > 65536 {
            let span: Fx = pos_y_end.sub(ps1);
            proof {
                lemma_frac_le_one((pos_y_end.raw - 65536) as int, span.raw as int);
            }
            let frac: Fx = pos_y_end.sub(Fx { raw: 65536 }).div(span);
            proof {
                lemma_scale_le(frac.raw as int, (crop_y_end.raw - cs1.raw) as int);
            }
            ce1 = crop_y_end.sub(frac.mul(crop_y_end.sub(cs1)));
            pe1 = Fx { raw: 65536 };
        }
        proof {
            assert((cs1, ce1, ps1, pe1) == spec_clip(
                crop_y_start,
                crop_y_end,
                pos_y_start,
                pos_y_end,
            ));
        }
        if ce1.raw <= cs1.raw {
            return ;
        }
        proof {
            assert(0 <= cs1.raw <= 65536);
            assert(0 <= ce1.raw <= 65536);
            assert(0 <= ps1.raw <= 65536 && ps1.raw <= pe1.raw <= 65536);
        }
        let ih: Fx = Fx::from_int(image.height() as i32);
        let h: Fx = Fx::from_int(self.height as i32);
        proof {
            lemma_mul_ok(cs1.raw, ih.raw, 0x1_0000, 0x8000_0000);
            lemma_mul_ok(ce1.raw, ih.raw, 0x1_0000, 0x8000_0000);
        }
        let start_fx: Fx = cs1.mul(ih);
        let goal_fx: Fx = ce1.mul(ih);
        proof {
            lemma_mul_ok((ce1.raw - cs1.raw) as i64, ih.raw, 0x2_0000, 0x8000_0000);
            lemma_mul_ok((pe1.raw - ps1.raw) as i64, h.raw, 0x2_0000, 0x8000_0000);
        }
        let den_fx: Fx = ce1.sub(cs1).mul(ih);
        let num_fx: Fx = pe1.sub(ps1).mul(h);
        proof {
            assert(start_fx.raw == cs1.raw * (image.height as int)) by (nonlinear_arith)
                requires
                    start_fx.raw == (cs1.raw * ((image.height as i32) as i64 * 65536)) / 65536int,
                    image.height <= 0x8000,
            ;
            assert(goal_fx.raw == ce1.raw * (image.height as int)) by (nonlinear_arith)
                requires
                    goal_fx.raw == (ce1.raw * ((image.height as i32) as i64 * 65536)) / 65536int,
                    image.height <= 0x8000,
            ;
            assert(den_fx.raw == (ce1.raw - cs1.raw) * (image.height as int)) by (nonlinear_arith)
                requires
                    den_fx.raw == ((ce1.raw - cs1.raw) * ((image.height as i32) as i64 * 65536))
                        / 65536int,
                    image.height <= 0x8000,
            ;
            assert(num_fx.raw == (pe1.raw - ps1.raw) * (self.height as int)) by (nonlinear_arith)
                requires
                    num_fx.raw == ((pe1.raw - ps1.raw) * ((self.height as i32) as i64 * 65536))
                        / 65536int,
                    self.height <= 0x8000,
            ;
            assert(den_fx.raw >= 1) by (nonlinear_arith)
                requires
                    den_fx.raw == (ce1.raw - cs1.raw) * (image.height as int),
                    ce1.raw - cs1.raw >= 1,
                    image.height >= 1,
            ;
            assert(num_fx.raw >= 0) by (nonlinear_arith)
                requires
                    num_fx.raw == (pe1.raw - ps1.raw) * (self.height as int),
                    pe1.raw - ps1.raw >= 0,
                    self.height >= 1,
            ;
            assert(num_fx.raw <= 0x4000_0000_0000) by (nonlinear_arith)
                requires
                    num_fx.raw == (pe1.raw - ps1.raw) * (self.height as int),
                    0 <= pe1.raw - ps1.raw <= 0x1_0000,
                    0 <= self.height <= 0x8000,
            ;
            assert(den_fx.raw <= 0x4000_0000_0000) by (nonlinear_arith)
                requires
                    den_fx.raw == (ce1.raw - cs1.raw) * (image.height as int),
                    0 <= ce1.raw - cs1.raw <= 0x1_0000,
                    0 <= image.height <= 0x8000,
            ;
            assert(0 <= start_fx.raw && goal_fx.raw <= 0x8000_0000) by (nonlinear_arith)
                requires
                    start_fx.raw == cs1.raw * (image.height as int),
                    goal_fx.raw == ce1.raw * (image.height as int),
                    0 <= cs1.raw,
                    ce1.raw <= 0x1_0000,
                    1 <= image.height <= 0x8000,
            ;
            assert(goal_fx.raw - start_fx.raw == den_fx.raw) by (nonlinear_arith)
                requires
                    start_fx.raw == cs1.raw * (image.height as int),
                    goal_fx.raw == ce1.raw * (image.height as int),
                    den_fx.raw == (ce1.raw - cs1.raw) * (image.height as int),
            ;
            lemma_div_shrinks(num_fx.raw * 65536, den_fx.raw as int);
        }
        let d_fx: Fx = num_fx.div(den_fx);
        proof {
            lemma_mul_ok(ps1.raw, h.raw, 0x1_0000, 0x8000_0000);
        }
        let pys_h: Fx = ps1.mul(h);
        proof {
            assert(pys_h.raw == ps1.raw * (self.height as int)) by (nonlinear_arith)
                requires
                    pys_h.raw == (ps1.raw * ((self.height as i32) as i64 * 65536)) / 65536int,
                    self.height <= 0x8000,
            ;
        }
        proof {
            assert(0 <= pys_h.raw <= 0x4000_0000_0000) by (nonlinear_arith)
                requires
                    pys_h.raw == ps1.raw * (self.height as int),
                    0 <= ps1.raw <= 0x1_0000,
                    1 <= self.height <= 0x8000,
            ;
        }
        let mut iter: FxRange = range(start_fx, goal_fx);
        let first: Option<Fx> = iter.next();
        let mut from: Fx = match first {
            Some(v) => v,
            None => {
                proof {
                    assert(false);
                }
                Fx { raw: 0 }
            },
        };
        let ghost target: Seq<u32> = spec_draw_from(
            buf0,
            *self,
            *image,
            image_x as int,
            dimming,
            d_fx.raw as int,
            pys_h.raw as int,
            start_fx.raw as int,
            from,
            iter,
        );
        proof {
            assert(target == spec_draw_partial(
                buf0,
                *self,
                *image,
                image_x as int,
                crop_y_start,
                crop_y_end,
                pos_y_start,
                pos_y_end,
                dimming,
            ));
        }
        let mut cont: bool = true;
        while cont
            invariant
                self.wf(),
                image.wf(),
                image_x < image.width,
                0 <= dimming.raw <= 65536,
                iter.wf(),
                buffer@.len() == buf0.len(),
                buf0.len() == self.stride * self.height,
                iter.goal == goal_fx,
                0 <= start_fx.raw,
                start_fx.raw <= from.raw <= goal_fx.raw,
                from.raw <= iter.current.raw,
                goal_fx.raw - start_fx.raw == den_fx.raw,
                den_fx.raw >= 1,
                0 <= num_fx.raw <= 0x4000_0000_0000,
                d_fx.raw == (num_fx.raw * 65536) / (den_fx.raw as int),
                0 <= pys_h.raw <= 0x4000_0000_0000,
                goal_fx.raw <= 0x8000_0000,
                cont ==> spec_draw_from(
                    buffer@,
                    *self,
                    *image,
                    image_x as int,
                    dimming,
                    d_fx.raw as int,
                    pys_h.raw as int,
                    start_fx.raw as int,
                    from,
                    iter,
                ) == target,
                !cont ==> buffer@ == target,
                agree_outside_column(buffer@, buf0, self.x as int, self.stride as int),
            decreases iter.measure() * 2 + (if cont {
                1int
            } else {
                0int
            }),
        {
            let ghost pre_iter: FxRange = iter;
            let ghost pre_buf: Seq<u32> = buffer@;
            let n: Option<Fx> = iter.next();
            match n {
                None => {
                    proof {
                        lemma_measure_nonneg(iter);
                        assert(pre_iter.measure() == 0);
                        assert(spec_draw_from(
                            buffer@,
                            *self,
                            *image,
                            image_x as int,
                            dimming,
                            d_fx.raw as int,
                            pys_h.raw as int,
                            start_fx.raw as int,
                            from,
                            pre_iter,
                        ) == buffer@);
                    }
                    cont = false;
                },
                Some(to) => {
                    proof {
                        lemma_dest_offset_bound(
                            d_fx.raw as int,
                            from.raw - start_fx.raw,
                            den_fx.raw as int,
                            num_fx.raw as int,
                        );
                        lemma_dest_offset_bound(
                            d_fx.raw as int,
                            to.raw - start_fx.raw,
                            den_fx.raw as int,
                            num_fx.raw as int,
                        );
                    }
                    let dy_from: Fx = pys_h.add(d_fx.mul(from.sub(start_fx)));
                    let dy_to: Fx = pys_h.add(d_fx.mul(to.sub(start_fx)));
                    let sr_floor: i64 = from.floor_int();
                    let ihm1: i64 = (image.height() as i64) - 1;
                    let sr: i64 = if sr_floor < ihm1 {
                        sr_floor
                    } else {
                        ihm1
                    };
                    let px: Option<[u8; 3]> = image.pixel(image_x, sr as usize);
                    match px {
                        None => {
                            proof {
                                assert(spec_segment(
                                    pre_buf,
                                    *self,
                                    *image,
                                    image_x as int,
                                    dimming,
                                    d_fx.raw as int,
                                    pys_h.raw as int,
                                    start_fx.raw as int,
                                    from,
                                    to,
                                ) == pre_buf);
                            }
                        },
                        Some(c) => {
                            let dimmed: (u8, u8, u8, u8) = dim_color(
                                (c[0], c[1], c[2], 255),
                                dimming,
                            );
                            let color: u32 = (dimmed.0 as u32) * 65536 + (dimmed.1 as u32) * 256
                                + (dimmed.2 as u32);
                            let lo_i: i64 = dy_from.floor_int();
                            let hi_i: i64 = dy_to.floor_int();
                            let hm1: i64 = (self.height as i64) - 1;
                            let hi_c: i64 = if hi_i < hm1 {
                                hi_i
                            } else {
                                hm1
                            };
                            let lo: usize = if lo_i > 0x8000 {
                                0x8000
                            } else {
                                lo_i as usize
                            };
                            let hi: usize = hi_c as usize;
                            let ghost slo: int = spec_dest_y(
                                pys_h.raw as int,
                                d_fx.raw as int,
                                start_fx.raw as int,
                                from.raw as int,
                            ) / 65536int;
                            let ghost shi: int = ({
                                let hi0 = spec_dest_y(
                                    pys_h.raw as int,
                                    d_fx.raw as int,
                                    start_fx.raw as int,
                                    to.raw as int,
                                ) / 65536int;
                                if hi0 < self.height - 1 {
                                    hi0
                                } else {
                                    self.height - 1
                                }
                            });
                            write_rows(*self, buffer, lo, hi, color);
                            proof {
                                assert(hi == shi);
                                if lo != slo {
                                    // Both bounds lie at or beyond the last
                                    // row, so either way nothing is written.
                                    assert(slo > 0x8000 && lo == 0x8000);
                                    assert(buffer@ =~= spec_write_rows(
                                        pre_buf,
                                        self.x as int,
                                        self.stride as int,
                                        slo,
                                        shi,
                                        color,
                                    ));
                                }
                                assert(buffer@ == spec_segment(
                                    pre_buf,
                                    *self,
                                    *image,
                                    image_x as int,
                                    dimming,
                                    d_fx.raw as int,
                                    pys_h.raw as int,
                                    start_fx.raw as int,
                                    from,
                                    to,
                                ));
                            }
                        },
                    }
                    proof {
                        lemma_measure_nonneg(iter);
                        assert(pre_iter.measure() > 0);
                        assert(spec_draw_from(
                            pre_buf,
                            *self,
                            *image,
                            image_x as int,
                            dimming,
                            d_fx.raw as int,
                            pys_h.raw as int,
                            start_fx.raw as int,
                            from,
                            pre_iter,
                        ) == spec_draw_from(
                            buffer@,
                            *self,
                            *image,
                            image_x as int,
                            dimming,
                            d_fx.raw as int,
                            pys_h.raw as int,
                            start_fx.raw as int,
                            to,
                            iter,
                        ));
                    }
                    from = to;
                },
            }
        }
    }
}

/// The interpolation factor of one destination row across a textured
/// span: how far `row` sits between the span's clipped start and end.
pub open spec fn spec_uv_factor(pysh: int, size_h: int, row: int) -> int {
    ((row * 65536 - pysh) * 65536) / size_h
}

/// One texture coordinate interpolated across a span and wrapped into the
/// unit interval.
pub open spec fn spec_lerp_fract(s: int, e: int, factor: int) -> int {
    (s + ((e - s) * factor) / 65536int) % 65536int
}

/// The color one destination row of a textured span samples: both texture
/// coordinates interpolated, wrapped, and scaled to a bitmap pixel, which
/// is dimmed; `None` where the sample is transparent.
pub open spec fn spec_uv_color(
    image: VerticalImage,
    dim: Fx,
    uv_s: Vec2x,
    uv_e: Vec2x,
    factor: int,
) -> Option<u32> {
    let fx_ = spec_lerp_fract(uv_s.x.raw as int, uv_e.x.raw as int, factor);
    let fy_ = spec_lerp_fract(uv_s.y.raw as int, uv_e.y.raw as int, factor);
    let px = (fx_ * (image.width as int)) / 65536int;
    let py = (fy_ * (image.height as int)) / 65536int;
    match image.spec_pixel(px, py) {
        None => None,
        Some(c) => Some(
            (spec_pack_color(spec_dim_sq(c[0], dim), spec_dim_sq(c[1], dim), spec_dim_lin(c[2], dim))) as u32,
        ),
    }
}

/// The buffer with the rows `lo <= row < hi` of one column painted with
/// their interpolated texture samples; transparent samples and every
/// other pixel stay untouched.
pub open spec fn spec_draw_uv_rows(
    buf: Seq<u32>,
    col: ImageColumn,
    image: VerticalImage,
    dim: Fx,
    uv_s: Vec2x,
    uv_e: Vec2x,
    pysh: int,
    size_h: int,
    lo: int,
    hi: int,
) -> Seq<u32> {
    Seq::new(
        buf.len(),
        |k: int|
            if k % (col.stride as int) == col.x as int && lo <= k / (col.stride as int) < hi {
                match spec_uv_color(
                    image,
                    dim,
                    uv_s,
                    uv_e,
                    spec_uv_factor(pysh, size_h, k / (col.stride as int)),
                ) {
                    Some(c) => c,
                    None => buf[k],
                }
            } else {
                buf[k]
            },
    )
}

/// The texture span after clipping the destination range to the screen:
/// where the destination start lies below zero, the starting texture
/// coordinate advances toward the end by the fraction cut off, and
/// symmetrically at the top.
pub open spec fn spec_uv_clip(uv_s: Vec2x, uv_e: Vec2x, ps: Fx, pe: Fx) -> (
    Vec2x,
    Vec2x,
    Fx,
    Fx,
) {
    let uv_s1 = if ps.raw < 0 {
        let f = ((-ps.raw) * 65536) / (pe.raw - ps.raw);
        Vec2x {
            x: Fx { raw: (uv_s.x.raw + ((uv_e.x.raw - uv_s.x.raw) * f) / 65536int) as i64 },
            y: Fx { raw: (uv_s.y.raw + ((uv_e.y.raw - uv_s.y.raw) * f) / 65536int) as i64 },
        }
    } else {
        uv_s
    };
    let ps1 = if ps.raw < 0 {
        Fx { raw: 0 }
    } else {
        ps
    };
    let uv_e1 = if pe.raw > 65536 {
        let f = ((pe.raw - 65536) * 65536) / (pe.raw - ps1.raw);
        Vec2x {
            x: Fx { raw: (uv_e.x.raw + ((uv_s1.x.raw - uv_e.x.raw) * f) / 65536int) as i64 },
            y: Fx { raw: (uv_e.y.raw + ((uv_s1.y.raw - uv_e.y.raw) * f) / 65536int) as i64 },
        }
    } else {
        uv_e
    };
    let pe1 = if pe.raw > 65536 {
        Fx { raw: 65536 }
    } else {
        pe
    };
    (uv_s1, uv_e1, ps1, pe1)
}

/// The buffer after painting a whole textured span down one column:
/// nothing where the destination range lies below the screen; otherwise
/// every on-screen row samples the texture at its interpolated
/// coordinates.
pub open spec fn spec_draw_uv(
    buf: Seq<u32>,
    col: ImageColumn,
    image: VerticalImage,
    uv_s: Vec2x,
    uv_e: Vec2x,
    ps: Fx,
    pe: Fx,
    dim: Fx,
) -> Seq<u32> {
    if (ps.raw < 0 && pe.raw < 0) || ps.raw >= 65536 {
        buf
    } else {
        let (uv_s1, uv_e1, ps1, pe1) = spec_uv_clip(uv_s, uv_e, ps, pe);
        let h = col.height as int;
        let pysh = ps1.raw * h;
        let pyeh = pe1.raw * h;
        let lo = pysh / 65536int;
        let hi0 = pyeh / 65536int;
        let hi = if hi0 < h - 1 {
            hi0
        } else {
            h - 1
        };
        if lo >= hi {
            buf
        } else {
            spec_draw_uv_rows(buf, col, image, dim, uv_s1, uv_e1, pysh, pyeh - pysh, lo, hi)
        }
    }
}

/// A texture coordinate stepped toward another by a fraction of at most
/// one: the result stays between the two.
fn lerp_toward(a: Fx, b: Fx, t: Fx) -> (r: Fx)
    requires
        iabs(a.raw as int) <= 0x1000_0000_0000,
        iabs(b.raw as int) <= 0x1000_0000_0000,
        0 <= t.raw <= 65536,
    ensures
        r.raw == a.raw + ((b.raw - a.raw) * t.raw) / 65536int,
        a.raw <= b.raw ==> a.raw <= r.raw <= b.raw,
        b.raw <= a.raw ==> b.raw <= r.raw <= a.raw,
{
    proof {
        lemma_mul_ok((b.raw - a.raw) as i64, t.raw, 0x2000_0000_0000, 65536);
        assert(b.raw - a.raw >= 0 ==> 0 <= ((b.raw - a.raw) * t.raw) / 65536int <= b.raw - a.raw)
            by (nonlinear_arith)
            requires
                0 <= t.raw <= 65536,
        ;
        assert(b.raw - a.raw <= 0 ==> b.raw - a.raw <= ((b.raw - a.raw) * t.raw) / 65536int <= 0)
            by (nonlinear_arith)
            requires
                0 <= t.raw <= 65536,
        ;
    }
    a.add(b.sub(a).mul(t))
}

impl ImageColumn {
    /// Paints a textured span down the destination column: each on-screen
    /// row interpolates both texture coordinates across the span, wraps
    /// them into the bitmap, and writes the sampled pixel dimmed; rows
    /// whose sample is transparent stay untouched. Where the span starts
    /// below the screen or ends above it, the texture coordinates are
    /// clipped along with the destination range.
    pub fn draw_uv_row(
        &self,
        buffer: &mut Vec<u32>,
        image: &VerticalImage,
        uv_start: Vec2x,
        uv_end: Vec2x,
        pos_y_start: Fx,
        pos_y_end: Fx,
        dimming: Fx,
    )
        requires
            self.wf(),
            old(buffer)@.len() == self.stride * self.height,
            image.wf(),
            iabs(uv_start.x.raw as int) <= 0x1_0000_0000,
            iabs(uv_start.y.raw as int) <= 0x1_0000_0000,
            iabs(uv_end.x.raw as int) <= 0x1_0000_0000,
            iabs(uv_end.y.raw as int) <= 0x1_0000_0000,
            pos_y_start.raw < pos_y_end.raw,
            iabs(pos_y_start.raw as int) <= 0x100_0000_0000,
            iabs(pos_y_end.raw as int) <= 0x100_0000_0000,
            0 <= dimming.raw <= 65536,
        ensures
            final(buffer)@ == spec_draw_uv(
                old(buffer)@,
                *self,
                *image,
                uv_start,
                uv_end,
                pos_y_start,
                pos_y_end,
                dimming,
            ),
            final(buffer)@.len() == old(buffer)@.len(),
            agree_outside_column(final(buffer)@, old(buffer)@, self.x as int, self.stride as int),
    {
        let ghost buf0: Seq<u32> = buffer@;
        // A span that starts at or above the screen top covers no row, so
        // nothing would be drawn of it either way.
        if (pos_y_start.raw < 0 && pos_y_end.raw < 0) || pos_y_start.raw >= 65536 {
            return ;
        }
        let mut uv_s: Vec2x = uv_start;
        let mut ps1: Fx = pos_y_start;
        if pos_y_start.raw < 0 {
            let span: Fx = pos_y_end.sub(pos_y_start);
            proof {
                lemma_frac_le_one((-pos_y_start.raw) as int, span.raw as int);
            }
            let f: Fx = pos_y_start.neg().div(span);
            uv_s = Vec2x {
                x: lerp_toward(uv_start.x, uv_end.x, f),
                y: lerp_toward(uv_start.y, uv_end.y, f),
            };
            ps1 = Fx { raw: 0 };
        }
        let mut uv_e: Vec2x = uv_end;
        let mut pe1: Fx = pos_y_end;
        if pos_y_end.raw > 65536 {
            let span: Fx = pos_y_end.sub(ps1);
            proof {
                lemma_frac_le_one((pos_y_end.raw - 65536) as int, span.raw as int);
            }
            let f: Fx = pos_y_end.sub(Fx { raw: 65536 }).div(span);
            uv_e = Vec2x {
                x: lerp_toward(uv_end.x, uv_s.x, f),
                y: lerp_toward(uv_end.y, uv_s.y, f),
            };
            pe1 = Fx { raw: 65536 };
        }
        proof {
            assert((uv_s, uv_e, ps1, pe1) == spec_uv_clip(
                uv_start,
                uv_end,
                pos_y_start,
                pos_y_end,
            ));
            assert(0 <= ps1.raw <= 0x100_0000_0000);
            assert(0 <= pe1.raw <= 0x100_0000_0000);
            lemma_mul_ok(ps1.raw, (((self.height as i32) as i64) * 65536) as i64, 0x100_0000_0000, 0x8000_0000);
            lemma_mul_ok(pe1.raw, (((self.height as i32) as i64) * 65536) as i64, 0x100_0000_0000, 0x8000_0000);
        }
        let h: Fx = Fx::from_int(self.height as i32);
        let pysh: Fx = ps1.mul(h);
        let pyeh: Fx = pe1.mul(h);
        proof {
            assert(pysh.raw == ps1.raw * (self.height as int) && pyeh.raw == pe1.raw * (
            self.height as int) && 0 <= pysh.raw && pysh.raw <= 0x1000_0000_0000_0000 && 0
                <= pyeh.raw <= 0x1000_0000_0000_0000) by (nonlinear_arith)
                requires
                    pysh.raw == (ps1.raw * ((self.height as i32) as i64 * 65536)) / 65536int,
                    pyeh.raw == (pe1.raw * ((self.height as i32) as i64 * 65536)) / 65536int,
                    0 <= ps1.raw <= 0x100_0000_0000,
                    0 <= pe1.raw <= 0x100_0000_0000,
                    1 <= self.height <= 0x8000,
            ;
        }
        let lo_i: i64 = pysh.floor_int();
        let hi_raw: i64 = pyeh.floor_int();
        let hm1: i64 = (self.height as i64) - 1;
        let hi_i: i64 = if hi_raw < hm1 {
            hi_raw
        } else {
            hm1
        };
        if lo_i >= hi_i {
            return ;
        }
        let lo: usize = lo_i as usize;
        let hi: usize = hi_i as usize;
        let size_h: i64 = pyeh.raw - pysh.raw;
        proof {
            if pysh.raw >= pyeh.raw {
                vstd::arithmetic::div_mod::lemma_div_is_ordered(
                    pyeh.raw as int,
                    pysh.raw as int,
                    65536,
                );
                assert(false);
            }
            assert(size_h >= 1);
        }
        let mut row: usize = lo;
        while row < hi
            invariant
                self.wf(),
                image.wf(),
                0 <= dimming.raw <= 65536,
                iabs(uv_s.x.raw as int) <= 0x1_0000_0000,
                iabs(uv_s.y.raw as int) <= 0x1_0000_0000,
                iabs(uv_e.x.raw as int) <= 0x1_0000_0000,
                iabs(uv_e.y.raw as int) <= 0x1_0000_0000,
                lo <= row <= hi,
                hi < self.height,
                1 <= size_h,
                0 <= pysh.raw <= 0x1000_0000_0000_0000,
                size_h == pyeh.raw - pysh.raw,
                lo == pysh.raw as int / 65536int,
                hi <= pyeh.raw as int / 65536int,
                buffer@.len() == buf0.len(),
                buf0.len() == self.stride * self.height,
                buffer@ =~= spec_draw_uv_rows(
                    buf0,
                    *self,
                    *image,
                    dimming,
                    uv_s,
                    uv_e,
                    pysh.raw as int,
                    size_h as int,
                    lo as int,
                    row as int,
                ),
            decreases hi - row,
        {
            proof {
                vstd::arithmetic::div_mod::lemma_fundamental_div_mod(pysh.raw as int, 65536);
                vstd::arithmetic::div_mod::lemma_fundamental_div_mod(pyeh.raw as int, 65536);
                assert((row as int) * 65536 <= (pyeh.raw as int / 65536int) * 65536);
                assert((row as int) * 65536 - pysh.raw >= -65535);
                assert((row as int) * 65536 - pysh.raw <= size_h);
                lemma_uv_factor_range((row as int) * 65536 - pysh.raw as int, size_h as int);
            }
            let row_fx: Fx = Fx { raw: (row as i64) * 65536 };
            let factor: Fx = row_fx.sub(pysh).div(Fx { raw: size_h });
            proof {
                lemma_mul_ok(
                    (uv_e.x.raw - uv_s.x.raw) as i64,
                    factor.raw,
                    0x2_0000_0000,
                    0x1_0000_0000,
                );
                lemma_mul_ok(
                    (uv_e.y.raw - uv_s.y.raw) as i64,
                    factor.raw,
                    0x2_0000_0000,
                    0x1_0000_0000,
                );
            }
            let lx: Fx = uv_s.x.add(uv_e.x.sub(uv_s.x).mul(factor)).fract();
            let ly: Fx = uv_s.y.add(uv_e.y.sub(uv_s.y).mul(factor)).fract();
            proof {
                lemma_unit_scale_in_range(lx.raw as int, image.width as int);
                lemma_unit_scale_in_range(ly.raw as int, image.height as int);
                lemma_mul_ok(lx.raw, (image.width as i64), 65536, 0x8000);
                lemma_mul_ok(ly.raw, (image.height as i64), 65536, 0x8000);
            }
            let px: i64 = (lx.raw * (image.width() as i64)) / 65536;
            let py: i64 = (ly.raw * (image.height() as i64)) / 65536;
            let sample: Option<[u8; 3]> = image.pixel(px as usize, py as usize);
            let ghost pre: Seq<u32> = buffer@;
            match sample {
                None => {},
                Some(c) => {
                    let dimmed: (u8, u8, u8, u8) = dim_color((c[0], c[1], c[2], 255), dimming);
                    let color: u32 = (dimmed.0 as u32) * 65536 + (dimmed.1 as u32) * 256 + (
                    dimmed.2 as u32);
                    proof {
                        assert(row * self.stride + self.x < self.stride * self.height && row
                            * self.stride + self.x < 0x4000_0000) by (nonlinear_arith)
                            requires
                                row < self.height,
                                self.x < self.stride,
                                self.stride <= 0x8000,
                                self.height <= 0x8000,
                        ;
                    }
                    buffer.set(row * self.stride + self.x, color);
                },
            }
            proof {
                assert forall|k: int| 0 <= k < buffer@.len() implies buffer@[k]
                    == spec_draw_uv_rows(
                    buf0,
                    *self,
                    *image,
                    dimming,
                    uv_s,
                    uv_e,
                    pysh.raw as int,
                    size_h as int,
                    lo as int,
                    row + 1,
                )[k] by {
                    let idx = (row as int) * (self.stride as int) + self.x as int;
                    if k == idx {
                        vstd::arithmetic::div_mod::lemma_fundamental_div_mod_converse(
                            k,
                            self.stride as int,
                            row as int,
                            self.x as int,
                        );
                    } else {
                        if k % (self.stride as int) == self.x as int && k / (self.stride as int)
                            == row {
                            vstd::arithmetic::div_mod::lemma_fundamental_div_mod(
                                k,
                                self.stride as int,
                            );
                            vstd::arithmetic::mul::lemma_mul_is_commutative(
                                row as int,
                                self.stride as int,
                            );
                            assert(k == idx);
                        } else {
                            assert(buffer@[k] == pre[k]);
                        }
                    }
                }
                assert(buffer@ =~= spec_draw_uv_rows(
                    buf0,
                    *self,
                    *image,
                    dimming,
                    uv_s,
                    uv_e,
                    pysh.raw as int,
                    size_h as int,
                    lo as int,
                    row + 1,
                ));
            }
            row = row + 1;
        }
    }
}

/// The interpolation factor of an on-screen row stays within one step of
/// the unit interval.
proof fn lemma_uv_factor_range(num: int, size_h: int)
    by (nonlinear_arith)
    requires
        1 <= size_h,
        -65535 <= num <= size_h,
    ensures
        -(65535 * 65536) <= (num * 65536) / size_h <= 65536,
{
}

/// Scaling a wrapped texture coordinate by a bitmap dimension lands on a
/// valid pixel.
proof fn lemma_unit_scale_in_range(f: int, dim: int)
    by (nonlinear_arith)
    requires
        0 <= f < 65536,
        1 <= dim <= 0x8000,
    ensures
        0 <= (f * dim) / 65536int < dim,
{
}

/// The scale factor `d` applied to any crop offset in range stays small
/// enough for the destination coordinate to fit.
proof fn lemma_dest_offset_bound(d: int, dv: int, den: int, num: int)
    requires
        0 <= dv <= den,
        1 <= den,
        0 <= num,
        d == (num * 65536) / den,
    ensures
        0 <= (d * dv) / 65536int <= num + d,
{
    vstd::arithmetic::div_mod::lemma_fundamental_div_mod(num * 65536, den);
    assert(d * den <= num * 65536) by (nonlinear_arith)
        requires
            num * 65536 == d * den + (num * 65536) % den,
            0 <= (num * 65536) % den,
    ;
    assert(d >= 0) by (nonlinear_arith)
        requires
            d == (num * 65536) / den,
            num >= 0,
            den >= 1,
    ;
    assert(d * dv <= d * den) by (nonlinear_arith)
        requires
            0 <= dv <= den,
            d >= 0,
    ;
    assert(d * dv >= 0) by (nonlinear_arith)
        requires
            dv >= 0,
            d >= 0,
    ;
    assert((num + d) * 65536 == num * 65536 + d * 65536) by (nonlinear_arith);
    assert(d * dv <= (num + d) * 65536);
    vstd::arithmetic::div_mod::lemma_div_is_ordered(d * dv, (num + d) * 65536, 65536int);
    assert(((num + d) * 65536) / 65536int == num + d) by (nonlinear_arith)
        requires
            num + d >= 0,
    ;
    vstd::arithmetic::div_mod::lemma_div_pos_is_pos(d * dv, 65536int);
}

} // verus!
