//! The projector/rasterizer: perspective projection of rotated points into a
//! flat character grid with a nearest-wins depth buffer.
//!
//! Screen coordinates truncate toward zero; the single bounds check guards
//! the final linear index only, so a negative coordinate may still land in
//! range by the row arithmetic — deliberately kept from the design.

use vstd::prelude::*;
use vstd::pervasive::VecAdditionalExecFns;
use crate::fixed::{SCALE, mag, tdiv, fmul, fdiv, trunc_div, mul_fx, mul_fx_wide, div_fx};
use crate::fixed::{lemma_tdiv_mag, lemma_mag_mul};
use crate::quat::{Quat, Quatv, in_magv, qtransform, qsum_sq};

verus! {

/// Screen width in character cells.
pub const S_WIDTH: i64 = 100;

/// Screen height in character cells.
pub const S_HEIGHT: i64 = 50;

/// Number of cells in the flat screen and depth buffers.
pub const S_MAX: usize = 5000;

/// Perspective scale distance, 20.0 in fixed point.
pub const S_DIST: i64 = 20 * SCALE;

/// Distance from the camera to the object's centre, 80.0 in fixed point.
pub const OBJ_DIST: i64 = 80 * SCALE;

/// The background character the screen buffer is reset to.
pub const BG_CH: char = ' ';

/// Depth along the viewing axis after translation: the rotated point's `z`
/// plus the object distance.
#[verifier::opaque]
pub open spec fn proj_z(p: Quatv, t: Quatv) -> int {
    qtransform(p, t).k + OBJ_DIST
}

/// Inverse depth (larger is nearer), `1 / z'` in fixed point. Meaningful
/// only when `proj_z` is nonzero.
#[verifier::opaque]
pub open spec fn proj_ooz(p: Quatv, t: Quatv) -> int {
    fdiv(SCALE as int, proj_z(p, t))
}

/// Horizontal screen cell: the centre column plus the perspective term,
/// doubled to compensate for non-square character cells; the whole
/// coordinate is truncated toward zero to a cell.
#[verifier::opaque]
pub open spec fn proj_xp(p: Quatv, t: Quatv) -> int {
    tdiv(
        ((S_WIDTH as int) / 2) * (SCALE as int) + fmul(
            fmul(S_DIST as int, proj_ooz(p, t)),
            qtransform(p, t).i,
        ) * 2,
        SCALE as int,
    )
}

/// Vertical screen cell: the centre row plus the perspective term; the
/// whole coordinate is truncated toward zero to a cell.
#[verifier::opaque]
pub open spec fn proj_yp(p: Quatv, t: Quatv) -> int {
    tdiv(
        ((S_HEIGHT as int) / 2) * (SCALE as int) + fmul(
            fmul(S_DIST as int, proj_ooz(p, t)),
            qtransform(p, t).j,
        ),
        SCALE as int,
    )
}

/// The linear cell index, row-major.
#[verifier::opaque]
pub open spec fn proj_lin(p: Quatv, t: Quatv) -> int {
    proj_yp(p, t) * (S_WIDTH as int) + proj_xp(p, t)
}

/// One depth-tested write: if the index is in range and the new inverse
/// depth is strictly nearer than the stored one, both buffers take the new
/// value; otherwise both are unchanged.
#[verifier::opaque]
pub open spec fn plot(screen: Seq<char>, depth: Seq<i64>, lin: int, ooz: i64, ch: char) -> (Seq<
    char,
>, Seq<i64>) {
    if 0 <= lin < depth.len() && ooz > depth[lin] {
        (screen.update(lin, ch), depth.update(lin, ooz))
    } else {
        (screen, depth)
    }
}

/// The buffer pair after projecting one source point through `t` and
/// depth-testing it: the plot at its projected cell, unless the translated
/// depth is exactly zero, which discards the point (the fixed-point format
/// has no infinity to carry the original division by zero through).
pub open spec fn plot_point(
    sd: (Seq<char>, Seq<i64>),
    p: Quatv,
    t: Quatv,
    ch: char,
) -> (Seq<char>, Seq<i64>) {
    if proj_z(p, t) != 0 {
        plot(sd.0, sd.1, proj_lin(p, t), proj_ooz(p, t) as i64, ch)
    } else {
        sd
    }
}

/// The buffer pair after one grid coordinate's six face points, plotted in
/// order with their face tags.
pub open spec fn plot_cell(
    sd: (Seq<char>, Seq<i64>),
    t: Quatv,
    x: int,
    y: int,
) -> (Seq<char>, Seq<i64>) {
    let xs = x * (SCALE as int);
    let ys = y * (SCALE as int);
    let ws = 15 * (SCALE as int);
    plot_point(
        plot_point(
            plot_point(
                plot_point(
                    plot_point(
                        plot_point(sd, Quatv { w: 0, i: xs, j: ys, k: -ws }, t, '@'),
                        Quatv { w: 0, i: ws, j: xs, k: ys },
                        t,
                        '+',
                    ),
                    Quatv { w: 0, i: -ws, j: ys, k: -xs },
                    t,
                    '~',
                ),
                Quatv { w: 0, i: -xs, j: ys, k: ws },
                t,
                ';',
            ),
            Quatv { w: 0, i: xs, j: -ws, k: ys },
            t,
            '$',
        ),
        Quatv { w: 0, i: xs, j: ws, k: ys },
        t,
        '%',
    )
}

/// The buffer pair after the cells of row `x` from column `y` to the end.
pub open spec fn plot_row(
    sd: (Seq<char>, Seq<i64>),
    t: Quatv,
    x: int,
    y: int,
) -> (Seq<char>, Seq<i64>)
    decreases 15 - y,
{
    if y >= 15 {
        sd
    } else {
        plot_row(plot_cell(sd, t, x, y), t, x, y + 1)
    }
}

/// The buffer pair after the rows from `x` to the end: the whole frame when
/// started at -15.
pub open spec fn plot_grid(sd: (Seq<char>, Seq<i64>), t: Quatv, x: int) -> (Seq<char>, Seq<i64>)
    decreases 15 - x,
{
    if x >= 15 {
        sd
    } else {
        plot_grid(plot_row(sd, t, x, -15), t, x + 1)
    }
}

/// Projects one source point through the current orientation and plots it,
/// nearest point winning. A point whose translated depth is exactly zero is
/// discarded: the fixed-point format has no infinity to carry the original
/// division-by-zero through, so the one unrepresentable depth is skipped.
pub fn fill_buf(point: Quat, transform: &Quat, buffer: &mut Vec<char>, z_buffer: &mut Vec<i64>, ch: char)
    requires
        old(buffer)@.len() == S_MAX,
        old(z_buffer)@.len() == S_MAX,
        in_magv(point@, 0x20_0000),
        in_magv(transform@, 0x2_0000),
        qsum_sq(transform@) >= 0x4000,
    ensures
        final(buffer)@.len() == S_MAX,
        final(z_buffer)@.len() == S_MAX,
        (final(buffer)@, final(z_buffer)@) == plot_point(
            (old(buffer)@, old(z_buffer)@),
            point@,
            transform@,
            ch,
        ),
        proj_z(point@, transform@) != 0 ==> mag(proj_ooz(point@, transform@)) <= 0x1_0000_0000,
        forall|n: int| 0 <= n < S_MAX ==> final(z_buffer)@[n] >= old(z_buffer)@[n],
{
    proof {
        reveal(proj_z);
        reveal(proj_ooz);
        reveal(proj_xp);
        reveal(proj_yp);
        reveal(proj_lin);
        reveal(plot);
    }
    let rotated = point.tranform(*transform);
    let p = rotated.point();

    let z = p.z + OBJ_DIST;
    if z == 0 {
        return ;
    }
    let ooz = div_fx(SCALE, z);
    proof {
        vstd::arithmetic::div_mod::lemma_div_nonincreasing(0x1_0000_0000, mag(z as int));
        assert(mag(ooz as int) <= 0x1_0000_0000);
        bound_fx(S_DIST as int, ooz as int, 0x14_0000, 0x1_0000_0000);
    }
    let t1 = mul_fx(S_DIST, ooz);
    proof {
        bound_wide(t1 as int, p.x as int, 0x14_0000_0000, 0x2000_0000);
        bound_wide(t1 as int, p.y as int, 0x14_0000_0000, 0x2000_0000);
    }
    let tx = mul_fx_wide(t1, p.x);
    let ty = mul_fx_wide(t1, p.y);

    let xp = trunc_div(S_WIDTH / 2 * SCALE + tx * 2, SCALE);
    let yp = trunc_div(S_HEIGHT / 2 * SCALE + ty, SCALE);

    let lin = yp * S_WIDTH + xp;
    if 0 <= lin && lin < S_MAX as i64 {
        let idx = lin as usize;
        if ooz > z_buffer[idx] {
            z_buffer.set(idx, ooz);
            buffer.set(idx, ch);
        }
    }
}

/// Bounded factors give a fixed-point product whose intermediate fits and
/// whose magnitude is the scaled product of the bounds.
proof fn bound_fx(a: int, b: int, ma: int, mb: int)
    requires
        0 <= ma,
        0 <= mb,
        mag(a) <= ma,
        mag(b) <= mb,
        ma * mb <= 0x4000_0000_0000_0000,
    ensures
        mag(a * b) <= ma * mb,
        mag(fmul(a, b)) <= ma * mb / (SCALE as int),
{
    lemma_mag_mul(a, b);
    assert(mag(a) * mag(b) <= ma * mb) by (nonlinear_arith)
        requires
            0 <= mag(a) <= ma,
            0 <= mag(b) <= mb;
    lemma_tdiv_mag(a * b, SCALE as int, ma * mb);
}

/// Bounded factors give a bounded unscaled and scaled product, through the
/// widened multiplication's range.
proof fn bound_wide(a: int, b: int, ma: int, mb: int)
    requires
        0 <= ma,
        0 <= mb,
        mag(a) <= ma,
        mag(b) <= mb,
        ma * mb <= 0x7FFF_FFFF_FFFF_FFFF * (SCALE as int),
    ensures
        mag(a * b) <= ma * mb,
        mag(fmul(a, b)) <= ma * mb / (SCALE as int),
{
    lemma_mag_mul(a, b);
    assert(mag(a) * mag(b) <= ma * mb) by (nonlinear_arith)
        requires
            0 <= mag(a) <= ma,
            0 <= mag(b) <= mb;
    lemma_tdiv_mag(a * b, SCALE as int, ma * mb);
}

/// Resets the pair of frame buffers: every screen cell to the background
/// character, every depth cell to zero, both at full size.
pub fn reset_buffers(buffer: &mut Vec<char>, z_buffer: &mut Vec<i64>)
    ensures
        final(buffer)@.len() == S_MAX,
        final(z_buffer)@.len() == S_MAX,
        forall|n: int| 0 <= n < S_MAX ==> final(buffer)@[n] == BG_CH,
        forall|n: int| 0 <= n < S_MAX ==> final(z_buffer)@[n] == 0i64,
{
    buffer.clear();
    z_buffer.clear();
    let mut n: usize = 0;
    while n < S_MAX
        invariant
            n <= S_MAX,
            buffer@.len() == n,
            z_buffer@.len() == n,
            forall|m: int| 0 <= m < n ==> buffer@[m] == BG_CH,
            forall|m: int| 0 <= m < n ==> z_buffer@[m] == 0i64,
        decreases S_MAX - n,
    {
        buffer.push(BG_CH);
        z_buffer.push(0);
        n = n + 1;
    }
}

/// Rasterizes one frame of the fixed shape: for every grid coordinate of
/// the square of half-width 15, the six face points, each rotated by the
/// current orientation and plotted with its face's tag — the buffers end
/// exactly as the spec-level fold of those plots, in loop order. Plotting
/// only moves depths nearer, never farther.
#[verifier::rlimit(60)]
pub fn render_frame(transform: &Quat, buffer: &mut Vec<char>, z_buffer: &mut Vec<i64>)
    requires
        old(buffer)@.len() == S_MAX,
        old(z_buffer)@.len() == S_MAX,
        in_magv(transform@, 0x2_0000),
        qsum_sq(transform@) >= 0x4000,
    ensures
        final(buffer)@.len() == S_MAX,
        final(z_buffer)@.len() == S_MAX,
        (final(buffer)@, final(z_buffer)@) == plot_grid(
            (old(buffer)@, old(z_buffer)@),
            transform@,
            -15,
        ),
        forall|n: int| 0 <= n < S_MAX ==> final(z_buffer)@[n] >= old(z_buffer)@[n],
{
    let ghost init = (old(buffer)@, old(z_buffer)@);
    let mut x: i64 = -15;
    while x < 15
        invariant
            -15 <= x <= 15,
            buffer@.len() == S_MAX,
            z_buffer@.len() == S_MAX,
            in_magv(transform@, 0x2_0000),
            qsum_sq(transform@) >= 0x4000,
            init == (old(buffer)@, old(z_buffer)@),
            plot_grid(init, transform@, -15) == plot_grid(
                (buffer@, z_buffer@),
                transform@,
                x as int,
            ),
            forall|n: int| 0 <= n < S_MAX ==> z_buffer@[n] >= old(z_buffer)@[n],
        decreases 15 - x,
    {
        let ghost row0 = (buffer@, z_buffer@);
        let mut y: i64 = -15;
        while y < 15
            invariant
                -15 <= x < 15,
                -15 <= y <= 15,
                buffer@.len() == S_MAX,
                z_buffer@.len() == S_MAX,
                in_magv(transform@, 0x2_0000),
                qsum_sq(transform@) >= 0x4000,
                row0.1.len() == S_MAX,
                plot_row(row0, transform@, x as int, -15) == plot_row(
                    (buffer@, z_buffer@),
                    transform@,
                    x as int,
                    y as int,
                ),
                forall|n: int| 0 <= n < S_MAX ==> row0.1[n] >= old(z_buffer)@[n],
                forall|n: int| 0 <= n < S_MAX ==> z_buffer@[n] >= row0.1[n],
            decreases 15 - y,
        {
            let ghost cell0 = (buffer@, z_buffer@);
            let xs = x * SCALE;
            let ys = y * SCALE;
            let ws = 15 * SCALE;
            let s0 = Quat::new(0, xs, ys, -ws);
            let s1 = Quat::new(0, ws, xs, ys);
            let s2 = Quat::new(0, -ws, ys, -xs);
            let s3 = Quat::new(0, -xs, ys, ws);
            let s4 = Quat::new(0, xs, -ws, ys);
            let s5 = Quat::new(0, xs, ws, ys);
            fill_buf(s0, transform, buffer, z_buffer, '@');
            fill_buf(s1, transform, buffer, z_buffer, '+');
            fill_buf(s2, transform, buffer, z_buffer, '~');
            fill_buf(s3, transform, buffer, z_buffer, ';');
            fill_buf(s4, transform, buffer, z_buffer, '$');
            fill_buf(s5, transform, buffer, z_buffer, '%');
            proof {
                assert((buffer@, z_buffer@) == plot_cell(
                    cell0,
                    transform@,
                    x as int,
                    y as int,
                ));
                assert(plot_row(cell0, transform@, x as int, y as int) == plot_row(
                    plot_cell(cell0, transform@, x as int, y as int),
                    transform@,
                    x as int,
                    y as int + 1,
                ));
            }
            y = y + 1;
        }
        proof {
            assert(plot_row((buffer@, z_buffer@), transform@, x as int, 15) == (
                buffer@,
                z_buffer@,
            ));
            assert(plot_grid(row0, transform@, x as int) == plot_grid(
                plot_row(row0, transform@, x as int, -15),
                transform@,
                x as int + 1,
            ));
        }
        x = x + 1;
    }
    proof {
        assert(plot_grid((buffer@, z_buffer@), transform@, 15) == (buffer@, z_buffer@));
    }
}

} // verus!
