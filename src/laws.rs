use vstd::prelude::*;
use vstd::arithmetic::div_mod::lemma_fundamental_div_mod;
use crate::estimate::field_matches;
use crate::field::FieldModel;
use crate::matching::{
    displacement_cost, in_window, is_first_best, lemma_block_cost_bounds,
    lemma_first_best_is_motion_vector, motion_vector, position_cost, row_cost, rows_cost,
    scan_before, Setup,
};

verus! {

/// Determinism: two fields that both hold the motion vectors of the same frames,
/// block size and search radius are identical, byte for byte.
pub proof fn lemma_estimate_deterministic(s: Setup, p: int, f1: FieldModel, f2: FieldModel)
    requires
        field_matches(f1, s, p),
        field_matches(f2, s, p),
    ensures
        f1 == f2,
{
    let w = f1.width as int;
    let h = f1.height as int;
    assert forall|k: int| 0 <= k < f1.bytes.len() implies f1.bytes[k] == f2.bytes[k] by {
        lemma_fundamental_div_mod(k, 3);
        let i = k / 3;
        let c = k % 3;
        assert(0 <= i < w * h) by (nonlinear_arith)
            requires
                k == 3 * i + c,
                0 <= c < 3,
                0 <= k < w * h * 3,
        ;
        assert(w > 0) by (nonlinear_arith)
            requires
                0 <= i < w * h,
                h >= 0,
        ;
        lemma_fundamental_div_mod(i, w);
        let bx = i % w;
        let by = i / w;
        assert(0 <= by < h) by (nonlinear_arith)
            requires
                i == w * by + bx,
                0 <= bx < w,
                0 <= i < w * h,
        ;
        assert(f1.cell(bx, by) == f2.cell(bx, by));
        assert(k == (by * w + bx) * 3 + c) by (nonlinear_arith)
            requires
                k == 3 * i + c,
                i == w * by + bx,
        ;
    }
    assert(f1.bytes =~= f2.bytes);
}

proof fn lemma_identical_row_cost(s: Setup, xo: int, yo: int, y: int, n: nat)
    requires
        s.prev == s.curr,
        s.prev.well_formed(),
        0 <= xo,
        0 <= y,
        0 <= yo + y < s.curr.height - 1,
        xo + n < s.curr.width,
    ensures
        row_cost(s, xo, yo, xo, yo, y, n) == 0,
    decreases n,
{
    if n > 0 {
        lemma_identical_row_cost(s, xo, yo, y, (n - 1) as nat);
        assert(position_cost(s, xo, yo, xo, yo, n - 1, y) == 0);
    }
}

proof fn lemma_identical_rows_cost(s: Setup, xo: int, yo: int, m: nat)
    requires
        s.prev == s.curr,
        s.prev.well_formed(),
        0 <= xo,
        0 <= yo,
        yo + m < s.curr.height,
        xo + s.block < s.curr.width,
    ensures
        rows_cost(s, xo, yo, xo, yo, m) == 0,
    decreases m,
{
    if m > 0 {
        lemma_identical_rows_cost(s, xo, yo, (m - 1) as nat);
        lemma_identical_row_cost(s, xo, yo, m - 1, s.block);
    }
}

/// Zero motion: when both frames are identical, a block clear of the frame's
/// last row and last column matches itself at no cost, so its motion vector is
/// `(0, 0)` as soon as the radius is positive and every displacement tried
/// before `(0, 0)` costs something.
pub proof fn lemma_zero_motion(s: Setup, xo: int, yo: int, p: int)
    requires
        s.prev == s.curr,
        s.prev.well_formed(),
        p >= 1,
        0 <= xo,
        0 <= yo,
        xo + s.block < s.curr.width,
        yo + s.block < s.curr.height,
        forall|ex: int, ey: int|
            #![trigger displacement_cost(s, xo, yo, ex, ey)]
            in_window(p, ex, ey) && scan_before(ex, ey, 0, 0) ==> displacement_cost(s, xo, yo, ex, ey)
                > 0,
    ensures
        motion_vector(s, xo, yo, p) == (0int, 0int),
{
    lemma_identical_rows_cost(s, xo, yo, s.block);
    assert(displacement_cost(s, xo, yo, 0, 0) == 0);
    assert forall|ex: int, ey: int|
        #![trigger displacement_cost(s, xo, yo, ex, ey)]
        in_window(p, ex, ey) implies displacement_cost(s, xo, yo, 0, 0) <= displacement_cost(
            s,
            xo,
            yo,
            ex,
            ey,
        ) by {
        lemma_block_cost_bounds(s, xo, yo, xo + ex, yo + ey);
    }
    assert(is_first_best(s, xo, yo, p, 0, 0));
    lemma_first_best_is_motion_vector(s, xo, yo, p, 0, 0);
}

/// Scan-order tie-break: of two displacements of equal, least cost, the one
/// tried first is the motion vector, provided every displacement tried before
/// it costs more; the later one never is.
pub proof fn lemma_scan_order_tie_break(
    s: Setup,
    xo: int,
    yo: int,
    p: int,
    ax: int,
    ay: int,
    bx: int,
    by: int,
)
    requires
        in_window(p, ax, ay),
        in_window(p, bx, by),
        scan_before(ax, ay, bx, by),
        displacement_cost(s, xo, yo, ax, ay) == displacement_cost(s, xo, yo, bx, by),
        forall|ex: int, ey: int|
            #![trigger displacement_cost(s, xo, yo, ex, ey)]
            in_window(p, ex, ey) ==> displacement_cost(s, xo, yo, ax, ay) <= displacement_cost(
                s,
                xo,
                yo,
                ex,
                ey,
            ),
        forall|ex: int, ey: int|
            #![trigger displacement_cost(s, xo, yo, ex, ey)]
            in_window(p, ex, ey) && scan_before(ex, ey, ax, ay) ==> displacement_cost(s, xo, yo, ax, ay)
                < displacement_cost(s, xo, yo, ex, ey),
    ensures
        motion_vector(s, xo, yo, p) == (ax, ay),
        motion_vector(s, xo, yo, p) != (bx, by),
{
    assert(is_first_best(s, xo, yo, p, ax, ay));
    lemma_first_best_is_motion_vector(s, xo, yo, p, ax, ay);
}

} // verus!
