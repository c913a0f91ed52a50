use vstd::prelude::*;
use crate::frame::{Frame, FrameModel};

verus! {

/// Largest accepted block side: a block's cost must fit in a `u32`.
pub const MAX_BLOCK_SIZE: u32 = 1024;

/// Largest accepted search radius: every displacement must fit in a signed byte.
pub const MAX_SEARCH_RADIUS: i32 = 128;

/// The fixed inputs of one motion search: the earlier frame, in which
/// candidates are taken, the later frame, from which reference blocks are
/// taken, and the block side.
pub ghost struct Setup {
    pub prev: FrameModel,
    pub curr: FrameModel,
    pub block: nat,
}

pub open spec fn abs_diff(a: int, b: int) -> int {
    if a < b {
        b - a
    } else {
        a - b
    }
}

/// Channel `c` at position `(x, y)` of the reference block whose top-left corner
/// is `(xo, yo)`. The last row and the last column of the frame are never copied
/// into a reference block; the positions they would fill, like those past the
/// frame's edge, hold zero.
pub open spec fn reference_channel(s: Setup, xo: int, yo: int, x: int, y: int, c: int) -> int {
    if xo + x < s.curr.width - 1 && yo + y < s.curr.height - 1 {
        s.curr.channel(xo + x, yo + y, c) as int
    } else {
        0
    }
}

/// Channel `c` at position `(x, y)` of the candidate block whose top-left corner
/// is `(xp, yp)`; positions outside the frame hold zero.
pub open spec fn candidate_channel(s: Setup, xp: int, yp: int, x: int, y: int, c: int) -> int {
    if s.prev.contains(xp + x, yp + y) {
        s.prev.channel(xp + x, yp + y, c) as int
    } else {
        0
    }
}

/// Sum of the three channels' absolute differences at one position of the block.
pub open spec fn position_cost(
    s: Setup,
    xo: int,
    yo: int,
    xp: int,
    yp: int,
    x: int,
    y: int,
) -> int {
    abs_diff(reference_channel(s, xo, yo, x, y, 0), candidate_channel(s, xp, yp, x, y, 0))
        + abs_diff(reference_channel(s, xo, yo, x, y, 1), candidate_channel(s, xp, yp, x, y, 1))
        + abs_diff(reference_channel(s, xo, yo, x, y, 2), candidate_channel(s, xp, yp, x, y, 2))
}

/// Cost of the first `n` positions of row `y` of the block.
pub open spec fn row_cost(s: Setup, xo: int, yo: int, xp: int, yp: int, y: int, n: nat) -> int
    decreases n,
{
    if n == 0 {
        0
    } else {
        row_cost(s, xo, yo, xp, yp, y, (n - 1) as nat) + position_cost(s, xo, yo, xp, yp, n - 1, y)
    }
}

/// Cost of the first `m` rows of the block.
pub open spec fn rows_cost(s: Setup, xo: int, yo: int, xp: int, yp: int, m: nat) -> int
    decreases m,
{
    if m == 0 {
        0
    } else {
        rows_cost(s, xo, yo, xp, yp, (m - 1) as nat) + row_cost(s, xo, yo, xp, yp, m - 1, s.block)
    }
}

/// Sum of absolute differences between the reference block at `(xo, yo)` and the
/// candidate block at `(xp, yp)`, over every position of the block and every
/// channel.
pub open spec fn block_cost(s: Setup, xo: int, yo: int, xp: int, yp: int) -> int {
    rows_cost(s, xo, yo, xp, yp, s.block)
}

proof fn lemma_position_cost_bounds(s: Setup, xo: int, yo: int, xp: int, yp: int, x: int, y: int)
    ensures
        0 <= position_cost(s, xo, yo, xp, yp, x, y) <= 765,
{
}

proof fn lemma_row_cost_bounds(s: Setup, xo: int, yo: int, xp: int, yp: int, y: int, n: nat)
    ensures
        0 <= row_cost(s, xo, yo, xp, yp, y, n) <= 765 * n,
    decreases n,
{
    if n > 0 {
        lemma_row_cost_bounds(s, xo, yo, xp, yp, y, (n - 1) as nat);
        lemma_position_cost_bounds(s, xo, yo, xp, yp, n - 1, y);
    }
}

proof fn lemma_rows_cost_bounds(s: Setup, xo: int, yo: int, xp: int, yp: int, m: nat)
    ensures
        0 <= rows_cost(s, xo, yo, xp, yp, m) <= 765 * s.block * m,
    decreases m,
{
    if m > 0 {
        lemma_rows_cost_bounds(s, xo, yo, xp, yp, (m - 1) as nat);
        lemma_row_cost_bounds(s, xo, yo, xp, yp, m - 1, s.block);
        assert(765 * s.block * (m - 1) + 765 * s.block == 765 * s.block * m) by (nonlinear_arith);
    }
}

/// The cost of a block is at most the largest difference at every position.
pub proof fn lemma_block_cost_bounds(s: Setup, xo: int, yo: int, xp: int, yp: int)
    ensures
        0 <= block_cost(s, xo, yo, xp, yp) <= 765 * s.block * s.block,
{
    lemma_rows_cost_bounds(s, xo, yo, xp, yp, s.block);
}

/// The search setup that the frames and parameters describe.
pub open spec fn setup_of(prev: &Frame, curr: &Frame, block_size: u32) -> Setup {
    Setup { prev: prev@, curr: curr@, block: block_size as nat }
}

/// What the search needs of its inputs: well-formed frames of one size and an
/// accepted block size.
pub open spec fn search_ready(prev: &Frame, curr: &Frame, block_size: u32) -> bool {
    &&& prev.wf()
    &&& curr.wf()
    &&& prev@.width == curr@.width
    &&& prev@.height == curr@.height
    &&& 1 <= block_size <= MAX_BLOCK_SIZE
}

fn abs_diff_u8(a: u8, b: u8) -> (r: u32)
    ensures
        r == abs_diff(a as int, b as int),
{
    if a < b {
        (b - a) as u32
    } else {
        (a - b) as u32
    }
}

/// Cost of matching the reference block at `(xo, yo)` of `curr` against the
/// candidate block at `(xp, yp)` of `prev`.
pub fn tile_cost(
    prev: &Frame,
    curr: &Frame,
    block_size: u32,
    xo: u32,
    yo: u32,
    xp: i64,
    yp: i64,
) -> (r: u32)
    requires
        search_ready(prev, curr, block_size),
        xo < curr@.width,
        yo < curr@.height,
        -0x100_0000_0000 <= xp <= 0x100_0000_0000,
        -0x100_0000_0000 <= yp <= 0x100_0000_0000,
    ensures
        r == block_cost(setup_of(prev, curr, block_size), xo as int, yo as int, xp as int, yp as int),
        r <= 765 * block_size * block_size,
{
    let ghost s = setup_of(prev, curr, block_size);
    proof {
        prev.lemma_wf();
        curr.lemma_wf();
        lemma_block_cost_bounds(s, xo as int, yo as int, xp as int, yp as int);
        assert(765 * block_size * block_size <= 765 * 1024 * 1024) by (nonlinear_arith)
            requires
                block_size <= 1024,
        ;
    }
    let w: u32 = curr.width();
    let h: u32 = curr.height();
    let mut acc: u32 = 0;
    let mut y: u32 = 0;
    while y < block_size
        invariant
            y <= block_size,
            search_ready(prev, curr, block_size),
            s == setup_of(prev, curr, block_size),
            w == curr@.width,
            h == curr@.height,
            xo < w,
            yo < h,
            -0x100_0000_0000 <= xp <= 0x100_0000_0000,
            -0x100_0000_0000 <= yp <= 0x100_0000_0000,
            765 * block_size * block_size <= 765 * 1024 * 1024,
            acc == rows_cost(s, xo as int, yo as int, xp as int, yp as int, y as nat),
        decreases block_size - y,
    {
        proof {
            lemma_rows_cost_bounds(s, xo as int, yo as int, xp as int, yp as int, y as nat);
            assert(765 * block_size * y + 765 * block_size <= 765 * block_size * block_size)
                by (nonlinear_arith)
                requires
                    y < block_size,
            ;
        }
        let mut x: u32 = 0;
        let mut row: u32 = 0;
        while x < block_size
            invariant
                x <= block_size,
                y < block_size,
                search_ready(prev, curr, block_size),
                s == setup_of(prev, curr, block_size),
                w == curr@.width,
                h == curr@.height,
                xo < w,
                yo < h,
                -0x100_0000_0000 <= xp <= 0x100_0000_0000,
                -0x100_0000_0000 <= yp <= 0x100_0000_0000,
                row == row_cost(s, xo as int, yo as int, xp as int, yp as int, y as int, x as nat),
                row <= 765 * x,
            decreases block_size - x,
        {
            proof {
                lemma_position_cost_bounds(s, xo as int, yo as int, xp as int, yp as int, x as int, y as int);
            }
            let xr: u64 = xo as u64 + x as u64;
            let yr: u64 = yo as u64 + y as u64;
            let in_reference: bool = xr < w as u64 - 1 && yr < h as u64 - 1;
            let xf: i64 = xp + x as i64;
            let yf: i64 = yp + y as i64;
            let in_candidate: bool = 0 <= xf && xf < w as i64 && 0 <= yf && yf < h as i64;
            let mut c: usize = 0;
            while c < 3
                invariant
                    c <= 3,
                    x < block_size,
                    y < block_size,
                    search_ready(prev, curr, block_size),
                    s == setup_of(prev, curr, block_size),
                    w == curr@.width,
                    h == curr@.height,
                    in_reference == (xo + x < w - 1 && yo + y < h - 1),
                    xr == xo + x,
                    yr == yo + y,
                    xf == xp + x,
                    yf == yp + y,
                    in_candidate == prev@.contains(xp + x, yp + y),
                    row == row_cost(s, xo as int, yo as int, xp as int, yp as int, y as int, x as nat)
                        + (if c >= 1 {
                        abs_diff(
                            reference_channel(s, xo as int, yo as int, x as int, y as int, 0),
                            candidate_channel(s, xp as int, yp as int, x as int, y as int, 0),
                        )
                    } else {
                        0
                    }) + (if c >= 2 {
                        abs_diff(
                            reference_channel(s, xo as int, yo as int, x as int, y as int, 1),
                            candidate_channel(s, xp as int, yp as int, x as int, y as int, 1),
                        )
                    } else {
                        0
                    }) + (if c >= 3 {
                        abs_diff(
                            reference_channel(s, xo as int, yo as int, x as int, y as int, 2),
                            candidate_channel(s, xp as int, yp as int, x as int, y as int, 2),
                        )
                    } else {
                        0
                    }),
                    row <= 765 * x + 255 * c,
                decreases 3 - c,
            {
                let a: u8 = if in_reference {
                    curr.channel(xr as u32, yr as u32, c)
                } else {
                    0
                };
                let b: u8 = if in_candidate {
                    prev.channel(xf as u32, yf as u32, c)
                } else {
                    0
                };
                row = row + abs_diff_u8(a, b);
                c = c + 1;
            }
            x = x + 1;
        }
        acc = acc + row;
        y = y + 1;
    }
    acc
}

/// Whether `(dx, dy)` is among the displacements searched with radius `p`:
/// each coordinate in `[-p, p)`.
pub open spec fn in_window(p: int, dx: int, dy: int) -> bool {
    -p <= dx < p && -p <= dy < p
}

/// Whether displacement `(ax, ay)` is tried before `(bx, by)`: rows of
/// increasing `dy`, and within a row increasing `dx`.
pub open spec fn scan_before(ax: int, ay: int, bx: int, by: int) -> bool {
    ay < by || (ay == by && ax < bx)
}

/// Cost of displacing the block at `(xo, yo)` by `(dx, dy)`.
pub open spec fn displacement_cost(s: Setup, xo: int, yo: int, dx: int, dy: int) -> int {
    block_cost(s, xo, yo, xo + dx, yo + dy)
}

/// `(dx, dy)` has the least cost in the window, and every displacement tried
/// before it costs strictly more.
pub open spec fn is_first_best(s: Setup, xo: int, yo: int, p: int, dx: int, dy: int) -> bool {
    &&& in_window(p, dx, dy)
    &&& forall|ex: int, ey: int|
        #![trigger displacement_cost(s, xo, yo, ex, ey)]
        in_window(p, ex, ey) ==> {
            &&& displacement_cost(s, xo, yo, dx, dy) <= displacement_cost(s, xo, yo, ex, ey)
            &&& scan_before(ex, ey, dx, dy) ==> displacement_cost(s, xo, yo, dx, dy)
                < displacement_cost(s, xo, yo, ex, ey)
        }
}

/// The motion vector of the block at `(xo, yo)`: the first displacement of least
/// cost in scan order, or `(0, 0)` when the window is empty.
pub open spec fn motion_vector(s: Setup, xo: int, yo: int, p: int) -> (int, int) {
    if exists|v: (int, int)| is_first_best(s, xo, yo, p, v.0, v.1) {
        choose|v: (int, int)| is_first_best(s, xo, yo, p, v.0, v.1)
    } else {
        (0, 0)
    }
}

/// At most one displacement is the first of least cost.
pub proof fn lemma_first_best_unique(
    s: Setup,
    xo: int,
    yo: int,
    p: int,
    ax: int,
    ay: int,
    bx: int,
    by: int,
)
    requires
        is_first_best(s, xo, yo, p, ax, ay),
        is_first_best(s, xo, yo, p, bx, by),
    ensures
        ax == bx && ay == by,
{
    let ca = displacement_cost(s, xo, yo, ax, ay);
    let cb = displacement_cost(s, xo, yo, bx, by);
    assert(ca <= cb);
    assert(cb <= ca);
}

/// A displacement that is the first of least cost is the block's motion vector.
pub proof fn lemma_first_best_is_motion_vector(s: Setup, xo: int, yo: int, p: int, dx: int, dy: int)
    requires
        is_first_best(s, xo, yo, p, dx, dy),
    ensures
        motion_vector(s, xo, yo, p) == (dx, dy),
{
    let v = (dx, dy);
    assert(is_first_best(s, xo, yo, p, v.0, v.1));
    let w = choose|v: (int, int)| is_first_best(s, xo, yo, p, v.0, v.1);
    lemma_first_best_unique(s, xo, yo, p, dx, dy, w.0, w.1);
}

/// Searches the window of radius `p` around the block at `(xo, yo)` and returns
/// the first displacement of least cost, trying rows of increasing `dy` and
/// within a row increasing `dx`.
pub fn best_displacement(
    prev: &Frame,
    curr: &Frame,
    block_size: u32,
    xo: u32,
    yo: u32,
    p: i32,
) -> (r: (i32, i32))
    requires
        search_ready(prev, curr, block_size),
        xo < curr@.width,
        yo < curr@.height,
        p <= MAX_SEARCH_RADIUS,
    ensures
        (r.0 as int, r.1 as int) == motion_vector(setup_of(prev, curr, block_size), xo as int, yo as int, p as int),
        -128 <= r.0 <= 127,
        -128 <= r.1 <= 127,
{
    let ghost s = setup_of(prev, curr, block_size);
    let ghost xo_i = xo as int;
    let ghost yo_i = yo as int;
    let ghost pi = p as int;
    let mut best_cost: u32 = u32::MAX;
    let mut best_dx: i32 = 0;
    let mut best_dy: i32 = 0;
    let mut dy: i32 = if p > 0 { -p } else { p };
    while dy < p
        invariant
            search_ready(prev, curr, block_size),
            s == setup_of(prev, curr, block_size),
            pi == p,
            xo_i == xo,
            yo_i == yo,
            xo < curr@.width,
            yo < curr@.height,
            p <= MAX_SEARCH_RADIUS,
            0 < p ==> -p <= dy <= p,
            p <= 0 ==> dy == p && best_dx == 0 && best_dy == 0,
            -128 <= best_dx <= 127,
            -128 <= best_dy <= 127,
            dy == -p ==> best_cost == u32::MAX,
            dy > -p ==> {
                &&& in_window(pi, best_dx as int, best_dy as int)
                &&& best_dy < dy
                &&& best_cost == displacement_cost(s, xo_i, yo_i, best_dx as int, best_dy as int)
                &&& forall|ex: int, ey: int|
                    #![trigger displacement_cost(s, xo_i, yo_i, ex, ey)]
                    in_window(pi, ex, ey) && ey < dy ==> {
                        &&& best_cost <= displacement_cost(s, xo_i, yo_i, ex, ey)
                        &&& scan_before(ex, ey, best_dx as int, best_dy as int) ==> best_cost
                            < displacement_cost(s, xo_i, yo_i, ex, ey)
                    }
            },
        decreases p - dy,
    {
        let mut dx: i32 = -p;
        proof {
            assert forall|ex: int, ey: int|
                in_window(pi, ex, ey) && scan_before(ex, ey, dx as int, dy as int) implies ey < dy by {}
        }
        while dx < p
            invariant
                search_ready(prev, curr, block_size),
                s == setup_of(prev, curr, block_size),
                pi == p,
                xo_i == xo,
                yo_i == yo,
                xo < curr@.width,
                yo < curr@.height,
                0 < p <= MAX_SEARCH_RADIUS,
                -p <= dy < p,
                -p <= dx <= p,
                -128 <= best_dx <= 127,
                -128 <= best_dy <= 127,
                dy == -p && dx == -p ==> best_cost == u32::MAX,
                !(dy == -p && dx == -p) ==> {
                    &&& in_window(pi, best_dx as int, best_dy as int)
                    &&& scan_before(best_dx as int, best_dy as int, dx as int, dy as int)
                    &&& best_cost == displacement_cost(s, xo_i, yo_i, best_dx as int, best_dy as int)
                    &&& forall|ex: int, ey: int|
                        #![trigger displacement_cost(s, xo_i, yo_i, ex, ey)]
                        in_window(pi, ex, ey) && scan_before(ex, ey, dx as int, dy as int) ==> {
                            &&& best_cost <= displacement_cost(s, xo_i, yo_i, ex, ey)
                            &&& scan_before(ex, ey, best_dx as int, best_dy as int) ==> best_cost
                                < displacement_cost(s, xo_i, yo_i, ex, ey)
                        }
                },
            decreases p - dx,
        {
            let cost: u32 = tile_cost(
                prev,
                curr,
                block_size,
                xo,
                yo,
                xo as i64 + dx as i64,
                yo as i64 + dy as i64,
            );
            proof {
                assert(765 * block_size * block_size <= 765 * 1024 * 1024) by (nonlinear_arith)
                    requires
                        block_size <= 1024,
                ;
            }
            assert(cost == displacement_cost(s, xo_i, yo_i, dx as int, dy as int));
            let ghost old_cost = best_cost;
            let ghost old_dx = best_dx;
            let ghost old_dy = best_dy;
            if cost < best_cost {
                best_cost = cost;
                best_dx = dx;
                best_dy = dy;
            }
            proof {
                assert forall|ex: int, ey: int|
                    #![trigger displacement_cost(s, xo_i, yo_i, ex, ey)]
                    in_window(pi, ex, ey) && scan_before(ex, ey, dx + 1, dy as int) implies {
                        &&& best_cost <= displacement_cost(s, xo_i, yo_i, ex, ey)
                        &&& scan_before(ex, ey, best_dx as int, best_dy as int) ==> best_cost
                            < displacement_cost(s, xo_i, yo_i, ex, ey)
                    } by {
                    if ex == dx && ey == dy {
                    } else {
                        assert(scan_before(ex, ey, dx as int, dy as int));
                        assert(!(dy == -p && dx == -p));
                        assert(old_cost <= displacement_cost(s, xo_i, yo_i, ex, ey));
                    }
                }
            }
            dx = dx + 1;
        }
        proof {
            assert forall|ex: int, ey: int|
                in_window(pi, ex, ey) && ey < dy + 1 implies scan_before(ex, ey, dx as int, dy as int) by {}
        }
        dy = dy + 1;
    }
    proof {
        if p > 0 {
            assert(is_first_best(s, xo_i, yo_i, pi, best_dx as int, best_dy as int));
            lemma_first_best_is_motion_vector(s, xo_i, yo_i, pi, best_dx as int, best_dy as int);
        } else {
            assert forall|v: (int, int)| !is_first_best(s, xo_i, yo_i, pi, v.0, v.1) by {}
        }
    }
    (best_dx, best_dy)
}

} // verus!
