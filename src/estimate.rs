use vstd::prelude::*;
use vstd::arithmetic::div_mod::lemma_fundamental_div_mod;
use crate::frame::{Frame, FrameModel};
use crate::field::{
    block_count, blocks_along, encode_displacement, encoded, FieldModel, MotionField,
};
use crate::matching::{
    best_displacement, motion_vector, scan_before, search_ready, setup_of, Setup, MAX_BLOCK_SIZE,
    MAX_SEARCH_RADIUS,
};

verus! {

/// Why a motion estimation was refused.
#[derive(Debug, Clone, Copy, PartialEq, Eq, Structural)]
pub enum MotionError {
    /// The block size is zero or larger than `MAX_BLOCK_SIZE`.
    BlockSize,
    /// The search radius is larger than `MAX_SEARCH_RADIUS`, so a displacement
    /// might not fit in a signed byte.
    SearchRadius,
    /// The two frames differ in width or height.
    SizeMismatch,
}

/// The error, if any, that the inputs of a motion estimation are refused with;
/// the block size is checked first, then the search radius, then the frames.
pub open spec fn input_error(prev: FrameModel, curr: FrameModel, block_size: int, search_radius: int) -> Option<MotionError> {
    if block_size < 1 || block_size > MAX_BLOCK_SIZE {
        Some(MotionError::BlockSize)
    } else if search_radius > MAX_SEARCH_RADIUS {
        Some(MotionError::SearchRadius)
    } else if prev.width != curr.width || prev.height != curr.height {
        Some(MotionError::SizeMismatch)
    } else {
        None
    }
}

/// `f` holds, for every block of the frames that `s` describes, the motion
/// vector found with search radius `p`: one cell per block, the grid being
/// `blocks_along(width, block)` by `blocks_along(height, block)`.
pub open spec fn field_matches(f: FieldModel, s: Setup, p: int) -> bool {
    &&& f.width == blocks_along(s.curr.width as int, s.block as int)
    &&& f.height == blocks_along(s.curr.height as int, s.block as int)
    &&& f.well_formed()
    &&& forall|bx: int, by: int|
        #![trigger f.cell(bx, by)]
        f.contains(bx, by) ==> f.cell(bx, by) == encoded(
            motion_vector(s, bx * s.block, by * s.block, p),
        )
}

/// `row` holds the motion vectors of block row `by`, one pixel per block.
pub open spec fn row_matches(row: Seq<u8>, s: Setup, p: int, by: int) -> bool {
    &&& row.len() == blocks_along(s.curr.width as int, s.block as int) * 3
    &&& forall|bx: int|
        #![trigger row[bx * 3]]
        0 <= bx < blocks_along(s.curr.width as int, s.block as int) ==> (
        row[bx * 3],
        row[bx * 3 + 1],
        row[bx * 3 + 2],
    ) == encoded(motion_vector(s, bx * s.block, by * s.block, p))
}

/// Every block of the grid starts inside the frame.
proof fn lemma_block_origin_inside(n: int, bs: int, b: int)
    requires
        bs >= 1,
        n >= 0,
        0 <= b < blocks_along(n, bs),
    ensures
        0 <= b * bs < n,
{
    let t = n + bs - 1;
    lemma_fundamental_div_mod(t, bs);
    let q = t / bs;
    assert(b * bs < n) by (nonlinear_arith)
        requires
            t == bs * q + t % bs,
            t % bs < bs,
            t == n + bs - 1,
            b + 1 <= q,
            bs >= 1,
    ;
    assert(0 <= b * bs) by (nonlinear_arith)
        requires
            b >= 0,
            bs >= 1,
    ;
}

/// Checks the inputs of a motion estimation.
pub fn check_inputs(prev: &Frame, curr: &Frame, block_size: u32, search_radius: i32) -> (r: Result<(), MotionError>)
    ensures
        r is Ok <==> input_error(prev@, curr@, block_size as int, search_radius as int) is None,
        r matches Err(e) ==> input_error(prev@, curr@, block_size as int, search_radius as int) == Some(e),
{
    if block_size < 1 || block_size > MAX_BLOCK_SIZE {
        Err(MotionError::BlockSize)
    } else if search_radius > MAX_SEARCH_RADIUS {
        Err(MotionError::SearchRadius)
    } else if prev.width() != curr.width() || prev.height() != curr.height() {
        Err(MotionError::SizeMismatch)
    } else {
        Ok(())
    }
}

/// Estimates the motion vectors of block row `by`: one pixel `(dx, dy, 0)` per
/// block, left to right.
pub fn estimate_row(prev: &Frame, curr: &Frame, block_size: u32, search_radius: i32, by: u32) -> (r: Vec<u8>)
    requires
        prev.wf(),
        curr.wf(),
        input_error(prev@, curr@, block_size as int, search_radius as int) is None,
        by < blocks_along(curr@.height as int, block_size as int),
    ensures
        row_matches(r@, setup_of(prev, curr, block_size), search_radius as int, by as int),
{
    let ghost s = setup_of(prev, curr, block_size);
    let w: u32 = curr.width();
    let h: u32 = curr.height();
    let rw: u32 = block_count(w, block_size);
    proof {
        lemma_block_origin_inside(h as int, block_size as int, by as int);
    }
    let yo: u32 = ((by as u64) * (block_size as u64)) as u32;
    let mut row: Vec<u8> = Vec::new();
    let mut bx: u32 = 0;
    while bx < rw
        invariant
            prev.wf(),
            curr.wf(),
            search_ready(prev, curr, block_size),
            search_radius <= MAX_SEARCH_RADIUS,
            s == setup_of(prev, curr, block_size),
            w == curr@.width,
            rw == blocks_along(w as int, block_size as int),
            yo == by * block_size,
            yo < curr@.height,
            bx <= rw,
            row@.len() == bx * 3,
            forall|cx: int|
                #![trigger row@[cx * 3]]
                0 <= cx < bx ==> (row@[cx * 3], row@[cx * 3 + 1], row@[cx * 3 + 2]) == encoded(
                    motion_vector(s, cx * block_size, by * block_size, search_radius as int),
                ),
        decreases rw - bx,
    {
        proof {
            lemma_block_origin_inside(w as int, block_size as int, bx as int);
        }
        let xo: u32 = ((bx as u64) * (block_size as u64)) as u32;
        let v: (i32, i32) = best_displacement(prev, curr, block_size, xo, yo, search_radius);
        let ghost before = row@;
        row.push(encode_displacement(v.0));
        row.push(encode_displacement(v.1));
        row.push(0);
        proof {
            assert forall|cx: int|
                #![trigger row@[cx * 3]]
                0 <= cx < bx + 1 implies (row@[cx * 3], row@[cx * 3 + 1], row@[cx * 3 + 2]) == encoded(
                    motion_vector(s, cx * block_size, by * block_size, search_radius as int),
                ) by {
                if cx < bx {
                    assert(cx * 3 + 2 < bx * 3);
                    assert(before[cx * 3] == row@[cx * 3]);
                }
            }
        }
        bx = bx + 1;
    }
    row
}

/// Estimates the motion of every block between `prev` and `curr` and stores
/// one motion vector per block in `field`.
///
/// The field becomes a `blocks_along(width, block_size)` by
/// `blocks_along(height, block_size)` grid; it is replaced by a new one only
/// when its size differs. The reference block is taken from `curr`, the
/// candidates from `prev`; the vector of a block is the displacement `(dx, dy)`,
/// each in `[-search_radius, search_radius)`, whose candidate costs least, the
/// first one in scan order on ties, or `(0, 0)` when the search radius is not
/// positive. On an error the field is left as it was.
pub fn estimate_motion(
    prev: &Frame,
    curr: &Frame,
    field: &mut MotionField,
    block_size: u32,
    search_radius: i32,
) -> (r: Result<(), MotionError>)
    requires
        prev.wf(),
        curr.wf(),
        old(field).wf(),
    ensures
        final(field).wf(),
        r is Ok <==> input_error(prev@, curr@, block_size as int, search_radius as int) is None,
        r matches Err(e) ==> input_error(prev@, curr@, block_size as int, search_radius as int) == Some(e)
            && final(field)@ == old(field)@,
        r is Ok ==> field_matches(
            final(field)@,
            setup_of(prev, curr, block_size),
            search_radius as int,
        ),
{
    match check_inputs(prev, curr, block_size, search_radius) {
        Err(e) => {
            return Err(e);
        },
        Ok(()) => {},
    }
    let ghost s = setup_of(prev, curr, block_size);
    let w: u32 = curr.width();
    let h: u32 = curr.height();
    let rw: u32 = block_count(w, block_size);
    let rh: u32 = block_count(h, block_size);
    let n: usize = curr.as_bytes().len();
    proof {
        curr.lemma_wf();
        assert(rw * rh * 3 <= w * h * 3) by (nonlinear_arith)
            requires
                rw <= w,
                rh <= h,
        ;
    }
    field.fit(rw, rh);
    let mut by: u32 = 0;
    while by < rh
        invariant
            prev.wf(),
            curr.wf(),
            search_ready(prev, curr, block_size),
            search_radius <= MAX_SEARCH_RADIUS,
            s == setup_of(prev, curr, block_size),
            w == curr@.width,
            h == curr@.height,
            rw == blocks_along(w as int, block_size as int),
            rh == blocks_along(h as int, block_size as int),
            field.wf(),
            field@.width == rw,
            field@.height == rh,
            by <= rh,
            forall|cx: int, cy: int|
                #![trigger field@.cell(cx, cy)]
                field@.contains(cx, cy) && cy < by ==> field@.cell(cx, cy) == encoded(
                    motion_vector(s, cx * block_size, cy * block_size, search_radius as int),
                ),
        decreases rh - by,
    {
        proof {
            lemma_block_origin_inside(h as int, block_size as int, by as int);
        }
        let yo: u32 = ((by as u64) * (block_size as u64)) as u32;
        let mut bx: u32 = 0;
        while bx < rw
            invariant
                prev.wf(),
                curr.wf(),
                search_ready(prev, curr, block_size),
                search_radius <= MAX_SEARCH_RADIUS,
                s == setup_of(prev, curr, block_size),
                w == curr@.width,
                h == curr@.height,
                rw == blocks_along(w as int, block_size as int),
                rh == blocks_along(h as int, block_size as int),
                field.wf(),
                field@.width == rw,
                field@.height == rh,
                by < rh,
                bx <= rw,
                yo == by * block_size,
                yo < h,
                forall|cx: int, cy: int|
                    #![trigger field@.cell(cx, cy)]
                    field@.contains(cx, cy) && scan_before(cx, cy, bx as int, by as int)
                        ==> field@.cell(cx, cy) == encoded(
                        motion_vector(s, cx * block_size, cy * block_size, search_radius as int),
                    ),
            decreases rw - bx,
        {
            proof {
                lemma_block_origin_inside(w as int, block_size as int, bx as int);
            }
            let xo: u32 = ((bx as u64) * (block_size as u64)) as u32;
            let v: (i32, i32) = best_displacement(prev, curr, block_size, xo, yo, search_radius);
            field.set_vector(bx, by, v);
            bx = bx + 1;
        }
        by = by + 1;
    }
    proof {
        field.lemma_wf();
    }
    Ok(())
}

} // verus!
