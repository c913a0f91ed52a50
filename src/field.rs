use vstd::prelude::*;
use vstd::arithmetic::div_mod::lemma_fundamental_div_mod;

verus! {

/// Number of blocks of side `bs` needed to cover `n` pixels: `n / bs`, rounded up.
pub open spec fn blocks_along(n: int, bs: int) -> int {
    (n + bs - 1) / bs
}

/// Computes `blocks_along(n, bs)`.
pub fn block_count(n: u32, bs: u32) -> (r: u32)
    requires
        bs >= 1,
    ensures
        r == blocks_along(n as int, bs as int),
        r <= n,
{
    let q: u64 = (n as u64 + bs as u64 - 1) / bs as u64;
    proof {
        let t = n + bs - 1;
        lemma_fundamental_div_mod(t, bs as int);
        assert(0 <= t % (bs as int) < bs);
        assert(q <= n) by (nonlinear_arith)
            requires
                t == bs * q + t % (bs as int),
                0 <= t % (bs as int),
                t == n + bs - 1,
                bs >= 1,
                q >= 0,
        ;
    }
    q as u32
}

/// The byte that stores displacement `d`: its two's-complement low byte.
pub open spec fn encode(d: int) -> u8 {
    if d < 0 {
        (d + 256) as u8
    } else {
        d as u8
    }
}

/// Computes `encode(d)`.
pub fn encode_displacement(d: i32) -> (r: u8)
    requires
        -128 <= d <= 127,
    ensures
        r == encode(d as int),
{
    if d < 0 {
        (d + 256) as u8
    } else {
        d as u8
    }
}

/// The displacement that byte `b` stores.
pub open spec fn decode(b: u8) -> int {
    if b >= 128 {
        b - 256
    } else {
        b as int
    }
}

/// The pixel that stores motion vector `v`: `dx`, `dy`, then zero.
pub open spec fn encoded(v: (int, int)) -> (u8, u8, u8) {
    (encode(v.0), encode(v.1), 0u8)
}

/// Mathematical model of a motion-vector field: one RGB pixel per block,
/// row by row.
pub ghost struct FieldModel {
    pub width: nat,
    pub height: nat,
    pub bytes: Seq<u8>,
}

impl FieldModel {
    pub open spec fn well_formed(self) -> bool {
        self.bytes.len() == self.width * self.height * 3
    }

    /// Whether `(bx, by)` is a cell of the grid.
    pub open spec fn contains(self, bx: int, by: int) -> bool {
        0 <= bx < self.width && 0 <= by < self.height
    }

    /// The three bytes of the cell at `(bx, by)`.
    pub open spec fn cell(self, bx: int, by: int) -> (u8, u8, u8) {
        let i = (by * self.width + bx) * 3;
        (self.bytes[i], self.bytes[i + 1], self.bytes[i + 2])
    }
}

/// Distinct cells of a grid of width `w` occupy distinct pixels.
pub proof fn lemma_cells_disjoint(w: int, ax: int, ay: int, bx: int, by: int)
    requires
        0 <= ax < w,
        0 <= bx < w,
        0 <= ay,
        0 <= by,
        ax != bx || ay != by,
    ensures
        ay * w + ax != by * w + bx,
{
    if ay < by {
        assert(ay * w + ax < by * w + bx) by (nonlinear_arith)
            requires
                ay < by,
                0 <= ax < w,
                0 <= bx,
        ;
    } else if by < ay {
        assert(by * w + bx < ay * w + ax) by (nonlinear_arith)
            requires
                by < ay,
                0 <= bx < w,
                0 <= ax,
        ;
    }
}

/// Every byte of a cell of the grid lies inside the field's bytes.
pub proof fn lemma_cell_in_bounds(w: int, h: int, bx: int, by: int)
    requires
        0 <= bx < w,
        0 <= by < h,
    ensures
        0 <= by * w + bx,
        (by * w + bx) * 3 + 2 < w * h * 3,
{
    crate::frame::lemma_offset_in_bounds(w, h, bx, by, 2);
    assert(0 <= by * w) by (nonlinear_arith)
        requires
            0 <= by,
            0 <= w,
    ;
}

/// A grid of motion vectors, one per block, each stored as the pixel
/// `(dx, dy, 0)` with both displacements as two's-complement bytes.
pub struct MotionField {
    width: u32,
    height: u32,
    data: Vec<u8>,
}

impl View for MotionField {
    type V = FieldModel;

    closed spec fn view(&self) -> FieldModel {
        FieldModel { width: self.width as nat, height: self.height as nat, bytes: self.data@ }
    }
}

impl MotionField {
    pub closed spec fn wf(&self) -> bool {
        self.data@.len() == self.width * self.height * 3
    }

    pub proof fn lemma_wf(&self)
        requires
            self.wf(),
        ensures
            self@.well_formed(),
            self@.width <= u32::MAX,
            self@.height <= u32::MAX,
    {
    }

    /// An empty field, with no cell.
    pub fn new() -> (r: MotionField)
        ensures
            r.wf(),
            r@.width == 0,
            r@.height == 0,
            r@.bytes.len() == 0,
    {
        MotionField { width: 0, height: 0, data: Vec::new() }
    }

    pub fn width(&self) -> (r: u32)
        ensures
            r == self@.width,
    {
        self.width
    }

    pub fn height(&self) -> (r: u32)
        ensures
            r == self@.height,
    {
        self.height
    }

    /// The field's bytes, three per cell, row after row.
    pub fn as_bytes(&self) -> (r: &[u8])
        ensures
            r@ == self@.bytes,
    {
        self.data.as_slice()
    }

    /// Position of the first byte of cell `(bx, by)`.
    fn cell_index(&self, bx: u32, by: u32) -> (r: usize)
        requires
            self.wf(),
            self@.contains(bx as int, by as int),
        ensures
            r == (by * self@.width + bx) * 3,
            r + 2 < self@.bytes.len(),
            r + 2 < usize::MAX,
    {
        let n: usize = self.data.len();
        proof {
            lemma_cell_in_bounds(self.width as int, self.height as int, bx as int, by as int);
            assert(by * self.width <= (by * self.width + bx) * 3) by (nonlinear_arith)
                requires
                    0 <= bx,
                    0 <= by * self.width,
            ;
        }
        ((by as usize) * (self.width as usize) + bx as usize) * 3
    }

    /// The motion vector stored at cell `(bx, by)`.
    pub fn vector(&self, bx: u32, by: u32) -> (r: (i32, i32))
        requires
            self.wf(),
            self@.contains(bx as int, by as int),
        ensures
            r.0 == decode(self@.cell(bx as int, by as int).0),
            r.1 == decode(self@.cell(bx as int, by as int).1),
    {
        let i: usize = self.cell_index(bx, by);
        let dx: u8 = self.data[i];
        let dy: u8 = self.data[i + 1];
        let x: i32 = if dx >= 128 { dx as i32 - 256 } else { dx as i32 };
        let y: i32 = if dy >= 128 { dy as i32 - 256 } else { dy as i32 };
        (x, y)
    }

    /// Makes the field a `width` by `height` grid. A field of another size is
    /// replaced by one whose cells all hold zero; one of that size is kept as it
    /// is.
    pub fn fit(&mut self, width: u32, height: u32)
        requires
            old(self).wf(),
            width * height * 3 <= usize::MAX,
        ensures
            final(self).wf(),
            final(self)@.width == width,
            final(self)@.height == height,
            old(self)@.width == width && old(self)@.height == height ==> final(self)@ == old(self)@,
            !(old(self)@.width == width && old(self)@.height == height) ==> forall|i: int|
                0 <= i < final(self)@.bytes.len() ==> final(self)@.bytes[i] == 0,
    {
        if self.width != width || self.height != height {
            let n: usize = (width as usize) * (height as usize) * 3;
            let mut data: Vec<u8> = Vec::new();
            let mut k: usize = 0;
            while k < n
                invariant
                    k <= n,
                    data@.len() == k,
                    forall|i: int| 0 <= i < k ==> data@[i] == 0,
                decreases n - k,
            {
                data.push(0);
                k = k + 1;
            }
            *self = MotionField { width, height, data };
        }
    }

    /// Stores motion vector `v` at cell `(bx, by)`; no other cell changes.
    pub fn set_vector(&mut self, bx: u32, by: u32, v: (i32, i32))
        requires
            old(self).wf(),
            old(self)@.contains(bx as int, by as int),
            -128 <= v.0 <= 127,
            -128 <= v.1 <= 127,
        ensures
            final(self).wf(),
            final(self)@.width == old(self)@.width,
            final(self)@.height == old(self)@.height,
            final(self)@.cell(bx as int, by as int) == encoded((v.0 as int, v.1 as int)),
            forall|cx: int, cy: int|
                #![trigger final(self)@.cell(cx, cy)]
                old(self)@.contains(cx, cy) && (cx != bx || cy != by) ==> final(self)@.cell(cx, cy)
                    == old(self)@.cell(cx, cy),
    {
        let i: usize = self.cell_index(bx, by);
        let ex: u8 = encode_displacement(v.0);
        let ey: u8 = encode_displacement(v.1);
        let ghost before = self@;
        self.data.set(i, ex);
        self.data.set(i + 1, ey);
        self.data.set(i + 2, 0);
        proof {
            assert forall|cx: int, cy: int|
                #![trigger self@.cell(cx, cy)]
                before.contains(cx, cy) && (cx != bx || cy != by) implies self@.cell(cx, cy)
                    == before.cell(cx, cy) by {
                lemma_cells_disjoint(self.width as int, cx, cy, bx as int, by as int);
                lemma_cell_in_bounds(self.width as int, self.height as int, cx, cy);
            }
        }
    }
}

} // verus!
