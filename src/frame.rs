use vstd::prelude::*;

verus! {

/// Mathematical model of a frame: its size and its row-major RGB bytes.
pub ghost struct FrameModel {
    pub width: nat,
    pub height: nat,
    pub bytes: Seq<u8>,
}

impl FrameModel {
    /// Position of channel `c` of the pixel at `(x, y)` in the byte sequence.
    pub open spec fn offset(self, x: int, y: int, c: int) -> int {
        (y * self.width + x) * 3 + c
    }

    /// Channel `c` (0, 1 or 2) of the pixel at `(x, y)`.
    pub open spec fn channel(self, x: int, y: int, c: int) -> u8 {
        self.bytes[self.offset(x, y, c)]
    }

    /// Whether `(x, y)` lies inside the frame.
    pub open spec fn contains(self, x: int, y: int) -> bool {
        0 <= x < self.width && 0 <= y < self.height
    }

    pub open spec fn well_formed(self) -> bool {
        &&& self.width <= u32::MAX
        &&& self.height <= u32::MAX
        &&& self.bytes.len() == self.width * self.height * 3
    }
}

/// Every byte of a pixel inside the frame lies inside the byte sequence.
pub proof fn lemma_offset_in_bounds(w: int, h: int, x: int, y: int, c: int)
    requires
        0 <= x < w,
        0 <= y < h,
        0 <= c < 3,
    ensures
        0 <= (y * w + x) * 3 + c < w * h * 3,
{
    assert(0 <= y * w) by (nonlinear_arith)
        requires
            0 <= y,
            0 <= w,
    ;
    assert(y * w + x < h * w) by (nonlinear_arith)
        requires
            0 <= x < w,
            0 <= y < h,
    ;
    assert(w * h == h * w) by (nonlinear_arith);
}

/// An RGB image with 8 bits per channel, stored row by row.
pub struct Frame {
    width: u32,
    height: u32,
    data: Vec<u8>,
}

impl View for Frame {
    type V = FrameModel;

    closed spec fn view(&self) -> FrameModel {
        FrameModel { width: self.width as nat, height: self.height as nat, bytes: self.data@ }
    }
}

impl Frame {
    pub closed spec fn wf(&self) -> bool {
        self.data@.len() == self.width * self.height * 3
    }

    /// Size of a `width` by `height` frame in bytes, when it fits in memory.
    pub open spec fn byte_len(width: u32, height: u32) -> int {
        width * height * 3
    }

    /// Builds a frame from its row-major RGB bytes; `None` unless there are
    /// exactly three bytes per pixel.
    pub fn new(width: u32, height: u32, data: Vec<u8>) -> (r: Option<Frame>)
        ensures
            r is Some <==> data@.len() == Self::byte_len(width, height),
            r matches Some(f) ==> f.wf() && f@.width == width && f@.height == height && f@.bytes
                == data@,
    {
        let n: usize = data.len();
        assert((width as u64) * (height as u64) <= u32::MAX * u32::MAX) by (nonlinear_arith);
        let pixels: u64 = (width as u64) * (height as u64);
        if pixels > u64::MAX / 3 {
            assert(width * height * 3 > n);
            return None;
        }
        if data.len() as u64 != pixels * 3 {
            return None;
        }
        Some(Frame { width, height, data })
    }

    pub fn width(&self) -> (r: u32)
        ensures
            r == self@.width,
    {
        self.width
    }

    pub fn height(&self) -> (r: u32)
        ensures
            r == self@.height,
    {
        self.height
    }

    /// The frame's bytes, three per pixel, row after row.
    pub fn as_bytes(&self) -> (r: &[u8])
        ensures
            r@ == self@.bytes,
    {
        self.data.as_slice()
    }

    /// Channel `c` of the pixel at `(x, y)`.
    pub fn channel(&self, x: u32, y: u32, c: usize) -> (r: u8)
        requires
            self.wf(),
            x < self@.width,
            y < self@.height,
            c < 3,
        ensures
            r == self@.channel(x as int, y as int, c as int),
    {
        let n: usize = self.data.len();
        proof {
            lemma_offset_in_bounds(self.width as int, self.height as int, x as int, y as int, c as int);
            assert(y * self.width <= (y * self.width + x) * 3 + c) by (nonlinear_arith)
                requires
                    0 <= x,
                    0 <= c,
                    0 <= y * self.width,
            ;
        }
        let i: usize = ((y as usize) * (self.width as usize) + x as usize) * 3 + c;
        self.data[i]
    }

    pub proof fn lemma_wf(&self)
        requires
            self.wf(),
        ensures
            self@.well_formed(),
    {
    }
}

} // verus!
