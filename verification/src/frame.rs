//! A captured RGBA image held as plain bytes: width, height and four bytes
//! (red, green, blue, alpha) per pixel, row by row.

use vstd::prelude::*;

verus! {

pub struct RgbaFrame {
    pub width: u32,
    pub height: u32,
    pub data: Vec<u8>,
}

impl RgbaFrame {
    /// The byte buffer holds exactly four bytes per pixel.
    pub open spec fn wf(&self) -> bool {
        self.data@.len() == self.width * self.height * 4
    }

    /// Byte `c` (0 red, 1 green, 2 blue, 3 alpha) of pixel (x, y).
    pub open spec fn byte(&self, x: int, y: int, c: int) -> u8 {
        self.data@[(y * self.width + x) * 4 + c]
    }

    /// A frame over `data`, or `None` when its length is not
    /// `width * height * 4`.
    pub fn from_raw(width: u32, height: u32, data: Vec<u8>) -> (r: Option<Self>)
        ensures
            r is Some <==> data@.len() == width * height * 4,
            r matches Some(f) ==> f.width == width && f.height == height && f.data@ == data@
                && f.wf(),
    {
        let n = data.len() as u128;
        let (wl, hl) = (width as u128, height as u128);
        assert(wl * hl <= 0xffff_ffff * 0xffff_ffff) by (nonlinear_arith)
            requires
                wl <= 0xffff_ffff,
                hl <= 0xffff_ffff,
        ;
        if n == wl * hl * 4 {
            Some(RgbaFrame { width, height, data })
        } else {
            None
        }
    }

    /// An all-zero (transparent black) frame.
    pub fn new(width: u32, height: u32) -> (f: Self)
        requires
            width * height * 4 <= usize::MAX,
        ensures
            f.width == width && f.height == height && f.wf(),
            forall|i: int| 0 <= i < f.data@.len() ==> f.data@[i] == 0,
    {
        assert(width * height <= width * height * 4) by (nonlinear_arith);
        let n = width as usize * height as usize * 4;
        let data = vec![0u8; n];
        RgbaFrame { width, height, data }
    }

    pub fn dimensions(&self) -> (d: (u32, u32))
        ensures
            d == (self.width, self.height),
    {
        (self.width, self.height)
    }

    pub fn as_raw(&self) -> (r: &[u8])
        ensures
            r@ == self.data@,
    {
        self.data.as_slice()
    }

    pub fn into_raw(self) -> (r: Vec<u8>)
        ensures
            r@ == self.data@,
    {
        self.data
    }
}

} // verus!
