//! Immutable single-channel pixel buffers and border padding.
use vstd::prelude::*;

verus! {

/// A single-channel (monochromatic) image: one byte per pixel, row-major.
pub struct MonoFrame {
    pub data: Vec<u8>,
    pub width: u16,
    pub height: u16,
}

impl MonoFrame {
    /// A frame is well formed when its buffer holds exactly one byte per pixel.
    pub open spec fn well_formed(&self) -> bool {
        self.data@.len() == self.width as nat * self.height as nat
    }

    pub fn new(data: Vec<u8>, width: u16, height: u16) -> (r: MonoFrame)
        ensures
            r.data == data,
            r.width == width,
            r.height == height,
    {
        MonoFrame { data, width, height }
    }

    /// A frame of the given size, uniformly filled with `color`.
    pub fn solid_color(width: u16, height: u16, color: u8) -> (r: MonoFrame)
        ensures
            r.width == width,
            r.height == height,
            r.well_formed(),
            forall|i: int| 0 <= i < r.data@.len() ==> r.data@[i] == color,
    {
        proof {
            assert(width as usize * height as usize <= usize::MAX) by (nonlinear_arith)
                requires
                    width <= u16::MAX && height <= u16::MAX,
            ;
        }
        MonoFrame { data: vec![color; width as usize * height as usize], width, height }
    }

    /// The pixel that `add_border` places at row `j`, column `k` of the
    /// enlarged frame: a source pixel inside the interior window, the border
    /// fill everywhere else.
    pub open spec fn bordered_pixel(&self, b: int, c: u8, j: int, k: int) -> u8 {
        if b <= k < b + self.width && b <= j < b + self.height {
            self.data@[(j - b) * self.width + (k - b)]
        } else {
            c
        }
    }

    /// The border law: padding by `b` grows the area from `w * h` to
    /// `(w + 2b) * (h + 2b)`; every source pixel `(x, y)` is recoverable at
    /// `(x + b, y + b)`; every pixel outside that interior window is the
    /// fill value.
    pub proof fn lemma_add_border_pixels(self, b: int, c: u8)
        requires
            self.well_formed(),
            b >= 0,
        ensures
            forall|x: int, y: int|
                0 <= x < self.width && 0 <= y < self.height ==> #[trigger] self.bordered_pixel(b,
                    c, y + b, x + b) == self.data@[y * self.width + x],
            forall|j: int, k: int|
                0 <= j < self.height + 2 * b && 0 <= k < self.width + 2 * b && !(b <= k < b
                    + self.width && b <= j < b + self.height) ==> #[trigger] self.bordered_pixel(
                    b, c, j, k) == c,
    {
    }

    /// A new frame enlarged by `border_width` pixels on every side, filled
    /// with `border_color`, with this frame copied into the interior.
    pub fn add_border(&self, border_width: u16, border_color: u8) -> (r: MonoFrame)
        requires
            self.well_formed(),
            self.width + 2 * border_width <= u16::MAX,
            self.height + 2 * border_width <= u16::MAX,
        ensures
            r.width == self.width + 2 * border_width,
            r.height == self.height + 2 * border_width,
            r.well_formed(),
            forall|j: int, k: int|
                0 <= j < r.height && 0 <= k < r.width ==> r.data@[j * r.width + k]
                    == self.bordered_pixel(border_width as int, border_color, j, k),
    {
        let bw: usize = border_width as usize;
        let w: usize = self.width as usize;
        let h: usize = self.height as usize;
        let nw: usize = w + 2 * bw;
        let nh: usize = h + 2 * bw;
        let mut data: Vec<u8> = Vec::new();
        let mut j: usize = 0;
        while j < nh
            invariant
                self.well_formed(),
                w == self.width,
                h == self.height,
                nw == w + 2 * bw,
                nh == h + 2 * bw,
                nw <= u16::MAX,
                nh <= u16::MAX,
                j <= nh,
                data@.len() == j * nw,
                forall|jj: int, kk: int|
                    0 <= jj < j && 0 <= kk < nw ==> data@[jj * nw + kk]
                        == self.bordered_pixel(bw as int, border_color, jj, kk),
            decreases nh - j,
        {
            let mut k: usize = 0;
            while k < nw
                invariant
                    self.well_formed(),
                    w == self.width,
                    h == self.height,
                    nw == w + 2 * bw,
                    nh == h + 2 * bw,
                    nw <= u16::MAX,
                    nh <= u16::MAX,
                    j < nh,
                    k <= nw,
                    data@.len() == j * nw + k,
                    forall|jj: int, kk: int|
                        0 <= jj < j && 0 <= kk < nw ==> data@[jj * nw + kk]
                            == self.bordered_pixel(bw as int, border_color, jj, kk),
                    forall|kk: int|
                        0 <= kk < k ==> data@[j * nw + kk]
                            == self.bordered_pixel(bw as int, border_color, j as int, kk),
                decreases nw - k,
            {
                proof {
                    assert(j * nw + k < nh * nw && nh * nw <= usize::MAX) by (nonlinear_arith)
                        requires
                            j < nh && k < nw && nw <= u16::MAX && nh <= u16::MAX,
                    ;
                }
                if bw <= k && k < bw + w && bw <= j && j < bw + h {
                    proof {
                        assert((j - bw) * w + (k - bw) < h * w && h * w <= usize::MAX)
                            by (nonlinear_arith)
                            requires
                                bw <= j < bw + h && bw <= k < bw + w && w <= u16::MAX && h
                                    <= u16::MAX,
                        ;
                    }
                    let px: u8 = self.data[(j - bw) * w + (k - bw)];
                    data.push(px);
                } else {
                    data.push(border_color);
                }
                proof {
                    assert forall|jj: int, kk: int|
                        0 <= jj < j && 0 <= kk < nw implies data@[jj * nw + kk]
                        == self.bordered_pixel(bw as int, border_color, jj, kk) by {
                        assert(0 <= jj * nw + kk < j * nw) by (nonlinear_arith)
                            requires
                                0 <= jj < j && 0 <= kk < nw,
                        ;
                    }
                }
                k = k + 1;
            }
            j = j + 1;
            proof {
                assert((j - 1) * nw + nw == j * nw) by (nonlinear_arith);
            }
        }
        proof {
            assert(j * nw == nh * nw);
            assert(nh * nw == (self.width + 2 * border_width) as nat * (self.height + 2
                * border_width) as nat) by (nonlinear_arith)
                requires
                    nw == self.width + 2 * border_width && nh == self.height + 2 * border_width,
            ;
        }
        MonoFrame { data, width: nw as u16, height: nh as u16 }
    }
}

} // verus!
