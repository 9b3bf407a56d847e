//! A decoded video held as one contiguous single-channel buffer, sliced
//! into frames on demand.
use vstd::prelude::*;

verus! {

/// All frames of a video, concatenated row-major into one buffer of
/// `width * height` bytes per frame.
pub struct MonoVideo {
    pub data: Vec<u8>,
    pub width: u16,
    pub height: u16,
}

impl MonoVideo {
    pub fn new(data: Vec<u8>, width: u16, height: u16) -> (r: MonoVideo)
        ensures
            r.data == data,
            r.width == width,
            r.height == height,
    {
        MonoVideo { data, width, height }
    }

    /// Bytes per frame.
    pub fn frame_size(&self) -> (r: usize)
        ensures
            r == self.width as int * self.height as int,
    {
        proof {
            assert(self.width as int * self.height as int <= usize::MAX) by (nonlinear_arith)
                requires
                    self.width <= u16::MAX && self.height <= u16::MAX,
            ;
        }
        self.width as usize * self.height as usize
    }

    /// How many whole frames the buffer holds.
    pub fn len(&self) -> (r: usize)
        requires
            self.width as int * self.height as int > 0,
        ensures
            r == self.data@.len() as int / (self.width as int * self.height as int),
    {
        self.data.len() / self.frame_size()
    }

    /// The pixel bytes of frame `index`, when the buffer holds that frame
    /// in full.
    pub fn get_frame(&self, index: usize) -> (r: Option<&[u8]>)
        requires
            (index + 1) * (self.width as int * self.height as int) <= usize::MAX,
        ensures
            r is Some <==> (index + 1) * (self.width as int * self.height as int)
                <= self.data@.len(),
            r matches Some(s) ==> s@ == self.data@.subrange(index as int * (self.width as int
                * self.height as int), (index + 1) * (self.width as int * self.height as int)),
    {
        let fs: usize = self.frame_size();
        proof {
            assert(index as int * fs as int + fs as int == (index + 1) * fs as int)
                by (nonlinear_arith);
            assert(index as int * fs as int >= 0) by (nonlinear_arith)
                requires
                    index >= 0 && fs >= 0,
            ;
        }
        let start: usize = index * fs;
        let end: usize = start + fs;
        if end <= self.data.len() {
            Some(vstd::slice::slice_subrange(self.data.as_slice(), start, end))
        } else {
            None
        }
    }
}

} // verus!
