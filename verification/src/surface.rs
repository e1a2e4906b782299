//! The pixel surface: a mutable 2-D grid of 3-channel pixels, stored
//! row-major with the channels of each pixel adjacent. Channel `c` of the
//! pixel at `(x, y)` lives at flat index `(y*width + x)*3 + c`, so the flat
//! index of a channel equals its position in the traversal order.

use vstd::prelude::*;

use crate::bits::set_lsb;

verus! {

/// A width x height grid of 3-channel pixels, one byte per channel.
pub struct Surface {
    pub width: u32,
    pub height: u32,
    pub data: Vec<u8>,
}

impl Surface {
    /// The structural invariant: one byte per channel, three channels per
    /// pixel, row-major.
    pub open spec fn wf(self) -> bool {
        self.data@.len() == self.width as int * self.height as int * 3
    }

    /// Flat index of channel `channel` of the pixel at `(x, y)`.
    pub open spec fn flat_index(self, x: u32, y: u32, channel: u8) -> int {
        (y as int * self.width as int + x as int) * 3 + channel as int
    }

    /// Builds a surface from raw channel data; refuses data whose length
    /// does not match the dimensions.
    pub fn new(width: u32, height: u32, data: Vec<u8>) -> (r: Option<Surface>)
        ensures
            data@.len() == width as int * height as int * 3 ==> (r matches Some(s) && s.width
                == width && s.height == height && s.data@ == data@ && s.wf()),
            data@.len() != width as int * height as int * 3 ==> r is None,
    {
        proof {
            assert((width as int) * (height as int) < 0x10000000000000000) by (nonlinear_arith)
                requires
                    width as int <= 0xffffffff,
                    height as int <= 0xffffffff,
            ;
        }
        let wh: u64 = (width as u64) * (height as u64);
        let len: usize = data.len();
        if wh > u64::MAX / 3 {
            proof {
                assert(wh * 3 > u64::MAX) by (nonlinear_arith)
                    requires
                        wh > u64::MAX / 3,
                ;
            }
            return None;
        }
        let need: u64 = wh * 3;
        if (len as u64) == need {
            Some(Surface { width, height, data })
        } else {
            None
        }
    }

    /// Total usable bits: one LSB per channel position, width*height*3 in
    /// all. Equal to the length of the flat channel data.
    pub fn capacity_bits(&self) -> (r: usize)
        requires
            self.wf(),
        ensures
            r == self.width as int * self.height as int * 3,
            r == self.data@.len(),
    {
        self.data.len()
    }

    /// Sets the least significant bit of the addressed channel to `bit`,
    /// leaving the channel's upper seven bits untouched, and no other
    /// channel on the surface.
    pub fn write_bit(&mut self, x: u32, y: u32, channel: u8, bit: u8)
        requires
            old(self).wf(),
            x < old(self).width,
            y < old(self).height,
            channel < 3,
            bit <= 1,
        ensures
            final(self).wf(),
            final(self).width == old(self).width,
            final(self).height == old(self).height,
            final(self).data@ == old(self).data@.update(
                old(self).flat_index(x, y, channel),
                set_lsb(old(self).data@[old(self).flat_index(x, y, channel)], bit),
            ),
            final(self).data@[old(self).flat_index(x, y, channel)] & 1 == bit,
            (final(self).data@[old(self).flat_index(x, y, channel)] >> 1) == (
            old(self).data@[old(self).flat_index(x, y, channel)] >> 1),
    {
        proof {
            let w = old(self).width as int;
            let h = old(self).height as int;
            assert(((y as int * w + x as int) * 3 + (channel as int)) < w * h * 3)
                by (nonlinear_arith)
                requires
                    x < w,
                    y < h,
                    channel < 3,
            ;
        }
        // Calling len() teaches the verifier that the flat data fits in a
        // usize, which bounds the index arithmetic below.
        let _bound: usize = self.data.len();
        let idx: usize = (y as usize * self.width as usize + x as usize) * 3 + channel as usize;
        let v: u8 = self.data[idx];
        self.data[idx] = (v & 0xfe) | bit;
        proof {
            crate::bits::lemma_set_lsb(v, bit);
        }
    }

    /// Returns the least significant bit of the addressed channel.
    pub fn read_bit(&self, x: u32, y: u32, channel: u8) -> (r: u8)
        requires
            self.wf(),
            x < self.width,
            y < self.height,
            channel < 3,
        ensures
            r == self.data@[self.flat_index(x, y, channel)] & 1,
            r <= 1,
    {
        proof {
            let w = self.width as int;
            let h = self.height as int;
            assert(((y as int * w + x as int) * 3 + (channel as int)) < w * h * 3)
                by (nonlinear_arith)
                requires
                    x < w,
                    y < h,
                    channel < 3,
            ;
        }
        // Calling len() teaches the verifier that the flat data fits in a
        // usize, which bounds the index arithmetic below.
        let _bound: usize = self.data.len();
        let idx: usize = (y as usize * self.width as usize + x as usize) * 3 + channel as usize;
        let b: u8 = self.data[idx];
        proof {
            assert(b & 1 <= 1) by (bit_vector);
        }
        b & 1
    }
}

} // verus!
