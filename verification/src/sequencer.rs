//! The coordinate sequencer: a stateful cursor that visits every
//! `(x, y, channel)` position of a surface exactly once, channel fastest,
//! then x, then y. The k-th position visited has flat index k in the
//! surface's channel data, so the traversal is the identity on bit
//! positions.

use vstd::prelude::*;

use crate::error::Error;
use crate::surface::Surface;

verus! {

/// One position of the traversal: a pixel and one of its three channels.
#[derive(Debug, Clone, Copy, PartialEq, Eq, Structural)]
pub struct ImageCoordinate {
    pub x: u32,
    pub y: u32,
    pub channel: u8,
}

/// The position lies on a width x height surface.
pub open spec fn coord_valid(c: ImageCoordinate, width: int, height: int) -> bool {
    c.x < width && c.y < height && c.channel < 3
}

/// Flat index of the position in the surface's channel data.
pub open spec fn coord_flat(c: ImageCoordinate, width: int) -> int {
    (c.y as int * width + c.x as int) * 3 + c.channel as int
}

/// The k-th position of the traversal over a surface of the given width.
pub open spec fn coord_at(width: int, k: int) -> ImageCoordinate
    recommends
        0 < width,
        0 <= k,
{
    ImageCoordinate {
        x: (((k / 3) % width) as u32),
        y: (((k / 3) / width) as u32),
        channel: ((k % 3) as u8),
    }
}

/// The cursor over a surface's positions. Non-restartable: each `next`
/// yields one unvisited position; after the last one it reports
/// `ExhaustedSequence` and never wraps around.
pub struct ImageIterator {
    pub max_x: u32,
    pub max_y: u32,
    pub curr_x: u32,
    pub curr_y: u32,
    pub curr_channel: u8,
}

impl ImageIterator {
    /// Number of positions of the whole traversal: one per channel.
    pub open spec fn total(self) -> int {
        self.max_x as int * self.max_y as int * 3
    }

    /// How many positions have been yielded so far; equally, the flat index
    /// of the next position to be yielded.
    pub open spec fn offset(self) -> int {
        (self.curr_y as int * self.max_x as int + self.curr_x as int) * 3
            + self.curr_channel as int
    }

    /// The cursor is either at a position of the grid or one past the last
    /// pixel row, the exhausted state.
    pub open spec fn wf(self) -> bool {
        &&& self.total() <= usize::MAX
        &&& if self.curr_y < self.max_y {
            self.curr_x < self.max_x && self.curr_channel < 3
        } else {
            self.curr_y == self.max_y && self.curr_x == 0 && self.curr_channel == 0
        }
    }

    /// A cursor bound to the dimensions of `img_buf`, about to yield the
    /// first position.
    pub fn new(img_buf: &Surface) -> (r: ImageIterator)
        requires
            img_buf.wf(),
        ensures
            r.wf(),
            r.max_x == img_buf.width,
            r.max_y == img_buf.height,
            r.offset() == 0,
            r.total() == img_buf.data@.len(),
    {
        // Calling len() teaches the verifier that the surface's bit count
        // fits in a usize, as the cursor's invariant demands.
        let _bound: usize = img_buf.data.len();
        if img_buf.width == 0 || img_buf.height == 0 {
            ImageIterator {
                max_x: img_buf.width,
                max_y: img_buf.height,
                curr_x: 0,
                curr_y: img_buf.height,
                curr_channel: 0,
            }
        } else {
            ImageIterator {
                max_x: img_buf.width,
                max_y: img_buf.height,
                curr_x: 0,
                curr_y: 0,
                curr_channel: 0,
            }
        }
    }

    /// How many positions have been yielded so far, as a machine integer.
    pub fn position(&self) -> (r: usize)
        requires
            self.wf(),
        ensures
            r == self.offset(),
    {
        proof {
            lemma_offset_bounds(*self);
            let w = self.max_x as int;
            let x = self.curr_x as int;
            let y = self.curr_y as int;
            assert(0 <= y * w && y * w <= y * w + x) by (nonlinear_arith)
                requires
                    0 <= x,
                    0 <= y,
                    0 <= w,
            ;
        }
        (self.curr_y as usize * self.max_x as usize + self.curr_x as usize) * 3
            + self.curr_channel as usize
    }

    /// Yields the next unvisited position, or `ExhaustedSequence` once the
    /// whole surface has been traversed. The position yielded at offset k
    /// is `coord_at(max_x, k)`, whose flat index is k.
    pub fn next(&mut self) -> (r: Result<ImageCoordinate, Error>)
        requires
            old(self).wf(),
        ensures
            final(self).wf(),
            final(self).max_x == old(self).max_x,
            final(self).max_y == old(self).max_y,
            old(self).offset() < old(self).total() ==> (r matches Ok(c) && coord_valid(
                c,
                old(self).max_x as int,
                old(self).max_y as int,
            ) && coord_flat(c, old(self).max_x as int) == old(self).offset() && c == coord_at(
                old(self).max_x as int,
                old(self).offset(),
            ) && final(self).offset() == old(self).offset() + 1),
            old(self).offset() == old(self).total() ==> (r matches Err(e) && e
                == Error::ExhaustedSequence && *final(self) == *old(self)),
    {
        proof {
            lemma_offset_bounds(*old(self));
        }
        if self.curr_y >= self.max_y {
            return Err(Error::ExhaustedSequence);
        }
        let coordinate = ImageCoordinate {
            x: self.curr_x,
            y: self.curr_y,
            channel: self.curr_channel,
        };
        proof {
            let w = self.max_x as int;
            let x = self.curr_x as int;
            let y = self.curr_y as int;
            let ch = self.curr_channel as int;
            let k = (y * w + x) * 3 + ch;
            vstd::arithmetic::div_mod::lemma_fundamental_div_mod_converse(k, 3, y * w + x, ch);
            vstd::arithmetic::div_mod::lemma_fundamental_div_mod_converse(y * w + x, w, y, x);
            assert(coordinate == coord_at(w, k));
        }
        self.curr_channel = self.curr_channel + 1;
        if self.curr_channel >= 3 {
            self.curr_channel = 0;
            self.curr_x = self.curr_x + 1;
            if self.curr_x >= self.max_x {
                self.curr_x = 0;
                self.curr_y = self.curr_y + 1;
                proof {
                    let w = old(self).max_x as int;
                    let y = old(self).curr_y as int;
                    assert((y + 1) * w == y * w + w) by (nonlinear_arith);
                }
            }
        }
        Ok(coordinate)
    }
}

/// A cursor that is well formed sits between the start and the end of the
/// traversal, and is at the end exactly when its row has run out.
pub proof fn lemma_offset_bounds(it: ImageIterator)
    requires
        it.wf(),
    ensures
        0 <= it.offset() <= it.total(),
        (it.offset() == it.total()) <==> (it.curr_y == it.max_y),
{
    let w = it.max_x as int;
    let h = it.max_y as int;
    let x = it.curr_x as int;
    let y = it.curr_y as int;
    let ch = it.curr_channel as int;
    if y < h {
        assert(((y * w + x) * 3 + ch) < w * h * 3) by (nonlinear_arith)
            requires
                0 <= x < w,
                0 <= y < h,
                0 <= ch < 3,
        ;
    } else {
        assert((h * w + 0) * 3 + 0 == w * h * 3) by (nonlinear_arith);
    }
}

/// Traversal totality: over a width x height surface the k-th position
/// visited, `coord_at(width, k)`, is a valid position whose flat index is
/// exactly k. Hence the width*height*3 positions yielded before exhaustion
/// are pairwise distinct and cover the whole surface, and the last one is
/// `(width-1, height-1, 2)`.
pub proof fn lemma_traversal_totality(width: int, height: int)
    requires
        1 <= width <= u32::MAX,
        1 <= height <= u32::MAX,
    ensures
        forall|k: int|
            0 <= k < width * height * 3 ==> coord_valid(
                #[trigger] coord_at(width, k),
                width,
                height,
            ),
        forall|k: int|
            0 <= k < width * height * 3 ==> coord_flat(#[trigger] coord_at(width, k), width) == k,
        forall|k1: int, k2: int|
            0 <= k1 < width * height * 3 && 0 <= k2 < width * height * 3 && k1 != k2
                ==> coord_at(width, k1) != coord_at(width, k2),
        coord_at(width, width * height * 3 - 1) == (ImageCoordinate {
            x: (width - 1) as u32,
            y: (height - 1) as u32,
            channel: 2u8,
        }),
{
    assert forall|k: int| 0 <= k < width * height * 3 implies coord_valid(
        #[trigger] coord_at(width, k),
        width,
        height,
    ) && coord_flat(coord_at(width, k), width) == k by {
        lemma_coord_at_inverse(width, height, k);
    }
    assert forall|k1: int, k2: int|
        0 <= k1 < width * height * 3 && 0 <= k2 < width * height * 3 && k1
            != k2 implies coord_at(width, k1) != coord_at(width, k2) by {
        lemma_coord_at_inverse(width, height, k1);
        lemma_coord_at_inverse(width, height, k2);
    }
    let last = width * height * 3 - 1;
    assert(width * height * 3 >= 3) by (nonlinear_arith)
        requires
            width >= 1,
            height >= 1,
    ;
    lemma_coord_at_inverse(width, height, last);
    let c = ImageCoordinate { x: (width - 1) as u32, y: (height - 1) as u32, channel: 2u8 };
    assert(coord_flat(c, width) == last) by (nonlinear_arith)
        requires
            1 <= width <= u32::MAX,
            1 <= height <= u32::MAX,
            c.x == width - 1,
            c.y == height - 1,
            c.channel == 2,
            last == width * height * 3 - 1,
    ;
    lemma_coord_flat_at(width, height, c);
}

/// Each position of the grid is `coord_at` of its own flat index.
proof fn lemma_coord_flat_at(width: int, height: int, c: ImageCoordinate)
    requires
        1 <= width <= u32::MAX,
        1 <= height <= u32::MAX,
        coord_valid(c, width, height),
    ensures
        coord_at(width, coord_flat(c, width)) == c,
{
    let x = c.x as int;
    let y = c.y as int;
    let ch = c.channel as int;
    let k = (y * width + x) * 3 + ch;
    vstd::arithmetic::div_mod::lemma_fundamental_div_mod_converse(k, 3, y * width + x, ch);
    vstd::arithmetic::div_mod::lemma_fundamental_div_mod_converse(y * width + x, width, y, x);
}

/// `coord_at(width, k)` is valid and sits at flat index k.
proof fn lemma_coord_at_inverse(width: int, height: int, k: int)
    requires
        1 <= width <= u32::MAX,
        1 <= height <= u32::MAX,
        0 <= k < width * height * 3,
    ensures
        coord_valid(coord_at(width, k), width, height),
        coord_flat(coord_at(width, k), width) == k,
{
    let q = k / 3;
    let ch = k % 3;
    let x = q % width;
    let y = q / width;
    vstd::arithmetic::div_mod::lemma_fundamental_div_mod(k, 3);
    assert(0 <= ch < 3);
    assert(q < width * height) by (nonlinear_arith)
        requires
            k < width * height * 3,
            k == 3 * q + ch,
            0 <= ch < 3,
            width >= 1,
            height >= 1,
    ;
    vstd::arithmetic::div_mod::lemma_fundamental_div_mod(q, width);
    assert(0 <= x < width);
    assert(0 <= y) by (nonlinear_arith)
        requires
            q >= 0,
            width >= 1,
            q == width * y + x,
            0 <= x < width,
    ;
    assert(y < height) by (nonlinear_arith)
        requires
            q < width * height,
            q == width * y + x,
            0 <= x < width,
            0 <= y,
            width >= 1,
    ;
    assert((y * width + x) * 3 + ch == k) by (nonlinear_arith)
        requires
            k == 3 * q + ch,
            q == width * y + x,
    ;
}

} // verus!
