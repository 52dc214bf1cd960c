//! Captured frames: raw BGRA pixels read back from the GPU, and their
//! conversion to the RGBA order in which PNG files are written.

use vstd::prelude::*;

verus! {

/// Raw captured frame data.
pub struct CapturedFrame {
    /// Frame width in pixels.
    pub width: u32,
    /// Frame height in pixels.
    pub height: u32,
    /// BGRA8 pixel data, 4 bytes per pixel, row-major.
    pub data: Vec<u8>,
}

/// The position whose byte lands at position `i` when blue and red swap
/// places in each whole four-byte pixel; bytes of a trailing partial pixel
/// stay where they are.
pub open spec fn swapped_from(i: int, len: int) -> int {
    if i < len - len % 4 {
        if i % 4 == 0 {
            i + 2
        } else if i % 4 == 2 {
            i - 2
        } else {
            i
        }
    } else {
        i
    }
}

/// Converts BGRA pixels to RGBA by swapping the first and third byte of
/// every whole pixel (`chunks_exact_mut(4)` with `swap(0, 2)`).
pub fn bgra_to_rgba(data: &[u8]) -> (r: Vec<u8>)
    ensures
        r@.len() == data@.len(),
        forall|i: int| 0 <= i < data@.len() ==> #[trigger] r@[i] == data@[swapped_from(i, data@.len() as int)],
        forall|i: int|
            0 <= i && i % 4 == 0 && i + 4 <= data@.len() ==> {
                &&& #[trigger] r@[i] == data@[i + 2]
                &&& r@[i + 1] == data@[i + 1]
                &&& r@[i + 2] == data@[i]
                &&& r@[i + 3] == data@[i + 3]
            },
        forall|i: int| data@.len() - data@.len() % 4 <= i < data@.len() ==> #[trigger] r@[i] == data@[i],
{
    let n = data.len();
    let whole = n - n % 4;
    let mut r: Vec<u8> = Vec::new();
    for i in 0..n
        invariant
            n == data@.len(),
            whole == n - n % 4,
            r@.len() == i,
            forall|j: int| 0 <= j < i ==> #[trigger] r@[j] == data@[swapped_from(j, n as int)],
    {
        let src = if i < whole {
            if i % 4 == 0 {
                i + 2
            } else if i % 4 == 2 {
                i - 2
            } else {
                i
            }
        } else {
            i
        };
        proof {
            if i < whole && i % 4 == 0 {
                assert(i + 2 < whole) by (nonlinear_arith)
                    requires
                        i < whole,
                        i % 4 == 0,
                        whole % 4 == 0,
                ;
            }
            assert(whole % 4 == 0) by (nonlinear_arith)
                requires
                    whole == n - n % 4,
            ;
        }
        r.push(data[src]);
    }
    proof {
        assert forall|i: int| 0 <= i && i % 4 == 0 && i + 4 <= data@.len() implies {
            &&& #[trigger] r@[i] == data@[i + 2]
            &&& r@[i + 1] == data@[i + 1]
            &&& r@[i + 2] == data@[i]
            &&& r@[i + 3] == data@[i + 3]
        } by {
            lemma_whole_pixel_swapped(i, n as int);
            assert(r@[i] == data@[swapped_from(i, n as int)]);
            assert(r@[i + 1] == data@[swapped_from(i + 1, n as int)]);
            assert(r@[i + 2] == data@[swapped_from(i + 2, n as int)]);
            assert(r@[i + 3] == data@[swapped_from(i + 3, n as int)]);
        }
    }
    r
}

/// In every whole pixel, wherever it lies, the first and third bytes
/// change places and the other two stay.
pub proof fn lemma_whole_pixel_swapped(i: int, len: int)
    requires
        0 <= i,
        i % 4 == 0,
        i + 4 <= len,
    ensures
        swapped_from(i, len) == i + 2,
        swapped_from(i + 1, len) == i + 1,
        swapped_from(i + 2, len) == i,
        swapped_from(i + 3, len) == i + 3,
{
    let whole = len - len % 4;
    assert(i + 3 < whole) by (nonlinear_arith)
        requires
            whole == len - len % 4,
            i % 4 == 0,
            i + 4 <= len,
            i >= 0,
    ;
    assert((i + 1) % 4 == 1 && (i + 2) % 4 == 2 && (i + 3) % 4 == 3) by (nonlinear_arith)
        requires
            i % 4 == 0,
            i >= 0,
    ;
}

impl CapturedFrame {
    /// The frame's pixels in RGBA order, as a PNG encoder takes them.
    pub fn rgba_data(&self) -> (r: Vec<u8>)
        ensures
            r@.len() == self.data@.len(),
            forall|i: int| 0 <= i < self.data@.len() ==> #[trigger] r@[i] == self.data@[swapped_from(i, self.data@.len() as int)],
            forall|i: int|
                0 <= i && i % 4 == 0 && i + 4 <= self.data@.len() ==> {
                    &&& #[trigger] r@[i] == self.data@[i + 2]
                    &&& r@[i + 1] == self.data@[i + 1]
                    &&& r@[i + 2] == self.data@[i]
                    &&& r@[i + 3] == self.data@[i + 3]
                },
            forall|i: int| self.data@.len() - self.data@.len() % 4 <= i < self.data@.len() ==> #[trigger] r@[i] == self.data@[i],
    {
        bgra_to_rgba(self.data.as_slice())
    }
}

/// Converting twice gives the original bytes back: the conversion is its
/// own inverse.
pub proof fn lemma_swap_involution(i: int, len: int)
    requires
        0 <= i < len,
    ensures
        0 <= swapped_from(i, len) < len,
        swapped_from(swapped_from(i, len), len) == i,
{
    let whole = len - len % 4;
    assert(whole % 4 == 0 && whole <= len) by (nonlinear_arith)
        requires
            whole == len - len % 4,
            len > 0,
    ;
    if i < whole && i % 4 == 0 {
        assert(i + 2 < whole && (i + 2) % 4 == 2) by (nonlinear_arith)
            requires
                i < whole,
                i % 4 == 0,
                whole % 4 == 0,
                i >= 0,
        ;
    } else if i < whole && i % 4 == 2 {
        assert(i - 2 >= 0 && (i - 2) % 4 == 0) by (nonlinear_arith)
            requires
                i % 4 == 2,
                i >= 0,
        ;
    }
}

} // verus!
