//! Packing palette indices into bytes, the first pixel in the highest bits.

use vstd::prelude::*;
use vstd::arithmetic::power2::*;
use crate::depth::BitsPerPixel;

verus! {

/// The pixels `from .. to` of `pixels` read as one number in base
/// `bpp.radix()`, the first of them as its most significant digit.
pub open spec fn run_value(pixels: Seq<u8>, bpp: BitsPerPixel, from: int, to: int) -> nat
    decreases to - from,
{
    if to <= from {
        0
    } else {
        run_value(pixels, bpp, from, to - 1) * bpp.radix() + pixels[to - 1] as nat
    }
}

/// Where the pixels of byte `k` end: a whole byte further on, or where the
/// pixels end.
pub open spec fn run_end(pixels: Seq<u8>, bpp: BitsPerPixel, k: int) -> int {
    if (k + 1) * bpp.per_byte() <= pixels.len() {
        (k + 1) * bpp.per_byte()
    } else {
        pixels.len() as int
    }
}

/// Byte `k` of the packed pixels: the value of the pixels that fall into it.
/// A last byte that the pixels do not fill holds them in its low bits.
pub open spec fn packed_byte(pixels: Seq<u8>, bpp: BitsPerPixel, k: int) -> u8 {
    run_value(pixels, bpp, k * bpp.per_byte(), run_end(pixels, bpp, k)) as u8
}

/// The packed pixels: as many bytes as their bits take, each the value of
/// its run of pixels.
pub open spec fn packed(pixels: Seq<u8>, bpp: BitsPerPixel) -> Seq<u8> {
    Seq::new(bpp.bytes_for(pixels.len()), |k: int| packed_byte(pixels, bpp, k))
}

/// `base` with its front overwritten by `top`, as far as `base` reaches.
pub open spec fn overlay(base: Seq<u8>, top: Seq<u8>) -> Seq<u8> {
    Seq::new(
        base.len(),
        |k: int|
            if k < top.len() {
                top[k]
            } else {
                base[k]
            },
    )
}

/// Every pixel is an index that `bpp` can hold.
pub open spec fn fits_depth(pixels: Seq<u8>, bpp: BitsPerPixel) -> bool {
    forall|i: int| 0 <= i < pixels.len() ==> (#[trigger] pixels[i]) < bpp.radix()
}

/// The bytes that pixels take are the whole bytes they fill and one more for
/// a rest.
pub proof fn lemma_bytes_for(bpp: BitsPerPixel, pixels: nat)
    ensures
        bpp.bytes_for(pixels) == (pixels + bpp.per_byte() - 1) / bpp.per_byte() as int,
        pixels > 0 ==> bpp.bytes_for(pixels) == (pixels - 1) / bpp.per_byte() as int + 1,
        bpp.bytes_for(0) == 0,
        bpp.bytes_for(pixels) <= pixels,
{
}

/// A run does not depend on pixels that come after it.
pub proof fn lemma_run_value_push(pixels: Seq<u8>, last: u8, bpp: BitsPerPixel, from: int, to: int)
    requires
        0 <= from,
        to <= pixels.len(),
    ensures
        run_value(pixels.push(last), bpp, from, to) == run_value(pixels, bpp, from, to),
    decreases to - from,
{
    if to > from {
        lemma_run_value_push(pixels, last, bpp, from, to - 1);
    }
}

/// A run of pixels that fit the depth stays below the number of values that
/// its bits can hold.
pub proof fn lemma_run_value_bound(pixels: Seq<u8>, bpp: BitsPerPixel, from: int, to: int)
    requires
        0 <= from <= to <= pixels.len(),
        fits_depth(pixels, bpp),
    ensures
        run_value(pixels, bpp, from, to) < pow2(((to - from) * bpp.bits()) as nat),
    decreases to - from,
{
    lemma2_to64();
    if to > from {
        lemma_run_value_bound(pixels, bpp, from, to - 1);
        let below = run_value(pixels, bpp, from, to - 1);
        let width = ((to - 1 - from) * bpp.bits()) as nat;
        lemma_pow2_adds(width, bpp.bits());
        assert(bpp.radix() == pow2(bpp.bits()));
        assert(pixels[to - 1] < bpp.radix());
        assert(width + bpp.bits() == (to - from) * bpp.bits()) by (nonlinear_arith)
            requires
                width == (to - 1 - from) * bpp.bits(),
        ;
        assert(below * bpp.radix() + pixels[to - 1] < pow2(width) * bpp.radix())
            by (nonlinear_arith)
            requires
                below < pow2(width),
                pixels[to - 1] < bpp.radix(),
        ;
    }
}

/// A run within one byte is a byte.
pub proof fn lemma_run_value_byte(pixels: Seq<u8>, bpp: BitsPerPixel, from: int, to: int)
    requires
        0 <= from <= to <= pixels.len(),
        to - from <= bpp.per_byte(),
        fits_depth(pixels, bpp),
    ensures
        run_value(pixels, bpp, from, to) < 256,
{
    lemma_run_value_bound(pixels, bpp, from, to);
    lemma2_to64();
    let width = ((to - from) * bpp.bits()) as nat;
    assert(width <= 8);
    if width < 8 {
        lemma_pow2_strictly_increases(width, 8);
    }
}

/// Where the buffer is exactly as long as the packed pixels, the overlay is
/// the packed pixels.
pub proof fn lemma_overlay_exact(base: Seq<u8>, top: Seq<u8>)
    requires
        base.len() == top.len(),
    ensures
        overlay(base, top) == top,
{
    assert(overlay(base, top) =~= top);
}

/// Shifting the accumulator up by one pixel and putting an index into the
/// freed bits appends a digit, as long as nothing is shifted out.
proof fn lemma_shift_in(acc: u8, index: u8)
    ensures
        acc < 128 && index < 2 ==> ((acc << 1u8) | index) == acc * 2 + index,
        acc < 64 && index < 4 ==> ((acc << 2u8) | index) == acc * 4 + index,
{
    assert(acc < 128 && index < 2 ==> ((acc << 1u8) | index) == acc * 2 + index) by (bit_vector);
    assert(acc < 64 && index < 4 ==> ((acc << 2u8) | index) == acc * 4 + index) by (bit_vector);
}

/// Packs palette indices into a buffer of fixed length, a byte at a time.
///
/// The indices gather in an accumulator, the earlier ones in the higher bits.
/// A full accumulator is written to the next slot of the buffer when the next
/// index comes; what is left at the end is written by `finish`. A slot beyond
/// the end of the buffer is skipped, so that an empty buffer serves to count.
pub struct BitPacker {
    bpp: BitsPerPixel,
    out: Vec<u8>,
    acc: u8,
    filled: u8,
    slot: usize,
    pixels: Ghost<Seq<u8>>,
    given: Ghost<Seq<u8>>,
}

impl View for BitPacker {
    type V = Seq<u8>;

    /// The indices pushed so far.
    closed spec fn view(&self) -> Seq<u8> {
        self.pixels@
    }
}

impl BitPacker {
    /// The depth at which this packer packs.
    pub closed spec fn depth(&self) -> BitsPerPixel {
        self.bpp
    }

    /// The buffer as it was handed in.
    pub closed spec fn buffer(&self) -> Seq<u8> {
        self.given@
    }

    /// The accumulator, the slot counter and the buffer agree with the
    /// indices pushed so far.
    pub closed spec fn wf(&self) -> bool {
        let n = self.pixels@.len() as int;
        let per = self.bpp.per_byte() as int;
        &&& fits_depth(self.pixels@, self.bpp)
        &&& self.out@.len() == self.given@.len()
        &&& self.slot == (if n == 0 {
            0
        } else {
            (n - 1) / per
        })
        &&& self.filled == (n - self.slot * per) * self.bpp.bits()
        &&& self.acc == run_value(self.pixels@, self.bpp, self.slot * per, n)
        &&& forall|k: int|
            0 <= k < self.out@.len() ==> (#[trigger] self.out@[k]) == (if k < self.slot {
                packed_byte(self.pixels@, self.bpp, k)
            } else {
                self.given@[k]
            })
    }

    /// A packer at depth `bpp` that writes into `buffer`.
    pub fn new(bpp: BitsPerPixel, buffer: Vec<u8>) -> (r: BitPacker)
        ensures
            r.wf(),
            r@ == Seq::<u8>::empty(),
            r.depth() == bpp,
            r.buffer() == buffer@,
    {
        let r = BitPacker {
            bpp,
            given: Ghost(buffer@),
            out: buffer,
            acc: 0,
            filled: 0,
            slot: 0,
            pixels: Ghost(Seq::empty()),
        };
        proof {
            assert(r.pixels@.len() == 0);
            assert(r.slot * (bpp.per_byte() as int) == 0);
        }
        r
    }

    /// Takes the palette index of the next pixel.
    pub fn push(&mut self, index: u8)
        requires
            old(self).wf(),
            index < old(self).depth().radix(),
            old(self)@.len() < usize::MAX,
        ensures
            final(self).wf(),
            final(self)@ == old(self)@.push(index),
            final(self).depth() == old(self).depth(),
            final(self).buffer() == old(self).buffer(),
    {
        let ghost before = self.pixels@;
        let ghost after = before.push(index);
        let ghost n = before.len() as int;
        let ghost per = self.bpp.per_byte() as int;
        proof {
            assert(fits_depth(after, self.bpp));
            assert forall|k: int| 0 <= k && (k + 1) * per <= n implies packed_byte(
                after,
                self.bpp,
                k,
            ) == packed_byte(before, self.bpp, k) by {
                assert(k * per >= 0) by (nonlinear_arith)
                    requires
                        k >= 0,
                        per >= 0,
                ;
                lemma_run_value_push(before, index, self.bpp, k * per, (k + 1) * per);
            }
        }
        if self.filled == 8 {
            proof {
                assert(n == (self.slot + 1) * per) by (nonlinear_arith)
                    requires
                        8 == (n - self.slot * per) * self.bpp.bits(),
                        per * self.bpp.bits() == 8,
                        per > 0,
                ;
                lemma_run_value_byte(before, self.bpp, self.slot * per, n);
            }
            if self.slot < self.out.len() {
                self.out[self.slot] = self.acc;
            }
            self.slot += 1;
            self.acc = 0;
            self.filled = 0;
        }
        let ghost start = self.slot * per;
        proof {
            assert(0 <= start <= n && n - start < per && self.slot == n / per) by {
                match self.bpp {
                    BitsPerPixel::One => {},
                    BitsPerPixel::Two => {},
                }
            }
            assert(self.acc == run_value(before, self.bpp, start, n));
            lemma_run_value_bound(before, self.bpp, start, n);
            lemma_run_value_push(before, index, self.bpp, start, n);
            lemma2_to64();
            lemma_shift_in(self.acc, index);
        }
        match self.bpp {
            BitsPerPixel::One => {
                proof {
                    if n - start < 7 {
                        lemma_pow2_strictly_increases((n - start) as nat, 7);
                    }
                }
                self.acc = (self.acc << 1u8) | index;
                self.filled += 1;
            },
            BitsPerPixel::Two => {
                proof {
                    if (n - start) * 2 < 6 {
                        lemma_pow2_strictly_increases(((n - start) * 2) as nat, 6);
                    }
                }
                self.acc = (self.acc << 2u8) | index;
                self.filled += 2;
            },
        }
        self.pixels = Ghost(after);
    }

    /// Writes what is left in the accumulator and hands the buffer back: its
    /// front now holds the packed pixels, as far as it reaches.
    pub fn finish(self) -> (r: Vec<u8>)
        requires
            self.wf(),
        ensures
            r@ == overlay(self.buffer(), packed(self@, self.depth())),
    {
        let mut out = self.out;
        let ghost n = self.pixels@.len() as int;
        let ghost per = self.bpp.per_byte() as int;
        proof {
            lemma_bytes_for(self.bpp, n as nat);
            match self.bpp {
                BitsPerPixel::One => {},
                BitsPerPixel::Two => {},
            }
            if n > 0 {
                lemma_run_value_byte(self.pixels@, self.bpp, self.slot * per, n);
            }
        }
        if self.filled > 0 && self.slot < out.len() {
            out[self.slot] = self.acc;
        }
        proof {
            assert(out@ =~= overlay(self.given@, packed(self.pixels@, self.bpp)));
        }
        out
    }
}

} // verus!
