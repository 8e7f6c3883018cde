//! Mask display support: re-encoding a decoded 8- or 16-bit-per-pixel
//! greyscale mask into the panel's packed native pixel layout, and the
//! built-in commissioning test patterns.
//!
//! A packed "chunk" holds `k` source pixels: `left_pad` unused high bits,
//! then one field per sub-pixel width, then `right_pad` unused low bits.
//! Chunks are emitted least-significant byte first.

use vstd::prelude::*;

use crate::error::OdysseyError;
use crate::error::ErrorType;

verus! {

/// Geometry and pixel layout of the panel, as configured per display.
#[derive(Clone, Debug)]
pub struct DisplayConfig {
    /// Device path of the frame-buffer; only the embedding binary opens it.
    pub frame_buffer: Vec<u8>,
    /// Ordered per-subpixel bit widths of one chunk.
    pub bit_depth: Vec<u8>,
    /// Unused bits above the first sub-pixel of a chunk.
    pub left_pad: u8,
    /// Unused bits below the last sub-pixel of a chunk.
    pub right_pad: u8,
    pub screen_width: u32,
    pub screen_height: u32,
}

/// Sum of the sub-pixel bit widths.
pub open spec fn widths_sum(ws: Seq<u8>) -> int
    decreases ws.len(),
{
    if ws.len() == 0 {
        0
    } else {
        ws[0] + widths_sum(ws.skip(1))
    }
}

/// Total bit size of one packed chunk.
pub open spec fn spec_chunk_size(ws: Seq<u8>, lp: u8, rp: u8) -> int {
    lp + widths_sum(ws) + rp
}

/// A pixel format the re-encoder accepts: at least one sub-pixel, a
/// source depth of 8 or 16 bits, no sub-pixel wider than the source, and
/// a chunk that is a positive multiple of 8 bits no wider than the 64-bit
/// accumulator.
pub open spec fn valid_format(ws: Seq<u8>, depth: u8, lp: u8, rp: u8) -> bool {
    &&& 1 <= ws.len()
    &&& (depth == 8 || depth == 16)
    &&& (forall|i: int| 0 <= i < ws.len() ==> 1 <= #[trigger] ws[i] <= depth)
    &&& spec_chunk_size(ws, lp, rp) % 8 == 0
    &&& 0 < spec_chunk_size(ws, lp, rp) <= 64
}

/// The accumulator value contributed by `pix` packed under widths `ws`,
/// where the field of the first sub-pixel ends at bit `shift0`.  Each
/// pixel is truncated to its width's high-order bits and shifted into
/// place, exactly as the packing rule prescribes.
pub open spec fn chunk_acc(pix: Seq<u8>, ws: Seq<u8>, depth: u8, shift0: int) -> u64
    decreases ws.len(),
{
    if ws.len() == 0 {
        0u64
    } else {
        let w = ws[0];
        let shift = shift0 - w;
        (((pix[0] as u64) >> ((depth - w) as u64)) << (shift as u64)) | chunk_acc(
            pix.skip(1),
            ws.skip(1),
            depth,
            shift,
        )
    }
}

/// The bytes one group of `k` source pixels contributes to the output:
/// the packed chunk, least-significant byte first.
pub open spec fn spec_group_bytes(pix: Seq<u8>, ws: Seq<u8>, depth: u8, lp: u8, rp: u8) -> Seq<
    u8,
> {
    let cs = spec_chunk_size(ws, lp, rp);
    let acc = chunk_acc(pix, ws, depth, cs - lp);
    Seq::new((cs / 8) as nat, |j: int| ((acc >> ((8 * j) as u64)) & 0xFF) as u8)
}

/// The packed form of a whole buffer: each complete group of `k` source
/// pixels becomes one chunk; a trailing partial group is dropped.
pub open spec fn spec_re_encode(input: Seq<u8>, ws: Seq<u8>, depth: u8, lp: u8, rp: u8) -> Seq<
    u8,
>
    decreases input.len(),
{
    let k = ws.len() as int;
    if k <= 0 || input.len() < k {
        Seq::empty()
    } else {
        spec_group_bytes(input.take(k), ws, depth, lp, rp) + spec_re_encode(
            input.skip(k),
            ws,
            depth,
            lp,
            rp,
        )
    }
}

/// Whether a format is the identity layout: a single sub-pixel as wide as
/// the source and no padding.  Such buffers pass through unchanged.
pub open spec fn is_passthrough(ws: Seq<u8>, depth: u8, lp: u8, rp: u8) -> bool {
    ws.len() == 1 && ws[0] == depth && lp == 0 && rp == 0
}

/// What the display encoder produces for a buffer: the buffer itself on
/// the identity layout, otherwise the packed re-encoding.
pub open spec fn spec_display_encode(
    input: Seq<u8>,
    ws: Seq<u8>,
    depth: u8,
    lp: u8,
    rp: u8,
) -> Seq<u8> {
    if is_passthrough(ws, depth, lp, rp) {
        input
    } else {
        spec_re_encode(input, ws, depth, lp, rp)
    }
}

proof fn lemma_or_zero(x: u64)
    by (bit_vector)
    ensures
        x | 0u64 == x,
        0u64 | x == x,
{
}

proof fn lemma_or_assoc(a: u64, b: u64, c: u64)
    by (bit_vector)
    ensures
        (a | b) | c == a | (b | c),
{
}

/// Sub-pixel widths bound the accumulator's bit count from above; this
/// justifies the shift counter never going negative.
proof fn lemma_widths_sum_bounds(ws: Seq<u8>, i: int)
    requires
        0 <= i < ws.len(),
    ensures
        widths_sum(ws) >= widths_sum(ws.skip(i + 1)) + ws[i],
        widths_sum(ws.skip(i)) == ws[i] + widths_sum(ws.skip(i + 1)),
        widths_sum(ws) >= widths_sum(ws.skip(i)),
    decreases i,
{
    assert(ws.skip(i).skip(1) =~= ws.skip(i + 1));
    if i == 0 {
        assert(ws.skip(0) =~= ws);
    } else {
        lemma_widths_sum_bounds(ws, i - 1);
    }
}

proof fn lemma_widths_sum_min(ws: Seq<u8>)
    requires
        forall|i: int| 0 <= i < ws.len() ==> 1 <= #[trigger] ws[i],
    ensures
        widths_sum(ws) >= ws.len(),
    decreases ws.len(),
{
    if ws.len() > 0 {
        assert(forall|i: int| 0 <= i < ws.skip(1).len() ==> #[trigger] ws.skip(1)[i] == ws[i + 1]);
        lemma_widths_sum_min(ws.skip(1));
    }
}

proof fn lemma_widths_sum_nonneg(ws: Seq<u8>)
    ensures
        widths_sum(ws) >= 0,
    decreases ws.len(),
{
    if ws.len() > 0 {
        lemma_widths_sum_nonneg(ws.skip(1));
    }
}

/// One step of packing: folding the next pixel's field into the
/// accumulator commutes with the specification's front-first recursion.
proof fn lemma_chunk_acc_step(pix: Seq<u8>, ws: Seq<u8>, depth: u8, shift0: int, i: int, acc: u64)
    requires
        0 <= i < ws.len(),
        pix.len() == ws.len(),
        chunk_acc(pix, ws, depth, shift0) == acc | chunk_acc(
            pix.skip(i),
            ws.skip(i),
            depth,
            shift0 - (widths_sum(ws) - widths_sum(ws.skip(i))),
        ),
    ensures
        chunk_acc(pix, ws, depth, shift0) == (acc | (((pix[i] as u64) >> ((depth - ws[i]) as u64))
            << ((shift0 - (widths_sum(ws) - widths_sum(ws.skip(i + 1)))) as u64))) | chunk_acc(
            pix.skip(i + 1),
            ws.skip(i + 1),
            depth,
            shift0 - (widths_sum(ws) - widths_sum(ws.skip(i + 1))),
        ),
{
    let si = shift0 - (widths_sum(ws) - widths_sum(ws.skip(i)));
    let si1 = shift0 - (widths_sum(ws) - widths_sum(ws.skip(i + 1)));
    lemma_widths_sum_bounds(ws, i);
    assert(pix.skip(i).skip(1) =~= pix.skip(i + 1));
    assert(ws.skip(i).skip(1) =~= ws.skip(i + 1));
    assert(pix.skip(i)[0] == pix[i]);
    assert(ws.skip(i)[0] == ws[i]);
    let piece = ((pix[i] as u64) >> ((depth - ws[i]) as u64)) << (si1 as u64);
    let rest = chunk_acc(pix.skip(i + 1), ws.skip(i + 1), depth, si1);
    assert(chunk_acc(pix.skip(i), ws.skip(i), depth, si) == piece | rest);
    lemma_or_assoc(acc, piece, rest);
}

/// The 64-bit word whose bits `lo..hi` are ones and all others zero.
pub open spec fn ones_in(lo: int, hi: int) -> u64 {
    if 0 <= lo < hi <= 64 {
        (u64::MAX >> ((64 - (hi - lo)) as u64)) << (lo as u64)
    } else {
        0u64
    }
}

proof fn lemma_piece_ones(w: u64, s0: u64)
    by (bit_vector)
    requires
        1 <= w <= 8,
        w <= s0 <= 64,
    ensures
        (0xFFu64 >> ((8 - w) as u64)) << ((s0 - w) as u64) == (u64::MAX >> ((64 - w) as u64)) << ((
        s0 - w) as u64),
{
}

proof fn lemma_ones_join(lo: u64, mid: u64, hi: u64)
    by (bit_vector)
    requires
        lo <= mid < hi <= 64,
    ensures
        ((u64::MAX >> ((64 - (hi - mid)) as u64)) << (mid as u64)) | (if lo < mid {
            (u64::MAX >> ((64 - (mid - lo)) as u64)) << (lo as u64)
        } else {
            0u64
        }) == (u64::MAX >> ((64 - (hi - lo)) as u64)) << (lo as u64),
{
}

proof fn lemma_ones_bytes(kk: u64, j: u64)
    by (bit_vector)
    requires
        1 <= kk <= 8,
        j < kk,
    ensures
        (((u64::MAX >> ((64 - 8 * kk) as u64)) << 0u64) >> ((8 * j) as u64)) & 0xFF == 0xFF,
{
}

/// Packing a group of all-ones pixels fills the bit range the group's
/// widths span.
proof fn lemma_chunk_acc_ones(pix: Seq<u8>, ws: Seq<u8>, s0: int)
    requires
        pix.len() == ws.len(),
        forall|i: int| 0 <= i < ws.len() ==> 1 <= #[trigger] ws[i] <= 8,
        forall|i: int| 0 <= i < pix.len() ==> #[trigger] pix[i] == 0xFF,
        widths_sum(ws) <= s0 <= 64,
    ensures
        chunk_acc(pix, ws, 8, s0) == ones_in(s0 - widths_sum(ws), s0),
    decreases ws.len(),
{
    lemma_widths_sum_nonneg(ws);
    if ws.len() == 0 {
        assert(ones_in(s0, s0) == 0);
    } else {
        let w = ws[0];
        let rest_ws = ws.skip(1);
        let rest_pix = pix.skip(1);
        lemma_widths_sum_nonneg(rest_ws);
        assert(widths_sum(ws) == w + widths_sum(rest_ws));
        assert(forall|i: int|
            0 <= i < rest_ws.len() ==> 1 <= #[trigger] rest_ws[i] <= 8 && rest_ws[i] == ws[i + 1]);
        assert(forall|i: int| 0 <= i < rest_pix.len() ==> #[trigger] rest_pix[i] == pix[i + 1]);
        lemma_chunk_acc_ones(rest_pix, rest_ws, s0 - w);
        lemma_piece_ones(w as u64, s0 as u64);
        let lo = s0 - widths_sum(ws);
        let mid = s0 - w;
        lemma_ones_join(lo as u64, mid as u64, s0 as u64);
        assert(chunk_acc(pix, ws, 8, s0) == (((pix[0] as u64) >> ((8 - w) as u64)) << ((s0
            - w) as u64)) | chunk_acc(rest_pix, rest_ws, 8, s0 - w));
        if lo < mid {
            assert(ones_in(lo, mid) == (u64::MAX >> ((64 - (mid - lo)) as u64)) << (lo as u64));
        } else {
            assert(ones_in(lo, mid) == 0);
        }
    }
}

/// On a format whose widths fill the chunk exactly with no padding, the
/// packed form of an all-ones 8-bit buffer is all ones of the same
/// length; induction over the groups.
proof fn lemma_re_encode_ones_rec(input: Seq<u8>, ws: Seq<u8>)
    requires
        valid_format(ws, 8, 0, 0),
        widths_sum(ws) == 8 * ws.len(),
        (input.len() as int) % (ws.len() as int) == 0,
        forall|i: int| 0 <= i < input.len() ==> #[trigger] input[i] == 0xFF,
    ensures
        spec_re_encode(input, ws, 8, 0, 0).len() == input.len(),
        forall|i: int|
            0 <= i < input.len() ==> #[trigger] spec_re_encode(input, ws, 8, 0, 0)[i] == 0xFF,
    decreases input.len(),
{
    let k = ws.len() as int;
    let out = spec_re_encode(input, ws, 8, 0, 0);
    if input.len() == 0 {
    } else {
        assert(input.len() >= k) by (nonlinear_arith)
            requires
                (input.len() as int) % k == 0,
                k >= 1,
                input.len() > 0,
        ;
        let pix = input.take(k);
        let rest = input.skip(k);
        let cs = spec_chunk_size(ws, 0, 0);
        assert(cs == widths_sum(ws));
        lemma_chunk_acc_ones(pix, ws, cs);
        let acc = chunk_acc(pix, ws, 8, cs);
        assert(acc == ones_in(0, 8 * k));
        let group = spec_group_bytes(pix, ws, 8, 0, 0);
        assert(group.len() == k);
        assert(forall|j: int| 0 <= j < k ==> #[trigger] group[j] == ((acc >> ((8 * j) as u64))
            & 0xFF) as u8);
        assert(1 <= k <= 8) by (nonlinear_arith)
            requires
                8 * k <= 64,
                k >= 1,
        ;
        assert forall|j: int| 0 <= j < k implies #[trigger] group[j] == 0xFF by {
            lemma_ones_bytes(k as u64, j as u64);
            assert(acc == ((u64::MAX >> ((64 - 8 * (k as u64)) as u64)) << 0u64));
        }
        assert((input.len() - k) % k == 0) by (nonlinear_arith)
            requires
                (input.len() as int) % k == 0,
                k >= 1,
                input.len() >= k,
        ;
        assert(forall|i: int| 0 <= i < rest.len() ==> #[trigger] rest[i] == input[i + k]);
        lemma_re_encode_ones_rec(rest, ws);
        assert(out == group + spec_re_encode(rest, ws, 8, 0, 0));
        assert(forall|i: int|
            0 <= i < input.len() ==> #[trigger] out[i] == if i < k {
                group[i]
            } else {
                spec_re_encode(rest, ws, 8, 0, 0)[i - k]
            });
    }
}

/// Law (re-encoder round trip): for any pixel format whose sub-pixel
/// widths satisfy `Σ W = 8 × k` with zero padding, encoding a buffer of
/// all-ones 8-bit pixels (a whole number of groups long) yields an
/// all-ones buffer of equal length.
pub proof fn lemma_re_encode_all_ones(input: Seq<u8>, ws: Seq<u8>)
    requires
        valid_format(ws, 8, 0, 0),
        widths_sum(ws) == 8 * ws.len(),
        (input.len() as int) % (ws.len() as int) == 0,
        forall|i: int| 0 <= i < input.len() ==> #[trigger] input[i] == 0xFF,
    ensures
        spec_display_encode(input, ws, 8, 0, 0).len() == input.len(),
        forall|i: int|
            0 <= i < input.len() ==> #[trigger] spec_display_encode(input, ws, 8, 0, 0)[i] == 0xFF,
{
    if !is_passthrough(ws, 8, 0, 0) {
        lemma_re_encode_ones_rec(input, ws);
    }
}

impl DisplayConfig {
    /// The format's chunk size in bits, needed by every encoding pass.
    pub fn chunk_size(&self) -> (r: u32)
        requires
            spec_chunk_size(self.bit_depth@, self.left_pad, self.right_pad) <= 64,
        ensures
            r == spec_chunk_size(self.bit_depth@, self.left_pad, self.right_pad),
    {
        proof {
            lemma_widths_sum_nonneg(self.bit_depth@);
        }
        let mut sum: u32 = (self.left_pad as u32) + (self.right_pad as u32);
        let mut i: usize = 0;
        let n = self.bit_depth.len();
        proof {
            assert(self.bit_depth@.skip(0) =~= self.bit_depth@);
        }
        while i < n
            invariant
                0 <= i <= n,
                n == self.bit_depth@.len(),
                spec_chunk_size(self.bit_depth@, self.left_pad, self.right_pad) <= 64,
                sum == self.left_pad + self.right_pad + widths_sum(self.bit_depth@) - widths_sum(
                    self.bit_depth@.skip(i as int),
                ),
            decreases n - i,
        {
            proof {
                lemma_widths_sum_bounds(self.bit_depth@, i as int);
                lemma_widths_sum_nonneg(self.bit_depth@.skip(i as int + 1));
            }
            sum = sum + (self.bit_depth[i] as u32);
            i = i + 1;
        }
        proof {
            assert(self.bit_depth@.skip(n as int) =~= Seq::<u8>::empty());
        }
        sum
    }
}

/// The display component: owns the panel configuration and prepares the
/// exact byte image the frame-buffer sink is handed.  The sink itself
/// (the memory-mapped device) lives with the embedding binary.
#[derive(Clone, Debug)]
pub struct PrintDisplay {
    pub config: DisplayConfig,
}

/// A buffer of `n` copies of one byte; the all-white and all-black
/// commissioning patterns are instances of it.
pub open spec fn spec_solid(n: nat, b: u8) -> Seq<u8> {
    Seq::new(n, |i: int| b)
}

/// Identifies a commissioning pattern.
#[derive(Clone, Copy, Debug, PartialEq, Eq, Structural)]
pub enum DisplayTest {
    White,
    Blank,
    Grid,
    Dimensions,
}

/// The narrowest sub-pixel width, which bounds the value range a
/// pattern can sweep; eight for an empty width list.
pub open spec fn spec_min_width(ws: Seq<u8>) -> u8
    decreases ws.len(),
{
    if ws.len() == 0 {
        8u8
    } else if ws.len() == 1 {
        ws[0]
    } else if ws[0] < spec_min_width(ws.skip(1)) {
        ws[0]
    } else {
        spec_min_width(ws.skip(1))
    }
}

proof fn lemma_min_width_char(ws: Seq<u8>)
    requires
        ws.len() >= 1,
    ensures
        exists|j: int| 0 <= j < ws.len() && ws[j] == spec_min_width(ws),
        forall|j: int| 0 <= j < ws.len() ==> spec_min_width(ws) <= #[trigger] ws[j],
    decreases ws.len(),
{
    if ws.len() == 1 {
        assert(ws[0] == spec_min_width(ws));
    } else {
        lemma_min_width_char(ws.skip(1));
        assert(forall|j: int| 0 <= j < ws.skip(1).len() ==> #[trigger] ws.skip(1)[j] == ws[j + 1]);
        let w = choose|j: int|
            0 <= j < ws.skip(1).len() && ws.skip(1)[j] == spec_min_width(ws.skip(1));
        if ws[0] < spec_min_width(ws.skip(1)) {
            assert(ws[0] == spec_min_width(ws));
        } else {
            assert(ws[w + 1] == spec_min_width(ws));
        }
        assert forall|j: int| 0 <= j < ws.len() implies spec_min_width(ws) <= #[trigger] ws[j] by {
            if j > 0 {
                assert(ws.skip(1)[j - 1] == ws[j]);
                assert(spec_min_width(ws.skip(1)) <= ws.skip(1)[j - 1]);
            }
        }
    }
}

/// The highest source value the sweep pattern reaches: one less than
/// two to the narrowest sub-pixel width, capped at the 8-bit source
/// range.
pub open spec fn spec_sweep_max(ws: Seq<u8>) -> u8 {
    let m = spec_min_width(ws);
    if m >= 8 {
        255u8
    } else {
        ((1u8 << m) - 1) as u8
    }
}

/// The diagonal-stripe commissioning pattern: bands of the given pixel
/// width, alternating white and black along the diagonals.
pub open spec fn spec_stripe_pattern(n: nat, width: int, stripe_width: int) -> Seq<u8> {
    Seq::new(
        n,
        |i: int|
            if (((i % width) + (i / width)) / stripe_width) % 2 == 0 {
                0xFFu8
            } else {
                0x00u8
            },
    )
}

/// The horizontal-sweep commissioning pattern: each row ramps from zero
/// up to `vmax` across the panel's width.
pub open spec fn spec_sweep_pattern(n: nat, width: int, vmax: u8) -> Seq<u8> {
    Seq::new(
        n,
        |i: int|
            if width <= 1 {
                vmax
            } else {
                (((i % width) * vmax) / (width - 1)) as u8
            },
    )
}

/// The source buffer of each commissioning pattern: all-white,
/// all-black, diagonal stripes, or the per-pixel value sweep.
pub open spec fn spec_test_pattern(cfg: DisplayConfig, test: DisplayTest, stripe_width: int) -> Seq<
    u8,
> {
    let n = (cfg.screen_width * cfg.screen_height) as nat;
    match test {
        DisplayTest::White => spec_solid(n, 0xFF),
        DisplayTest::Blank => spec_solid(n, 0x00),
        DisplayTest::Grid => spec_stripe_pattern(n, cfg.screen_width as int, stripe_width),
        DisplayTest::Dimensions => spec_sweep_pattern(
            n,
            cfg.screen_width as int,
            spec_sweep_max(cfg.bit_depth@),
        ),
    }
}

/// The stripe width the built-in test uses; `stripe_pattern` takes any.
pub const DEFAULT_STRIPE_WIDTH: u32 = 16;

impl PrintDisplay {
    /// Packs a decoded mask buffer into an arbitrary panel layout.
    /// This is the full encoding rule: groups of `k` pixels are truncated
    /// to their sub-pixel widths, ORed into a chunk between the pads, and
    /// emitted least-significant byte first; the identity layout passes
    /// the buffer through untouched.
    pub fn re_encode_format(
        image_buffer: Vec<u8>,
        image_bit_depth: u8,
        display_bit_depths: &Vec<u8>,
        left_pad: u8,
        right_pad: u8,
    ) -> (r: Vec<u8>)
        requires
            valid_format(display_bit_depths@, image_bit_depth, left_pad, right_pad),
        ensures
            r@ == spec_display_encode(
                image_buffer@,
                display_bit_depths@,
                image_bit_depth,
                left_pad,
                right_pad,
            ),
    {
        let ghost ws = display_bit_depths@;
        let ghost input = image_buffer@;
        let k = display_bit_depths.len();
        if k == 1 && display_bit_depths[0] == image_bit_depth && left_pad == 0 && right_pad == 0 {
            return image_buffer;
        }
        let cfg_probe = DisplayConfig {
            frame_buffer: Vec::new(),
            bit_depth: display_bit_depths.clone(),
            left_pad,
            right_pad,
            screen_width: 0,
            screen_height: 0,
        };
        proof {
            lemma_widths_sum_nonneg(ws);
        }
        let cs: u32 = cfg_probe.chunk_size();
        let n_bytes: u32 = cs / 8;
        let shift_start: u32 = cs - (left_pad as u32);
        let mut out: Vec<u8> = Vec::new();
        let mut g: usize = 0;
        let n_total: usize = image_buffer.len();
        proof {
            assert(input.skip(0) =~= input);
            assert(input.len() == n_total);
        }
        while image_buffer.len() - g >= k
            invariant
                0 <= g <= input.len(),
                input.len() <= usize::MAX,
                k == ws.len(),
                input == image_buffer@,
                valid_format(ws, image_bit_depth, left_pad, right_pad),
                ws == display_bit_depths@,
                cs == spec_chunk_size(ws, left_pad, right_pad),
                n_bytes == cs / 8,
                shift_start == cs - left_pad,
                out@ + spec_re_encode(input.skip(g as int), ws, image_bit_depth, left_pad, right_pad)
                    == spec_re_encode(input, ws, image_bit_depth, left_pad, right_pad),
            decreases input.len() - g,
        {
            let ghost pix = input.subrange(g as int, g as int + k as int);
            let mut acc: u64 = 0;
            let mut shift: u32 = shift_start;
            let mut i: usize = 0;
            proof {
                assert(pix.skip(0) =~= pix);
                assert(ws.skip(0) =~= ws);
                lemma_or_zero(chunk_acc(pix, ws, image_bit_depth, shift_start as int));
            }
            while i < k
                invariant
                    0 <= i <= k,
                    k == ws.len(),
                    pix.len() == k,
                    g + k <= input.len(),
                    input.len() <= usize::MAX,
                    input == image_buffer@,
                    pix == input.subrange(g as int, g as int + k as int),
                    valid_format(ws, image_bit_depth, left_pad, right_pad),
                    ws == display_bit_depths@,
                    shift_start == spec_chunk_size(ws, left_pad, right_pad) - left_pad,
                    shift == shift_start - (widths_sum(ws) - widths_sum(ws.skip(i as int))),
                    chunk_acc(pix, ws, image_bit_depth, shift_start as int) == acc | chunk_acc(
                        pix.skip(i as int),
                        ws.skip(i as int),
                        image_bit_depth,
                        shift as int,
                    ),
                decreases k - i,
            {
                proof {
                    lemma_widths_sum_bounds(ws, i as int);
                    lemma_widths_sum_nonneg(ws.skip(i as int + 1));
                    lemma_chunk_acc_step(pix, ws, image_bit_depth, shift_start as int, i as int, acc);
                }
                let w = display_bit_depths[i];
                let depth_difference: u8 = image_bit_depth - w;
                shift = shift - (w as u32);
                let shifted: u64 = ((image_buffer[g + i] as u64) >> (depth_difference as u64)) << (
                shift as u64);
                proof {
                    assert(pix[i as int] == input[g as int + i as int]);
                }
                acc = acc | shifted;
                i = i + 1;
            }
            proof {
                assert(pix.skip(k as int) =~= Seq::<u8>::empty());
                assert(ws.skip(k as int) =~= Seq::<u8>::empty());
                lemma_or_zero(acc);
                assert(acc == chunk_acc(pix, ws, image_bit_depth, shift_start as int));
            }
            let ghost out_before = out@;
            let mut j: u32 = 0;
            while j < n_bytes
                invariant
                    0 <= j <= n_bytes,
                    n_bytes <= 8,
                    out@ == out_before + Seq::new(
                        j as nat,
                        |m: int| ((acc >> ((8 * m) as u64)) & 0xFF) as u8,
                    ),
                decreases n_bytes - j,
            {
                let byte: u8 = ((acc >> ((8 * j) as u64)) & 0xFF) as u8;
                out.push(byte);
                proof {
                    assert(out@ =~= out_before + Seq::new(
                        (j + 1) as nat,
                        |m: int| ((acc >> ((8 * m) as u64)) & 0xFF) as u8,
                    ));
                }
                j = j + 1;
            }
            proof {
                let rest = input.skip(g as int);
                assert(rest.take(k as int) =~= pix);
                assert(rest.skip(k as int) =~= input.skip(g as int + k as int));
                assert(spec_re_encode(rest, ws, image_bit_depth, left_pad, right_pad)
                    == spec_group_bytes(pix, ws, image_bit_depth, left_pad, right_pad)
                    + spec_re_encode(
                    input.skip(g as int + k as int),
                    ws,
                    image_bit_depth,
                    left_pad,
                    right_pad,
                ));
                assert(out@ =~= out_before + spec_group_bytes(
                    pix,
                    ws,
                    image_bit_depth,
                    left_pad,
                    right_pad,
                ));
                assert(out@ + spec_re_encode(
                    input.skip(g as int + k as int),
                    ws,
                    image_bit_depth,
                    left_pad,
                    right_pad,
                ) =~= out_before + spec_re_encode(
                    input.skip(g as int),
                    ws,
                    image_bit_depth,
                    left_pad,
                    right_pad,
                ));
            }
            g = g + k;
        }
        proof {
            assert(spec_re_encode(
                input.skip(g as int),
                ws,
                image_bit_depth,
                left_pad,
                right_pad,
            ) =~= Seq::<u8>::empty());
            assert(out@ =~= out@ + Seq::<u8>::empty());
        }
        out
    }

    /// Packing with no pads, as the layer masks use it; kept as the entry
    /// point the unit tests exercise.
    pub fn _re_encode(
        image_buffer: Vec<u8>,
        image_bit_depth: u8,
        display_bit_depths: &Vec<u8>,
    ) -> (r: Vec<u8>)
        requires
            valid_format(display_bit_depths@, image_bit_depth, 0, 0),
        ensures
            r@ == spec_display_encode(image_buffer@, display_bit_depths@, image_bit_depth, 0, 0),
    {
        Self::re_encode_format(image_buffer, image_bit_depth, display_bit_depths, 0, 0)
    }

    /// Re-encodes a buffer for this display's configured layout.
    pub fn re_encode(&self, buffer: Vec<u8>, bit_depth: u8) -> (r: Vec<u8>)
        requires
            valid_format(self.config.bit_depth@, bit_depth, self.config.left_pad, self.config.right_pad),
        ensures
            r@ == spec_display_encode(
                buffer@,
                self.config.bit_depth@,
                bit_depth,
                self.config.left_pad,
                self.config.right_pad,
            ),
    {
        Self::re_encode_format(
            buffer,
            bit_depth,
            &self.config.bit_depth,
            self.config.left_pad,
            self.config.right_pad,
        )
    }

    /// One source byte per panel pixel, all at the given level.
    fn solid_pattern(&self, level: u8) -> (r: Vec<u8>)
        requires
            self.config.screen_width * self.config.screen_height <= usize::MAX,
        ensures
            r@ == spec_solid((self.config.screen_width * self.config.screen_height) as nat, level),
    {
        let total: usize = (self.config.screen_width as usize) * (self.config.screen_height as usize);
        let mut v: Vec<u8> = Vec::new();
        let mut i: usize = 0;
        while i < total
            invariant
                0 <= i <= total,
                v@ =~= spec_solid(i as nat, level),
            decreases total - i,
        {
            v.push(level);
            i = i + 1;
        }
        proof {
            assert(v@ =~= spec_solid(total as nat, level));
        }
        v
    }

    /// The all-white commissioning pattern.
    pub fn display_test_white(&self) -> (r: Vec<u8>)
        requires
            self.config.screen_width * self.config.screen_height <= usize::MAX,
        ensures
            r@ == spec_solid((self.config.screen_width * self.config.screen_height) as nat, 0xFF),
    {
        self.solid_pattern(0xFF)
    }

    /// The all-black commissioning pattern.
    pub fn display_test_blank(&self) -> (r: Vec<u8>)
        requires
            self.config.screen_width * self.config.screen_height <= usize::MAX,
        ensures
            r@ == spec_solid((self.config.screen_width * self.config.screen_height) as nat, 0x00),
    {
        self.solid_pattern(0x00)
    }

    /// The narrowest configured sub-pixel width.
    fn min_width(&self) -> (r: u8)
        requires
            self.config.bit_depth@.len() >= 1,
        ensures
            r == spec_min_width(self.config.bit_depth@),
    {
        proof {
            lemma_min_width_char(self.config.bit_depth@);
        }
        let n = self.config.bit_depth.len();
        let mut m: u8 = self.config.bit_depth[0];
        let mut i: usize = 1;
        while i < n
            invariant
                1 <= i <= n,
                n == self.config.bit_depth@.len(),
                exists|j: int| 0 <= j < i && #[trigger] self.config.bit_depth@[j] == m,
                forall|j: int| 0 <= j < i ==> m <= #[trigger] self.config.bit_depth@[j],
            decreases n - i,
        {
            let w = self.config.bit_depth[i];
            if w < m {
                m = w;
            }
            i = i + 1;
        }
        proof {
            lemma_min_width_char(self.config.bit_depth@);
            let j = choose|j: int|
                0 <= j < n && #[trigger] self.config.bit_depth@[j] == m;
            let w = choose|j: int|
                0 <= j < n && self.config.bit_depth@[j] == spec_min_width(self.config.bit_depth@);
            assert(m <= self.config.bit_depth@[w]);
            assert(spec_min_width(self.config.bit_depth@) <= self.config.bit_depth@[j]);
        }
        m
    }

    /// The diagonal-stripe commissioning pattern, one source byte per
    /// pixel: bands `stripe_width` pixels wide alternate along the
    /// diagonals.
    pub fn stripe_pattern(&self, stripe_width: u32) -> (r: Vec<u8>)
        requires
            stripe_width >= 1,
            self.config.screen_width * self.config.screen_height <= usize::MAX,
        ensures
            r@ == spec_stripe_pattern(
                (self.config.screen_width * self.config.screen_height) as nat,
                self.config.screen_width as int,
                stripe_width as int,
            ),
    {
        let width = self.config.screen_width as usize;
        let height = self.config.screen_height as usize;
        let total: usize = width * height;
        let sw = stripe_width as usize;
        let mut v: Vec<u8> = Vec::new();
        let mut i: usize = 0;
        while i < total
            invariant
                0 <= i <= total,
                total == width * height,
                total == self.config.screen_width * self.config.screen_height,
                width == self.config.screen_width,
                sw == stripe_width,
                sw >= 1,
                v@ =~= spec_stripe_pattern(
                    i as nat,
                    self.config.screen_width as int,
                    stripe_width as int,
                ),
            decreases total - i,
        {
            proof {
                assert(width > 0) by (nonlinear_arith)
                    requires
                        i < total,
                        i >= 0,
                        total == width * height,
                ;
            }
            let x = i % width;
            let y = i / width;
            proof {
                assert(x + y <= i) by (nonlinear_arith)
                    requires
                        x == i % width,
                        y == i / width,
                        width >= 1,
                        i >= 0,
                ;
            }
            let level: u8 = if ((x + y) / sw) % 2 == 0 {
                0xFF
            } else {
                0x00
            };
            v.push(level);
            proof {
                assert(v@ =~= spec_stripe_pattern(
                    (i + 1) as nat,
                    self.config.screen_width as int,
                    stripe_width as int,
                ));
            }
            i = i + 1;
        }
        v
    }

    /// The horizontal-sweep commissioning pattern, one source byte per
    /// pixel: each row ramps from zero up to the highest value the
    /// narrowest sub-pixel can show.
    pub fn sweep_pattern(&self) -> (r: Vec<u8>)
        requires
            self.config.bit_depth@.len() >= 1,
            self.config.screen_width * self.config.screen_height <= usize::MAX,
        ensures
            r@ == spec_sweep_pattern(
                (self.config.screen_width * self.config.screen_height) as nat,
                self.config.screen_width as int,
                spec_sweep_max(self.config.bit_depth@),
            ),
    {
        let m = self.min_width();
        let vmax: u8 = if m >= 8 {
            255
        } else {
            proof {
                assert((1u8 << m) >= 1) by (bit_vector)
                    requires
                        m < 8,
                ;
            }
            (1u8 << m) - 1
        };
        let width = self.config.screen_width as usize;
        let height = self.config.screen_height as usize;
        let total: usize = width * height;
        let mut v: Vec<u8> = Vec::new();
        let mut i: usize = 0;
        while i < total
            invariant
                0 <= i <= total,
                total == width * height,
                total == self.config.screen_width * self.config.screen_height,
                width == self.config.screen_width,
                vmax == spec_sweep_max(self.config.bit_depth@),
                v@ =~= spec_sweep_pattern(
                    i as nat,
                    self.config.screen_width as int,
                    vmax,
                ),
            decreases total - i,
        {
            proof {
                assert(width > 0) by (nonlinear_arith)
                    requires
                        i < total,
                        i >= 0,
                        total == width * height,
                ;
            }
            let level: u8 = if width <= 1 {
                vmax
            } else {
                let x: u64 = (i % width) as u64;
                proof {
                    assert((x as int) * (vmax as int) <= 0xFF_FFFF_FFFF) by (nonlinear_arith)
                        requires
                            x <= 0xFFFF_FFFFu64,
                            vmax <= 0xFF,
                            x >= 0,
                            vmax >= 0,
                    ;
                    assert((x as int) * (vmax as int) / (width as int - 1) <= vmax)
                        by (nonlinear_arith)
                        requires
                            x <= width - 1,
                            width >= 2,
                            vmax >= 0,
                            x >= 0,
                    ;
                }
                ((x * (vmax as u64)) / ((width - 1) as u64)) as u8
            };
            v.push(level);
            proof {
                assert(v@ =~= spec_sweep_pattern(
                    (i + 1) as nat,
                    self.config.screen_width as int,
                    vmax,
                ));
            }
            i = i + 1;
        }
        v
    }

    /// The frame-buffer image of a commissioning pattern, re-encoded
    /// for this panel: all-white, all-black, diagonal stripes of the
    /// default width, or the horizontal value sweep.  Patterns are
    /// authored at 8 bits per pixel; `stripe_pattern` takes any width.
    pub fn display_test(&self, test: DisplayTest) -> (r: Vec<u8>)
        requires
            self.config.screen_width * self.config.screen_height <= usize::MAX,
            valid_format(self.config.bit_depth@, 8, self.config.left_pad, self.config.right_pad),
        ensures
            r@ == spec_display_encode(
                spec_test_pattern(self.config, test, DEFAULT_STRIPE_WIDTH as int),
                self.config.bit_depth@,
                8,
                self.config.left_pad,
                self.config.right_pad,
            ),
    {
        let test_bytes = match test {
            DisplayTest::White => self.display_test_white(),
            DisplayTest::Blank => self.display_test_blank(),
            DisplayTest::Grid => self.stripe_pattern(DEFAULT_STRIPE_WIDTH),
            DisplayTest::Dimensions => self.sweep_pattern(),
        };
        self.re_encode(test_bytes, 8)
    }
}

/// What decoding a PNG yields: the raw image buffer (one byte per
/// sample as the decoder emits it) and the bit depth when the bytes
/// are a decodable image, nothing otherwise; a function of the PNG
/// bytes alone.
pub uninterp spec fn png_decoded(data: Seq<u8>) -> Option<(Seq<u8>, u8)>;

/// Relies on `png::Decoder::new`, `Reader::read_info` and
/// `Reader::next_frame` over an in-memory buffer: decoding is a pure
/// function of the bytes, succeeding exactly on decodable images and
/// refusing everything else.
#[verifier::external_body]
fn decode_png(data: &[u8]) -> (r: Result<(Vec<u8>, u8), ()>)
    ensures
        r is Ok <==> png_decoded(data@) is Some,
        r is Ok ==> Some(((r->Ok_0).0@, (r->Ok_0).1)) == png_decoded(data@),
{
    let decoder = png::Decoder::new(std::io::Cursor::new(data));
    let mut reader = decoder.read_info().map_err(|_| ())?;
    let size = reader.output_buffer_size().ok_or(())?;
    let mut buffer = vec![0u8; size];
    let info = reader.next_frame(&mut buffer).map_err(|_| ())?;
    let depth = info.bit_depth as u8;
    buffer.truncate(info.buffer_size());
    Ok((buffer, depth))
}

/// One decoded mask ready for the panel: the layer's file name, its
/// decoded sample buffer, the exposure time, and the source bit depth.
#[derive(Clone, Debug)]
pub struct Frame {
    pub file_name: Vec<u8>,
    pub buffer: Vec<u8>,
    pub exposure_time_ms: u64,
    pub bit_depth: u8,
}

impl Frame {
    /// Decodes a layer's PNG bytes into a frame.  Exact: every
    /// decodable image becomes a frame carrying its decoded samples;
    /// bytes that are not a decodable PNG make the print invalid.
    pub fn from_vec(name: Vec<u8>, exposure_time_ms: u64, data: Vec<u8>) -> (r: Result<
        Frame,
        OdysseyError,
    >)
        ensures
            r is Ok <==> png_decoded(data@) is Some,
            match r {
                Ok(f) => {
                    &&& f.file_name@ == name@
                    &&& f.exposure_time_ms == exposure_time_ms
                    &&& Some((f.buffer@, f.bit_depth)) == png_decoded(data@)
                },
                Err(e) => e.error_type == ErrorType::PrintError,
            },
    {
        match decode_png(data.as_slice()) {
            Ok(decoded) => {
                let (buffer, bit_depth) = decoded;
                Ok(Frame { file_name: name, buffer, exposure_time_ms, bit_depth })
            },
            Err(_) => Err(OdysseyError::new(ErrorType::PrintError, name, 400)),
        }
    }

    /// The frame of a fetched layer: exactly when the layer exists and
    /// its bytes decode.
    pub fn from_layer(layer: Option<crate::printfile::Layer>) -> (r: Option<Frame>)
        ensures
            r is Some <==> layer is Some && png_decoded((layer->0).data@) is Some,
            match r {
                Some(f) => {
                    &&& f.file_name@ == (layer->0).file_name@
                    &&& f.exposure_time_ms == (layer->0).exposure_time_ms
                    &&& Some((f.buffer@, f.bit_depth)) == png_decoded((layer->0).data@)
                },
                None => true,
            },
    {
        match layer {
            Option::Some(l) => match Frame::from_vec(l.file_name, l.exposure_time_ms, l.data) {
                Ok(f) => Some(f),
                Err(_) => None,
            },
            Option::None => None,
        }
    }
}

impl DisplayConfig {
    /// Whether this panel layout accepts sources of the given depth;
    /// the embedding binary tests it before re-encoding a frame.
    pub fn valid_for(&self, depth: u8) -> (r: bool)
        ensures
            r == valid_format(self.bit_depth@, depth, self.left_pad, self.right_pad),
    {
        if self.bit_depth.len() == 0 {
            return false;
        }
        if depth != 8 && depth != 16 {
            return false;
        }
        let n = self.bit_depth.len();
        if n > 64 {
            proof {
                if valid_format(self.bit_depth@, depth, self.left_pad, self.right_pad) {
                    lemma_widths_sum_min(self.bit_depth@);
                }
            }
            return false;
        }
        let mut sum: u64 = 0;
        let mut i: usize = 0;
        proof {
            lemma_widths_sum_nonneg(self.bit_depth@);
            assert(self.bit_depth@.skip(0) =~= self.bit_depth@);
        }
        while i < n
            invariant
                0 <= i <= n,
                n == self.bit_depth@.len(),
                sum == widths_sum(self.bit_depth@) - widths_sum(self.bit_depth@.skip(i as int)),
                sum <= 255 * i,
                n <= 64,
                forall|j: int| 0 <= j < i ==> 1 <= #[trigger] self.bit_depth@[j] <= depth,
            decreases n - i,
        {
            let w = self.bit_depth[i];
            if w < 1 || w > depth {
                return false;
            }
            proof {
                lemma_widths_sum_bounds(self.bit_depth@, i as int);
                lemma_widths_sum_nonneg(self.bit_depth@.skip(i as int + 1));
                assert(sum + w <= 255 * (i + 1) && 255 * (i + 1) <= 255 * 64) by (nonlinear_arith)
                    requires
                        sum <= 255 * i,
                        w <= 255,
                        0 <= i,
                        i + 1 <= 64,
                ;
            }
            sum = sum + (w as u64);
            i = i + 1;
        }
        proof {
            assert(self.bit_depth@.skip(n as int) =~= Seq::<u8>::empty());
        }
        let cs: u64 = (self.left_pad as u64) + sum + (self.right_pad as u64);
        cs % 8 == 0 && 0 < cs && cs <= 64
    }
}

impl PrintDisplay {
    /// A display for the given panel configuration; the device itself
    /// is opened by the embedding binary.
    pub fn new(config: DisplayConfig) -> (r: PrintDisplay)
        ensures
            r.config == config,
    {
        PrintDisplay { config }
    }

    /// The panel image of a frame: its buffer re-encoded into this
    /// panel's layout, ready for the frame-buffer sink.
    pub fn display_frame(&self, frame: Frame) -> (r: Vec<u8>)
        requires
            valid_format(
                self.config.bit_depth@,
                frame.bit_depth,
                self.config.left_pad,
                self.config.right_pad,
            ),
        ensures
            r@ == spec_display_encode(
                frame.buffer@,
                self.config.bit_depth@,
                frame.bit_depth,
                self.config.left_pad,
                self.config.right_pad,
            ),
    {
        self.re_encode(frame.buffer, frame.bit_depth)
    }

    /// The panel image of a frame, with the layout tested first: a
    /// source depth the panel layout cannot take is refused rather than
    /// assumed.
    pub fn display_frame_checked(&self, frame: Frame) -> (r: Result<Vec<u8>, OdysseyError>)
        ensures
            match r {
                Ok(out) => {
                    &&& valid_format(
                        self.config.bit_depth@,
                        frame.bit_depth,
                        self.config.left_pad,
                        self.config.right_pad,
                    )
                    &&& out@ == spec_display_encode(
                        frame.buffer@,
                        self.config.bit_depth@,
                        frame.bit_depth,
                        self.config.left_pad,
                        self.config.right_pad,
                    )
                },
                Err(e) => {
                    &&& !valid_format(
                        self.config.bit_depth@,
                        frame.bit_depth,
                        self.config.left_pad,
                        self.config.right_pad,
                    )
                    &&& e.error_type == ErrorType::HardwareError
                },
            },
    {
        if self.config.valid_for(frame.bit_depth) {
            Ok(self.display_frame(frame))
        } else {
            Err(OdysseyError::hardware_error(frame.file_name, 500))
        }
    }
}

} // verus!
