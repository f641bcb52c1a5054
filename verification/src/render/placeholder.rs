//! Placeholder textures: a solid colour with a touch of noise.
//!
//! The noise is a hash of the pixel's place, so the same call always makes the
//! same bytes.

use vstd::prelude::*;

verus! {

/// `a * b`, reduced to 64 bits.
pub open spec fn times(a: u64, b: u64) -> u64 {
    ((a * b) % 0x1_0000_0000_0000_0000) as u64
}

/// The hash of a pixel's place, before its sign is dropped.
pub open spec fn pixel_hash(x: u32, y: u32, size: u32) -> u64 {
    let h = 0x9e37_79b9_7f4a_7c15u64 ^ times(x as u64, 0x2545_f491_4f6c_dd1d) ^ times(
        y as u64,
        0x9e37_79b9_7f4a_7c15,
    ) ^ times(size as u64, 0xd1b5_4a32_d192_ed03);
    h ^ ((h << 27) | (h >> 37))
}

/// The distance from zero of the signed 64-bit number with the bits of `h`;
/// the least number, which has no counterpart, stays as it is.
pub open spec fn magnitude(h: u64) -> int {
    if h < 0x8000_0000_0000_0000 {
        h as int
    } else if h == 0x8000_0000_0000_0000 {
        -0x8000_0000_0000_0000
    } else {
        0x1_0000_0000_0000_0000 - h
    }
}

/// The noise of a pixel.
pub open spec fn spec_jitter(x: u32, y: u32, size: u32) -> int {
    magnitude(pixel_hash(x, y, size))
}

fn wrapping_times(a: u64, b: u64) -> (r: u64)
    ensures
        r == times(a, b),
{
    assert(a * b <= 0xffff_ffff_ffff_ffff * 0xffff_ffff_ffff_ffff) by (nonlinear_arith)
        requires
            0 <= a <= 0xffff_ffff_ffff_ffff,
            0 <= b <= 0xffff_ffff_ffff_ffff,
    ;
    let wide = (a as u128) * (b as u128);
    (wide % 0x1_0000_0000_0000_0000) as u64
}

/// A hash of the pixel's place, as a signed number without its sign.
pub fn jitter(x: u32, y: u32, size: u32) -> (r: i64)
    ensures
        r == spec_jitter(x, y, size),
{
    let mut h: u64 = 0x9e37_79b9_7f4a_7c15;
    h = h ^ wrapping_times(x as u64, 0x2545_f491_4f6c_dd1d);
    h = h ^ wrapping_times(y as u64, 0x9e37_79b9_7f4a_7c15);
    h = h ^ wrapping_times(size as u64, 0xd1b5_4a32_d192_ed03);
    h = h ^ ((h << 27) | (h >> 37));
    if h < 0x8000_0000_0000_0000 {
        h as i64
    } else if h == 0x8000_0000_0000_0000 {
        i64::MIN
    } else {
        (u64::MAX - h) as i64 + 1
    }
}

/// The remainder of `n` by `m` that has the sign of `n`.
pub open spec fn signed_rem(n: int, m: int) -> int {
    let d = if m < 0 {
        -m
    } else {
        m
    };
    if n >= 0 {
        n % d
    } else {
        -((-n) % d)
    }
}

/// How far the colour of a pixel is moved, cut to 32 bits: at most `amplitude`
/// either way, where that is not negative, unless the hash is the least number.
pub open spec fn nudge(x: u32, y: u32, size: u32, amplitude: int) -> int {
    ((signed_rem(spec_jitter(x, y, size), 2 * amplitude + 1) - amplitude) as i64) as i32 as int
}

/// A channel moved by `by` and kept in its range.
pub open spec fn nudged(channel: u8, by: int) -> u8 {
    if channel + by < 0 {
        0
    } else if channel + by > 255 {
        255
    } else {
        (channel + by) as u8
    }
}

/// The four bytes of a pixel. The last channel is not moved.
pub open spec fn pixel(base: [u8; 4], x: u32, y: u32, size: u32, amplitude: int) -> Seq<u8> {
    let by = nudge(x, y, size, amplitude);
    seq![nudged(base[0], by), nudged(base[1], by), nudged(base[2], by), base[3]]
}

/// The first `count` pixels of row `y`.
pub open spec fn pixel_row(base: [u8; 4], y: u32, size: u32, amplitude: int, count: nat) -> Seq<u8>
    decreases count,
{
    if count == 0 {
        Seq::empty()
    } else {
        pixel_row(base, y, size, amplitude, (count - 1) as nat) + pixel(
            base,
            (count - 1) as u32,
            y,
            size,
            amplitude,
        )
    }
}

/// The first `rows` rows of pixels.
pub open spec fn pixel_rows(base: [u8; 4], size: u32, amplitude: int, rows: nat) -> Seq<u8>
    decreases rows,
{
    if rows == 0 {
        Seq::empty()
    } else {
        pixel_rows(base, size, amplitude, (rows - 1) as nat) + pixel_row(
            base,
            (rows - 1) as u32,
            size,
            amplitude,
            size as nat,
        )
    }
}

fn nudge_of(x: u32, y: u32, size: u32, amplitude: i32) -> (r: i32)
    ensures
        r == nudge(x, y, size, amplitude as int),
{
    let h = jitter(x, y, size);
    let odd: i64 = 2 * (amplitude as i64) + 1;
    let m: i64 = if odd < 0 {
        -odd
    } else {
        odd
    };
    let rem: i64 = if h >= 0 {
        h % m
    } else {
        let least: u64 = 0x8000_0000_0000_0000;
        -((least % (m as u64)) as i64)
    };
    (rem - amplitude as i64) as i32
}

fn nudge_channel(channel: u8, by: i32) -> (r: u8)
    ensures
        r == nudged(channel, by as int),
{
    let moved: i64 = channel as i64 + by as i64;
    if moved < 0 {
        0
    } else if moved > 255 {
        255
    } else {
        moved as u8
    }
}

/// An RGBA image of `size` by `size` pixels in the colour `base`, each pixel
/// made a little lighter or darker.
pub fn noisy_solid(base: [u8; 4], size: u32, amplitude: i32) -> (r: Vec<u8>)
    ensures
        r@ == pixel_rows(base, size, amplitude as int, size as nat),
{
    let mut out: Vec<u8> = Vec::new();
    let mut y: u32 = 0;
    while y < size
        invariant
            y <= size,
            out@ == pixel_rows(base, size, amplitude as int, y as nat),
        decreases size - y,
    {
        let ghost before = out@;
        let mut x: u32 = 0;
        assert(before + pixel_row(base, y, size, amplitude as int, 0) =~= before);
        while x < size
            invariant
                x <= size,
                    out@ == before + pixel_row(base, y, size, amplitude as int, x as nat),
            decreases size - x,
        {
            let by = nudge_of(x, y, size, amplitude);
            let ghost now = out@;
            out.push(nudge_channel(base[0], by));
            out.push(nudge_channel(base[1], by));
            out.push(nudge_channel(base[2], by));
            out.push(base[3]);
            assert(out@ =~= now + pixel(base, x, y, size, amplitude as int));
            x += 1;
            assert(out@ =~= before + pixel_row(base, y, size, amplitude as int, x as nat));
        }
        y += 1;
    }
    out
}

/// An image has four bytes per pixel.
pub proof fn law_image_size(base: [u8; 4], size: u32, amplitude: int)
    ensures
        pixel_rows(base, size, amplitude, size as nat).len() == 4 * (size * size),
{
    lemma_rows_size(base, size, amplitude, size as nat);
}

proof fn lemma_row_size(base: [u8; 4], y: u32, size: u32, amplitude: int, count: nat)
    ensures
        pixel_row(base, y, size, amplitude, count).len() == 4 * count,
    decreases count,
{
    if count > 0 {
        lemma_row_size(base, y, size, amplitude, (count - 1) as nat);
    }
}

proof fn lemma_rows_size(base: [u8; 4], size: u32, amplitude: int, rows: nat)
    ensures
        pixel_rows(base, size, amplitude, rows).len() == 4 * (size * rows),
    decreases rows,
{
    if rows > 0 {
        let less = (rows - 1) as nat;
        lemma_rows_size(base, size, amplitude, less);
        lemma_row_size(base, less as u32, size, amplitude, size as nat);
        assert(size * rows == size * less + size) by (nonlinear_arith)
            requires
                less + 1 == rows,
        ;
    } else {
        assert(size * 0 == 0) by (nonlinear_arith);
    }
}

/// A pixel strays from the base colour by at most the amplitude in each
/// channel, unless its hash is the least number.
pub proof fn law_noise_is_bounded(channel: u8, x: u32, y: u32, size: u32, amplitude: int)
    requires
        0 <= amplitude <= i32::MAX,
        spec_jitter(x, y, size) >= 0,
    ensures
        channel - amplitude <= nudged(channel, nudge(x, y, size, amplitude)) <= channel + amplitude,
{
    assert(0 <= spec_jitter(x, y, size) % (2 * amplitude + 1) < 2 * amplitude + 1)
        by (nonlinear_arith)
        requires
            amplitude >= 0,
    ;
}

proof fn lemma_row_pixel(base: [u8; 4], y: u32, size: u32, amplitude: int, count: nat, x: int)
    requires
        0 <= x < count,
    ensures
        pixel_row(base, y, size, amplitude, count).len() == 4 * count,
        pixel_row(base, y, size, amplitude, count).subrange(4 * x, 4 * x + 4) == pixel(
            base,
            x as u32,
            y,
            size,
            amplitude,
        ),
    decreases count,
{
    let less = (count - 1) as nat;
    let before = pixel_row(base, y, size, amplitude, less);
    let after = pixel_row(base, y, size, amplitude, count);
    lemma_row_size(base, y, size, amplitude, less);
    lemma_row_size(base, y, size, amplitude, count);
    if x < less {
        lemma_row_pixel(base, y, size, amplitude, less, x);
        assert(after.subrange(4 * x, 4 * x + 4) =~= before.subrange(4 * x, 4 * x + 4));
    } else {
        assert(after.subrange(4 * x, 4 * x + 4) =~= pixel(
            base,
            less as u32,
            y,
            size,
            amplitude,
        ));
    }
}

proof fn lemma_rows_pixel(base: [u8; 4], size: u32, amplitude: int, rows: nat, x: int, y: int)
    requires
        0 <= x < size,
        0 <= y < rows,
    ensures
        ({
            let at = 4 * (size * y + x);
            let image = pixel_rows(base, size, amplitude, rows);
            &&& 0 <= at
            &&& at + 4 <= image.len()
            &&& image.subrange(at, at + 4) == pixel(base, x as u32, y as u32, size, amplitude)
        }),
    decreases rows,
{
    let less = (rows - 1) as nat;
    let before = pixel_rows(base, size, amplitude, less);
    let last = pixel_row(base, less as u32, size, amplitude, size as nat);
    let after = pixel_rows(base, size, amplitude, rows);
    let at = 4 * (size * y + x);
    lemma_rows_size(base, size, amplitude, less);
    lemma_rows_size(base, size, amplitude, rows);
    assert(size * rows == size * less + size) by (nonlinear_arith)
        requires
            less + 1 == rows,
    ;
    assert(0 <= size * y) by (nonlinear_arith)
        requires
            0 <= y,
    ;
    if y < less {
        lemma_rows_pixel(base, size, amplitude, less, x, y);
        assert(after.subrange(at, at + 4) =~= before.subrange(at, at + 4));
    } else {
        lemma_row_pixel(base, less as u32, size, amplitude, size as nat, x);
        assert(y == less);
        assert(after.subrange(at, at + 4) =~= last.subrange(4 * x, 4 * x + 4));
    }
}

/// A placeholder has its pixels row by row. Each has the opacity of the base
/// colour, and all of its colours are moved by the same amount, which is at most
/// the amplitude unless its hash is the least number, and kept in their range.
pub proof fn law_placeholders_are_near_their_colour(
    base: [u8; 4],
    size: u32,
    amplitude: i32,
    image: Vec<u8>,
    x: u32,
    y: u32,
) -> (by: int)
    requires
        x < size,
        y < size,
        amplitude >= 0,
        call_ensures(noisy_solid, (base, size, amplitude), image),
    ensures
        image@.len() == 4 * (size * size),
        ({
            let at = 4 * (size * y + x);
            &&& 0 <= at
            &&& at + 4 <= image@.len()
            &&& image@[at + 3] == base[3]
            &&& forall|c: int|
                #![trigger base[c]]
                0 <= c < 3 ==> {
                    &&& 0 <= base[c] + by <= 255 ==> image@[at + c] == base[c] + by
                    &&& base[c] + by < 0 ==> image@[at + c] == 0
                    &&& base[c] + by > 255 ==> image@[at + c] == 255
                }
        }),
        spec_jitter(x, y, size) >= 0 ==> -amplitude <= by <= amplitude,
{
    law_image_size(base, size, amplitude as int);
    lemma_rows_pixel(base, size, amplitude as int, size as nat, x as int, y as int);
    let at = 4 * (size * y + x);
    let four = pixel(base, x, y, size, amplitude as int);
    assert(image@.subrange(at, at + 4)[0] == image@[at]);
    assert(image@.subrange(at, at + 4)[1] == image@[at + 1]);
    assert(image@.subrange(at, at + 4)[2] == image@[at + 2]);
    assert(image@.subrange(at, at + 4)[3] == image@[at + 3]);
    let by = nudge(x, y, size, amplitude as int);
    assert forall|c: int|
        #![trigger base[c]]
        0 <= c < 3 implies {
        &&& 0 <= base[c] + by <= 255 ==> image@[at + c] == base[c] + by
        &&& base[c] + by < 0 ==> image@[at + c] == 0
        &&& base[c] + by > 255 ==> image@[at + c] == 255
    } by {
        assert(four[c] == nudged(base[c], by));
        assert(image@[at + c] == four[c]);
    }
    if spec_jitter(x, y, size) >= 0 {
        let n = spec_jitter(x, y, size);
        let m = 2 * amplitude + 1;
        assert(0 <= n % m < m) by (nonlinear_arith)
            requires
                m > 0,
        ;
    }
    by
}

} // verus!
