//! Byte-level conversions at the GPU boundary: screenshot readback,
//! SPIR-V words, and how much of a vertex list fits a mapped buffer.
use vstd::prelude::*;

verus! {

/// `s` with the first and third byte of every 4-byte pixel swapped, the
/// conversion between BGRA and RGBA.
pub open spec fn swap_red_blue(s: Seq<u8>) -> Seq<u8> {
    Seq::new(
        s.len(),
        |k: int|
            if k % 4 == 0 && k + 2 < s.len() {
                s[k + 2]
            } else if k % 4 == 2 {
                s[k - 2]
            } else {
                s[k]
            },
    )
}

/// The RGBA image of a `w` by `h` BGRA readback: the first `4 w h` bytes
/// of `raw` with red and blue swapped in every pixel.
pub fn bgra_to_rgba(raw: &[u8], w: u32, h: u32) -> (rgba: Vec<u8>)
    requires
        w * h * 4 <= u32::MAX,
        w * h * 4 <= raw@.len(),
    ensures
        rgba@ == swap_red_blue(raw@.subrange(0, w * h * 4)),
{
    let pixels: usize = (w * h) as usize;
    let n: usize = pixels * 4;
    let ghost src = raw@.subrange(0, n as int);
    let mut rgba: Vec<u8> = Vec::new();
    let mut i: usize = 0;
    while i < pixels
        invariant
            i <= pixels,
            n == pixels * 4,
            n <= raw@.len(),
            src == raw@.subrange(0, n as int),
            rgba@.len() == 4 * i,
            forall|k: int| 0 <= k < rgba@.len() ==> rgba@[k] == swap_red_blue(src)[k],
        decreases pixels - i,
    {
        let b: usize = 4 * i;
        rgba.push(raw[b + 2]);
        rgba.push(raw[b + 1]);
        rgba.push(raw[b]);
        rgba.push(raw[b + 3]);
        i += 1;
    }
    assert(rgba@ =~= swap_red_blue(src));
    rgba
}

/// Swapping red and blue twice gives the image back.
pub proof fn lemma_swap_red_blue_involution(s: Seq<u8>)
    requires
        s.len() % 4 == 0,
    ensures
        swap_red_blue(swap_red_blue(s)) == s,
{
    assert(swap_red_blue(swap_red_blue(s)) =~= s);
}

/// Swapping red and blue works pixel by pixel: each 4-byte pixel
/// `(b, g, r, a)` becomes `(r, g, b, a)`, and the image keeps its size.
pub proof fn lemma_swap_red_blue_pixels(s: Seq<u8>, p: int)
    requires
        s.len() % 4 == 0,
        0 <= p < s.len() / 4,
    ensures
        swap_red_blue(s).len() == s.len(),
        swap_red_blue(s).subrange(4 * p, 4 * p + 4) == seq![
            s[4 * p + 2],
            s[4 * p + 1],
            s[4 * p],
            s[4 * p + 3],
        ],
{
    let t = swap_red_blue(s);
    assert(4 * p + 4 <= s.len());
    assert((4 * p) % 4 == 0 && (4 * p + 1) % 4 == 1 && (4 * p + 2) % 4 == 2 && (4 * p + 3) % 4
        == 3);
    assert(t.subrange(4 * p, 4 * p + 4) =~= seq![s[4 * p + 2], s[4 * p + 1], s[4 * p], s[4 * p + 3]]);
}

/// The little-endian value of four bytes.
pub open spec fn le_word(b0: u8, b1: u8, b2: u8, b3: u8) -> int {
    b0 + 256 * b1 + 65536 * b2 + 16777216 * b3
}

/// A little-endian word gives its bytes back: the first byte is the
/// lowest, the last the highest, and the word fits in 32 bits.
pub proof fn lemma_le_word_bytes(b0: u8, b1: u8, b2: u8, b3: u8)
    ensures
        0 <= le_word(b0, b1, b2, b3) <= u32::MAX,
        le_word(b0, b1, b2, b3) % 256 == b0,
        (le_word(b0, b1, b2, b3) / 256) % 256 == b1,
        (le_word(b0, b1, b2, b3) / 65536) % 256 == b2,
        le_word(b0, b1, b2, b3) / 16777216 == b3,
{
    let w = le_word(b0, b1, b2, b3);
    assert(w == b0 + 256 * (b1 + 256 * (b2 + 256 * b3)));
    vstd::arithmetic::div_mod::lemma_fundamental_div_mod_converse(
        w,
        256,
        b1 + 256 * (b2 + 256 * b3),
        b0 as int,
    );
    let w1 = b1 + 256 * (b2 + 256 * b3);
    vstd::arithmetic::div_mod::lemma_fundamental_div_mod_converse(w1, 256, b2 + 256 * b3, b1 as int);
    let w2 = b2 + 256 * b3;
    vstd::arithmetic::div_mod::lemma_fundamental_div_mod_converse(w2, 256, b3 as int, b2 as int);
    vstd::arithmetic::div_mod::lemma_div_denominator(w, 256, 256);
    vstd::arithmetic::div_mod::lemma_div_denominator(w, 65536, 256);
}

/// The 32-bit words of a SPIR-V module, read little-endian from every full
/// group of four bytes; a trailing partial group is ignored.
pub fn spirv_words(spv: &[u8]) -> (words: Vec<u32>)
    ensures
        words@.len() == spv@.len() / 4,
        forall|i: int|
            0 <= i < words@.len() ==> words@[i] == le_word(
                spv@[4 * i],
                spv@[4 * i + 1],
                spv@[4 * i + 2],
                spv@[4 * i + 3],
            ),
{
    let len: usize = spv.len();
    let count: usize = len / 4;
    assert(4 * count <= len);
    let mut words: Vec<u32> = Vec::new();
    let mut i: usize = 0;
    while i < count
        invariant
            i <= count,
            count == spv@.len() / 4,
            4 * count <= len,
            len == spv@.len(),
            words@.len() == i,
            forall|j: int|
                0 <= j < i ==> words@[j] == le_word(
                    spv@[4 * j],
                    spv@[4 * j + 1],
                    spv@[4 * j + 2],
                    spv@[4 * j + 3],
                ),
        decreases count - i,
    {
        let b: usize = 4 * i;
        let w: u32 = (spv[b] as u32) + 256 * (spv[b + 1] as u32) + 65536 * (spv[b + 2] as u32)
            + 16777216 * (spv[b + 3] as u32);
        words.push(w);
        i += 1;
    }
    words
}

/// The number of whole elements of `size` bytes that a mapped buffer of
/// `cap` bytes takes from a list of `n` elements: the list's bytes are cut
/// at the capacity, and the count is reported as a `u32` (wrapping, as the
/// draw call takes it).
pub fn uploaded_count(n: usize, size: usize, cap: usize) -> (c: u32)
    requires
        size > 0,
        n * size <= usize::MAX,
    ensures
        c == ((if n * size < cap {
            n * size
        } else {
            cap as int
        }) / (size as int)) as u32,
{
    let bytes: usize = n * size;
    let len: usize = if bytes < cap {
        bytes
    } else {
        cap
    };
    (len / size) as u32
}

} // verus!
