//! Pixels and the text of a plain PPM image.

use crate::scalar::{Scalar, ONE_RAW};
use crate::vec3::Vec3;
use vstd::prelude::*;

verus! {

/// The red, green and blue of a pixel.
#[derive(Clone, Copy, Debug, PartialEq, Eq, Structural)]
pub struct Pixel {
    pub r: u8,
    pub g: u8,
    pub b: u8,
}

/// The byte of one colour of a pixel, given the sum of what its samples
/// saw: the mean, its square root for a gamma of two, clamped between
/// zero and one and scaled to `0..=255`, rounded down.
pub open spec fn spec_channel_byte(sum: Scalar, samples: u32) -> u8 {
    let mean = sum.div(Scalar::from_int(samples as i64));
    let shade = mean.sqrt().clamp(Scalar::zero(), Scalar::one());
    ((shade.raw * 255) / (ONE_RAW as int)) as u8
}

/// The byte of one colour of a pixel, given the sum of what its samples saw.
#[verifier::when_used_as_spec(spec_channel_byte)]
pub fn channel_byte(sum: Scalar, samples: u32) -> (r: u8)
    ensures
        r == spec_channel_byte(sum, samples),
{
    let mean = sum.div(Scalar::from_int(samples as i64));
    let shade = mean.sqrt().clamp(Scalar::zero(), Scalar::one());
    ((shade.raw * 255) / ONE_RAW) as u8
}

impl Pixel {
    pub open spec fn spec_from_sum(sum: Vec3, samples: u32) -> Pixel {
        Pixel {
            r: channel_byte(sum.x, samples),
            g: channel_byte(sum.y, samples),
            b: channel_byte(sum.z, samples),
        }
    }

    /// The pixel for the sum of the colours that its samples saw.
    #[verifier::when_used_as_spec(spec_from_sum)]
    pub fn from_sum(sum: Vec3, samples: u32) -> (r: Pixel)
        ensures
            r == Pixel::spec_from_sum(sum, samples),
    {
        Pixel {
            r: channel_byte(sum.x, samples),
            g: channel_byte(sum.y, samples),
            b: channel_byte(sum.z, samples),
        }
    }
}

/// The decimal digits of `n`, as ASCII.
pub open spec fn decimal(n: nat) -> Seq<u8>
    decreases n,
{
    if n < 10 {
        seq![(48 + n) as u8]
    } else {
        decimal(n / 10).push((48 + n % 10) as u8)
    }
}

/// The three numbers of a pixel, with a space between them.
pub open spec fn pixel_text(pixel: Pixel) -> Seq<u8> {
    decimal(pixel.r as nat).push(32) + decimal(pixel.g as nat).push(32) + decimal(pixel.b as nat)
}

/// The header line: `P3`, the width, the height and the largest value of a
/// colour, 255.
pub open spec fn header(width: u32, height: u32) -> Seq<u8> {
    seq![80u8, 51u8, 32u8] + decimal(width as nat).push(32) + decimal(height as nat) + seq![
        32u8,
        50u8,
        53u8,
        53u8,
        10u8,
    ]
}

/// What follows the `n`-th pixel: a line feed after the last pixel of a
/// row, else a space.
pub open spec fn separator(width: u32, n: nat) -> u8 {
    if width > 0 && n % (width as nat) == 0 {
        10
    } else {
        32
    }
}

/// The text of the first `n` pixels, each followed by its separator.
pub open spec fn body(pixels: Seq<Pixel>, width: u32, n: nat) -> Seq<u8>
    decreases n,
{
    if n == 0 {
        Seq::empty()
    } else {
        body(pixels, width, (n - 1) as nat) + pixel_text(pixels[n - 1]).push(separator(width, n))
    }
}

/// The plain PPM image of the given pixels, row by row from the top, each
/// row from the left.
pub open spec fn spec_ppm_image(width: u32, height: u32, pixels: Seq<Pixel>) -> Seq<u8> {
    header(width, height) + body(pixels, width, pixels.len())
}

/// Appends the decimal digits of `n`.
pub fn push_decimal(out: &mut Vec<u8>, n: u32)
    ensures
        final(out)@ == old(out)@ + decimal(n as nat),
    decreases n,
{
    if n >= 10 {
        push_decimal(out, n / 10);
    }
    out.push(48 + (n % 10) as u8);
}

/// Appends the three numbers of a pixel, with a space between them.
pub fn push_pixel(out: &mut Vec<u8>, pixel: Pixel)
    ensures
        final(out)@ == old(out)@ + pixel_text(pixel),
{
    push_decimal(out, pixel.r as u32);
    out.push(32);
    push_decimal(out, pixel.g as u32);
    out.push(32);
    push_decimal(out, pixel.b as u32);
}

/// The plain PPM image of the given pixels: the header line, then the
/// pixels in order, those of a row on one line with a space between them.
pub fn ppm_image(width: u32, height: u32, pixels: &Vec<Pixel>) -> (out: Vec<u8>)
    ensures
        out@ == spec_ppm_image(width, height, pixels@),
{
    let mut out: Vec<u8> = Vec::new();
    out.push(80);
    out.push(51);
    out.push(32);
    push_decimal(&mut out, width);
    out.push(32);
    push_decimal(&mut out, height);
    out.push(32);
    out.push(50);
    out.push(53);
    out.push(53);
    out.push(10);
    assert(out@ =~= header(width, height));
    let mut i: usize = 0;
    while i < pixels.len()
        invariant
            i <= pixels.len(),
            out@ == header(width, height) + body(pixels@, width, i as nat),
        decreases pixels.len() - i,
    {
        let ghost before = out@;
        push_pixel(&mut out, pixels[i]);
        i += 1;
        if width > 0 && i % (width as usize) == 0 {
            out.push(10);
        } else {
            out.push(32);
        }
        assert(out@ =~= header(width, height) + body(pixels@, width, i as nat));
    }
    out
}

/// An image starts with the letters `P3` and a space.
pub proof fn lemma_ppm_magic(width: u32, height: u32, pixels: Seq<Pixel>)
    ensures
        spec_ppm_image(width, height, pixels).len() >= 3,
        spec_ppm_image(width, height, pixels).subrange(0, 3) == seq![80u8, 51u8, 32u8],
{
    assert(spec_ppm_image(width, height, pixels).subrange(0, 3) =~= seq![80u8, 51u8, 32u8]);
}

/// Whether a byte separates words: a space or a line feed.
pub open spec fn is_space(byte: u8) -> bool {
    byte == 32 || byte == 10
}

/// Whether no byte of a word separates words.
pub open spec fn no_space(word: Seq<u8>) -> bool {
    forall|i: int| 0 <= i < word.len() ==> !is_space(#[trigger] word[i])
}

/// Whether a text is empty or ends where a word ends.
pub open spec fn terminated(text: Seq<u8>) -> bool {
    text.len() == 0 || is_space(text.last())
}

/// How many bytes come before the first separator.
pub open spec fn first_word_len(text: Seq<u8>) -> nat
    decreases text.len(),
{
    if text.len() == 0 || is_space(text[0]) {
        0
    } else {
        1 + first_word_len(text.skip(1))
    }
}

/// The words of a text, each of which ends at the next separator or at
/// the end of the text.
pub open spec fn words(text: Seq<u8>) -> Seq<Seq<u8>>
    decreases text.len(),
{
    let k = first_word_len(text) as int;
    if text.len() == 0 {
        Seq::empty()
    } else if k >= text.len() {
        seq![text]
    } else {
        seq![text.subrange(0, k)] + words(text.skip(k + 1))
    }
}

/// The numbers of the first `n` pixels, three for each.
pub open spec fn numbers(pixels: Seq<Pixel>, n: nat) -> Seq<Seq<u8>>
    decreases n,
{
    if n == 0 {
        Seq::empty()
    } else {
        numbers(pixels, (n - 1) as nat) + seq![
            decimal(pixels[n - 1].r as nat),
            decimal(pixels[n - 1].g as nat),
            decimal(pixels[n - 1].b as nat),
        ]
    }
}

/// A decimal number is made of digits.
pub proof fn lemma_decimal_digits(n: nat)
    ensures
        decimal(n).len() >= 1,
        forall|i: int| 0 <= i < decimal(n).len() ==> 48 <= #[trigger] decimal(n)[i] <= 57,
        no_space(decimal(n)),
    decreases n,
{
    if n >= 10 {
        lemma_decimal_digits(n / 10);
    }
}

/// A text that ends with a separator has one after its first word.
proof fn lemma_terminated_has_word(text: Seq<u8>)
    requires
        text.len() > 0,
        is_space(text.last()),
    ensures
        first_word_len(text) < text.len(),
    decreases text.len(),
{
    if !is_space(text[0]) {
        assert(text.skip(1).last() == text.last());
        lemma_terminated_has_word(text.skip(1));
    }
}

/// What follows the separator after the first word does not change the
/// length of that word.
proof fn lemma_first_word_prefix(a: Seq<u8>, b: Seq<u8>)
    requires
        first_word_len(a) < a.len(),
    ensures
        first_word_len(a + b) == first_word_len(a),
    decreases a.len(),
{
    if !is_space(a[0]) {
        assert((a + b).skip(1) =~= a.skip(1) + b);
        lemma_first_word_prefix(a.skip(1), b);
    }
}

/// A word and its separator make a text of one word.
proof fn lemma_word(word: Seq<u8>, sep: u8)
    requires
        no_space(word),
        is_space(sep),
    ensures
        first_word_len(word.push(sep)) == word.len(),
        words(word.push(sep)) == seq![word],
    decreases word.len(),
{
    let text = word.push(sep);
    if word.len() > 0 {
        assert(text.skip(1) =~= word.skip(1).push(sep));
        assert(!is_space(word[0]));
        lemma_word(word.skip(1), sep);
    }
    assert(text.subrange(0, word.len() as int) =~= word);
    assert(text.skip(word.len() as int + 1) =~= Seq::<u8>::empty());
    assert(words(text) == seq![text.subrange(0, word.len() as int)] + words(
        text.skip(word.len() as int + 1),
    ));
    assert(seq![word] + Seq::<Seq<u8>>::empty() =~= seq![word]);
}

/// The words of two texts, of which the first ends where a word ends, are
/// the words of the first and then those of the second.
pub proof fn lemma_words_concat(a: Seq<u8>, b: Seq<u8>)
    requires
        terminated(a),
    ensures
        words(a + b) == words(a) + words(b),
    decreases a.len(),
{
    if a.len() == 0 {
        assert(a + b =~= b);
        assert(words(a) + words(b) =~= words(b));
    } else {
        lemma_terminated_has_word(a);
        lemma_first_word_prefix(a, b);
        let k = first_word_len(a) as int;
        let rest = a.skip(k + 1);
        assert((a + b).subrange(0, k) =~= a.subrange(0, k));
        assert((a + b).skip(k + 1) =~= rest + b);
        if rest.len() > 0 {
            assert(rest.last() == a.last());
        }
        lemma_words_concat(rest, b);
        assert(seq![a.subrange(0, k)] + (words(rest) + words(b)) =~= (seq![a.subrange(0, k)]
            + words(rest)) + words(b));
    }
}

/// The words of the text of a pixel and its separator are its three
/// numbers.
proof fn lemma_pixel_words(pixel: Pixel, sep: u8)
    requires
        is_space(sep),
    ensures
        words(pixel_text(pixel).push(sep)) == seq![
            decimal(pixel.r as nat),
            decimal(pixel.g as nat),
            decimal(pixel.b as nat),
        ],
{
    let r = decimal(pixel.r as nat);
    let g = decimal(pixel.g as nat);
    let b = decimal(pixel.b as nat);
    lemma_decimal_digits(pixel.r as nat);
    lemma_decimal_digits(pixel.g as nat);
    lemma_decimal_digits(pixel.b as nat);
    lemma_word(r, 32);
    lemma_word(g, 32);
    lemma_word(b, sep);
    lemma_words_concat(g.push(32), b.push(sep));
    lemma_words_concat(r.push(32), g.push(32) + b.push(sep));
    assert(pixel_text(pixel).push(sep) =~= r.push(32) + (g.push(32) + b.push(sep)));
    assert(seq![r] + (seq![g] + seq![b]) =~= seq![r, g, b]);
}

/// The text of the first `n` pixels ends where a word ends, and its words
/// are the numbers of those pixels.
proof fn lemma_body_words(pixels: Seq<Pixel>, width: u32, n: nat)
    ensures
        terminated(body(pixels, width, n)),
        words(body(pixels, width, n)) == numbers(pixels, n),
        numbers(pixels, n).len() == 3 * n,
    decreases n,
{
    if n > 0 {
        lemma_body_words(pixels, width, (n - 1) as nat);
        lemma_pixel_words(pixels[n - 1], separator(width, n));
        lemma_words_concat(
            body(pixels, width, (n - 1) as nat),
            pixel_text(pixels[n - 1]).push(separator(width, n)),
        );
    }
}

/// The words of an image are `P3`, the width, the height and `255`, and
/// then three numbers for each pixel, in order.
pub proof fn lemma_ppm_words(width: u32, height: u32, pixels: Seq<Pixel>)
    ensures
        words(spec_ppm_image(width, height, pixels)) == seq![
            seq![80u8, 51u8],
            decimal(width as nat),
            decimal(height as nat),
            seq![50u8, 53u8, 53u8],
        ] + numbers(pixels, pixels.len()),
        words(spec_ppm_image(width, height, pixels)).len() == 4 + 3 * pixels.len(),
{
    let magic = seq![80u8, 51u8];
    let w = decimal(width as nat);
    let h = decimal(height as nat);
    let top = seq![50u8, 53u8, 53u8];
    let text = body(pixels, width, pixels.len());
    lemma_decimal_digits(width as nat);
    lemma_decimal_digits(height as nat);
    lemma_body_words(pixels, width, pixels.len());
    lemma_word(magic, 32);
    lemma_word(w, 32);
    lemma_word(h, 32);
    lemma_word(top, 10);
    lemma_words_concat(top.push(10), text);
    lemma_words_concat(h.push(32), top.push(10) + text);
    lemma_words_concat(w.push(32), h.push(32) + (top.push(10) + text));
    lemma_words_concat(magic.push(32), w.push(32) + (h.push(32) + (top.push(10) + text)));
    assert(spec_ppm_image(width, height, pixels) =~= magic.push(32) + (w.push(32) + (h.push(32) + (
    top.push(10) + text))));
    assert(seq![magic] + (seq![w] + (seq![h] + (seq![top] + numbers(pixels, pixels.len()))))
        =~= seq![magic, w, h, top] + numbers(pixels, pixels.len()));
}

} // verus!
