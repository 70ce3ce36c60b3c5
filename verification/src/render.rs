//! From pixels to an image: the seed of a pixel's random stream and the
//! raster that the finished pixels are written to.

use vstd::prelude::*;
use vstd::arithmetic::div_mod::{lemma_basic_div, lemma_div_by_multiple, lemma_div_multiples_vanish_quotient};
use vstd::arithmetic::power2::{
    lemma2_to64,
    lemma_pow2_adds,
    lemma_pow2_pos,
    lemma_pow2_strictly_increases,
    pow2,
};
use rand_xoshiro::rand_core::SeedableRng;
use crate::scalar::{
    grade,
    lemma_grade_bounds,
    lemma_grade_order,
    power_of_two,
    Scalar,
    INFINITE,
    SIGN,
};

verus! {

/// The seed of pixel `(x, y)`: `x` in the upper half of the word, `y` in the
/// lower.
pub open spec fn pixel_seed_spec(x: u32, y: u32) -> u64 {
    (x as u64 * 0x1_0000_0000 + y as u64) as u64
}

/// The seed from which the random stream of pixel `(x, y)` starts. It depends
/// on the position alone, so a picture rendered twice comes out the same.
pub fn pixel_seed(x: u32, y: u32) -> (r: u64)
    ensures
        r == pixel_seed_spec(x, y),
        r == x * 0x1_0000_0000 + y,
{
    let hi: u64 = x as u64;
    let lo: u64 = y as u64;
    assert((hi << 32) | (lo & 0xffff_ffff) == hi * 0x1_0000_0000 + lo) by (bit_vector)
        requires
            hi <= 0xffff_ffff,
            lo <= 0xffff_ffff,
    ;
    (hi << 32) | (lo & 0xffff_ffff)
}

/// No two pixels share a seed.
pub proof fn lemma_seeds_differ(x1: u32, y1: u32, x2: u32, y2: u32)
    requires
        pixel_seed_spec(x1, y1) == pixel_seed_spec(x2, y2),
    ensures
        x1 == x2,
        y1 == y2,
{
}

/// `rand_xoshiro::Xoshiro256Plus`, a random number generator. It is carried
/// through as it is: nothing here looks at its state.
#[verifier::external_type_specification]
#[verifier::external_body]
pub struct ExXoshiro256Plus(rand_xoshiro::Xoshiro256Plus);

/// The generator that `Xoshiro256Plus::seed_from_u64` makes from `seed`.
pub uninterp spec fn seeded_spec(seed: u64) -> rand_xoshiro::Xoshiro256Plus;

/// `rand_xoshiro::Xoshiro256Plus::seed_from_u64`: the seed is stretched to the
/// generator's state by a fixed procedure, so the generator is a function of
/// the seed. Nothing is claimed of the numbers it goes on to yield.
#[verifier::external_body]
fn seeded(seed: u64) -> (rng: rand_xoshiro::Xoshiro256Plus)
    ensures
        rng == seeded_spec(seed),
{
    rand_xoshiro::Xoshiro256Plus::seed_from_u64(seed)
}

/// The random stream of pixel `(x, y)`, at its start. Each pixel has a stream
/// of its own, made from its seed, so pixels can be rendered in any order and
/// a picture rendered twice comes out the same.
pub fn pixel_rng(x: u32, y: u32) -> (rng: rand_xoshiro::Xoshiro256Plus)
    ensures
        rng == seeded_spec(pixel_seed_spec(x, y)),
{
    seeded(pixel_seed(x, y))
}

/// The whole pixels in a length: the length rounded down, nothing for what is
/// negative or no number, and the greatest count there is for what exceeds
/// it. The value of `length` is `length.value() / 2^149`.
pub open spec fn extent_spec(length: Scalar) -> int {
    if length.nan() || length.value() <= 0 {
        0
    } else if length.value() >= pow2(181) {
        0xffff_ffff
    } else {
        length.value() / (pow2(149) as int)
    }
}

/// The number of pixels along a side of the picture whose length, at the
/// resolution asked for, is `length` pixels: the whole part of `length`.
pub fn extent(length: Scalar) -> (r: u32)
    ensures
        r == extent_spec(length),
{
    let m: u32 = length.bits % SIGN;
    proof {
        lemma_grade_order(m as nat, 0);
    }
    if length.bits >= SIGN || m > INFINITE || m == 0 {
        return 0;
    }
    let e: u32 = m / 0x80_0000;
    let f: u32 = m % 0x80_0000;
    proof {
        lemma_grade_bounds(m as nat);
        lemma2_to64();
        lemma_pow2_adds(23, 126);
        lemma_pow2_adds(23, 158);
    }
    if e < 127 {
        proof {
            if e < 126 {
                lemma_pow2_strictly_increases(e as nat, 126);
            }
            assert(0x80_0000 * pow2(e as nat) <= 0x80_0000 * pow2(126)) by (nonlinear_arith)
                requires
                    pow2(e as nat) <= pow2(126),
            ;
            lemma_pow2_strictly_increases(149, 181);
            lemma_basic_div(grade(m as nat) as int, pow2(149) as int);
        }
        return 0;
    }
    if e >= 159 {
        proof {
            if 158 < e - 1 {
                lemma_pow2_strictly_increases(158, (e - 1) as nat);
            }
            assert(0x80_0000 * pow2((e - 1) as nat) >= 0x80_0000 * pow2(158)) by (nonlinear_arith)
                requires
                    pow2((e - 1) as nat) >= pow2(158),
            ;
        }
        return 0xffff_ffff;
    }
    proof {
        if e < 158 {
            lemma_pow2_strictly_increases(e as nat, 158);
        }
        assert(0x80_0000 * pow2(e as nat) <= 0x80_0000 * pow2(158)) by (nonlinear_arith)
            requires
                pow2(e as nat) <= pow2(158),
        ;
    }
    let mantissa: u64 = 0x80_0000 + f as u64;
    if e >= 150 {
        let k: u32 = e - 150;
        let scale: u64 = power_of_two(k);
        proof {
            if k < 8 {
                lemma_pow2_strictly_increases(k as nat, 8);
            }
            lemma_pow2_adds(k as nat, 149);
            lemma_pow2_pos(149);
            assert(mantissa * scale <= 0xff_ffff * 0x100) by (nonlinear_arith)
                requires
                    mantissa <= 0xff_ffff,
                    scale <= 0x100,
            ;
            assert(mantissa * (scale * pow2(149)) == (mantissa * scale) * pow2(149))
                by (nonlinear_arith);
            lemma_div_by_multiple((mantissa * scale) as int, pow2(149) as int);
        }
        (mantissa * scale) as u32
    } else {
        let k: u32 = 150 - e;
        let scale: u64 = power_of_two(k);
        proof {
            let p: int = pow2((e - 1) as nat) as int;
            lemma_pow2_pos((e - 1) as nat);
            lemma_pow2_pos(k as nat);
            lemma_pow2_adds(k as nat, (e - 1) as nat);
            assert(mantissa * p == p * mantissa) by (nonlinear_arith);
            assert(scale * p == p * scale) by (nonlinear_arith);
            lemma_div_multiples_vanish_quotient(p, mantissa as int, scale as int);
        }
        (mantissa / scale) as u32
    }
}

/// Whether the samples of a picture of the given size can be held in one
/// vector: those of one row, and those of all rows, are no more than the
/// bytes a vector can have.
pub open spec fn holds_spec(width: u32, height: u32) -> bool {
    3 * width <= isize::MAX && 3 * (width * height) <= isize::MAX
}

/// The number of pixels of a picture of the given size, or nothing where the
/// samples of one row or of the whole picture, three to a pixel, are more than
/// a vector can hold. A row that is too long is refused also where there are
/// no rows.
pub fn pixel_count(width: u32, height: u32) -> (r: Option<u64>)
    ensures
        r.is_some() <==> holds_spec(width, height),
        match r {
            Some(n) => n == width * height,
            None => true,
        },
{
    let w: u64 = width as u64;
    let h: u64 = height as u64;
    assert(w * h <= 0xffff_ffff * 0xffff_ffff) by (nonlinear_arith)
        requires
            w <= 0xffff_ffff,
            h <= 0xffff_ffff,
    ;
    let count: u64 = w * h;
    let most: u64 = (isize::MAX / 3) as u64;
    if w > most || count > most {
        None
    } else {
        Some(count)
    }
}

/// Where the pixel with the given place in row-major order stands, in a
/// picture `width` wide.
pub open spec fn position_spec(width: u32, index: u64) -> (int, int) {
    (index as int % width as int, index as int / width as int)
}

/// The column and row of the pixel that is `index`-th in row-major order, in a
/// picture `width` wide and `height` high, or nothing where the picture has no
/// such pixel.
pub fn position(width: u32, height: u32, index: u64) -> (r: Option<(u32, u32)>)
    ensures
        r.is_some() <==> index < width * height,
        match r {
            Some((x, y)) => (x as int, y as int) == position_spec(width, index) && x < width && y
                < height && y * width + x == index,
            None => true,
        },
{
    let w: u64 = width as u64;
    let h: u64 = height as u64;
    assert(w * h <= 0xffff_ffff * 0xffff_ffff) by (nonlinear_arith)
        requires
            w <= 0xffff_ffff,
            h <= 0xffff_ffff,
    ;
    if index >= w * h {
        return None;
    }
    assert(w > 0) by (nonlinear_arith)
        requires
            index < w * h,
    ;
    let x: u64 = index % w;
    let y: u64 = index / w;
    proof {
        vstd::arithmetic::div_mod::lemma_fundamental_div_mod(index as int, w as int);
        assert(y < h) by (nonlinear_arith)
            requires
                index == w * y + x,
                index < w * h,
                x >= 0,
                w > 0,
        ;
        assert(y * w == w * y) by (nonlinear_arith);
    }
    Some((x as u32, y as u32))
}

/// An image of red, green and blue samples of 8 bits each, held in an
/// `image::RgbImage`. What it holds is known by [`raster_size`] and
/// [`raster_bytes`] alone, through what the functions below state of the
/// methods of `image::ImageBuffer` that they call.
#[verifier::external_body]
pub struct Raster {
    img: image::ImageBuffer<image::Rgb<u8>, Vec<u8>>,
}

/// Width and height of an image, in pixels.
pub uninterp spec fn raster_size(raster: Raster) -> (nat, nat);

/// The samples of an image as it stores them: row after row from the top,
/// pixel after pixel from the left, red, green and blue of each.
pub uninterp spec fn raster_bytes(raster: Raster) -> Seq<u8>;

/// Where the first sample of pixel `(x, y)` stands in an image `width` wide.
pub open spec fn offset_spec(width: nat, x: u32, y: u32) -> int {
    3 * (y * width + x)
}

/// The samples `bytes` with the three from `at` on replaced by `pixel`.
pub open spec fn painted_spec(bytes: Seq<u8>, at: int, pixel: [u8; 3]) -> Seq<u8> {
    bytes.update(at, pixel[0]).update(at + 1, pixel[1]).update(at + 2, pixel[2])
}

/// `image::ImageBuffer::new`: an image of the given size with every sample
/// zero. The call counts the samples in two checked steps, three times the
/// width and then that times the height, and panics when either overflows
/// `usize`, or when the vector it then makes would have more than
/// `isize::MAX` bytes; the precondition rules out all three.
#[verifier::external_body]
fn blank(width: u32, height: u32) -> (img: Raster)
    requires
        3 * width <= isize::MAX,
        3 * (width * height) <= isize::MAX,
    ensures
        raster_size(img) == (width as nat, height as nat),
        raster_bytes(img).len() == 3 * (width * height),
        forall|k: int| 0 <= k < raster_bytes(img).len() ==> raster_bytes(img)[k] == 0u8,
{
    Raster { img: image::ImageBuffer::new(width, height) }
}

/// `image::ImageBuffer::put_pixel`: the three samples of pixel `(x, y)` are
/// replaced, every other sample and the size stay. The call panics for a
/// position outside the image, which the precondition rules out.
#[verifier::external_body]
fn put(img: &mut Raster, x: u32, y: u32, pixel: [u8; 3])
    requires
        x < raster_size(*old(img)).0,
        y < raster_size(*old(img)).1,
    ensures
        raster_size(*final(img)) == raster_size(*old(img)),
        raster_bytes(*final(img)) == painted_spec(
            raster_bytes(*old(img)),
            offset_spec(raster_size(*old(img)).0, x, y),
            pixel,
        ),
{
    img.img.put_pixel(x, y, image::Rgb(pixel))
}

/// `image::ImageBuffer::dimensions`: width and height of the image.
#[verifier::external_body]
fn dimensions(img: &Raster) -> (r: (u32, u32))
    ensures
        raster_size(*img) == (r.0 as nat, r.1 as nat),
{
    img.img.dimensions()
}

/// `image::ImageBuffer::into_raw`: the vector that holds the samples.
#[verifier::external_body]
fn into_raw(img: Raster) -> (r: Vec<u8>)
    ensures
        r@ == raster_bytes(img),
{
    img.img.into_raw()
}

impl Raster {
    /// Width and height in pixels.
    pub fn size(&self) -> (r: (u32, u32))
        ensures
            raster_size(*self) == (r.0 as nat, r.1 as nat),
    {
        dimensions(self)
    }

    /// The samples, row after row, three to a pixel.
    pub fn into_bytes(self) -> (r: Vec<u8>)
        ensures
            r@ == raster_bytes(self),
    {
        into_raw(self)
    }
}

/// The samples of the image that holds `pixels`, row after row.
pub open spec fn samples_spec(pixels: Seq<[u8; 3]>) -> Seq<u8> {
    Seq::new(3 * pixels.len(), |k: int| pixels[k / 3][k % 3])
}

/// In the samples of a picture, pixel `(x, y)` stands at its row-major place:
/// its three samples follow those of the `y * width + x` pixels before it.
pub proof fn lemma_pixel_place(pixels: Seq<[u8; 3]>, width: u32, height: u32, x: u32, y: u32)
    requires
        pixels.len() == width * height,
        x < width,
        y < height,
    ensures
        0 <= y * width + x < pixels.len(),
        offset_spec(width as nat, x, y) + 2 < samples_spec(pixels).len(),
        samples_spec(pixels)[offset_spec(width as nat, x, y)] == pixels[y * width + x][0],
        samples_spec(pixels)[offset_spec(width as nat, x, y) + 1] == pixels[y * width + x][1],
        samples_spec(pixels)[offset_spec(width as nat, x, y) + 2] == pixels[y * width + x][2],
{
    assert(y * width + x < width * height) by (nonlinear_arith)
        requires
            x < width,
            y < height,
            0 <= x,
            0 <= y,
    ;
    assert(y * width + x >= 0) by (nonlinear_arith)
        requires
            0 <= x,
            0 <= y,
            0 <= width,
    ;
}

/// Pictures whose pixels agree have the same samples: what is written depends
/// on the pixels alone.
pub proof fn lemma_same_pixels_same_samples(a: Seq<[u8; 3]>, b: Seq<[u8; 3]>)
    requires
        a.len() == b.len(),
        forall|i: int| 0 <= i < a.len() ==> a[i] == b[i],
    ensures
        samples_spec(a) == samples_spec(b),
{
    assert(samples_spec(a) =~= samples_spec(b));
}

/// Whether `pixels` fill an image of the given size and the image can be held.
pub open spec fn fits_spec(width: u32, height: u32, count: nat) -> bool {
    count == width * height && holds_spec(width, height)
}

/// Writes the pixels of a picture to an image.
///
/// `pixels` holds the rows from the top, each from the left: pixel `(x, y)` is
/// `pixels[y * width + x]`. The image comes back when there is one pixel for
/// every position, and none otherwise.
pub fn assemble(width: u32, height: u32, pixels: &Vec<[u8; 3]>) -> (r: Option<Raster>)
    ensures
        r.is_some() <==> fits_spec(width, height, pixels@.len()),
        match r {
            Some(img) => raster_size(img) == (width as nat, height as nat) && raster_bytes(img)
                == samples_spec(pixels@),
            None => true,
        },
{
    match pixel_count(width, height) {
        Some(count) => {
            if pixels.len() as u64 != count {
                return None;
            }
        },
        None => {
            return None;
        },
    }
    let mut img = blank(width, height);
    let mut y: u32 = 0;
    let mut done: usize = 0;
    while y < height
        invariant
            y <= height,
            done == y * width,
            pixels@.len() == width * height,
            pixels@.len() <= usize::MAX,
            raster_size(img) == (width as nat, height as nat),
            raster_bytes(img).len() == 3 * pixels@.len(),
            forall|k: int| 0 <= k < 3 * done ==> raster_bytes(img)[k] == pixels@[k / 3][k % 3],
        decreases height - y,
    {
        let mut x: u32 = 0;
        assert(y * width + width <= height * width) by (nonlinear_arith)
            requires
                y < height,
        ;
        assert(height * width == width * height) by (nonlinear_arith);
        while x < width
            invariant
                x <= width,
                y < height,
                done == y * width + x,
                y * width + width <= pixels@.len(),
                pixels@.len() == width * height,
                pixels@.len() <= usize::MAX,
                raster_size(img) == (width as nat, height as nat),
                raster_bytes(img).len() == 3 * pixels@.len(),
                forall|k: int| 0 <= k < 3 * done ==> raster_bytes(img)[k] == pixels@[k / 3][k % 3],
            decreases width - x,
        {
            let pixel: [u8; 3] = pixels[done];
            put(&mut img, x, y, pixel);
            x += 1;
            done += 1;
        }
        y += 1;
        assert((y - 1) * width + width == y * width) by (nonlinear_arith);
    }
    assert(height * width == width * height) by (nonlinear_arith);
    assert(raster_bytes(img) =~= samples_spec(pixels@));
    Some(img)
}

} // verus!
