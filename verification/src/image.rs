//! The output raster: a grid of colors addressed row by row, and its
//! serialization into the bytes of a binary PPM image.

pub mod color;

pub use color::Color;

use vstd::prelude::*;

use crate::config::ImageConfig;

verus! {

/// The decimal digits of a non-negative number, most significant first,
/// as ASCII bytes.
pub open spec fn dec_model(n: nat) -> Seq<u8>
    decreases n,
{
    if n < 10 {
        seq![(48 + n) as u8]
    } else {
        dec_model(n / 10) + seq![(48 + n % 10) as u8]
    }
}

/// The bytes of a pixel row-major run: three bytes per color.
pub open spec fn pixel_bytes_model(pixels: Seq<Color>) -> Seq<u8>
    decreases pixels.len(),
{
    if pixels.len() == 0 {
        Seq::empty()
    } else {
        seq![pixels[0].r, pixels[0].g, pixels[0].b] + pixel_bytes_model(pixels.skip(1))
    }
}

/// The bytes of a binary PPM image: the magic number, the width, the
/// height and the channel maximum, newline-separated, then the pixels.
pub open spec fn ppm_model(width: nat, height: nat, pixels: Seq<Color>) -> Seq<u8> {
    seq![80u8, 54u8, 10u8] + dec_model(width) + seq![10u8] + dec_model(height) + seq![
        10u8,
        50u8,
        53u8,
        53u8,
        10u8,
    ] + pixel_bytes_model(pixels)
}

pub struct RasterImage {
    name: String,
    width: usize,
    height: usize,
    pixels: Vec<Color>,
}

impl RasterImage {
    pub closed spec fn spec_width(&self) -> usize {
        self.width
    }

    pub closed spec fn spec_height(&self) -> usize {
        self.height
    }

    pub closed spec fn spec_pixels(&self) -> Seq<Color> {
        self.pixels@
    }

    pub closed spec fn spec_name(&self) -> String {
        self.name
    }

    /// The pixel store always covers the full grid.
    pub open spec fn wf(&self) -> bool {
        self.spec_pixels().len() == self.spec_width() * self.spec_height()
    }

    /// Create new empty raster image with given name and resolution.
    pub fn new(cfg: ImageConfig) -> (img: RasterImage)
        requires
            cfg.width * cfg.height <= usize::MAX,
        ensures
            img.wf(),
            img.spec_width() == cfg.width,
            img.spec_height() == cfg.height,
            img.spec_name() == cfg.name,
            forall|i: int|
                0 <= i < img.spec_pixels().len() ==> img.spec_pixels()[i] == (Color {
                    r: 0,
                    g: 0,
                    b: 0,
                }),
    {
        let n: usize = cfg.width * cfg.height;
        let mut pixels: Vec<Color> = Vec::new();
        let mut i: usize = 0;
        while i < n
            invariant
                i <= n,
                pixels@.len() == i,
                forall|k: int|
                    0 <= k < i ==> pixels@[k] == (Color { r: 0, g: 0, b: 0 }),
            decreases n - i,
        {
            pixels.push(Color::new(0, 0, 0));
            i = i + 1;
        }
        RasterImage { width: cfg.width, height: cfg.height, name: cfg.name, pixels }
    }

    /// Return the pixel at the given column and row, row-major.
    pub fn get_pixel(&self, x: usize, y: usize) -> (r: Option<&Color>)
        requires
            self.spec_width() * y + x <= usize::MAX,
        ensures
            r is Some <==> self.spec_width() * y + x < self.spec_pixels().len(),
            r is Some ==> *r->Some_0 == self.spec_pixels()[self.spec_width() * y + x],
    {
        let index: usize = self.width * y + x;
        if index < self.pixels.len() {
            Some(&self.pixels[index])
        } else {
            None
        }
    }

    /// Replace the pixel at the given column and row; reports whether
    /// the coordinates were inside the image.
    pub fn set_pixel(&mut self, x: usize, y: usize, color: &Color) -> (found: bool)
        requires
            old(self).spec_width() * y + x <= usize::MAX,
        ensures
            found <==> old(self).spec_width() * y + x < old(self).spec_pixels().len(),
            found ==> final(self).spec_pixels() == old(self).spec_pixels().update(
                old(self).spec_width() * y + x,
                *color,
            ),
            !found ==> final(self).spec_pixels() == old(self).spec_pixels(),
            final(self).spec_width() == old(self).spec_width(),
            final(self).spec_height() == old(self).spec_height(),
            final(self).spec_name() == old(self).spec_name(),
    {
        let index: usize = self.width * y + x;
        if index < self.pixels.len() {
            self.pixels[index] = *color;
            true
        } else {
            false
        }
    }

    /// Return resolution width x height of the image.
    pub fn get_resolution(&self) -> (r: (usize, usize))
        ensures
            r.0 == self.spec_width(),
            r.1 == self.spec_height(),
    {
        (self.width, self.height)
    }

    /// The name the image was created with.
    pub fn get_name(&self) -> (r: &String)
        ensures
            *r == self.spec_name(),
    {
        &self.name
    }

    /// The full byte content of the image in binary PPM form; writing
    /// these bytes to a file is the caller's concern.
    pub fn ppm_bytes(&self) -> (r: Vec<u8>)
        ensures
            r@ == ppm_model(
                self.spec_width() as nat,
                self.spec_height() as nat,
                self.spec_pixels(),
            ),
    {
        let mut out: Vec<u8> = Vec::new();
        out.push(80);
        out.push(54);
        out.push(10);
        push_decimal(self.width as u64, &mut out);
        out.push(10);
        push_decimal(self.height as u64, &mut out);
        out.push(10);
        out.push(50);
        out.push(53);
        out.push(53);
        out.push(10);
        let mut i: usize = 0;
        proof {
            assert(self.pixels@.skip(0) == self.pixels@);
        }
        let ghost header = out@;
        while i < self.pixels.len()
            invariant
                i <= self.pixels@.len(),
                out@ == header + pixel_bytes_model(self.pixels@.take(i as int)),
            decreases self.pixels@.len() - i,
        {
            let p = &self.pixels[i];
            out.push(p.r);
            out.push(p.g);
            out.push(p.b);
            proof {
                lemma_pixel_bytes_snoc(self.pixels@, i as int);
            }
            i = i + 1;
        }
        proof {
            assert(self.pixels@.take(self.pixels@.len() as int) == self.pixels@);
        }
        out
    }
}

/// Appending one color to a prefix appends its three bytes.
proof fn lemma_pixel_bytes_snoc(pixels: Seq<Color>, i: int)
    requires
        0 <= i < pixels.len(),
    ensures
        pixel_bytes_model(pixels.take(i + 1)) == pixel_bytes_model(pixels.take(i)) + seq![
            pixels[i].r,
            pixels[i].g,
            pixels[i].b,
        ],
    decreases i,
{
    if i == 0 {
        assert(pixels.take(1).skip(1) =~= Seq::<Color>::empty());
        assert(pixel_bytes_model(pixels.take(1)) =~= seq![pixels[0].r, pixels[0].g, pixels[0].b]);
        assert(pixel_bytes_model(pixels.take(0)) =~= Seq::<u8>::empty());
    } else {
        lemma_pixel_bytes_snoc(pixels.skip(1), i - 1);
        assert(pixels.take(i + 1).skip(1) =~= pixels.skip(1).take(i));
        assert(pixels.take(i).skip(1) =~= pixels.skip(1).take(i - 1));
        assert(pixel_bytes_model(pixels.take(i + 1)) == seq![pixels[0].r, pixels[0].g, pixels[0].b]
            + pixel_bytes_model(pixels.skip(1).take(i)));
        assert(pixel_bytes_model(pixels.take(i)) == seq![pixels[0].r, pixels[0].g, pixels[0].b]
            + pixel_bytes_model(pixels.skip(1).take(i - 1)));
        assert(pixel_bytes_model(pixels.take(i + 1)) =~= pixel_bytes_model(pixels.take(i)) + seq![
            pixels[i].r,
            pixels[i].g,
            pixels[i].b,
        ]);
    }
}

/// Append the decimal digits of `n`, most significant first.
fn push_decimal(n: u64, out: &mut Vec<u8>)
    ensures
        final(out)@ == old(out)@ + dec_model(n as nat),
    decreases n,
{
    if n < 10 {
        out.push(48 + n as u8);
    } else {
        push_decimal(n / 10, out);
        out.push(48 + (n % 10) as u8);
    }
}

} // verus!
