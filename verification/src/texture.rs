//! Textures: colours that depend on where a surface is hit.
use crate::perlin::{Perlin, POINT_COUNT};
use crate::scalar::{Scalar, ONE_BITS};
use crate::vec3::{Color, Point3, Vec3};
use rand::rngs::StdRng;
use stb_image::image::LoadResult;
use vstd::prelude::*;

verus! {

/// A colour for every point of a surface.
pub trait Texture {
    /// The answer of `value`, which depends on nothing but its arguments.
    spec fn value_spec(&self, u: Scalar, v: Scalar, p: Point3) -> Color;

    /// The colour at the surface coordinates `(u, v)` and the point `p`.
    fn value(&self, u: Scalar, v: Scalar, p: &Point3) -> (r: Color)
        ensures
            r == self.value_spec(u, v, *p),
    ;
}

/// One colour everywhere.
#[derive(Clone, Copy, Debug, PartialEq, Eq, Structural)]
pub struct SolidColor {
    pub color_value: Color,
}

impl SolidColor {
    /// Without a colour the texture is black.
    pub fn new(color_value: Option<Color>) -> (r: SolidColor)
        ensures
            r.color_value == (if color_value is Some {
                color_value->0
            } else {
                Vec3::zero_vector()
            }),
    {
        SolidColor {
            color_value: match color_value {
                Some(c) => c,
                None => Vec3::new(None, None, None),
            },
        }
    }

    /// The texture of the colour with the components `r`, `g` and `b`.
    pub fn from(r: Scalar, g: Scalar, b: Scalar) -> (s: SolidColor)
        ensures
            s.color_value == (Vec3 { x: r, y: g, z: b }),
    {
        Self::new(Some(Vec3::new(Some(r), Some(g), Some(b))))
    }
}

impl Texture for SolidColor {
    open spec fn value_spec(&self, u: Scalar, v: Scalar, p: Point3) -> Color {
        self.color_value
    }

    fn value(&self, u: Scalar, v: Scalar, p: &Point3) -> (r: Color) {
        self.color_value
    }
}

/// A three-dimensional checker pattern of two textures.
pub struct CheckerTexture<E, O> {
    pub odd: O,
    pub even: E,
}

impl<E: Texture, O: Texture> CheckerTexture<E, O> {
    pub fn new(even: E, odd: O) -> (r: CheckerTexture<E, O>)
        ensures
            r.even == even,
            r.odd == odd,
    {
        CheckerTexture { even, odd }
    }

    /// The colour of the pattern at a point, given `sines`, the product of
    /// the sines of ten times each coordinate of the point: the odd texture
    /// where the product is negative, the even texture everywhere else.
    pub fn value(&self, sines: Scalar, u: Scalar, v: Scalar, p: &Point3) -> (r: Color)
        ensures
            r == (if sines.less(Scalar { bits: 0 }) {
                self.odd.value_spec(u, v, *p)
            } else {
                self.even.value_spec(u, v, *p)
            }),
    {
        if sines.lt(Scalar::zero()) {
            self.odd.value(u, v, p)
        } else {
            self.even.value(u, v, p)
        }
    }
}

impl CheckerTexture<SolidColor, SolidColor> {
    /// The pattern of two plain colours, `color1` on the even fields.
    pub fn from(color1: Color, color2: Color) -> (r: CheckerTexture<SolidColor, SolidColor>)
        ensures
            r.even.color_value == color1,
            r.odd.color_value == color2,
    {
        CheckerTexture { even: SolidColor::new(Some(color1)), odd: SolidColor::new(Some(color2)) }
    }
}

/// Marble-like noise: a noise field and the scale of its waves.
pub struct NoiseTexture {
    pub noise: Perlin,
    pub scale: Scalar,
}

impl NoiseTexture {
    /// A noise texture over the given random vectors, of which there must
    /// be 256. Without a scale the scale is one.
    pub fn new(scale: Option<Scalar>, ran_vec: Vec<Vec3>, rng: &mut StdRng) -> (r: Option<
        NoiseTexture,
    >)
        ensures
            r is Some <==> ran_vec.len() == POINT_COUNT,
            r is Some ==> (r->0).noise.vectors() == ran_vec@ && (r->0).scale == (if scale is Some {
                scale->0
            } else {
                Scalar { bits: ONE_BITS }
            }),
    {
        match Perlin::new(ran_vec, rng) {
            None => None,
            Some(noise) => Some(
                NoiseTexture {
                    noise,
                    scale: match scale {
                        Some(s) => s,
                        None => Scalar::one(),
                    },
                },
            ),
        }
    }
}

/// Every pixel takes three bytes: red, green, blue.
pub const BYTES_PER_PIXEL: usize = 3;

/// A decoded picture, or none where the picture could not be had.
pub struct ImageTexture {
    data: Option<Vec<u8>>,
    width: usize,
    height: usize,
    bytes_per_scanline: usize,
}

/// Decodes the bytes of a picture file with
/// `stb_image::image::load_from_memory`. The answer is passed on as it
/// comes: the data, the width and the height of a picture of bytes, nothing
/// for a picture of another kind or an error. Nothing is claimed of it: the
/// decoder also reads settings that are shared by the whole process, so the
/// same bytes need not give the same picture twice. The decoder takes the
/// length as a C `int`, so longer input is left out.
#[verifier::external_body]
fn decode(encoded: &Vec<u8>) -> (r: Option<(Vec<u8>, usize, usize)>)
    requires
        encoded.len() <= i32::MAX,
{
    match stb_image::image::load_from_memory(encoded.as_slice()) {
        LoadResult::ImageU8(image) => Some((image.data, image.width, image.height)),
        LoadResult::ImageF32(_) => None,
        LoadResult::Error(_) => None,
    }
}

/// The colour that stands for a missing picture: cyan.
pub open spec fn missing_color() -> Color {
    Vec3 { x: Scalar { bits: 0 }, y: Scalar { bits: ONE_BITS }, z: Scalar { bits: ONE_BITS } }
}

/// `index` brought into the range from 0 to `count - 1`.
pub open spec fn clipped(index: int, count: int) -> int {
    if index < 0 {
        0
    } else if index >= count {
        count - 1
    } else {
        index
    }
}

impl ImageTexture {
    #[verifier::type_invariant]
    spec fn well_formed(self) -> bool {
        match self.data {
            None => self.width == 0 && self.height == 0 && self.bytes_per_scanline == 0,
            Some(data) => {
                &&& self.width > 0
                &&& self.height > 0
                &&& self.bytes_per_scanline == BYTES_PER_PIXEL * self.width
                &&& data.len() == self.height * self.bytes_per_scanline
            },
        }
    }

    /// The bytes of the picture, row after row from the top.
    pub closed spec fn pixels(self) -> Option<Seq<u8>> {
        match self.data {
            None => None,
            Some(data) => Some(data@),
        }
    }

    /// The number of pixels in a row.
    pub closed spec fn columns(self) -> int {
        self.width as int
    }

    /// The number of rows.
    pub closed spec fn rows(self) -> int {
        self.height as int
    }

    /// Whether `width` and `height` describe a picture of `len` bytes.
    pub open spec fn fits(len: int, width: int, height: int) -> bool {
        width > 0 && height > 0 && len == BYTES_PER_PIXEL * width * height
    }

    /// The three bytes of the pixel in column `i` of row `j`, where a
    /// column or a row outside the picture stands for the nearest one inside.
    pub open spec fn texel(self, i: int, j: int) -> Option<(u8, u8, u8)> {
        if self.pixels() is Some {
            let at = clipped(j, self.rows()) * (BYTES_PER_PIXEL * self.columns()) + clipped(
                i,
                self.columns(),
            ) * BYTES_PER_PIXEL;
            Some(
                (
                    (self.pixels()->0)[at],
                    (self.pixels()->0)[at + 1],
                    (self.pixels()->0)[at + 2],
                ),
            )
        } else {
            None
        }
    }

    /// The texture without a picture.
    pub fn empty() -> (r: ImageTexture)
        ensures
            r.pixels() is None,
            r.columns() == 0,
            r.rows() == 0,
    {
        ImageTexture { data: None, width: 0, height: 0, bytes_per_scanline: 0 }
    }

    /// Whether this is the texture of the decoded bytes `data`, or the
    /// texture without a picture where there are no decoded bytes or where
    /// they are not a picture of three bytes a pixel of the size given.
    pub open spec fn shows(self, picture: Option<(Seq<u8>, usize, usize)>) -> bool {
        if picture is Some && ImageTexture::fits(
            (picture->0).0.len() as int,
            (picture->0).1 as int,
            (picture->0).2 as int,
        ) {
            self.pixels() == Some((picture->0).0) && self.columns() == (picture->0).1
                && self.rows() == (picture->0).2
        } else {
            self.pixels() is None && self.columns() == 0 && self.rows() == 0
        }
    }

    /// The texture of the picture file with the bytes `encoded`. A file
    /// that cannot be decoded, or that decodes to anything but three bytes a
    /// pixel, gives the texture without a picture. What the decoder makes of
    /// the bytes is its own affair; whatever it is, the texture that comes
    /// out is either without a picture or of the size that its bytes fill.
    pub fn new(encoded: &Vec<u8>) -> (r: ImageTexture)
        ensures
            encoded.len() > i32::MAX ==> r.shows(None),
            r.pixels() is Some ==> ImageTexture::fits(
                (r.pixels()->0).len() as int,
                r.columns(),
                r.rows(),
            ),
            r.pixels() is None ==> r.columns() == 0 && r.rows() == 0,
    {
        if encoded.len() > 0x7fff_ffff {
            return Self::empty();
        }
        match decode(encoded) {
            None => Self::empty(),
            Some((data, width, height)) => Self::from_pixels(data, width, height),
        }
    }

    /// The texture of a decoded picture of `width` by `height` pixels. Bytes
    /// that are not a picture of that size give the texture without a
    /// picture.
    pub fn from_pixels(data: Vec<u8>, width: usize, height: usize) -> (r: ImageTexture)
        ensures
            r.shows(Some((data@, width, height))),
    {
        if width == 0 || height == 0 || data.len() / BYTES_PER_PIXEL / width != height
            || data.len() % BYTES_PER_PIXEL != 0 || (data.len() / BYTES_PER_PIXEL) % width != 0 {
            proof {
                lemma_no_fit(data.len() as int, width as int, height as int);
            }
            return Self::empty();
        }
        proof {
            lemma_fit(data.len() as int, width as int, height as int);
        }
        ImageTexture { data: Some(data), width, height, bytes_per_scanline: BYTES_PER_PIXEL * width }
    }

    /// The colour that is shown where the picture is missing.
    pub fn placeholder() -> (c: Color)
        ensures
            c == missing_color(),
    {
        Vec3::new(None, Some(Scalar::one()), Some(Scalar::one()))
    }

    /// Whether there is a picture.
    pub fn is_loaded(&self) -> (r: bool)
        ensures
            r == self.pixels() is Some,
    {
        self.data.is_some()
    }

    /// The number of pixels in a row.
    pub fn width(&self) -> (r: usize)
        ensures
            r == self.columns(),
    {
        self.width
    }

    /// The number of rows.
    pub fn height(&self) -> (r: usize)
        ensures
            r == self.rows(),
    {
        self.height
    }

    /// The three bytes of the pixel in column `i` of row `j`. A column or a
    /// row outside the picture is taken for the nearest one inside; without
    /// a picture there is no pixel.
    pub fn lookup(&self, i: i32, j: i32) -> (r: Option<(u8, u8, u8)>)
        ensures
            r == self.texel(i as int, j as int),
    {
        proof {
            use_type_invariant(self);
        }
        match &self.data {
            None => None,
            Some(data) => {
                let column: usize = if i < 0 {
                    0
                } else if i as usize >= self.width {
                    self.width - 1
                } else {
                    i as usize
                };
                let row: usize = if j < 0 {
                    0
                } else if j as usize >= self.height {
                    self.height - 1
                } else {
                    j as usize
                };
                proof {
                    lemma_pixel_in_picture(
                        row as int,
                        column as int,
                        self.height as int,
                        self.width as int,
                    );
                }
                let pixel: usize = row * self.bytes_per_scanline + column * BYTES_PER_PIXEL;
                Some((data[pixel], data[pixel + 1], data[pixel + 2]))
            },
        }
    }
}

proof fn lemma_fit(len: int, width: int, height: int)
    requires
        width > 0,
        height > 0,
        len >= 0,
        len / 3 / width == height,
        len % 3 == 0,
        (len / 3) % width == 0,
    ensures
        len == 3 * width * height,
        len == height * (3 * width),
        3 * width <= len,
{
    assert(len == 3 * (len / 3));
    assert(len / 3 == width * (len / 3 / width)) by (nonlinear_arith)
        requires
            width > 0,
            (len / 3) % width == 0,
    ;
    assert(3 * (width * height) == 3 * width * height) by (nonlinear_arith);
    assert(3 * (width * height) == height * (3 * width)) by (nonlinear_arith);
    assert(3 * width <= height * (3 * width)) by (nonlinear_arith)
        requires
            width > 0,
            height > 0,
    ;
}

proof fn lemma_no_fit(len: int, width: int, height: int)
    requires
        len >= 0,
        width >= 0,
        height >= 0,
        width == 0 || height == 0 || len / 3 / width != height || len % 3 != 0 || (len / 3) % width
            != 0,
    ensures
        !ImageTexture::fits(len, width, height),
{
    if width > 0 && height > 0 && len == 3 * width * height {
        assert(3 * width * height == 3 * (width * height)) by (nonlinear_arith);
        assert(len / 3 == width * height);
        assert((width * height) / width == height && (width * height) % width == 0)
            by (nonlinear_arith)
            requires
                width > 0,
                height > 0,
        ;
    }
}

proof fn lemma_pixel_in_picture(row: int, column: int, height: int, width: int)
    requires
        0 <= row < height,
        0 <= column < width,
    ensures
        0 <= row * (3 * width) + column * 3,
        row * (3 * width) + column * 3 + 2 < height * (3 * width),
{
    assert(row * (3 * width) + 3 * width <= height * (3 * width)) by (nonlinear_arith)
        requires
            0 <= row < height,
            width > 0,
    ;
    assert(0 <= row * (3 * width)) by (nonlinear_arith)
        requires
            0 <= row,
            width > 0,
    ;
}

} // verus!
