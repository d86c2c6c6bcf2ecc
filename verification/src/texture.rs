use vstd::prelude::*;
use image::DynamicImage;
use image::GenericImageView;

verus! {

/// `image::DynamicImage`, an image in one of several pixel formats. It is
/// taken as it is: nothing is known of what a value holds but what the three
/// names below give.
#[verifier::external_type_specification]
#[verifier::external_body]
pub struct ExDynamicImage(image::DynamicImage);

/// The number of pixel columns of an image.
pub uninterp spec fn image_width(img: DynamicImage) -> u32;

/// The number of pixel rows of an image.
pub uninterp spec fn image_height(img: DynamicImage) -> u32;

/// The pixels of an image: for column `x` and row `y`, counted from the top
/// left corner, the four bytes red, green, blue and alpha that the image
/// gives for that place, whatever it stores there.
pub uninterp spec fn image_pixels(img: DynamicImage) -> Map<(int, int), Seq<u8>>;

/// Calls `DynamicImage::width`. Trusted: the result is the width of the
/// image, which is what `image_width` names.
#[verifier::external_body]
fn dynamic_image_width(img: &DynamicImage) -> (w: u32)
    ensures
        w == image_width(*img),
{
    img.width()
}

/// Calls `DynamicImage::height`. Trusted: the result is the height of the
/// image, which is what `image_height` names.
#[verifier::external_body]
fn dynamic_image_height(img: &DynamicImage) -> (h: u32)
    ensures
        h == image_height(*img),
{
    img.height()
}

/// Calls `GenericImageView::get_pixel` on a `DynamicImage`, which panics
/// outside the image; so the place has to lie within it. Trusted: the
/// result is the pixel of that place as four bytes, which is what
/// `image_pixels` names.
#[verifier::external_body]
fn dynamic_image_pixel(img: &DynamicImage, x: u32, y: u32) -> (c: [u8; 4])
    requires
        x < image_width(*img),
        y < image_height(*img),
    ensures
        c@ == image_pixels(*img)[(x as int, y as int)],
{
    img.get_pixel(x, y).0
}

/// An image that is read as a texture: it repeats without end in both
/// directions.
pub struct Texture {
    pub image: DynamicImage,
}

impl Texture {
    /// The number of texel columns.
    pub open spec fn spec_width(&self) -> u32 {
        image_width(self.image)
    }

    /// The number of texel rows.
    pub open spec fn spec_height(&self) -> u32 {
        image_height(self.image)
    }

    /// The texel in column `x` of row `y` of the endless plane that the
    /// image tiles: the pixel at `x` modulo the width and `y` modulo the
    /// height.
    pub open spec fn texel(&self, x: int, y: int) -> Seq<u8>
        recommends
            self.spec_width() > 0,
            self.spec_height() > 0,
    {
        image_pixels(self.image)[(x % (self.spec_width() as int), y % (self.spec_height() as int))]
    }

    /// A texture over the given image.
    pub fn new(image: DynamicImage) -> (t: Texture)
        ensures
            t.image == image,
    {
        Texture { image }
    }

    /// The number of texel columns.
    pub fn width(&self) -> (w: u32)
        ensures
            w == self.spec_width(),
    {
        dynamic_image_width(&self.image)
    }

    /// The number of texel rows.
    pub fn height(&self) -> (h: u32)
        ensures
            h == self.spec_height(),
    {
        dynamic_image_height(&self.image)
    }

    /// Reads the texel in column `x` of row `y`, both taken modulo the
    /// extent of the image.
    pub fn get_color(&self, x: u32, y: u32) -> (c: [u8; 4])
        requires
            image_width(self.image) > 0,
            image_height(self.image) > 0,
        ensures
            c@ == self.texel(x as int, y as int),
    {
        let x: u32 = x % dynamic_image_width(&self.image);
        let y: u32 = y % dynamic_image_height(&self.image);
        dynamic_image_pixel(&self.image, x, y)
    }

    /// Reads the texel in column `x` of row `y` of a texture that may be
    /// empty: `None` exactly if the image has no pixels.
    pub fn get_color_nearest(&self, x: u32, y: u32) -> (c: Option<[u8; 4]>)
        ensures
            c is None <==> self.spec_width() == 0 || self.spec_height() == 0,
            c matches Some(t) ==> t@ == self.texel(x as int, y as int),
    {
        if dynamic_image_width(&self.image) == 0 || dynamic_image_height(&self.image) == 0 {
            None
        } else {
            Some(self.get_color(x, y))
        }
    }

    /// Reads the four texels that bilinear filtering blends for a sample
    /// whose upper left texel is in column `x` of row `y`: that texel, its
    /// right neighbour, the one below it, and the one below and to the
    /// right, in this order. `None` exactly if the image has no pixels.
    pub fn get_color_linear(&self, x: u32, y: u32) -> (c: Option<[[u8; 4]; 4]>)
        ensures
            c is None <==> self.spec_width() == 0 || self.spec_height() == 0,
            c matches Some(q) ==> q[0]@ == self.texel(x as int, y as int),
            c matches Some(q) ==> q[1]@ == self.texel(x + 1, y as int),
            c matches Some(q) ==> q[2]@ == self.texel(x as int, y + 1),
            c matches Some(q) ==> q[3]@ == self.texel(x + 1, y + 1),
    {
        let w: u32 = dynamic_image_width(&self.image);
        let h: u32 = dynamic_image_height(&self.image);
        if w == 0 || h == 0 {
            return None;
        }
        let x0: u32 = x % w;
        let y0: u32 = y % h;
        let x1: u32 = if x0 + 1 == w {
            0
        } else {
            x0 + 1
        };
        let y1: u32 = if y0 + 1 == h {
            0
        } else {
            y0 + 1
        };
        proof {
            lemma_wrap_next(x as int, w as int);
            lemma_wrap_next(y as int, h as int);
            lemma_wrap_idle(x0 as int, w as int);
            lemma_wrap_idle(y0 as int, h as int);
            lemma_wrap_idle(x1 as int, w as int);
            lemma_wrap_idle(y1 as int, h as int);
        }
        let c00 = self.get_color(x0, y0);
        let c10 = self.get_color(x1, y0);
        let c01 = self.get_color(x0, y1);
        let c11 = self.get_color(x1, y1);
        Some([c00, c10, c01, c11])
    }
}

/// A texture repeats: a step of its whole width to the right, or of its
/// whole height downwards, comes to the same texel.
pub proof fn lemma_texture_repeats(t: Texture, x: int, y: int)
    requires
        t.spec_width() > 0,
        t.spec_height() > 0,
    ensures
        t.texel(x + t.spec_width(), y) == t.texel(x, y),
        t.texel(x, y + t.spec_height()) == t.texel(x, y),
{
    vstd::arithmetic::div_mod::lemma_mod_add_multiples_vanish(x, t.spec_width() as int);
    vstd::arithmetic::div_mod::lemma_mod_add_multiples_vanish(y, t.spec_height() as int);
}

/// The place after `x`, taken modulo `n`, is the place after `x % n` with
/// `n` wrapping to 0.
proof fn lemma_wrap_next(x: int, n: int)
    requires
        0 <= x,
        0 < n,
    ensures
        (x + 1) % n == (if x % n + 1 == n {
            0
        } else {
            x % n + 1
        }),
{
    vstd::arithmetic::div_mod::lemma_fundamental_div_mod(x, n);
    let q = x / n;
    let r = x % n;
    if r + 1 == n {
        assert(x + 1 == n * (q + 1)) by (nonlinear_arith)
            requires
                x == n * q + r,
                r + 1 == n,
        ;
        vstd::arithmetic::div_mod::lemma_mod_multiples_basic(q + 1, n);
        assert((n * (q + 1)) % n == 0) by {
            assert(n * (q + 1) == (q + 1) * n) by (nonlinear_arith);
        }
    } else {
        vstd::arithmetic::div_mod::lemma_mod_bound(x, n);
        assert(x + 1 == q * n + (r + 1)) by (nonlinear_arith)
            requires
                x == n * q + r,
        ;
        vstd::arithmetic::div_mod::lemma_fundamental_div_mod_converse(x + 1, n, q, r + 1);
    }
}

/// A place within the image is its own place modulo the extent.
proof fn lemma_wrap_idle(x: int, n: int)
    requires
        0 <= x < n,
    ensures
        x % n == x,
{
    vstd::arithmetic::div_mod::lemma_small_mod(x as nat, n as nat);
}

} // verus!
