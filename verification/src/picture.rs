//! Pictures and how they are turned upright.

use image::imageops;
use image::RgbaImage;
use vstd::arithmetic::div_mod::lemma_fundamental_div_mod_converse;
use vstd::prelude::*;

verus! {

/// A picture of four bytes per pixel, R, G, B and A, row by row from the top.
pub struct Picture {
    pub width: u32,
    pub height: u32,
    pub rgba: Vec<u8>,
}

/// What a `Picture` holds.
#[verifier::ext_equal]
pub struct PictureView {
    pub width: int,
    pub height: int,
    pub rgba: Seq<u8>,
}

impl View for Picture {
    type V = PictureView;

    open spec fn view(&self) -> PictureView {
        PictureView { width: self.width as int, height: self.height as int, rgba: self.rgba@ }
    }
}

impl PictureView {
    /// The byte of channel `c` of the pixel in column `x` of row `y`.
    pub open spec fn at(self, x: int, y: int, c: int) -> u8 {
        self.rgba[4 * (y * self.width + x) + c]
    }

    /// There are bytes for every pixel.
    pub open spec fn is_filled(self) -> bool {
        &&& 0 <= self.width
        &&& 0 <= self.height
        &&& 4 * (self.width * self.height) <= self.rgba.len()
    }

    /// There are bytes for every pixel and none besides.
    pub open spec fn is_exact(self) -> bool {
        self.is_filled() && self.rgba.len() == 4 * (self.width * self.height)
    }

    /// There are bytes for every pixel, and the length of a row can be told.
    pub open spec fn fits(self) -> bool {
        self.is_filled() && 4 * self.width <= usize::MAX
    }

    /// The picture without the bytes behind its last pixel.
    pub open spec fn cropped(self) -> PictureView {
        PictureView { rgba: self.rgba.take(4 * (self.width * self.height)), ..self }
    }
}

/// The picture of `width` by `height` with the byte `at(x, y, c)` for channel
/// `c` of the pixel in column `x` of row `y`.
pub open spec fn arranged(
    width: int,
    height: int,
    at: spec_fn(int, int, int) -> u8,
) -> PictureView {
    PictureView {
        width,
        height,
        rgba: Seq::new(
            (4 * (width * height)) as nat,
            |i: int| at((i / 4) % width, (i / 4) / width, i % 4),
        ),
    }
}

/// Turned clockwise by a quarter.
pub open spec fn quarter_turn(p: PictureView) -> PictureView {
    arranged(p.height, p.width, |x: int, y: int, c: int| p.at(y, p.height - 1 - x, c))
}

/// Turned by a half.
pub open spec fn half_turn(p: PictureView) -> PictureView {
    arranged(
        p.width,
        p.height,
        |x: int, y: int, c: int| p.at(p.width - 1 - x, p.height - 1 - y, c),
    )
}

/// Turned clockwise by three quarters.
pub open spec fn three_quarter_turn(p: PictureView) -> PictureView {
    arranged(p.height, p.width, |x: int, y: int, c: int| p.at(p.width - 1 - y, x, c))
}

/// Left and right exchanged.
pub open spec fn mirrored(p: PictureView) -> PictureView {
    arranged(p.width, p.height, |x: int, y: int, c: int| p.at(p.width - 1 - x, y, c))
}

/// How a compositor says that the pixels of a buffer are turned.
#[derive(Clone, Copy, Debug, PartialEq, Eq, Structural)]
pub enum Transform {
    Normal,
    Rotated90,
    Rotated180,
    Rotated270,
    Flipped,
    Flipped90,
    Flipped180,
    Flipped270,
    /// A transform that has no name here.
    Other,
}

/// A picture with the transform `t` made good. The flip of a flipped and
/// turned picture is not made good, only the turn.
pub open spec fn oriented(p: PictureView, t: Transform) -> PictureView {
    match t {
        Transform::Rotated90 | Transform::Flipped90 => quarter_turn(p),
        Transform::Rotated180 | Transform::Flipped180 => half_turn(p),
        Transform::Rotated270 | Transform::Flipped270 => three_quarter_turn(p),
        Transform::Flipped => mirrored(p),
        Transform::Normal | Transform::Other => p,
    }
}

/// `image::RgbaImage::from_raw`: a picture of the given size over the given
/// bytes, which it keeps, or none where four times the width is beyond
/// `usize` or the bytes are too few.
#[verifier::external_body]
pub(crate) fn from_raw(width: u32, height: u32, rgba: Vec<u8>) -> (picture: Option<Picture>)
    ensures
        match picture {
            Some(p) => 4 * width <= usize::MAX && 4 * (width * height) <= rgba@.len() && p.width
                == width && p.height == height && p.rgba@ == rgba@,
            None => 4 * width > usize::MAX || 4 * (width * height) > rgba@.len(),
        },
{
    match RgbaImage::from_raw(width, height, rgba) {
        Some(image) => Some(
            Picture { width: image.width(), height: image.height(), rgba: image.into_raw() },
        ),
        None => None,
    }
}

/// `image::imageops::rotate90`: the pixel in column `x` of row `y` goes to
/// column `height - 1 - y` of row `x` of a picture with the sides exchanged.
#[verifier::external_body]
fn rotate90(picture: Picture) -> (turned: Picture)
    requires
        picture@.fits(),
        4 * picture.height <= usize::MAX,
    ensures
        turned@ == quarter_turn(picture@),
{
    let image = RgbaImage::from_raw(picture.width, picture.height, picture.rgba).unwrap();
    let turned = imageops::rotate90(&image);
    Picture { width: turned.width(), height: turned.height(), rgba: turned.into_raw() }
}

/// `image::imageops::rotate180`: the pixel in column `x` of row `y` goes to
/// column `width - 1 - x` of row `height - 1 - y`.
#[verifier::external_body]
fn rotate180(picture: Picture) -> (turned: Picture)
    requires
        picture@.fits(),
    ensures
        turned@ == half_turn(picture@),
{
    let image = RgbaImage::from_raw(picture.width, picture.height, picture.rgba).unwrap();
    let turned = imageops::rotate180(&image);
    Picture { width: turned.width(), height: turned.height(), rgba: turned.into_raw() }
}

/// `image::imageops::rotate270`: the pixel in column `x` of row `y` goes to
/// column `y` of row `width - 1 - x` of a picture with the sides exchanged.
#[verifier::external_body]
fn rotate270(picture: Picture) -> (turned: Picture)
    requires
        picture@.fits(),
        4 * picture.height <= usize::MAX,
    ensures
        turned@ == three_quarter_turn(picture@),
{
    let image = RgbaImage::from_raw(picture.width, picture.height, picture.rgba).unwrap();
    let turned = imageops::rotate270(&image);
    Picture { width: turned.width(), height: turned.height(), rgba: turned.into_raw() }
}

/// `image::imageops::flip_horizontal`: the pixel in column `x` of a row goes
/// to column `width - 1 - x` of the same row.
#[verifier::external_body]
fn flip_horizontal(picture: Picture) -> (turned: Picture)
    requires
        picture@.fits(),
    ensures
        turned@ == mirrored(picture@),
{
    let image = RgbaImage::from_raw(picture.width, picture.height, picture.rgba).unwrap();
    let turned = imageops::flip_horizontal(&image);
    Picture { width: turned.width(), height: turned.height(), rgba: turned.into_raw() }
}

/// A transform that exchanges the sides of a picture.
pub open spec fn exchanges_sides(t: Transform) -> bool {
    match t {
        Transform::Rotated90 | Transform::Rotated270 | Transform::Flipped90
        | Transform::Flipped270 => true,
        _ => false,
    }
}

/// Makes good the transform that a compositor reports for a buffer.
pub fn apply_transform(img: Picture, t: Transform) -> (turned: Picture)
    requires
        img@.fits(),
        exchanges_sides(t) ==> 4 * img.height <= usize::MAX,
    ensures
        turned@ == oriented(img@, t),
        turned@.fits(),
{
    proof {
        lemma_area(img@.width, img@.height);
    }
    match t {
        Transform::Normal => img,
        Transform::Rotated90 | Transform::Flipped90 => rotate90(img),
        Transform::Rotated180 | Transform::Flipped180 => rotate180(img),
        Transform::Rotated270 | Transform::Flipped270 => rotate270(img),
        Transform::Flipped => flip_horizontal(img),
        Transform::Other => img,
    }
}

proof fn lemma_area(w: int, h: int)
    requires
        0 <= w,
        0 <= h,
    ensures
        0 <= w * h,
        w * h == h * w,
{
    assert(0 <= w * h && w * h == h * w) by (nonlinear_arith)
        requires
            0 <= w,
            0 <= h,
    ;
}

/// Where the bytes of an arranged picture lie.
proof fn lemma_arranged_at(
    w: int,
    h: int,
    f: spec_fn(int, int, int) -> u8,
    x: int,
    y: int,
    c: int,
)
    requires
        0 <= x < w,
        0 <= y < h,
        0 <= c < 4,
    ensures
        arranged(w, h, f).at(x, y, c) == f(x, y, c),
{
    let i = 4 * (y * w + x) + c;
    assert(0 <= y * w + x < w * h) by (nonlinear_arith)
        requires
            0 <= x < w,
            0 <= y < h,
    ;
    assert(i / 4 == y * w + x && i % 4 == c);
    lemma_fundamental_div_mod_converse(i / 4, w, y, x);
}

/// Two exact pictures of one size with equal pixels are equal.
proof fn lemma_same_pixels(p: PictureView, q: PictureView)
    requires
        p.is_exact(),
        q.is_exact(),
        p.width == q.width,
        p.height == q.height,
        forall|x: int, y: int, c: int|
            0 <= x < p.width && 0 <= y < p.height && 0 <= c < 4 ==> #[trigger] p.at(x, y, c)
                == q.at(x, y, c),
    ensures
        p == q,
{
    let w = p.width;
    let h = p.height;
    assert forall|i: int| 0 <= i < p.rgba.len() implies p.rgba[i] == q.rgba[i] by {
        let k = i / 4;
        let c = i % 4;
        let x = k % w;
        let y = k / w;
        assert(0 <= k < w * h);
        assert(0 < w) by (nonlinear_arith)
            requires
                0 <= w,
                0 <= k < w * h,
        ;
        vstd::arithmetic::div_mod::lemma_fundamental_div_mod(k, w);
        assert(0 <= y < h) by (nonlinear_arith)
            requires
                k == w * y + x,
                0 <= x < w,
                0 <= k < w * h,
        ;
        assert(y * w == w * y) by (nonlinear_arith);
        assert(i == 4 * (y * w + x) + c);
        assert(p.at(x, y, c) == q.at(x, y, c));
    }
    assert(p =~= q);
}

proof fn lemma_cropped_at(p: PictureView, x: int, y: int, c: int)
    requires
        p.is_filled(),
        0 <= x < p.width,
        0 <= y < p.height,
        0 <= c < 4,
    ensures
        p.cropped().at(x, y, c) == p.at(x, y, c),
{
    let w = p.width;
    let h = p.height;
    assert(0 <= y * w + x < w * h) by (nonlinear_arith)
        requires
            0 <= x < w,
            0 <= y < h,
    ;
}

/// Two quarter turns are a half turn.
pub proof fn two_quarter_turns_are_a_half_turn(p: PictureView)
    requires
        p.is_filled(),
    ensures
        quarter_turn(quarter_turn(p)) == half_turn(p),
{
    let q = quarter_turn(p);
    let f = |x: int, y: int, c: int| p.at(y, p.height - 1 - x, c);
    let g = |x: int, y: int, c: int| q.at(y, q.height - 1 - x, c);
    let k = |x: int, y: int, c: int| p.at(p.width - 1 - x, p.height - 1 - y, c);
    lemma_area(p.width, p.height);
    assert forall|x: int, y: int, c: int|
        0 <= x < p.width && 0 <= y < p.height && 0 <= c < 4 implies #[trigger] quarter_turn(q).at(
        x,
        y,
        c,
    ) == half_turn(p).at(x, y, c) by {
        lemma_arranged_at(p.width, p.height, g, x, y, c);
        lemma_arranged_at(p.height, p.width, f, y, p.width - 1 - x, c);
        lemma_arranged_at(p.width, p.height, k, x, y, c);
    }
    lemma_same_pixels(quarter_turn(q), half_turn(p));
}

/// A quarter turn after a half turn is three quarters.
pub proof fn a_half_and_a_quarter_turn_are_three_quarters(p: PictureView)
    requires
        p.is_filled(),
    ensures
        quarter_turn(half_turn(p)) == three_quarter_turn(p),
{
    let q = half_turn(p);
    let f = |x: int, y: int, c: int| p.at(p.width - 1 - x, p.height - 1 - y, c);
    let g = |x: int, y: int, c: int| q.at(y, q.height - 1 - x, c);
    let k = |x: int, y: int, c: int| p.at(p.width - 1 - y, x, c);
    lemma_area(p.width, p.height);
    assert forall|x: int, y: int, c: int|
        0 <= x < p.height && 0 <= y < p.width && 0 <= c < 4 implies #[trigger] quarter_turn(q).at(
        x,
        y,
        c,
    ) == three_quarter_turn(p).at(x, y, c) by {
        lemma_arranged_at(p.height, p.width, g, x, y, c);
        lemma_arranged_at(p.width, p.height, f, y, p.height - 1 - x, c);
        lemma_arranged_at(p.height, p.width, k, x, y, c);
    }
    lemma_same_pixels(quarter_turn(q), three_quarter_turn(p));
}

/// A quarter turn and three more restore the picture, but for bytes behind its last pixel.
pub proof fn four_quarter_turns_restore(p: PictureView)
    requires
        p.is_filled(),
    ensures
        three_quarter_turn(quarter_turn(p)) == p.cropped(),
        quarter_turn(three_quarter_turn(p)) == p.cropped(),
        p.is_exact() ==> p.cropped() == p,
{
    lemma_area(p.width, p.height);
    let q = quarter_turn(p);
    let f = |x: int, y: int, c: int| p.at(y, p.height - 1 - x, c);
    let g = |x: int, y: int, c: int| q.at(q.width - 1 - y, x, c);
    assert forall|x: int, y: int, c: int|
        0 <= x < p.width && 0 <= y < p.height && 0 <= c < 4 implies #[trigger] three_quarter_turn(
        q,
    ).at(x, y, c) == p.cropped().at(x, y, c) by {
        lemma_cropped_at(p, x, y, c);
        lemma_arranged_at(p.width, p.height, g, x, y, c);
        lemma_arranged_at(p.height, p.width, f, p.height - 1 - y, x, c);
    }
    lemma_same_pixels(three_quarter_turn(q), p.cropped());
    let r = three_quarter_turn(p);
    let h = |x: int, y: int, c: int| p.at(p.width - 1 - y, x, c);
    let k = |x: int, y: int, c: int| r.at(y, r.height - 1 - x, c);
    assert forall|x: int, y: int, c: int|
        0 <= x < p.width && 0 <= y < p.height && 0 <= c < 4 implies #[trigger] quarter_turn(r).at(
        x,
        y,
        c,
    ) == p.cropped().at(x, y, c) by {
        lemma_cropped_at(p, x, y, c);
        lemma_arranged_at(p.width, p.height, k, x, y, c);
        lemma_arranged_at(p.height, p.width, h, y, p.width - 1 - x, c);
    }
    lemma_same_pixels(quarter_turn(r), p.cropped());
}

/// A half turn is its own inverse, but for bytes behind the last pixel.
pub proof fn two_half_turns_restore(p: PictureView)
    requires
        p.is_filled(),
    ensures
        half_turn(half_turn(p)) == p.cropped(),
        p.is_exact() ==> p.cropped() == p,
{
    lemma_area(p.width, p.height);
    let q = half_turn(p);
    let f = |x: int, y: int, c: int| p.at(p.width - 1 - x, p.height - 1 - y, c);
    let g = |x: int, y: int, c: int| q.at(q.width - 1 - x, q.height - 1 - y, c);
    assert forall|x: int, y: int, c: int|
        0 <= x < p.width && 0 <= y < p.height && 0 <= c < 4 implies #[trigger] half_turn(q).at(
        x,
        y,
        c,
    ) == p.cropped().at(x, y, c) by {
        lemma_cropped_at(p, x, y, c);
        lemma_arranged_at(p.width, p.height, g, x, y, c);
        lemma_arranged_at(p.width, p.height, f, p.width - 1 - x, p.height - 1 - y, c);
    }
    lemma_same_pixels(half_turn(q), p.cropped());
}

/// Mirroring is its own inverse, but for bytes behind the last pixel.
pub proof fn mirroring_twice_restores(p: PictureView)
    requires
        p.is_filled(),
    ensures
        mirrored(mirrored(p)) == p.cropped(),
        p.is_exact() ==> p.cropped() == p,
{
    lemma_area(p.width, p.height);
    let q = mirrored(p);
    let f = |x: int, y: int, c: int| p.at(p.width - 1 - x, y, c);
    let g = |x: int, y: int, c: int| q.at(q.width - 1 - x, y, c);
    assert forall|x: int, y: int, c: int|
        0 <= x < p.width && 0 <= y < p.height && 0 <= c < 4 implies #[trigger] mirrored(q).at(
        x,
        y,
        c,
    ) == p.cropped().at(x, y, c) by {
        lemma_cropped_at(p, x, y, c);
        lemma_arranged_at(p.width, p.height, g, x, y, c);
        lemma_arranged_at(p.width, p.height, f, p.width - 1 - x, y, c);
    }
    lemma_same_pixels(mirrored(q), p.cropped());
}

/// Whatever the transform, the picture keeps its number of pixels, and an
/// exact picture stays exact.
pub proof fn orienting_keeps_the_area(p: PictureView, t: Transform)
    requires
        p.is_filled(),
    ensures
        oriented(p, t).is_filled(),
        oriented(p, t).width * oriented(p, t).height == p.width * p.height,
        p.is_exact() ==> oriented(p, t).is_exact(),
{
    lemma_area(p.width, p.height);
}

/// Where the pixel in column `x` of row `y` goes when a transform is made
/// good: by a quarter turn the left column becomes the top row, by three
/// quarters the right one, by a half turn everything goes to the opposite
/// place, and by a flip alone left and right change places.
pub proof fn pixels_go_where_the_transform_takes_them(
    p: PictureView,
    t: Transform,
    x: int,
    y: int,
    c: int,
)
    requires
        p.is_filled(),
        0 <= x < p.width,
        0 <= y < p.height,
        0 <= c < 4,
    ensures
        match t {
            Transform::Rotated90 | Transform::Flipped90 => oriented(p, t).width == p.height
                && oriented(p, t).height == p.width && oriented(p, t).at(p.height - 1 - y, x, c)
                == p.at(x, y, c),
            Transform::Rotated180 | Transform::Flipped180 => oriented(p, t).width == p.width
                && oriented(p, t).height == p.height && oriented(p, t).at(
                p.width - 1 - x,
                p.height - 1 - y,
                c,
            ) == p.at(x, y, c),
            Transform::Rotated270 | Transform::Flipped270 => oriented(p, t).width == p.height
                && oriented(p, t).height == p.width && oriented(p, t).at(y, p.width - 1 - x, c)
                == p.at(x, y, c),
            Transform::Flipped => oriented(p, t).width == p.width && oriented(p, t).height
                == p.height && oriented(p, t).at(p.width - 1 - x, y, c) == p.at(x, y, c),
            Transform::Normal | Transform::Other => oriented(p, t) == p,
        },
{
    let w = p.width;
    let h = p.height;
    match t {
        Transform::Rotated90 | Transform::Flipped90 => {
            let f = |x: int, y: int, c: int| p.at(y, p.height - 1 - x, c);
            lemma_arranged_at(h, w, f, h - 1 - y, x, c);
        },
        Transform::Rotated180 | Transform::Flipped180 => {
            let f = |x: int, y: int, c: int| p.at(p.width - 1 - x, p.height - 1 - y, c);
            lemma_arranged_at(w, h, f, w - 1 - x, h - 1 - y, c);
        },
        Transform::Rotated270 | Transform::Flipped270 => {
            let f = |x: int, y: int, c: int| p.at(p.width - 1 - y, x, c);
            lemma_arranged_at(h, w, f, y, w - 1 - x, c);
        },
        Transform::Flipped => {
            let f = |x: int, y: int, c: int| p.at(p.width - 1 - x, y, c);
            lemma_arranged_at(w, h, f, w - 1 - x, y, c);
        },
        Transform::Normal | Transform::Other => {},
    }
}

} // verus!
