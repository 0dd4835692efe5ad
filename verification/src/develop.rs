//! From the bytes of a captured frame to its thumbnail.

use crate::picture::{
    apply_transform, from_raw, oriented, pixels_go_where_the_transform_takes_them, Picture, PictureView, Transform,
};
use crate::pixels::{
    bgra_to_rgba, channels_change_places, incomplete_pixels_become_zero,
    opaque_pixels_ignore_alpha, swizzled,
};
use crate::scale::{
    fitted, fitted_side_keeps_within_max, fitting_frame_keeps_its_size, scaled_dims,
    shrinking_never_enlarges, too_large_frames_are_fitted_in_proportion,
};
use crate::session::BufferPlan;
use image::imageops;
use image::RgbaImage;
use vstd::prelude::*;

verus! {

/// The bytes of a picture of `width` by `height` over `rgba`, resized to
/// `new_width` by `new_height`.
pub uninterp spec fn thumbnail_bytes(
    rgba: Seq<u8>,
    width: u32,
    height: u32,
    new_width: u32,
    new_height: u32,
) -> Seq<u8>;

/// The most pixels of a side that go into one pixel of the resized side:
/// their ratio, rounded up. On sides so long that the edges between the
/// pixels are no longer found exactly in single precision, a bound on it.
pub open spec fn block_bound(side: int, new_side: int) -> int {
    if side * new_side <= 0x40_0000 {
        (side + new_side - 1) / new_side
    } else {
        let about = side / new_side + 2 + side / 0x20_0000;
        if about < side {
            about
        } else {
            side
        }
    }
}

/// No channel of any pixel is above `top`.
pub open spec fn no_brighter(p: PictureView, top: u8) -> bool {
    forall|i: int| 0 <= i < 4 * (p.width * p.height) ==> #[trigger] p.rgba[i] <= top
}

/// As many pixels as `block`, with no channel above `top`, can be averaged in
/// thirty-two bits: the sum of a channel and half their number stay within.
pub open spec fn averageable(block: int, top: u8) -> bool {
    block <= u32::MAX && top * block + block / 2 <= u32::MAX
}

/// The resized picture can be held in memory, and the pixels that go into one
/// of its pixels can be averaged, however bright the picture makes them.
pub open spec fn resizable(p: PictureView, new_width: u32, new_height: u32) -> bool {
    let block = block_bound(p.width, new_width as int) * block_bound(p.height, new_height as int);
    &&& 4 * (new_width * new_height) <= isize::MAX
    &&& exists|top: u8| #[trigger] no_brighter(p, top) && averageable(block, top)
}

/// `image::imageops::thumbnail`: the picture resized to the given size, a
/// matter of its bytes and of the two sizes. A picture of at most two to the
/// twenty-fourth by as many pixels that is asked for in its own size comes
/// out as it is.
#[verifier::external_body]
fn thumbnail(picture: Picture, new_width: u32, new_height: u32) -> (small: Picture)
    requires
        picture@.fits(),
        new_width > 0,
        new_height > 0,
        resizable(picture@, new_width, new_height),
    ensures
        small.width == new_width,
        small.height == new_height,
        small.rgba@ == thumbnail_bytes(
            picture.rgba@,
            picture.width,
            picture.height,
            new_width,
            new_height,
        ),
        small.rgba@.len() == 4 * (new_width * new_height),
        new_width == picture.width && new_height == picture.height && new_width <= 0x100_0000
            && new_height <= 0x100_0000 ==> small.rgba@ == picture.rgba@.take(
            4 * (new_width * new_height),
        ),
{
    let image = RgbaImage::from_raw(picture.width, picture.height, picture.rgba).unwrap();
    let small = imageops::thumbnail(&image, new_width, new_height);
    Picture { width: small.width(), height: small.height(), rgba: small.into_raw() }
}

/// A side of at least one pixel.
pub open spec fn at_least_one(side: u32) -> u32 {
    if side < 1 {
        1
    } else {
        side
    }
}

/// The size of the thumbnail of an upright frame: fitted, and never empty.
pub open spec fn thumb_size(w: u32, h: u32, max: u32, fit_height: bool) -> (u32, u32) {
    let dims = fitted(w, h, fit_height, max);
    (at_least_one(dims.0), at_least_one(dims.1))
}

/// The transform that a frame came with, or none.
pub open spec fn transform_or_normal(transform: Option<Transform>) -> Transform {
    match transform {
        Some(t) => t,
        None => Transform::Normal,
    }
}

/// The size of a frame of `w` by `h` once it is upright.
pub open spec fn upright_size(w: u32, h: u32, t: Transform) -> (u32, u32) {
    match t {
        Transform::Rotated90 | Transform::Rotated270 | Transform::Flipped90
        | Transform::Flipped270 => (h, w),
        _ => (w, h),
    }
}

/// A captured frame, in R, G, B, A order and upright.
pub open spec fn upright(
    raw: Seq<u8>,
    plan: BufferPlan,
    transform: Option<Transform>,
) -> PictureView {
    oriented(
        PictureView {
            width: plan.width as int,
            height: plan.height as int,
            rgba: swizzled(raw, plan.opaque),
        },
        transform_or_normal(transform),
    )
}

/// A frame can be developed: where the bytes suffice for it, it has pixels,
/// and its thumbnail can be made.
pub open spec fn developable(
    raw: Seq<u8>,
    plan: BufferPlan,
    transform: Option<Transform>,
    max: u32,
    fit_height: bool,
) -> bool {
    let (w, h) = upright_size(plan.width, plan.height, transform_or_normal(transform));
    let (tw, th) = thumb_size(w, h, max, fit_height);
    raw.len() >= 4 * (plan.width * plan.height) ==> {
        &&& plan.width > 0
        &&& plan.height > 0
        &&& resizable(upright(raw, plan, transform), tw, th)
    }
}

/// The thumbnail of a captured frame, where the bytes suffice for it.
pub open spec fn developed(
    raw: Seq<u8>,
    plan: BufferPlan,
    transform: Option<Transform>,
    max: u32,
    fit_height: bool,
) -> Option<PictureView> {
    if raw.len() < 4 * (plan.width * plan.height) {
        None
    } else {
        let (w, h) = upright_size(plan.width, plan.height, transform_or_normal(transform));
        let (tw, th) = thumb_size(w, h, max, fit_height);
        Some(
            PictureView {
                width: tw as int,
                height: th as int,
                rgba: thumbnail_bytes(upright(raw, plan, transform).rgba, w, h, tw, th),
            },
        )
    }
}

/// What a capture gives: the frame developed, if it was written.
pub open spec fn concluded(
    raw: Seq<u8>,
    plan: BufferPlan,
    written: bool,
    transform: Option<Transform>,
    max: u32,
    fit_height: bool,
) -> Option<PictureView> {
    if written {
        developed(raw, plan, transform, max, fit_height)
    } else {
        None
    }
}

fn block_bound_exec(side: u32, new_side: u32) -> (b: u64)
    requires
        side > 0,
        new_side > 0,
    ensures
        b == block_bound(side as int, new_side as int),
        1 <= b <= 0x1_FFFF_FFFF,
{
    assert(0 <= side * new_side <= 0xFFFF_FFFF * 0xFFFF_FFFF) by (nonlinear_arith)
        requires
            0 <= side <= 0xFFFF_FFFF,
            0 <= new_side <= 0xFFFF_FFFF,
    ;
    if side as u64 * new_side as u64 <= 0x40_0000 {
        let raised: u64 = side as u64 + new_side as u64 - 1;
        assert(1 <= raised / new_side as u64 <= raised) by (nonlinear_arith)
            requires
                new_side >= 1,
                raised >= new_side,
        ;
        return raised / new_side as u64;
    }
    let about: u64 = (side / new_side) as u64 + 2 + (side / 0x20_0000) as u64;
    if about < side as u64 {
        about
    } else {
        side as u64
    }
}

fn is_averageable(block: u128, top: u8) -> (b: bool)
    requires
        block <= 0x1_FFFF_FFFF * 0x1_FFFF_FFFF,
    ensures
        b == averageable(block as int, top),
{
    if block > u32::MAX as u128 {
        return false;
    }
    assert(0 <= top * block <= 0xFF * 0xFFFF_FFFF) by (nonlinear_arith)
        requires
            0 <= top <= 0xFF,
            0 <= block <= 0xFFFF_FFFF,
    ;
    top as u128 * block + block / 2 <= u32::MAX as u128
}

/// The highest channel of any pixel.
fn brightest(picture: &Picture) -> (top: u8)
    requires
        picture@.is_filled(),
    ensures
        no_brighter(picture@, top),
        forall|other: u8| #[trigger] no_brighter(picture@, other) ==> top <= other,
{
    assert(0 <= picture.width * picture.height <= 0xFFFF_FFFF * 0xFFFF_FFFF) by (nonlinear_arith)
        requires
            0 <= picture.width <= 0xFFFF_FFFF,
            0 <= picture.height <= 0xFFFF_FFFF,
    ;
    let count: u128 = 4 * (picture.width as u128 * picture.height as u128);
    let mut top: u8 = 0;
    let mut i: usize = 0;
    while (i as u128) < count
        invariant
            picture@.is_filled(),
            count == 4 * (picture.width * picture.height),
            i <= count <= picture.rgba.len(),
            forall|k: int| 0 <= k < i ==> #[trigger] picture.rgba@[k] <= top,
            forall|other: u8| #[trigger] no_brighter(picture@, other) ==> top <= other,
        decreases count - i,
    {
        if picture.rgba[i] > top {
            top = picture.rgba[i];
        }
        i = i + 1;
    }
    top
}

/// Puts the bytes of a captured frame in order and sets it upright, where
/// they suffice for it.
fn set_upright(raw: &[u8], plan: &BufferPlan, transform: Option<Transform>) -> (img: Option<
    Picture,
>)
    requires
        plan.width > 0,
        plan.height > 0,
    ensures
        match img {
            Some(p) => raw@.len() >= 4 * (plan.width * plan.height) && p@.fits() && p@ == upright(
                raw@,
                *plan,
                transform,
            ),
            None => raw@.len() < 4 * (plan.width * plan.height),
        },
{
    let rgba: Vec<u8> = bgra_to_rgba(raw, plan.opaque);
    proof {
        let w = plan.width as int;
        let h = plan.height as int;
        assert(4 * w <= 4 * (w * h) && 4 * h <= 4 * (w * h)) by (nonlinear_arith)
            requires
                w >= 1,
                h >= 1,
        ;
        assert(rgba@.len() == rgba.len());
    }
    match from_raw(plan.width, plan.height, rgba) {
        Some(img) => {
            let t: Transform = match transform {
                Some(t) => t,
                None => Transform::Normal,
            };
            Some(apply_transform(img, t))
        },
        None => None,
    }
}

/// Whether a frame can be developed.
pub fn is_developable(
    raw: &[u8],
    plan: &BufferPlan,
    transform: Option<Transform>,
    max: u32,
    fit_height: bool,
) -> (b: bool)
    ensures
        b == developable(raw@, *plan, transform, max, fit_height),
{
    assert(0 <= plan.width * plan.height <= 0xFFFF_FFFF * 0xFFFF_FFFF) by (nonlinear_arith)
        requires
            0 <= plan.width <= 0xFFFF_FFFF,
            0 <= plan.height <= 0xFFFF_FFFF,
    ;
    if (raw.len() as u128) < 4 * (plan.width as u128 * plan.height as u128) {
        return true;
    }
    if plan.width == 0 || plan.height == 0 {
        return false;
    }
    let (w, h) = match transform {
        Some(Transform::Rotated90) | Some(Transform::Rotated270) | Some(Transform::Flipped90)
        | Some(Transform::Flipped270) => (plan.height, plan.width),
        _ => (plan.width, plan.height),
    };
    let (fw, fh) = scaled_dims(w, h, fit_height, max);
    let tw: u32 = if fw < 1 { 1 } else { fw };
    let th: u32 = if fh < 1 { 1 } else { fh };
    let across: u64 = block_bound_exec(w, tw);
    let down: u64 = block_bound_exec(h, th);
    assert(0 <= across * down <= 0x1_FFFF_FFFF * 0x1_FFFF_FFFF) by (nonlinear_arith)
        requires
            0 <= across <= 0x1_FFFF_FFFF,
            0 <= down <= 0x1_FFFF_FFFF,
    ;
    assert(0 <= tw * th <= 0xFFFF_FFFF * 0xFFFF_FFFF) by (nonlinear_arith)
        requires
            0 <= tw <= 0xFFFF_FFFF,
            0 <= th <= 0xFFFF_FFFF,
    ;
    if 4 * (tw as u128 * th as u128) > isize::MAX as u128 {
        return false;
    }
    let block: u128 = across as u128 * down as u128;
    let ghost p = upright(raw@, *plan, transform);
    assert(p.width == w && p.height == h);
    if is_averageable(block, 255) {
        assert(no_brighter(p, 255));
        return true;
    }
    match set_upright(raw, plan, transform) {
        Some(img) => {
            let top: u8 = brightest(&img);
            assert(no_brighter(p, top));
            assert forall|other: u8| #[trigger]
                no_brighter(p, other) && averageable(block as int, other) implies averageable(
                block as int,
                top,
            ) by {
                assert(top * block <= other * block) by (nonlinear_arith)
                    requires
                        top <= other,
                        0 <= block,
                ;
            }
            is_averageable(block, top)
        },
        None => true,
    }
}

/// Makes the thumbnail of a captured frame: puts its bytes in order, sets it
/// upright, and shrinks it to `max` by its height or width. There is none
/// where the bytes do not suffice.
pub fn develop(
    raw: &[u8],
    plan: &BufferPlan,
    transform: Option<Transform>,
    max: u32,
    fit_height: bool,
) -> (shot: Option<Picture>)
    requires
        developable(raw@, *plan, transform, max, fit_height),
    ensures
        match shot {
            Some(p) => developed(raw@, *plan, transform, max, fit_height) == Some(p@),
            None => developed(raw@, *plan, transform, max, fit_height) is None,
        },
        shot matches Some(p) ==> p.rgba@.len() == 4 * (p.width * p.height),
        shot matches Some(p) ==> p.width >= 1 && p.height >= 1,
        shot matches Some(p) ==> p.width == upright(raw@, *plan, transform).width && p.height
            == upright(raw@, *plan, transform).height && p.width <= 0x100_0000 && p.height
            <= 0x100_0000 ==> p.rgba@ == upright(raw@, *plan, transform).rgba.take(
            4 * (p.width * p.height),
        ),
{
    proof {
        if plan.width == 0 || plan.height == 0 {
            assert(plan.width * plan.height == 0) by (nonlinear_arith)
                requires
                    plan.width == 0 || plan.height == 0,
            ;
        }
    }
    match set_upright(raw, plan, transform) {
        Some(img) => {
            let (fw, fh) = scaled_dims(img.width, img.height, fit_height, max);
            let tw: u32 = if fw < 1 { 1 } else { fw };
            let th: u32 = if fh < 1 { 1 } else { fh };
            Some(thumbnail(img, tw, th))
        },
        None => None,
    }
}

/// Brings a capture to its end: develops the frame, if it was written.
pub fn conclude(
    plan: &BufferPlan,
    written: bool,
    raw: &[u8],
    transform: Option<Transform>,
    max: u32,
    fit_height: bool,
) -> (shot: Option<Picture>)
    requires
        written ==> developable(raw@, *plan, transform, max, fit_height),
    ensures
        match shot {
            Some(p) => concluded(raw@, *plan, written, transform, max, fit_height) == Some(p@),
            None => concluded(raw@, *plan, written, transform, max, fit_height) is None,
        },
{
    if written {
        develop(raw, plan, transform, max, fit_height)
    } else {
        None
    }
}

/// A thumbnail keeps within `max` on the side it is fitted to, unless that
/// would leave it without a pixel.
pub proof fn thumbnails_keep_within_max(w: u32, h: u32, max: u32, fit_height: bool)
    ensures
        thumb_size(w, h, max, fit_height).0 >= 1,
        thumb_size(w, h, max, fit_height).1 >= 1,
        fit_height ==> thumb_size(w, h, max, fit_height).1 <= at_least_one(max),
        !fit_height ==> thumb_size(w, h, max, fit_height).0 <= at_least_one(max),
{
    fitted_side_keeps_within_max(w, h, fit_height, max);
}

/// A frame that keeps within `max` is not resized.
pub proof fn fitting_thumbnails_keep_their_size(w: u32, h: u32, max: u32, fit_height: bool)
    requires
        w >= 1,
        h >= 1,
        if fit_height { h <= max } else { w <= max },
    ensures
        thumb_size(w, h, max, fit_height) == (w, h),
{
    fitting_frame_keeps_its_size(w, h, fit_height, max);
}

/// The upright frame has the size that its thumbnail is reckoned from.
pub proof fn upright_frames_have_the_upright_size(
    raw: Seq<u8>,
    plan: BufferPlan,
    transform: Option<Transform>,
)
    ensures
        upright(raw, plan, transform).width == upright_size(
            plan.width,
            plan.height,
            transform_or_normal(transform),
        ).0,
        upright(raw, plan, transform).height == upright_size(
            plan.width,
            plan.height,
            transform_or_normal(transform),
        ).1,
{
}

/// A frame gives a thumbnail exactly where there are four bytes for every
/// pixel, and the thumbnail has bytes for a picture of at least one pixel.
pub proof fn frames_with_enough_bytes_are_developed(
    raw: Seq<u8>,
    plan: BufferPlan,
    transform: Option<Transform>,
    max: u32,
    fit_height: bool,
)
    ensures
        developed(raw, plan, transform, max, fit_height) is Some <==> raw.len() >= 4 * (plan.width
            * plan.height),
        developed(raw, plan, transform, max, fit_height) matches Some(p) ==> 1 <= p.width
            <= u32::MAX && 1 <= p.height <= u32::MAX,
{
}

/// The thumbnail of a frame that is too high or too wide once it is upright
/// has exactly `max` on that side. Its other side is that of the upright
/// frame, times `max` over the side that was too long: to less than a pixel
/// where it is short enough for pixels to be told apart in single precision,
/// and to the nearest pixel as far as that goes elsewhere. Either side has at
/// least the one pixel.
pub proof fn large_frames_are_shrunk_in_proportion(
    raw: Seq<u8>,
    plan: BufferPlan,
    transform: Option<Transform>,
    max: u32,
    fit_height: bool,
)
    requires
        raw.len() >= 4 * (plan.width * plan.height),
        ({
            let (w, h) = match transform {
                Some(Transform::Rotated90) | Some(Transform::Rotated270) | Some(
                    Transform::Flipped90,
                ) | Some(Transform::Flipped270) => (plan.height, plan.width),
                _ => (plan.width, plan.height),
            };
            if fit_height {
                h > max
            } else {
                w > max
            }
        }),
    ensures
        ({
            let (w, h) = match transform {
                Some(Transform::Rotated90) | Some(Transform::Rotated270) | Some(
                    Transform::Flipped90,
                ) | Some(Transform::Flipped270) => (plan.height, plan.width),
                _ => (plan.width, plan.height),
            };
            let p = developed(raw, plan, transform, max, fit_height)->0;
            let (side, over, small, fit) = if fit_height {
                (w, h, p.width, p.height)
            } else {
                (h, w, p.height, p.width)
            };
            let exact = side * max;
            &&& fit == if max >= 1 { max as int } else { 1 }
            &&& small >= 1
            &&& side < 0x20_0000 ==> (exact - over < small * over < exact + over) || (small == 1
                && exact < over)
            &&& small <= side || small == 1 || (side >= 0x40_0000 && over > 0x40_0000)
            &&& (0x200_0000 * (small * over - exact) <= 0x100_0003 * over + 16 * exact && 0x200_0000
                * (exact - small * over) <= 0x100_0003 * over + 16 * exact) || (small == 1
                && 0x200_0000 * exact <= 0x100_0003 * over + 16 * exact)
        }),
{
    let (w, h) = upright_size(plan.width, plan.height, transform_or_normal(transform));
    too_large_frames_are_fitted_in_proportion(w, h, fit_height, max);
    let (fw, fh) = fitted(w, h, fit_height, max);
    assert(0 * h == 0 && 0 * w == 0);
}

/// The thumbnail of a frame that is within `max` once it is upright has the
/// size of the upright frame.
pub proof fn small_frames_keep_their_size(
    raw: Seq<u8>,
    plan: BufferPlan,
    transform: Option<Transform>,
    max: u32,
    fit_height: bool,
)
    requires
        plan.width >= 1,
        plan.height >= 1,
        raw.len() >= 4 * (plan.width * plan.height),
        ({
            let (w, h) = match transform {
                Some(Transform::Rotated90) | Some(Transform::Rotated270) | Some(
                    Transform::Flipped90,
                ) | Some(Transform::Flipped270) => (plan.height, plan.width),
                _ => (plan.width, plan.height),
            };
            if fit_height {
                h <= max
            } else {
                w <= max
            }
        }),
    ensures
        ({
            let p = developed(raw, plan, transform, max, fit_height)->0;
            match transform {
                Some(Transform::Rotated90) | Some(Transform::Rotated270) | Some(
                    Transform::Flipped90,
                ) | Some(Transform::Flipped270) => p.width == plan.height && p.height == plan.width,
                _ => p.width == plan.width && p.height == plan.height,
            }
        }),
{
    let (w, h) = upright_size(plan.width, plan.height, transform_or_normal(transform));
    fitting_thumbnails_keep_their_size(w, h, max, fit_height);
}

/// What the buffer holds for the pixel in column `x` of row `y`, blue first,
/// shows in the upright frame where the transform takes it, red first, and
/// with full alpha where the format has none.
pub proof fn upright_frames_show_what_the_buffer_holds(
    raw: Seq<u8>,
    plan: BufferPlan,
    transform: Option<Transform>,
    x: int,
    y: int,
)
    requires
        raw.len() >= 4 * (plan.width * plan.height),
        0 <= x < plan.width,
        0 <= y < plan.height,
    ensures
        ({
            let (w, h) = (plan.width as int, plan.height as int);
            let (column, row, width, height) = match transform {
                Some(Transform::Rotated90) | Some(Transform::Flipped90) => (h - 1 - y, x, h, w),
                Some(Transform::Rotated180) | Some(Transform::Flipped180) => (
                    w - 1 - x,
                    h - 1 - y,
                    w,
                    h,
                ),
                Some(Transform::Rotated270) | Some(Transform::Flipped270) => (y, w - 1 - x, h, w),
                Some(Transform::Flipped) => (w - 1 - x, y, w, h),
                Some(Transform::Normal) | Some(Transform::Other) | None => (x, y, w, h),
            };
            let up = upright(raw, plan, transform);
            let from = 4 * (y * w + x);
            let to = 4 * (row * width + column);
            &&& up.width == width
            &&& up.height == height
            &&& up.rgba[to] == raw[from + 2]
            &&& up.rgba[to + 1] == raw[from + 1]
            &&& up.rgba[to + 2] == raw[from]
            &&& up.rgba[to + 3] == if plan.opaque {
                255
            } else {
                raw[from + 3]
            }
        }),
{
    let (w, h) = (plan.width as int, plan.height as int);
    let p = PictureView { width: w, height: h, rgba: swizzled(raw, plan.opaque) };
    assert(0 <= y * w + x < w * h) by (nonlinear_arith)
        requires
            0 <= x < w,
            0 <= y < h,
    ;
    incomplete_pixels_become_zero(raw, plan.opaque);
    channels_change_places(raw, plan.opaque, y * w + x);
    let t = transform_or_normal(transform);
    pixels_go_where_the_transform_takes_them(p, t, x, y, 0);
    pixels_go_where_the_transform_takes_them(p, t, x, y, 1);
    pixels_go_where_the_transform_takes_them(p, t, x, y, 2);
    pixels_go_where_the_transform_takes_them(p, t, x, y, 3);
}

/// It is the whole of the upright frame that a thumbnail is made of: `rgba`
/// may be any bytes that agree with it.
pub proof fn thumbnails_are_made_of_the_upright_frame(
    raw: Seq<u8>,
    plan: BufferPlan,
    transform: Option<Transform>,
    max: u32,
    fit_height: bool,
    rgba: Seq<u8>,
)
    requires
        raw.len() >= 4 * (plan.width * plan.height),
        rgba.len() == upright(raw, plan, transform).rgba.len(),
        forall|i: int|
            0 <= i < rgba.len() ==> #[trigger] rgba[i] == upright(raw, plan, transform).rgba[i],
    ensures
        ({
            let p = developed(raw, plan, transform, max, fit_height)->0;
            p.rgba == match transform {
                Some(Transform::Rotated90) | Some(Transform::Rotated270) | Some(
                    Transform::Flipped90,
                ) | Some(Transform::Flipped270) => thumbnail_bytes(
                    rgba,
                    plan.height,
                    plan.width,
                    p.width as u32,
                    p.height as u32,
                ),
                _ => thumbnail_bytes(
                    rgba,
                    plan.width,
                    plan.height,
                    p.width as u32,
                    p.height as u32,
                ),
            }
        }),
{
    assert(rgba =~= upright(raw, plan, transform).rgba);
}

/// Where the format has no alpha, the fourth byte of a pixel has no bearing on
/// the thumbnail.
pub proof fn unused_bytes_do_not_show(
    a: Seq<u8>,
    b: Seq<u8>,
    plan: BufferPlan,
    transform: Option<Transform>,
    max: u32,
    fit_height: bool,
)
    requires
        plan.opaque,
        a.len() == b.len(),
        forall|i: int| 0 <= i < a.len() && i % 4 != 3 ==> a[i] == b[i],
    ensures
        developed(a, plan, transform, max, fit_height) == developed(
            b,
            plan,
            transform,
            max,
            fit_height,
        ),
{
    opaque_pixels_ignore_alpha(a, b);
}

/// No block of pixels is longer than the side it is taken from.
proof fn lemma_block_bound(side: int, new_side: int)
    requires
        1 <= side,
        1 <= new_side,
    ensures
        1 <= block_bound(side, new_side) <= side,
{
    assert(1 <= (side + new_side - 1) / new_side <= side) by (nonlinear_arith)
        requires
            1 <= side,
            1 <= new_side,
    ;
    assert(0 <= side / new_side) by (nonlinear_arith)
        requires
            1 <= side,
            1 <= new_side,
    ;
}

/// Every frame of up to two to the twenty-fourth pixels can be developed,
/// whatever it shows.
pub proof fn common_frames_are_developable(
    raw: Seq<u8>,
    plan: BufferPlan,
    transform: Option<Transform>,
    max: u32,
    fit_height: bool,
)
    requires
        plan.width >= 1,
        plan.height >= 1,
        plan.width * plan.height <= 0x100_0000,
    ensures
        developable(raw, plan, transform, max, fit_height),
{
    let (w, h) = upright_size(plan.width, plan.height, transform_or_normal(transform));
    let (tw, th) = thumb_size(w, h, max, fit_height);
    let area = w * h;
    assert(area == plan.width * plan.height) by (nonlinear_arith)
        requires
            area == w * h,
            (w == plan.width && h == plan.height) || (w == plan.height && h == plan.width),
    ;
    assert(w < 0x40_0000 || h <= 0x40_0000) by (nonlinear_arith)
        requires
            w * h <= 0x100_0000,
    ;
    assert(h < 0x40_0000 || w <= 0x40_0000) by (nonlinear_arith)
        requires
            w * h <= 0x100_0000,
    ;
    if fit_height && h > max {
        shrinking_never_enlarges(w, h, max);
    } else if !fit_height && w > max {
        shrinking_never_enlarges(h, w, max);
    }
    assert(1 <= tw <= w && 1 <= th <= h);
    assert(0 <= tw * th <= 0x100_0000) by (nonlinear_arith)
        requires
            1 <= tw <= w,
            1 <= th <= h,
            w * h <= 0x100_0000,
    ;
    lemma_block_bound(w as int, tw as int);
    lemma_block_bound(h as int, th as int);
    let across = block_bound(w as int, tw as int);
    let down = block_bound(h as int, th as int);
    let block = across * down;
    assert(0 <= block <= 0x100_0000) by (nonlinear_arith)
        requires
            block == across * down,
            1 <= across <= w,
            1 <= down <= h,
            w * h <= 0x100_0000,
    ;
    let p = upright(raw, plan, transform);
    assert(no_brighter(p, 255) && averageable(block, 255));
}

/// A frame that was not written gives no picture, whatever is in the buffer,
/// and one that was gives what it is developed to.
pub proof fn unwritten_frames_give_no_picture(
    raw: Seq<u8>,
    plan: BufferPlan,
    written: bool,
    transform: Option<Transform>,
    max: u32,
    fit_height: bool,
)
    ensures
        concluded(raw, plan, written, transform, max, fit_height) is Some <==> written && raw.len()
            >= 4 * (plan.width * plan.height),
        written ==> concluded(raw, plan, written, transform, max, fit_height) == developed(
            raw,
            plan,
            transform,
            max,
            fit_height,
        ),
{
}

/// A larger frame too can be developed, whatever it shows, where not too many
/// of its pixels go into one of the thumbnail.
pub proof fn frames_of_small_blocks_are_developable(
    raw: Seq<u8>,
    plan: BufferPlan,
    transform: Option<Transform>,
    max: u32,
    fit_height: bool,
)
    requires
        plan.width >= 1,
        plan.height >= 1,
        developed(raw, plan, transform, max, fit_height) matches Some(p) ==> {
            let (w, h) = match transform {
                Some(Transform::Rotated90) | Some(Transform::Rotated270) | Some(
                    Transform::Flipped90,
                ) | Some(Transform::Flipped270) => (plan.height as int, plan.width as int),
                _ => (plan.width as int, plan.height as int),
            };
            &&& 4 * (p.width * p.height) <= isize::MAX
            &&& (w / p.width + 2 + w / 0x20_0000) * (h / p.height + 2 + h / 0x20_0000) <= 0x100_0000
        },
    ensures
        developable(raw, plan, transform, max, fit_height),
{
    if raw.len() >= 4 * (plan.width * plan.height) {
        let (w, h) = upright_size(plan.width, plan.height, transform_or_normal(transform));
        let (tw, th) = thumb_size(w, h, max, fit_height);
        lemma_block_bound(w as int, tw as int);
        lemma_block_bound(h as int, th as int);
        lemma_block_is_about_the_ratio(w as int, tw as int);
        lemma_block_is_about_the_ratio(h as int, th as int);
        let across = block_bound(w as int, tw as int);
        let down = block_bound(h as int, th as int);
        let most_across = w as int / tw as int + 2 + w as int / 0x20_0000;
        let most_down = h as int / th as int + 2 + h as int / 0x20_0000;
        let block = across * down;
        assert(0 <= block <= 0x100_0000) by (nonlinear_arith)
            requires
                block == across * down,
                1 <= across <= most_across,
                1 <= down <= most_down,
                most_across * most_down <= 0x100_0000,
        ;
        let p = upright(raw, plan, transform);
        assert(no_brighter(p, 255) && averageable(block, 255));
    }
}

proof fn lemma_block_is_about_the_ratio(side: int, new_side: int)
    requires
        1 <= side,
        1 <= new_side,
    ensures
        block_bound(side, new_side) <= side / new_side + 2 + side / 0x20_0000,
{
    assert((side + new_side - 1) / new_side <= side / new_side + 1) by (nonlinear_arith)
        requires
            1 <= side,
            1 <= new_side,
    ;
}

} // verus!
