//! Byte order of captured pixels.

use vstd::prelude::*;

verus! {

/// Pixels in B, G, R, A byte order put into R, G, B, A order, with full alpha
/// where `opaque` is set. Bytes behind the last whole pixel become zero.
pub open spec fn swizzled(src: Seq<u8>, opaque: bool) -> Seq<u8> {
    Seq::new(
        src.len(),
        |i: int|
            {
                let channel = i % 4;
                let start = i - channel;
                if start + 4 > src.len() {
                    0
                } else if channel == 0 {
                    src[start + 2]
                } else if channel == 2 {
                    src[start]
                } else if channel == 3 && opaque {
                    255
                } else {
                    src[i]
                }
            },
    )
}

/// Puts pixels into R, G, B, A byte order. The shared-memory formats
/// XRGB8888 and ARGB8888 are little-endian, so that their bytes lie in memory
/// as B, G, R, A; the first of them has no alpha, which `opaque` fills in.
pub fn bgra_to_rgba(src: &[u8], opaque: bool) -> (out: Vec<u8>)
    ensures
        out@ == swizzled(src@, opaque),
{
    let mut out: Vec<u8> = vec![0u8; src.len()];
    let mut i: usize = 0;
    while src.len() - i >= 4
        invariant
            i <= src.len(),
            i % 4 == 0,
            out@.len() == src@.len(),
            forall|k: int| 0 <= k < i ==> out@[k] == swizzled(src@, opaque)[k],
            forall|k: int| i <= k < out@.len() ==> out@[k] == 0,
        decreases src.len() - i,
    {
        out.set(i, src[i + 2]);
        out.set(i + 1, src[i + 1]);
        out.set(i + 2, src[i]);
        out.set(i + 3, if opaque { 255 } else { src[i + 3] });
        i = i + 4;
    }
    assert(out@ =~= swizzled(src@, opaque));
    out
}

/// With alpha kept, reordering whole pixels twice restores them.
pub proof fn swizzle_undoes_itself(src: Seq<u8>)
    requires
        src.len() % 4 == 0,
    ensures
        swizzled(swizzled(src, false), false) == src,
{
    assert(swizzled(swizzled(src, false), false) =~= src);
}

/// Without alpha, every whole pixel comes out opaque.
pub proof fn opaque_pixels_have_full_alpha(src: Seq<u8>, pixel: int)
    requires
        0 <= pixel,
        4 * pixel + 4 <= src.len(),
    ensures
        swizzled(src, true)[4 * pixel + 3] == 255,
{
}

/// Without alpha, the fourth byte of a pixel has no bearing on the result.
pub proof fn opaque_pixels_ignore_alpha(a: Seq<u8>, b: Seq<u8>)
    requires
        a.len() == b.len(),
        forall|i: int| 0 <= i < a.len() && i % 4 != 3 ==> a[i] == b[i],
    ensures
        swizzled(a, true) == swizzled(b, true),
{
    assert(swizzled(a, true) =~= swizzled(b, true));
}

/// Where the channels of a whole pixel go: red and blue change places, green
/// stays, and alpha stays too or is full.
pub proof fn channels_change_places(src: Seq<u8>, opaque: bool, pixel: int)
    requires
        0 <= pixel,
        4 * pixel + 4 <= src.len(),
    ensures
        swizzled(src, opaque)[4 * pixel] == src[4 * pixel + 2],
        swizzled(src, opaque)[4 * pixel + 1] == src[4 * pixel + 1],
        swizzled(src, opaque)[4 * pixel + 2] == src[4 * pixel],
        !opaque ==> swizzled(src, opaque)[4 * pixel + 3] == src[4 * pixel + 3],
        opaque ==> swizzled(src, opaque)[4 * pixel + 3] == 255,
{
}

/// There are as many bytes after as before, and those behind the last whole
/// pixel are zero.
pub proof fn incomplete_pixels_become_zero(src: Seq<u8>, opaque: bool)
    ensures
        swizzled(src, opaque).len() == src.len(),
        forall|i: int|
            src.len() - src.len() % 4 <= i < src.len() ==> #[trigger] swizzled(src, opaque)[i] == 0,
{
}

} // verus!
