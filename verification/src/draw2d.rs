//! Software pixel drawing: RGBA rectangles, alpha compositing and clipped
//! blits over byte buffers with a row stride. Every primitive is clipped:
//! out-of-range destinations are skipped, never indexed.

use vstd::prelude::*;
use crate::glyphs::{GlyphCache, GlyphMetrics, metrics_wf};

verus! {

/// Byte index of pixel (x, y) in a frame with row stride `stride`.
pub open spec fn pixel_idx(stride: int, x: int, y: int) -> int {
    (y * stride + x) * 4
}

/// Pixel (x, y) lies inside the row width and fully inside the buffer.
pub open spec fn pixel_in_frame(stride: int, len: int, x: int, y: int) -> bool {
    &&& 0 <= x < stride
    &&& 0 <= y
    &&& pixel_idx(stride, x, y) + 4 <= len
}

/// The four bytes of pixel (x, y) cover byte index `k`.
pub open spec fn covers(stride: int, x: int, y: int, k: int) -> bool {
    pixel_idx(stride, x, y) <= k < pixel_idx(stride, x, y) + 4
}

/// Pixel (x, y) lies inside rectangle `r` = (x, y, width, height).
pub open spec fn in_rect(r: (usize, usize, usize, usize), x: int, y: int) -> bool {
    &&& r.0 <= x < r.0 + r.2
    &&& r.1 <= y < r.1 + r.3
}

/// Byte `k` belongs to some writable pixel of rectangle `r`: the region a
/// draw clipped to `r` may touch.
pub open spec fn rect_writes(r: (usize, usize, usize, usize), stride: int, len: int, k: int) -> bool {
    exists|x: int, y: int|
        in_rect(r, x, y) && pixel_in_frame(stride, len, x, y) && #[trigger] covers(stride, x, y, k)
}

/// Linear interpolation of one color channel: background `b` toward
/// foreground `f` by mix factor `m` out of 255.
pub open spec fn mix_channel(b: int, f: int, m: int) -> int {
    (b * (255 - m) + f * m) / 255
}

/// The four bytes of pixel (x, y) in `f` hold color `c`.
pub open spec fn pixel_set(f: Seq<u8>, stride: int, x: int, y: int, c: Seq<u8>) -> bool {
    forall|j: int| 0 <= j < 4 ==> #[trigger] f[pixel_idx(stride, x, y) + j] == c[j]
}

/// The four bytes of pixel (x, y) are unchanged between `f0` and `f`.
pub open spec fn pixel_same(f: Seq<u8>, f0: Seq<u8>, stride: int, x: int, y: int) -> bool {
    forall|j: int|
        0 <= j < 4 ==> #[trigger] f[pixel_idx(stride, x, y) + j] == f0[pixel_idx(stride, x, y) + j]
}

/// Pixel (x, y) lies inside the signed-position rectangle `r`.
pub open spec fn in_rect_at(r: (isize, isize, usize, usize), x: int, y: int) -> bool {
    &&& r.0 <= x < r.0 + r.2
    &&& r.1 <= y < r.1 + r.3
}

/// The RGBA bytes of source pixel (cx, cy) in a bitmap of width `w`.
pub open spec fn src_pixel(srcv: Seq<u8>, w: int, cx: int, cy: int) -> Seq<u8> {
    seq![
        srcv[(cy * w + cx) * 4],
        srcv[(cy * w + cx) * 4 + 1],
        srcv[(cy * w + cx) * 4 + 2],
        srcv[(cy * w + cx) * 4 + 3],
    ]
}

/// The RGBA value of `bg` mixed toward `fg` by factor `m`.
pub open spec fn mix_rgba(bg: [u8; 4], fg: [u8; 4], m: u8) -> Seq<u8> {
    seq![
        mix_channel(bg@[0] as int, fg@[0] as int, m as int) as u8,
        mix_channel(bg@[1] as int, fg@[1] as int, m as int) as u8,
        mix_channel(bg@[2] as int, fg@[2] as int, m as int) as u8,
        mix_channel(bg@[3] as int, fg@[3] as int, m as int) as u8,
    ]
}

/// The four bytes of pixel (x, y) in `f` hold `c` blended over what `f0`
/// held, by `c`'s alpha channel.
pub open spec fn pixel_mixed(f: Seq<u8>, f0: Seq<u8>, stride: int, x: int, y: int, c: Seq<u8>) -> bool {
    forall|j: int|
        0 <= j < 4 ==> #[trigger] f[pixel_idx(stride, x, y) + j] == mix_channel(
            f0[pixel_idx(stride, x, y) + j] as int,
            c[j] as int,
            c[3] as int,
        )
}

/// Distinct pixels of one frame occupy disjoint byte ranges.
pub proof fn lemma_pixel_disjoint(stride: int, x1: int, y1: int, x2: int, y2: int)
    requires
        0 <= x1 < stride,
        0 <= x2 < stride,
        0 <= y1,
        0 <= y2,
        !(x1 == x2 && y1 == y2),
    ensures
        forall|k: int| covers(stride, x1, y1, k) ==> !covers(stride, x2, y2, k),
{
    assert(y1 * stride + x1 != y2 * stride + x2) by (nonlinear_arith)
        requires
            0 <= x1 < stride,
            0 <= x2 < stride,
            0 <= y1,
            0 <= y2,
            !(x1 == x2 && y1 == y2),
    ;
}

/// A byte belongs to at most one in-frame pixel.
pub proof fn lemma_covers_unique(stride: int, x1: int, y1: int, x2: int, y2: int, k: int)
    requires
        0 <= x1 < stride,
        0 <= x2 < stride,
        0 <= y1,
        0 <= y2,
        covers(stride, x1, y1, k),
        covers(stride, x2, y2, k),
    ensures
        x1 == x2 && y1 == y2,
{
    if !(x1 == x2 && y1 == y2) {
        lemma_pixel_disjoint(stride, x1, y1, x2, y2);
    }
}

/// Byte `k` belongs to some writable pixel inside both the signed-position
/// rectangle `r` and the clip rectangle `safe`: the region a clipped draw
/// may touch.
pub open spec fn clipped_writes(
    r: (isize, isize, usize, usize),
    safe: (usize, usize, usize, usize),
    stride: int,
    len: int,
    k: int,
) -> bool {
    exists|px: int, py: int|
        in_rect_at(r, px, py) && in_rect(safe, px, py) && pixel_in_frame(stride, len, px, py)
            && #[trigger] covers(stride, px, py, k)
}

/// A clipped draw writes only inside its clip rectangle.
pub proof fn lemma_clipped_implies_rect_writes(
    r: (isize, isize, usize, usize),
    safe: (usize, usize, usize, usize),
    stride: int,
    len: int,
)
    ensures
        forall|k: int| clipped_writes(r, safe, stride, len, k) ==> rect_writes(safe, stride, len, k),
{
    assert forall|k: int| clipped_writes(r, safe, stride, len, k) implies rect_writes(
        safe,
        stride,
        len,
        k,
    ) by {
        let (px, py) = choose|px: int, py: int|
            in_rect_at(r, px, py) && in_rect(safe, px, py) && pixel_in_frame(stride, len, px, py)
                && #[trigger] covers(stride, px, py, k);
        assert(covers(stride, px, py, k));
    }
}

/// A pixel outside a plain rectangle is untouched by a draw confined to it.
pub proof fn lemma_outside_rect_unchanged(
    f2: Seq<u8>,
    f1: Seq<u8>,
    r: (usize, usize, usize, usize),
    stride: int,
    x: int,
    y: int,
)
    requires
        f2.len() == f1.len(),
        forall|k: int| 0 <= k < f1.len() && f2[k] != f1[k] ==> rect_writes(r, stride, f1.len() as int, k),
        pixel_in_frame(stride, f1.len() as int, x, y),
        !in_rect(r, x, y),
    ensures
        pixel_same(f2, f1, stride, x, y),
{
    assert forall|j: int| 0 <= j < 4 implies #[trigger] f2[pixel_idx(stride, x, y) + j] == f1[
        pixel_idx(stride, x, y) + j] by {
        let b = pixel_idx(stride, x, y) + j;
        if f2[b] != f1[b] {
            let (px, py) = choose|px: int, py: int|
                in_rect(r, px, py) && pixel_in_frame(stride, f1.len() as int, px, py)
                    && #[trigger] covers(stride, px, py, b);
            assert(covers(stride, x, y, b));
            lemma_covers_unique(stride, x, y, px, py, b);
        }
    }
}

/// A pixel outside a clipped draw's rectangle is untouched by it.
pub proof fn lemma_outside_clipped_unchanged(
    f2: Seq<u8>,
    f1: Seq<u8>,
    r: (isize, isize, usize, usize),
    safe: (usize, usize, usize, usize),
    stride: int,
    x: int,
    y: int,
)
    requires
        f2.len() == f1.len(),
        forall|k: int|
            0 <= k < f1.len() && f2[k] != f1[k] ==> clipped_writes(r, safe, stride, f1.len() as int, k),
        pixel_in_frame(stride, f1.len() as int, x, y),
        !in_rect_at(r, x, y),
    ensures
        pixel_same(f2, f1, stride, x, y),
{
    assert forall|j: int| 0 <= j < 4 implies #[trigger] f2[pixel_idx(stride, x, y) + j] == f1[
        pixel_idx(stride, x, y) + j] by {
        let b = pixel_idx(stride, x, y) + j;
        if f2[b] != f1[b] {
            let (px, py) = choose|px: int, py: int|
                in_rect_at(r, px, py) && in_rect(safe, px, py) && pixel_in_frame(
                    stride,
                    f1.len() as int,
                    px,
                    py,
                ) && #[trigger] covers(stride, px, py, b);
            assert(covers(stride, x, y, b));
            lemma_covers_unique(stride, x, y, px, py, b);
        }
    }
}

/// Linear interpolation of one channel of an 8-bit color.
fn mix_byte(b: u8, f: u8, m: u8) -> (r: u8)
    ensures
        r as int == mix_channel(b as int, f as int, m as int),
{
    proof {
        assert(0 <= (b as int) * (255 - m as int) + (f as int) * (m as int) <= 255 * 255)
            by (nonlinear_arith)
            requires
                0 <= b <= 255,
                0 <= f <= 255,
                0 <= m <= 255,
        ;
    }
    (((b as u32) * (255 - m as u32) + (f as u32) * (m as u32)) / 255) as u8
}

/// Interpolates between two RGBA colors, channel by channel.
pub fn mix_color(bg: &[u8; 4], fg: &[u8; 4], m: u8) -> (r: [u8; 4])
    ensures
        forall|j: int| 0 <= j < 4 ==> r@[j] == mix_channel(bg@[j] as int, fg@[j] as int, m as int),
        r@ == mix_rgba(*bg, *fg, m),
{
    let out: [u8; 4] = [
        mix_byte(bg[0], fg[0], m),
        mix_byte(bg[1], fg[1], m),
        mix_byte(bg[2], fg[2], m),
        mix_byte(bg[3], fg[3], m),
    ];
    proof {
        assert(out@ =~= mix_rgba(*bg, *fg, m));
    }
    out
}

/// Bounds check for pixel (x, y): returns the byte index of the pixel when
/// it is fully inside the frame, and nothing otherwise.
fn pixel_offset(len: usize, stride: usize, x: usize, y: usize) -> (r: Option<usize>)
    requires
        stride >= 1,
    ensures
        match r {
            Option::Some(idx) => pixel_in_frame(stride as int, len as int, x as int, y as int)
                && idx == pixel_idx(stride as int, x as int, y as int) && idx + 4 <= len,
            Option::None => !pixel_in_frame(stride as int, len as int, x as int, y as int),
        },
{
    proof {
        assert((y as int) * (stride as int) >= 0) by (nonlinear_arith)
            requires y >= 0, stride >= 0,
        ;
    }
    if x >= stride {
        return Option::None;
    }
    if len < 4 {
        return Option::None;
    }
    let q = (len - 4) / 4;
    if x > q {
        proof {
            assert((y as int) * (stride as int) + (x as int) > q) by (nonlinear_arith)
                requires (y as int) * (stride as int) >= 0, x > q,
            ;
            assert(((y as int) * (stride as int) + (x as int)) * 4 + 4 > len) by (nonlinear_arith)
                requires
                    (y as int) * (stride as int) + (x as int) > q,
                    q == ((len as int) - 4) / 4,
                    len >= 4,
            ;
        }
        return Option::None;
    }
    let limit = (q - x) / stride;
    if y > limit {
        proof {
            assert((y as int) * (stride as int) + (x as int) > q) by (nonlinear_arith)
                requires
                    y > limit,
                    limit == ((q as int) - (x as int)) / (stride as int),
                    stride >= 1,
                    0 <= x <= q,
            ;
            assert(((y as int) * (stride as int) + (x as int)) * 4 + 4 > len) by (nonlinear_arith)
                requires
                    (y as int) * (stride as int) + (x as int) > q,
                    q == ((len as int) - 4) / 4,
                    len >= 4,
            ;
        }
        return Option::None;
    }
    proof {
        assert((y as int) * (stride as int) <= (q as int) - (x as int)) by (nonlinear_arith)
            requires
                0 <= y <= limit,
                limit == ((q as int) - (x as int)) / (stride as int),
                stride >= 1,
                0 <= x <= q,
        ;
        assert(((y as int) * (stride as int) + (x as int)) * 4 + 4 <= len) by (nonlinear_arith)
            requires
                (y as int) * (stride as int) + (x as int) <= q,
                q == ((len as int) - 4) / 4,
                len >= 4,
        ;
    }
    let p = y * stride + x;
    Option::Some(p * 4)
}

/// Writes `color` into pixel (x, y), touching nothing else; a no-op when the
/// pixel is not fully inside the frame.
fn put_pixel(frame: &mut Vec<u8>, stride: usize, x: usize, y: usize, color: [u8; 4])
    requires
        stride >= 1,
    ensures
        final(frame)@.len() == old(frame)@.len(),
        forall|k: int|
            0 <= k < old(frame)@.len() && !(pixel_in_frame(
                stride as int,
                old(frame)@.len() as int,
                x as int,
                y as int,
            ) && covers(stride as int, x as int, y as int, k)) ==> final(frame)@[k] == old(
                frame,
            )@[k],
        pixel_in_frame(stride as int, old(frame)@.len() as int, x as int, y as int) ==> pixel_set(
            final(frame)@,
            stride as int,
            x as int,
            y as int,
            color@,
        ),
{
    match pixel_offset(frame.len(), stride, x, y) {
        Option::Some(idx) => {
            frame.set(idx, color[0]);
            frame.set(idx + 1, color[1]);
            frame.set(idx + 2, color[2]);
            frame.set(idx + 3, color[3]);
        },
        Option::None => {},
    }
}

/// Blends `color` over pixel (x, y) by `color`'s alpha, touching nothing
/// else; a no-op when the pixel is not fully inside the frame.
fn blend_pixel(frame: &mut Vec<u8>, stride: usize, x: usize, y: usize, color: [u8; 4])
    requires
        stride >= 1,
    ensures
        final(frame)@.len() == old(frame)@.len(),
        forall|k: int|
            0 <= k < old(frame)@.len() && !(pixel_in_frame(
                stride as int,
                old(frame)@.len() as int,
                x as int,
                y as int,
            ) && covers(stride as int, x as int, y as int, k)) ==> final(frame)@[k] == old(
                frame,
            )@[k],
        pixel_in_frame(stride as int, old(frame)@.len() as int, x as int, y as int)
            ==> pixel_mixed(
            final(frame)@,
            old(frame)@,
            stride as int,
            x as int,
            y as int,
            color@,
        ),
{
    match pixel_offset(frame.len(), stride, x, y) {
        Option::Some(idx) => {
            let dst: [u8; 4] = [frame[idx], frame[idx + 1], frame[idx + 2], frame[idx + 3]];
            let mixed = mix_color(&dst, &color, color[3]);
            frame.set(idx, mixed[0]);
            frame.set(idx + 1, mixed[1]);
            frame.set(idx + 2, mixed[2]);
            frame.set(idx + 3, mixed[3]);
        },
        Option::None => {},
    }
}

/// Fills rectangle `rect` with `color`: every writable pixel of the
/// rectangle gets the color, and no byte outside the rectangle changes.
pub fn draw_rect(
    frame: &mut Vec<u8>,
    rect: &(usize, usize, usize, usize),
    stride: usize,
    color: &[u8; 4],
)
    requires
        stride >= 1,
        rect.0 + rect.2 <= usize::MAX,
        rect.1 + rect.3 <= usize::MAX,
    ensures
        final(frame)@.len() == old(frame)@.len(),
        forall|k: int|
            0 <= k < old(frame)@.len() && final(frame)@[k] != old(frame)@[k] ==> rect_writes(
                *rect,
                stride as int,
                old(frame)@.len() as int,
                k,
            ),
        forall|x: int, y: int|
            in_rect(*rect, x, y) && pixel_in_frame(
                stride as int,
                old(frame)@.len() as int,
                x,
                y,
            ) ==> pixel_set(final(frame)@, stride as int, x, y, color@),
{
    let len0: usize = frame.len();
    let ghost f0 = frame@;
    let mut yy: usize = rect.1;
    while yy < rect.1 + rect.3
        invariant
            stride >= 1,
            rect.0 + rect.2 <= usize::MAX,
            rect.1 + rect.3 <= usize::MAX,
            rect.1 <= yy <= rect.1 + rect.3,
            frame@.len() == f0.len(),
            len0 == f0.len(),
            forall|k: int|
                0 <= k < f0.len() && frame@[k] != f0[k] ==> rect_writes(
                    *rect,
                    stride as int,
                    f0.len() as int,
                    k,
                ),
            forall|x: int, y: int|
                in_rect(*rect, x, y) && y < yy && pixel_in_frame(stride as int, f0.len() as int, x, y)
                    ==> pixel_set(frame@, stride as int, x, y, color@),
        decreases rect.1 + rect.3 - yy,
    {
        let mut xx: usize = rect.0;
        while xx < rect.0 + rect.2
            invariant
                stride >= 1,
                rect.0 + rect.2 <= usize::MAX,
                rect.1 + rect.3 <= usize::MAX,
                rect.0 <= xx <= rect.0 + rect.2,
                rect.1 <= yy < rect.1 + rect.3,
                frame@.len() == f0.len(),
                len0 == f0.len(),
                forall|k: int|
                    0 <= k < f0.len() && frame@[k] != f0[k] ==> rect_writes(
                        *rect,
                        stride as int,
                        f0.len() as int,
                        k,
                    ),
                forall|x: int, y: int|
                    in_rect(*rect, x, y) && (y < yy || (y == yy && x < xx)) && pixel_in_frame(
                        stride as int,
                        f0.len() as int,
                        x,
                        y,
                    ) ==> pixel_set(frame@, stride as int, x, y, color@),
            decreases rect.0 + rect.2 - xx,
        {
            let ghost fprev = frame@;
            put_pixel(frame, stride, xx, yy, *color);
            proof {
                assert forall|k: int|
                    0 <= k < f0.len() && frame@[k] != f0[k] implies rect_writes(
                    *rect,
                    stride as int,
                    f0.len() as int,
                    k,
                ) by {
                    if fprev[k] == f0[k] {
                        // changed by this write: it is covered by (xx, yy)
                        assert(pixel_in_frame(stride as int, f0.len() as int, xx as int, yy as int)
                            && covers(stride as int, xx as int, yy as int, k));
                        assert(in_rect(*rect, xx as int, yy as int));
                    }
                }
                assert forall|x: int, y: int|
                    in_rect(*rect, x, y) && (y < yy || (y == yy && x < xx + 1)) && pixel_in_frame(
                        stride as int,
                        f0.len() as int,
                        x,
                        y,
                    ) implies pixel_set(frame@, stride as int, x, y, color@) by {
                    if x == xx && y == yy {
                        assert(pixel_set(frame@, stride as int, x, y, color@));
                    } else {
                        assert(pixel_set(fprev, stride as int, x, y, color@));
                        if pixel_in_frame(stride as int, f0.len() as int, xx as int, yy as int) {
                            lemma_pixel_disjoint(stride as int, x, y, xx as int, yy as int);
                        }
                        assert forall|j: int| 0 <= j < 4 implies frame@[pixel_idx(
                            stride as int,
                            x,
                            y,
                        ) + j] == color@[j] by {
                            assert(covers(stride as int, x, y, pixel_idx(stride as int, x, y) + j));
                            if pixel_in_frame(stride as int, f0.len() as int, xx as int, yy as int) {
                                assert(!covers(
                                    stride as int,
                                    xx as int,
                                    yy as int,
                                    pixel_idx(stride as int, x, y) + j,
                                ));
                            }
                        }
                    }
                }
            }
            xx = xx + 1;
        }
        yy = yy + 1;
    }
}

/// Blends `color` (by its alpha) over every writable pixel of `rect`; no
/// byte outside the rectangle changes.
pub fn blend_rect(
    frame: &mut Vec<u8>,
    rect: &(usize, usize, usize, usize),
    stride: usize,
    color: &[u8; 4],
)
    requires
        stride >= 1,
        rect.0 + rect.2 <= usize::MAX,
        rect.1 + rect.3 <= usize::MAX,
    ensures
        final(frame)@.len() == old(frame)@.len(),
        forall|k: int|
            0 <= k < old(frame)@.len() && final(frame)@[k] != old(frame)@[k] ==> rect_writes(
                *rect,
                stride as int,
                old(frame)@.len() as int,
                k,
            ),
        forall|x: int, y: int|
            in_rect(*rect, x, y) && pixel_in_frame(stride as int, old(frame)@.len() as int, x, y)
                ==> pixel_mixed(final(frame)@, old(frame)@, stride as int, x, y, color@),
{
    let len0: usize = frame.len();
    let ghost f0 = frame@;
    let mut yy: usize = rect.1;
    while yy < rect.1 + rect.3
        invariant
            stride >= 1,
            rect.0 + rect.2 <= usize::MAX,
            rect.1 + rect.3 <= usize::MAX,
            rect.1 <= yy <= rect.1 + rect.3,
            frame@.len() == f0.len(),
            forall|k: int|
                0 <= k < f0.len() && frame@[k] != f0[k] ==> rect_writes(
                    *rect,
                    stride as int,
                    f0.len() as int,
                    k,
                ),
            forall|x: int, y: int|
                in_rect(*rect, x, y) && y < yy && pixel_in_frame(stride as int, f0.len() as int, x, y)
                    ==> pixel_mixed(frame@, f0, stride as int, x, y, color@),
            forall|x: int, y: int|
                in_rect(*rect, x, y) && y >= yy && pixel_in_frame(stride as int, f0.len() as int, x, y)
                    ==> pixel_same(frame@, f0, stride as int, x, y),
        decreases rect.1 + rect.3 - yy,
    {
        let mut xx: usize = rect.0;
        while xx < rect.0 + rect.2
            invariant
                stride >= 1,
                rect.0 + rect.2 <= usize::MAX,
                rect.0 <= xx <= rect.0 + rect.2,
                rect.1 <= yy < rect.1 + rect.3,
                frame@.len() == f0.len(),
                forall|k: int|
                    0 <= k < f0.len() && frame@[k] != f0[k] ==> rect_writes(
                        *rect,
                        stride as int,
                        f0.len() as int,
                        k,
                    ),
                forall|x: int, y: int|
                    in_rect(*rect, x, y) && (y < yy || (y == yy && x < xx)) && pixel_in_frame(
                        stride as int,
                        f0.len() as int,
                        x,
                        y,
                    ) ==> pixel_mixed(frame@, f0, stride as int, x, y, color@),
                forall|x: int, y: int|
                    in_rect(*rect, x, y) && (y > yy || (y == yy && x >= xx)) && pixel_in_frame(
                        stride as int,
                        f0.len() as int,
                        x,
                        y,
                    ) ==> pixel_same(frame@, f0, stride as int, x, y),
            decreases rect.0 + rect.2 - xx,
        {
            let ghost fprev = frame@;
            blend_pixel(frame, stride, xx, yy, *color);
            proof {
                assert forall|k: int|
                    0 <= k < f0.len() && frame@[k] != f0[k] implies rect_writes(
                    *rect,
                    stride as int,
                    f0.len() as int,
                    k,
                ) by {
                    if fprev[k] == f0[k] {
                        assert(pixel_in_frame(stride as int, f0.len() as int, xx as int, yy as int)
                            && covers(stride as int, xx as int, yy as int, k));
                        assert(in_rect(*rect, xx as int, yy as int));
                    }
                }
                let sl = stride as int;
                let ln = f0.len() as int;
                assert forall|x: int, y: int|
                    in_rect(*rect, x, y) && (y < yy || (y == yy && x < xx + 1)) && pixel_in_frame(
                        sl,
                        ln,
                        x,
                        y,
                    ) implies pixel_mixed(frame@, f0, sl, x, y, color@) by {
                    if x == xx && y == yy {
                        // Just blended: its previous bytes were still the originals.
                        assert(pixel_same(fprev, f0, sl, x, y));
                        assert forall|j: int| 0 <= j < 4 implies #[trigger] frame@[pixel_idx(
                            sl,
                            x,
                            y,
                        ) + j] == mix_channel(
                            f0[pixel_idx(sl, x, y) + j] as int,
                            color@[j] as int,
                            color@[3] as int,
                        ) by {
                            assert(frame@[pixel_idx(sl, x, y) + j] == mix_channel(
                                fprev[pixel_idx(sl, x, y) + j] as int,
                                color@[j] as int,
                                color@[3] as int,
                            ));
                            assert(fprev[pixel_idx(sl, x, y) + j] == f0[pixel_idx(sl, x, y) + j]);
                        }
                    } else {
                        assert(pixel_mixed(fprev, f0, sl, x, y, color@));
                        if pixel_in_frame(sl, ln, xx as int, yy as int) {
                            lemma_pixel_disjoint(sl, x, y, xx as int, yy as int);
                        }
                        assert forall|j: int| 0 <= j < 4 implies #[trigger] frame@[pixel_idx(
                            sl,
                            x,
                            y,
                        ) + j] == mix_channel(
                            f0[pixel_idx(sl, x, y) + j] as int,
                            color@[j] as int,
                            color@[3] as int,
                        ) by {
                            assert(covers(sl, x, y, pixel_idx(sl, x, y) + j));
                            if pixel_in_frame(sl, ln, xx as int, yy as int) {
                                assert(!covers(sl, xx as int, yy as int, pixel_idx(sl, x, y) + j));
                            }
                        }
                    }
                }
                assert forall|x: int, y: int|
                    in_rect(*rect, x, y) && (y > yy || (y == yy && x >= xx + 1)) && pixel_in_frame(
                        sl,
                        ln,
                        x,
                        y,
                    ) implies pixel_same(frame@, f0, sl, x, y) by {
                    assert(pixel_same(fprev, f0, sl, x, y));
                    if pixel_in_frame(sl, ln, xx as int, yy as int) {
                        lemma_pixel_disjoint(sl, x, y, xx as int, yy as int);
                    }
                    assert forall|j: int| 0 <= j < 4 implies #[trigger] frame@[pixel_idx(
                        sl,
                        x,
                        y,
                    ) + j] == f0[pixel_idx(sl, x, y) + j] by {
                        assert(covers(sl, x, y, pixel_idx(sl, x, y) + j));
                        if pixel_in_frame(sl, ln, xx as int, yy as int) {
                            assert(!covers(sl, xx as int, yy as int, pixel_idx(sl, x, y) + j));
                        }
                    }
                }
            }
            xx = xx + 1;
        }
        yy = yy + 1;
    }
}

/// Fills the part of `rect` (given with a signed position) that lies inside
/// `safe_rect` with `color`; bytes outside `safe_rect` never change.
pub fn draw_rect_safe(
    frame: &mut Vec<u8>,
    rect: &(isize, isize, usize, usize),
    stride: usize,
    color: &[u8; 4],
    safe_rect: &(usize, usize, usize, usize),
)
    requires
        stride >= 1,
        -0x4000_0000 <= rect.0 <= 0x4000_0000,
        -0x4000_0000 <= rect.1 <= 0x4000_0000,
        rect.2 <= 0x10000,
        rect.3 <= 0x10000,
        safe_rect.0 + safe_rect.2 <= 0x4000_0000,
        safe_rect.1 + safe_rect.3 <= 0x4000_0000,
    ensures
        final(frame)@.len() == old(frame)@.len(),
        forall|k: int|
            0 <= k < old(frame)@.len() && final(frame)@[k] != old(frame)@[k] ==> clipped_writes(
                *rect,
                *safe_rect,
                stride as int,
                old(frame)@.len() as int,
                k,
            ),
        forall|x: int, y: int|
            in_rect_at(*rect, x, y) && in_rect(*safe_rect, x, y) && pixel_in_frame(
                stride as int,
                old(frame)@.len() as int,
                x,
                y,
            ) ==> pixel_set(final(frame)@, stride as int, x, y, color@),
{
    let ghost f0 = frame@;
    let mut cy: usize = 0;
    while cy < rect.3
        invariant
            stride >= 1,
            -0x4000_0000 <= rect.0 <= 0x4000_0000,
            -0x4000_0000 <= rect.1 <= 0x4000_0000,
            rect.2 <= 0x10000,
            rect.3 <= 0x10000,
            safe_rect.0 + safe_rect.2 <= 0x4000_0000,
            safe_rect.1 + safe_rect.3 <= 0x4000_0000,
            cy <= rect.3,
            frame@.len() == f0.len(),
            forall|k: int|
                0 <= k < f0.len() && frame@[k] != f0[k] ==> clipped_writes(
                    *rect,
                    *safe_rect,
                    stride as int,
                    f0.len() as int,
                    k,
                ),
            forall|x: int, y: int|
                in_rect_at(*rect, x, y) && in_rect(*safe_rect, x, y) && y < rect.1 + cy
                    && pixel_in_frame(stride as int, f0.len() as int, x, y) ==> pixel_set(
                    frame@,
                    stride as int,
                    x,
                    y,
                    color@,
                ),
        decreases rect.3 - cy,
    {
        let ty = rect.1 + cy as isize;
        if ty >= safe_rect.1 as isize && ty < (safe_rect.1 + safe_rect.3) as isize {
            let mut cx: usize = 0;
            while cx < rect.2
                invariant
                    stride >= 1,
                    -0x4000_0000 <= rect.0 <= 0x4000_0000,
                    rect.2 <= 0x10000,
                    safe_rect.0 + safe_rect.2 <= 0x4000_0000,
                    safe_rect.1 <= ty < safe_rect.1 + safe_rect.3,
                    ty == rect.1 + cy,
                    cy < rect.3,
                    cx <= rect.2,
                    frame@.len() == f0.len(),
                    forall|k: int|
                        0 <= k < f0.len() && frame@[k] != f0[k] ==> clipped_writes(
                            *rect,
                            *safe_rect,
                            stride as int,
                            f0.len() as int,
                            k,
                        ),
                    forall|x: int, y: int|
                        in_rect_at(*rect, x, y) && in_rect(*safe_rect, x, y) && (y < ty || (y == ty
                            && x < rect.0 + cx)) && pixel_in_frame(
                            stride as int,
                            f0.len() as int,
                            x,
                            y,
                        ) ==> pixel_set(frame@, stride as int, x, y, color@),
                decreases rect.2 - cx,
            {
                let tx = rect.0 + cx as isize;
                let ghost fprev = frame@;
                if tx >= safe_rect.0 as isize && tx < (safe_rect.0 + safe_rect.2) as isize {
                    put_pixel(frame, stride, tx as usize, ty as usize, *color);
                    proof {
                        assert forall|k: int|
                            0 <= k < f0.len() && frame@[k] != f0[k] implies clipped_writes(
                            *rect,
                            *safe_rect,
                            stride as int,
                            f0.len() as int,
                            k,
                        ) by {
                            if fprev[k] == f0[k] {
                                assert(covers(stride as int, tx as int, ty as int, k)
                                    && pixel_in_frame(
                                    stride as int,
                                    f0.len() as int,
                                    tx as int,
                                    ty as int,
                                ));
                                assert(in_rect(*safe_rect, tx as int, ty as int));
                                assert(in_rect_at(*rect, tx as int, ty as int));
                            }
                        }
                    }
                }
                proof {
                    let sl = stride as int;
                    let ln = f0.len() as int;
                    assert forall|x: int, y: int|
                        in_rect_at(*rect, x, y) && in_rect(*safe_rect, x, y) && (y < ty || (y == ty
                            && x < rect.0 + cx + 1)) && pixel_in_frame(sl, ln, x, y)
                        implies pixel_set(frame@, sl, x, y, color@) by {
                        if x == tx as int && y == ty as int {
                            assert(in_rect(*safe_rect, x, y));
                            assert(pixel_set(frame@, sl, x, y, color@));
                        } else {
                            assert(pixel_set(fprev, sl, x, y, color@));
                            if pixel_in_frame(sl, ln, tx as int, ty as int) {
                                lemma_pixel_disjoint(sl, x, y, tx as int, ty as int);
                            }
                            assert forall|j: int| 0 <= j < 4 implies #[trigger] frame@[pixel_idx(
                                sl,
                                x,
                                y,
                            ) + j] == color@[j] by {
                                assert(covers(sl, x, y, pixel_idx(sl, x, y) + j));
                                if pixel_in_frame(sl, ln, tx as int, ty as int) {
                                    assert(!covers(
                                        sl,
                                        tx as int,
                                        ty as int,
                                        pixel_idx(sl, x, y) + j,
                                    ));
                                }
                            }
                        }
                    }
                }
                cx = cx + 1;
            }
        }
        cy = cy + 1;
    }
}

/// Blends the source bitmap (whose dimensions are `rect.2` x `rect.3`, its
/// position `rect.0`, `rect.1` possibly negative) over the frame, each
/// source pixel by its own alpha, clipped to `safe_rect`: bytes outside
/// `safe_rect` never change.
pub fn blend_slice_safe(
    frame: &mut Vec<u8>,
    src: &Vec<u8>,
    rect: &(isize, isize, usize, usize),
    stride: usize,
    safe_rect: &(usize, usize, usize, usize),
)
    requires
        stride >= 1,
        -0x4000_0000 <= rect.0 <= 0x4000_0000,
        -0x4000_0000 <= rect.1 <= 0x4000_0000,
        rect.2 <= 0x10000,
        rect.3 <= 0x10000,
        src@.len() == rect.2 * rect.3 * 4,
        safe_rect.0 + safe_rect.2 <= 0x4000_0000,
        safe_rect.1 + safe_rect.3 <= 0x4000_0000,
    ensures
        final(frame)@.len() == old(frame)@.len(),
        forall|k: int|
            0 <= k < old(frame)@.len() && final(frame)@[k] != old(frame)@[k] ==> clipped_writes(
                *rect,
                *safe_rect,
                stride as int,
                old(frame)@.len() as int,
                k,
            ),
        forall|cx: int, cy: int|
            0 <= cx < rect.2 && 0 <= cy < rect.3 && in_rect(
                *safe_rect,
                rect.0 + cx,
                rect.1 + cy,
            ) && pixel_in_frame(
                stride as int,
                old(frame)@.len() as int,
                rect.0 + cx,
                rect.1 + cy,
            ) ==> pixel_mixed(
                final(frame)@,
                old(frame)@,
                stride as int,
                rect.0 + cx,
                rect.1 + cy,
                src_pixel(src@, rect.2 as int, cx, cy),
            ),
{
    let ghost f0 = frame@;
    let w = rect.2;
    let h = rect.3;
    let mut cy: usize = 0;
    while cy < h
        invariant
            stride >= 1,
            -0x4000_0000 <= rect.0 <= 0x4000_0000,
            -0x4000_0000 <= rect.1 <= 0x4000_0000,
            w == rect.2,
            h == rect.3,
            w <= 0x10000,
            h <= 0x10000,
            src@.len() == w * h * 4,
            safe_rect.0 + safe_rect.2 <= 0x4000_0000,
            safe_rect.1 + safe_rect.3 <= 0x4000_0000,
            cy <= h,
            frame@.len() == f0.len(),
            forall|k: int|
                0 <= k < f0.len() && frame@[k] != f0[k] ==> clipped_writes(
                    *rect,
                    *safe_rect,
                    stride as int,
                    f0.len() as int,
                    k,
                ),
            forall|sx: int, sy: int|
                0 <= sx < w && 0 <= sy < cy && in_rect(*safe_rect, rect.0 + sx, rect.1 + sy)
                    && pixel_in_frame(stride as int, f0.len() as int, rect.0 + sx, rect.1 + sy)
                    ==> pixel_mixed(
                    frame@,
                    f0,
                    stride as int,
                    rect.0 + sx,
                    rect.1 + sy,
                    src_pixel(src@, w as int, sx, sy),
                ),
            forall|sx: int, sy: int|
                0 <= sx < w && cy <= sy < h && #[trigger] pixel_in_frame(
                    stride as int,
                    f0.len() as int,
                    rect.0 + sx,
                    rect.1 + sy,
                ) ==> pixel_same(frame@, f0, stride as int, rect.0 + sx, rect.1 + sy),
        decreases h - cy,
    {
        let ty = rect.1 + cy as isize;
        if ty >= safe_rect.1 as isize && ty < (safe_rect.1 + safe_rect.3) as isize {
            let mut cx: usize = 0;
            while cx < w
                invariant
                    stride >= 1,
                    -0x4000_0000 <= rect.0 <= 0x4000_0000,
                    -0x4000_0000 <= rect.1 <= 0x4000_0000,
                    w == rect.2,
                    h == rect.3,
                    w <= 0x10000,
                    h <= 0x10000,
                    src@.len() == w * h * 4,
                    cy < h,
                    safe_rect.0 + safe_rect.2 <= 0x4000_0000,
                    safe_rect.1 <= ty < safe_rect.1 + safe_rect.3,
                    ty == rect.1 + cy,
                    cx <= w,
                    frame@.len() == f0.len(),
                    forall|k: int|
                        0 <= k < f0.len() && frame@[k] != f0[k] ==> clipped_writes(
                            *rect,
                            *safe_rect,
                            stride as int,
                            f0.len() as int,
                            k,
                        ),
                    forall|sx: int, sy: int|
                        0 <= sx < w && 0 <= sy < h && (sy < cy || (sy == cy && sx < cx)) && in_rect(
                            *safe_rect,
                            rect.0 + sx,
                            rect.1 + sy,
                        ) && pixel_in_frame(
                            stride as int,
                            f0.len() as int,
                            rect.0 + sx,
                            rect.1 + sy,
                        ) ==> pixel_mixed(
                            frame@,
                            f0,
                            stride as int,
                            rect.0 + sx,
                            rect.1 + sy,
                            src_pixel(src@, w as int, sx, sy),
                        ),
                    forall|sx: int, sy: int|
                        0 <= sx < w && 0 <= sy < h && (sy > cy || (sy == cy && sx >= cx))
                            && #[trigger] pixel_in_frame(
                            stride as int,
                            f0.len() as int,
                            rect.0 + sx,
                            rect.1 + sy,
                        ) ==> pixel_same(frame@, f0, stride as int, rect.0 + sx, rect.1 + sy),
                decreases w - cx,
            {
                let tx = rect.0 + cx as isize;
                if tx >= safe_rect.0 as isize && tx < (safe_rect.0 + safe_rect.2) as isize {
                    proof {
                        assert((cy as int) * (w as int) + (cx as int) <= (h as int) * (w as int)
                            - 1) by (nonlinear_arith)
                            requires cy < h, cx < w,
                        ;
                        assert(((cy as int) * (w as int) + (cx as int)) * 4 + 4 <= (w as int) * (
                        h as int) * 4) by (nonlinear_arith)
                            requires (cy as int) * (w as int) + (cx as int) <= (h as int) * (
                            w as int) - 1,
                        ;
                    }
                    let slen = src.len();
                    let sp = (cy * w + cx) * 4;
                    let scolor: [u8; 4] = [src[sp], src[sp + 1], src[sp + 2], src[sp + 3]];
                    proof {
                        assert(scolor@ =~= src_pixel(src@, w as int, cx as int, cy as int));
                    }
                    let ghost fprev = frame@;
                    blend_pixel(frame, stride, tx as usize, ty as usize, scolor);
                    proof {
                        let sl = stride as int;
                        let ln = f0.len() as int;
                        assert forall|k: int|
                            0 <= k < f0.len() && frame@[k] != f0[k] implies clipped_writes(
                            *rect,
                            *safe_rect,
                            sl,
                            ln,
                            k,
                        ) by {
                            if fprev[k] == f0[k] {
                                assert(covers(sl, tx as int, ty as int, k) && pixel_in_frame(
                                    sl,
                                    ln,
                                    tx as int,
                                    ty as int,
                                ));
                                assert(in_rect(*safe_rect, tx as int, ty as int));
                                assert(in_rect_at(*rect, tx as int, ty as int));
                            }
                        }
                        assert forall|sx: int, sy: int|
                            0 <= sx < w && 0 <= sy < h && (sy < cy || (sy == cy && sx < cx + 1))
                                && in_rect(*safe_rect, rect.0 + sx, rect.1 + sy) && pixel_in_frame(
                                sl,
                                ln,
                                rect.0 + sx,
                                rect.1 + sy,
                            ) implies pixel_mixed(
                            frame@,
                            f0,
                            sl,
                            rect.0 + sx,
                            rect.1 + sy,
                            src_pixel(src@, w as int, sx, sy),
                        ) by {
                            let px = rect.0 + sx;
                            let py = rect.1 + sy;
                            if sx == cx && sy == cy {
                                assert(pixel_same(fprev, f0, sl, px, py));
                                assert forall|j: int| 0 <= j < 4 implies #[trigger] frame@[
                                    pixel_idx(sl, px, py) + j] == mix_channel(
                                    f0[pixel_idx(sl, px, py) + j] as int,
                                    src_pixel(src@, w as int, sx, sy)[j] as int,
                                    src_pixel(src@, w as int, sx, sy)[3] as int,
                                ) by {
                                    assert(frame@[pixel_idx(sl, px, py) + j] == mix_channel(
                                        fprev[pixel_idx(sl, px, py) + j] as int,
                                        scolor@[j] as int,
                                        scolor@[3] as int,
                                    ));
                                    assert(fprev[pixel_idx(sl, px, py) + j] == f0[pixel_idx(
                                        sl,
                                        px,
                                        py,
                                    ) + j]);
                                }
                            } else {
                                assert(pixel_mixed(
                                    fprev,
                                    f0,
                                    sl,
                                    px,
                                    py,
                                    src_pixel(src@, w as int, sx, sy),
                                ));
                                if pixel_in_frame(sl, ln, tx as int, ty as int) {
                                    lemma_pixel_disjoint(sl, px, py, tx as int, ty as int);
                                }
                                assert forall|j: int| 0 <= j < 4 implies #[trigger] frame@[
                                    pixel_idx(sl, px, py) + j] == mix_channel(
                                    f0[pixel_idx(sl, px, py) + j] as int,
                                    src_pixel(src@, w as int, sx, sy)[j] as int,
                                    src_pixel(src@, w as int, sx, sy)[3] as int,
                                ) by {
                                    assert(covers(sl, px, py, pixel_idx(sl, px, py) + j));
                                    if pixel_in_frame(sl, ln, tx as int, ty as int) {
                                        assert(!covers(
                                            sl,
                                            tx as int,
                                            ty as int,
                                            pixel_idx(sl, px, py) + j,
                                        ));
                                    }
                                }
                            }
                        }
                        assert forall|sx: int, sy: int|
                            0 <= sx < w && 0 <= sy < h && (sy > cy || (sy == cy && sx >= cx + 1))
                                && #[trigger] pixel_in_frame(sl, ln, rect.0 + sx, rect.1 + sy)
                            implies pixel_same(frame@, f0, sl, rect.0 + sx, rect.1 + sy) by {
                            let px = rect.0 + sx;
                            let py = rect.1 + sy;
                            assert(pixel_same(fprev, f0, sl, px, py));
                            if pixel_in_frame(sl, ln, tx as int, ty as int) {
                                lemma_pixel_disjoint(sl, px, py, tx as int, ty as int);
                            }
                            assert forall|j: int| 0 <= j < 4 implies #[trigger] frame@[pixel_idx(
                                sl,
                                px,
                                py,
                            ) + j] == f0[pixel_idx(sl, px, py) + j] by {
                                assert(covers(sl, px, py, pixel_idx(sl, px, py) + j));
                                if pixel_in_frame(sl, ln, tx as int, ty as int) {
                                    assert(!covers(
                                        sl,
                                        tx as int,
                                        ty as int,
                                        pixel_idx(sl, px, py) + j,
                                    ));
                                }
                            }
                        }
                    }
                }
                cx = cx + 1;
            }
        }
        cy = cy + 1;
    }
}

/// The character for one decimal digit.
pub open spec fn digit_char(d: int) -> char {
    if d == 0 {
        '0'
    } else if d == 1 {
        '1'
    } else if d == 2 {
        '2'
    } else if d == 3 {
        '3'
    } else if d == 4 {
        '4'
    } else if d == 5 {
        '5'
    } else if d == 6 {
        '6'
    } else if d == 7 {
        '7'
    } else if d == 8 {
        '8'
    } else {
        '9'
    }
}

/// The decimal digit characters of `n`, most significant first.
pub open spec fn decimal_digits(n: int) -> Seq<char>
    decreases n,
{
    if n < 10 {
        seq![digit_char(n)]
    } else {
        decimal_digits(n / 10).push(digit_char(n % 10))
    }
}

/// The character for one decimal digit value.
fn digit_char_exec(d: usize) -> (r: char)
    requires
        d < 10,
    ensures
        r == digit_char(d as int),
{
    match d {
        0 => '0',
        1 => '1',
        2 => '2',
        3 => '3',
        4 => '4',
        5 => '5',
        6 => '6',
        7 => '7',
        8 => '8',
        _ => '9',
    }
}

/// The decimal digit characters of `n`, most significant first.
pub fn decimal_chars(n: usize) -> (r: Vec<char>)
    ensures
        r@ == decimal_digits(n as int),
        r@.len() >= 1,
    decreases n,
{
    if n < 10 {
        let mut v: Vec<char> = Vec::new();
        v.push(digit_char_exec(n));
        proof {
            assert(v@ =~= decimal_digits(n as int));
        }
        v
    } else {
        let mut v = decimal_chars(n / 10);
        v.push(digit_char_exec(n % 10));
        v
    }
}

/// Byte `k` belongs to some writable destination pixel of a glyph blitted
/// at pen position (x, y): the region such a blit may touch.
pub open spec fn glyph_writes(
    stride: int,
    len: int,
    x: int,
    y: int,
    fs: int,
    m: GlyphMetrics,
    k: int,
) -> bool {
    exists|cx: int, cy: int|
        0 <= cx < m.width && 0 <= cy < m.height && x + cx + m.xmin >= 0 && y + cy + fs - m.height
            - m.ymin >= 0 && pixel_in_frame(
            stride,
            len,
            x + cx + m.xmin,
            y + cy + fs - m.height - m.ymin,
        ) && #[trigger] covers(stride, x + cx + m.xmin, y + cy + fs - m.height - m.ymin, k)
}

/// Composites one glyph's coverage bitmap at pen position (x, y): each
/// covered pixel is the background linearly mixed toward `color` by the
/// coverage byte. Destinations outside the buffer are skipped.
pub fn blit_glyph(
    buf: &mut Vec<u8>,
    stride: usize,
    x: usize,
    y: usize,
    font_size: usize,
    metrics: &GlyphMetrics,
    bitmap: &Vec<u8>,
    color: &[u8; 4],
    bg: &[u8; 4],
)
    requires
        stride >= 1,
        metrics_wf(*metrics),
        bitmap@.len() == metrics.width * metrics.height,
        x <= 0x4000_0000,
        y <= 0x4000_0000,
        font_size <= 256,
    ensures
        final(buf)@.len() == old(buf)@.len(),
        forall|k: int|
            0 <= k < old(buf)@.len() && final(buf)@[k] != old(buf)@[k] ==> glyph_writes(
                stride as int,
                old(buf)@.len() as int,
                x as int,
                y as int,
                font_size as int,
                *metrics,
                k,
            ),
        forall|cx: int, cy: int|
            0 <= cx < metrics.width && 0 <= cy < metrics.height && x + cx + metrics.xmin >= 0 && y
                + cy + font_size - metrics.height - metrics.ymin >= 0 && #[trigger] pixel_in_frame(
                stride as int,
                old(buf)@.len() as int,
                x + cx + metrics.xmin,
                y + cy + font_size - metrics.height - metrics.ymin,
            ) ==> pixel_set(
                final(buf)@,
                stride as int,
                x + cx + metrics.xmin,
                y + cy + font_size - metrics.height - metrics.ymin,
                mix_rgba(*bg, *color, bitmap@[cy * metrics.width + cx]),
            ),
{
    let ghost f0 = buf@;
    let w = metrics.width;
    let h = metrics.height;
    let fy: isize = font_size as isize - h as isize - metrics.ymin as isize;
    let mut cy: usize = 0;
    while cy < h
        invariant
            stride >= 1,
            w == metrics.width,
            h == metrics.height,
            metrics_wf(*metrics),
            bitmap@.len() == w * h,
            x <= 0x4000_0000,
            y <= 0x4000_0000,
            fy == font_size - h - metrics.ymin,
            -768 <= fy <= 768,
            font_size <= 256,
            cy <= h,
            buf@.len() == f0.len(),
            forall|k: int|
                0 <= k < f0.len() && buf@[k] != f0[k] ==> glyph_writes(
                    stride as int,
                    f0.len() as int,
                    x as int,
                    y as int,
                    font_size as int,
                    *metrics,
                    k,
                ),
            forall|sx: int, sy: int|
                0 <= sx < w && 0 <= sy < cy && x + sx + metrics.xmin >= 0 && y + sy + fy >= 0
                    && #[trigger] pixel_in_frame(
                    stride as int,
                    f0.len() as int,
                    x + sx + metrics.xmin,
                    y + sy + fy,
                ) ==> pixel_set(
                    buf@,
                    stride as int,
                    x + sx + metrics.xmin,
                    y + sy + fy,
                    mix_rgba(*bg, *color, bitmap@[sy * w + sx]),
                ),
        decreases h - cy,
    {
        let mut cx: usize = 0;
        while cx < w
            invariant
                stride >= 1,
                w == metrics.width,
                h == metrics.height,
                metrics_wf(*metrics),
                bitmap@.len() == w * h,
                x <= 0x4000_0000,
                y <= 0x4000_0000,
                fy == font_size - h - metrics.ymin,
                -768 <= fy <= 768,
                font_size <= 256,
                cy < h,
                cx <= w,
                buf@.len() == f0.len(),
                forall|k: int|
                    0 <= k < f0.len() && buf@[k] != f0[k] ==> glyph_writes(
                        stride as int,
                        f0.len() as int,
                        x as int,
                        y as int,
                        font_size as int,
                        *metrics,
                        k,
                    ),
                forall|sx: int, sy: int|
                    0 <= sx < w && 0 <= sy < h && (sy < cy || (sy == cy && sx < cx)) && x + sx
                        + metrics.xmin >= 0 && y + sy + fy >= 0 && #[trigger] pixel_in_frame(
                        stride as int,
                        f0.len() as int,
                        x + sx + metrics.xmin,
                        y + sy + fy,
                    ) ==> pixel_set(
                        buf@,
                        stride as int,
                        x + sx + metrics.xmin,
                        y + sy + fy,
                        mix_rgba(*bg, *color, bitmap@[sy * w + sx]),
                    ),
            decreases w - cx,
        {
            proof {
                assert((cy as int) * (w as int) + (cx as int) < (w as int) * (h as int) && (
                w as int) * (h as int) <= 65536) by (nonlinear_arith)
                    requires cy < h, cx < w, h <= 256, w <= 256,
                ;
            }
            let cov = bitmap[cy * w + cx];
            let tx: isize = x as isize + cx as isize + metrics.xmin as isize;
            let ty: isize = y as isize + cy as isize + fy;
            let ghost fprev = buf@;
            if tx >= 0 && ty >= 0 {
                let mixed = mix_color(bg, color, cov);
                put_pixel(buf, stride, tx as usize, ty as usize, mixed);
                proof {
                    let sl = stride as int;
                    let ln = f0.len() as int;
                    assert forall|k: int|
                        0 <= k < f0.len() && buf@[k] != f0[k] implies glyph_writes(
                        sl,
                        ln,
                        x as int,
                        y as int,
                        font_size as int,
                        *metrics,
                        k,
                    ) by {
                        if fprev[k] == f0[k] {
                            assert(tx as int == x + cx + metrics.xmin);
                            assert(ty as int == y + cy + font_size as int - metrics.height
                                - metrics.ymin);
                            assert(pixel_in_frame(
                                sl,
                                ln,
                                x + cx + metrics.xmin,
                                y + cy + font_size as int - metrics.height - metrics.ymin,
                            ));
                            assert(covers(
                                sl,
                                x + cx + metrics.xmin,
                                y + cy + font_size as int - metrics.height - metrics.ymin,
                                k,
                            ));
                        }
                    }
                }
            }
            proof {
                let sl = stride as int;
                let ln = f0.len() as int;
                assert forall|sx: int, sy: int|
                    0 <= sx < w && 0 <= sy < h && (sy < cy || (sy == cy && sx < cx + 1)) && x + sx
                        + metrics.xmin >= 0 && y + sy + fy >= 0 && #[trigger] pixel_in_frame(
                        sl,
                        ln,
                        x + sx + metrics.xmin,
                        y + sy + fy,
                    ) implies pixel_set(
                    buf@,
                    sl,
                    x + sx + metrics.xmin,
                    y + sy + fy,
                    mix_rgba(*bg, *color, bitmap@[sy * w + sx]),
                ) by {
                    let px = x + sx + metrics.xmin;
                    let py = y + sy + fy;
                    if sx == cx && sy == cy {
                        assert(px == tx as int && py == ty as int);
                        assert(pixel_set(buf@, sl, px, py, mix_rgba(*bg, *color, cov)));
                    } else {
                        assert(pixel_set(
                            fprev,
                            sl,
                            px,
                            py,
                            mix_rgba(*bg, *color, bitmap@[sy * w + sx]),
                        ));
                        if tx >= 0 && ty >= 0 && pixel_in_frame(sl, ln, tx as int, ty as int) {
                            lemma_pixel_disjoint(sl, px, py, tx as int, ty as int);
                        }
                        assert forall|j: int| 0 <= j < 4 implies #[trigger] buf@[pixel_idx(
                            sl,
                            px,
                            py,
                        ) + j] == mix_rgba(*bg, *color, bitmap@[sy * w + sx])[j] by {
                            assert(covers(sl, px, py, pixel_idx(sl, px, py) + j));
                            if tx >= 0 && ty >= 0 && pixel_in_frame(sl, ln, tx as int, ty as int) {
                                assert(!covers(sl, tx as int, ty as int, pixel_idx(sl, px, py) + j));
                            }
                        }
                    }
                }
            }
            cx = cx + 1;
        }
        cy = cy + 1;
    }
    proof {
        let sl = stride as int;
        let ln = f0.len() as int;
        assert forall|cx: int, cy: int|
            0 <= cx < metrics.width && 0 <= cy < metrics.height && x + cx + metrics.xmin >= 0 && y
                + cy + font_size - metrics.height - metrics.ymin >= 0 && #[trigger] pixel_in_frame(
                sl,
                ln,
                x + cx + metrics.xmin,
                y + cy + font_size - metrics.height - metrics.ymin,
            ) implies pixel_set(
            buf@,
            sl,
            x + cx + metrics.xmin,
            y + cy + font_size - metrics.height - metrics.ymin,
            mix_rgba(*bg, *color, bitmap@[cy * metrics.width + cx]),
        ) by {
            assert(y + cy + font_size - metrics.height - metrics.ymin == y + cy + fy);
            assert(pixel_in_frame(sl, ln, x + cx + metrics.xmin, y + cy + fy));
        }
    }
}

/// Powers of ten, for bounding digit counts.
pub open spec fn pow10(k: nat) -> int
    decreases k,
{
    if k == 0 {
        1
    } else {
        10 * pow10((k - 1) as nat)
    }
}

/// A number below the k-th power of ten has at most k decimal digits.
pub proof fn lemma_decimal_len(n: int, k: int)
    requires
        1 <= k,
        0 <= n < pow10(k as nat),
    ensures
        decimal_digits(n).len() <= k,
    decreases k,
{
    if n >= 10 {
        assert(pow10(k as nat) == 10 * pow10((k - 1) as nat));
        if k == 1 {
            assert(pow10(0) == 1);
            assert(false);
        }
        assert(n / 10 < pow10((k - 1) as nat)) by (nonlinear_arith)
            requires n < 10 * pow10((k - 1) as nat), n >= 10,
        ;
        lemma_decimal_len(n / 10, k - 1);
    }
}

/// Byte `k` lies in the band around `rect` that drawing a right-aligned
/// number may touch: glyph bearings can spill a glyph's width left of the
/// band and the digits march right from inside it.
pub open spec fn number_band_writes(
    rect: (usize, usize, usize, usize),
    stride: int,
    len: int,
    k: int,
) -> bool {
    exists|px: int, py: int|
        rect.0 - 256 <= px < rect.0 + rect.2 + 5632 && rect.1 - 512 <= py < rect.1 + 768
            && pixel_in_frame(stride, len, px, py) && #[trigger] covers(stride, px, py, k)
}

/// Draws the decimal digits of `number` right-aligned inside `rect`, using
/// the cached digit glyphs; digits whose glyph is missing are skipped.
pub fn draw_text_rect(
    buf: &mut Vec<u8>,
    rect: &(usize, usize, usize, usize),
    stride: usize,
    font_size: usize,
    glyphs: &GlyphCache,
    number: usize,
    color: &[u8; 4],
    bg: &[u8; 4],
)
    requires
        stride >= 1,
        glyphs.wf(),
        font_size <= 256,
        rect.0 + rect.2 <= 0x4000_0000,
        rect.1 <= 0x4000_0000,
    ensures
        final(buf)@.len() == old(buf)@.len(),
        forall|k: int|
            0 <= k < old(buf)@.len() && final(buf)@[k] != old(buf)@[k] ==> number_band_writes(
                *rect,
                stride as int,
                old(buf)@.len() as int,
                k,
            ),
{
    let ds = decimal_chars(number);
    proof {
        assert(pow10(20) > 0xFFFF_FFFF_FFFF_FFFF) by {
            reveal_with_fuel(pow10, 21);
        }
        lemma_decimal_len(number as int, 20);
        assert(ds@.len() <= 20);
    }

    // Measure the digits from the cached advances, saturating far below any
    // overflow.
    let mut total: usize = 0;
    let mut i: usize = 0;
    while i < ds.len()
        invariant
            glyphs.wf(),
            total <= 0x4000_0000,
        decreases ds@.len() - i,
    {
        let adv = glyphs.advance_of(ds[i], 0);
        if total + adv <= 0x4000_0000 {
            total = total + adv;
        }
        i = i + 1;
    }

    let start_x = if total <= rect.2 {
        rect.0 + rect.2 - total
    } else {
        rect.0
    };

    let ghost f0 = buf@;
    let mut xpos: usize = start_x;
    let mut j: usize = 0;
    while j < ds.len()
        invariant
            stride >= 1,
            glyphs.wf(),
            font_size <= 256,
            rect.0 + rect.2 <= 0x4000_0000,
            rect.1 <= 0x4000_0000,
            ds@.len() <= 20,
            j <= ds@.len(),
            rect.0 <= xpos,
            xpos <= rect.0 + rect.2 + 256 * j,
            xpos <= 0x4000_0000,
            buf@.len() == f0.len(),
            forall|k: int|
                0 <= k < f0.len() && buf@[k] != f0[k] ==> number_band_writes(
                    *rect,
                    stride as int,
                    f0.len() as int,
                    k,
                ),
        decreases ds@.len() - j,
    {
        match glyphs.find(ds[j]) {
            Option::Some(gi) => {
                let e = &glyphs.entries[gi];
                let ghost fprev = buf@;
                blit_glyph(buf, stride, xpos, rect.1, font_size, &e.metrics, &e.bitmap, color, bg);
                proof {
                    let sl = stride as int;
                    let ln = f0.len() as int;
                    let m = glyphs.entries@[gi as int].metrics;
                    assert forall|k: int|
                        0 <= k < f0.len() && buf@[k] != f0[k] implies number_band_writes(
                        *rect,
                        sl,
                        ln,
                        k,
                    ) by {
                        if fprev[k] == f0[k] {
                            let (cx, cy) = choose|cx: int, cy: int|
                                0 <= cx < m.width && 0 <= cy < m.height && xpos + cx + m.xmin >= 0
                                    && rect.1 + cy + font_size - m.height - m.ymin >= 0
                                    && pixel_in_frame(
                                    sl,
                                    ln,
                                    xpos + cx + m.xmin,
                                    rect.1 + cy + font_size - m.height - m.ymin,
                                ) && #[trigger] covers(
                                    sl,
                                    xpos + cx + m.xmin,
                                    rect.1 + cy + font_size - m.height - m.ymin,
                                    k,
                                );
                            assert(metrics_wf(m));
                            assert(rect.0 - 256 <= xpos + cx + m.xmin < rect.0 + rect.2 + 5632);
                            assert(rect.1 - 512 <= rect.1 + cy + font_size - m.height - m.ymin
                                < rect.1 + 768);
                        }
                    }
                }
                if xpos + e.metrics.advance_width <= 0x4000_0000 {
                    xpos = xpos + e.metrics.advance_width;
                }
            },
            Option::None => {},
        }
        j = j + 1;
    }
}

/// A zero-filled byte buffer of the given length.
pub fn zero_vec(n: usize) -> (r: Vec<u8>)
    ensures
        r@.len() == n,
        forall|i: int| 0 <= i < n ==> r@[i] == 0,
{
    let mut r: Vec<u8> = Vec::new();
    let mut i: usize = 0;
    while i < n
        invariant
            i <= n,
            r@.len() == i,
            forall|j: int| 0 <= j < i ==> r@[j] == 0,
        decreases n - i,
    {
        r.push(0);
        i = i + 1;
    }
    r
}

/// A rectangle contained in another can only write where the other can.
pub proof fn lemma_rect_writes_subset(
    sub: (usize, usize, usize, usize),
    big: (usize, usize, usize, usize),
    stride: int,
    len: int,
)
    requires
        forall|x: int, y: int| in_rect(sub, x, y) ==> in_rect(big, x, y),
    ensures
        forall|k: int| rect_writes(sub, stride, len, k) ==> rect_writes(big, stride, len, k),
{
    assert forall|k: int| rect_writes(sub, stride, len, k) implies rect_writes(
        big,
        stride,
        len,
        k,
    ) by {
        let (x, y) = choose|x: int, y: int|
            in_rect(sub, x, y) && pixel_in_frame(stride, len, x, y) && covers(stride, x, y, k);
        assert(in_rect(big, x, y));
        assert(covers(stride, x, y, k));
    }
}

} // verus!
