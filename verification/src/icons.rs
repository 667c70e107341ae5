//! The tray and window icon, drawn into a square RGBA pixel buffer and turned
//! into the bottom-up BGRA rows that Win32 icons use.
use vstd::prelude::*;

verus! {

/// Where pixel (`x`, `y`) of a `size`-wide RGBA image starts.
pub open spec fn pixel_index(size: int, x: int, y: int) -> int {
    (y * size + x) * 4
}

/// Byte `k` of pixel (`x`, `y`).
pub open spec fn pix(p: Seq<u8>, size: int, x: int, y: int, k: int) -> u8 {
    p[pixel_index(size, x, y) + k]
}

pub proof fn lemma_pixel_index_bounds(size: int, x: int, y: int)
    requires
        0 <= x < size,
        0 <= y < size,
    ensures
        0 <= pixel_index(size, x, y),
        pixel_index(size, x, y) + 4 <= size * size * 4,
{
    assert(y * size + x < size * size) by (nonlinear_arith)
        requires
            0 <= x < size,
            0 <= y < size,
    ;
    assert(0 <= y * size) by (nonlinear_arith)
        requires
            0 <= y,
            0 <= size,
    ;
}

pub proof fn lemma_pixel_index_distinct(size: int, x1: int, y1: int, x2: int, y2: int, k1: int, k2: int)
    requires
        0 <= x1 < size,
        0 <= y1 < size,
        0 <= x2 < size,
        0 <= y2 < size,
        0 <= k1 < 4,
        0 <= k2 < 4,
        x1 != x2 || y1 != y2,
    ensures
        pixel_index(size, x1, y1) + k1 != pixel_index(size, x2, y2) + k2,
{
    assert(y1 * size + x1 != y2 * size + x2) by (nonlinear_arith)
        requires
            0 <= x1 < size,
            0 <= x2 < size,
            0 <= y1,
            0 <= y2,
            x1 != x2 || y1 != y2,
    {
        if y1 == y2 {
        } else if y1 < y2 {
            assert(y1 * size + size <= y2 * size);
        } else {
            assert(y2 * size + size <= y1 * size);
        }
    }
}

/// Paints pixel (`x`, `y`); a pixel outside the image is ignored.
pub fn set_icon_pixel(pixels: &mut [u8], size: usize, x: usize, y: usize, color: [u8; 4])
    requires
        old(pixels)@.len() == size * size * 4,
    ensures
        final(pixels)@.len() == old(pixels)@.len(),
        x < size && y < size ==> forall|i: int|
            0 <= i < old(pixels)@.len() ==> #[trigger] final(pixels)@[i] == if pixel_index(
                size as int,
                x as int,
                y as int,
            ) <= i < pixel_index(size as int, x as int, y as int) + 4 {
                color@[i - pixel_index(size as int, x as int, y as int)]
            } else {
                old(pixels)@[i]
            },
        !(x < size && y < size) ==> final(pixels)@ == old(pixels)@,
{
    if x >= size || y >= size {
        return;
    }
    let n = pixels.len();
    proof {
        lemma_pixel_index_bounds(size as int, x as int, y as int);
        assert(y * size <= n) by (nonlinear_arith)
            requires
                y < size,
                n == size * size * 4,
        ;
    }
    let index = (y * size + x) * 4;
    pixels[index] = color[0];
    pixels[index + 1] = color[1];
    pixels[index + 2] = color[2];
    pixels[index + 3] = color[3];
}

/// Whether pixel (`x`, `y`) lies in the box from (`left`, `top`) to
/// (`right`, `bottom`), exclusive.
pub open spec fn in_box(x: int, y: int, left: int, top: int, right: int, bottom: int) -> bool {
    left <= x < right && top <= y < bottom
}

/// Paints the pixels of a box, clipped to the image.
pub fn fill_icon_rect(
    pixels: &mut [u8],
    size: usize,
    left: usize,
    top: usize,
    right: usize,
    bottom: usize,
    color: [u8; 4],
)
    requires
        old(pixels)@.len() == size * size * 4,
    ensures
        final(pixels)@.len() == old(pixels)@.len(),
        forall|x: int, y: int, k: int|
            0 <= x < size && 0 <= y < size && 0 <= k < 4 ==> #[trigger] pix(
                final(pixels)@,
                size as int,
                x,
                y,
                k,
            ) == if in_box(x, y, left as int, top as int, right as int, bottom as int) {
                color@[k]
            } else {
                pix(old(pixels)@, size as int, x, y, k)
            },
{
    let y_end = if bottom < size {
        bottom
    } else {
        size
    };
    let x_end = if right < size {
        right
    } else {
        size
    };
    let ghost start = pixels@;
    let mut y = top;
    while y < y_end
        invariant
            pixels@.len() == size * size * 4,
            start.len() == size * size * 4,
            y_end <= size,
            x_end <= size,
            y_end == (if bottom < size { bottom } else { size }),
            x_end == (if right < size { right } else { size }),
            top <= y || y_end <= y,
            forall|px: int, py: int, k: int|
                0 <= px < size && 0 <= py < size && 0 <= k < 4 ==> #[trigger] pix(
                    pixels@,
                    size as int,
                    px,
                    py,
                    k,
                ) == if in_box(px, py, left as int, top as int, right as int, bottom as int) && py < y {
                    color@[k]
                } else {
                    pix(start, size as int, px, py, k)
                },
        decreases y_end - y,
    {
        let mut x = left;
        while x < x_end
            invariant
                pixels@.len() == size * size * 4,
                start.len() == size * size * 4,
                y < y_end,
                y_end <= size,
                x_end <= size,
                y_end == (if bottom < size { bottom } else { size }),
                x_end == (if right < size { right } else { size }),
                top <= y,
                left <= x || x_end <= x,
                forall|px: int, py: int, k: int|
                    0 <= px < size && 0 <= py < size && 0 <= k < 4 ==> #[trigger] pix(
                        pixels@,
                        size as int,
                        px,
                        py,
                        k,
                    ) == if in_box(px, py, left as int, top as int, right as int, bottom as int) && (
                    py < y || (py == y && px < x)) {
                        color@[k]
                    } else {
                        pix(start, size as int, px, py, k)
                    },
            decreases x_end - x,
        {
            let ghost before = pixels@;
            set_icon_pixel(pixels, size, x, y, color);
            proof {
                assert forall|px: int, py: int, k: int|
                    0 <= px < size && 0 <= py < size && 0 <= k < 4 implies #[trigger] pix(
                        pixels@,
                        size as int,
                        px,
                        py,
                        k,
                    ) == if in_box(px, py, left as int, top as int, right as int, bottom as int) && (
                    py < y || (py == y && px < x + 1)) {
                        color@[k]
                    } else {
                        pix(start, size as int, px, py, k)
                    } by {
                    lemma_pixel_index_bounds(size as int, px, py);
                    lemma_pixel_index_bounds(size as int, x as int, y as int);
                    if px == x && py == y {
                    } else {
                        lemma_pixel_index_distinct(size as int, px, py, x as int, y as int, k, 0);
                        lemma_pixel_index_distinct(size as int, px, py, x as int, y as int, k, 1);
                        lemma_pixel_index_distinct(size as int, px, py, x as int, y as int, k, 2);
                        lemma_pixel_index_distinct(size as int, px, py, x as int, y as int, k, 3);
                        assert(pix(pixels@, size as int, px, py, k) == pix(before, size as int, px, py, k));
                    }
                }
            }
            x = x + 1;
        }
        y = y + 1;
    }
}

/// Pixel (`x`, `y`) of `rgba` appears in `bgra` in BGRA order, in the row
/// counted from the bottom.
pub open spec fn flipped_pixel(bgra: Seq<u8>, rgba: Seq<u8>, size: int, x: int, y: int) -> bool {
    &&& pix(bgra, size, x, size - 1 - y, 0) == pix(rgba, size, x, y, 2)
    &&& pix(bgra, size, x, size - 1 - y, 1) == pix(rgba, size, x, y, 1)
    &&& pix(bgra, size, x, size - 1 - y, 2) == pix(rgba, size, x, y, 0)
    &&& pix(bgra, size, x, size - 1 - y, 3) == pix(rgba, size, x, y, 3)
}

/// The pixel bytes of a Win32 icon: rows bottom-up, each pixel in BGRA
/// order; bytes past the image stay zero.
pub fn rgba_to_bottom_up_bgra(rgba: &[u8], size: usize) -> (r: Vec<u8>)
    requires
        rgba@.len() >= size * size * 4,
    ensures
        r@.len() == rgba@.len(),
        forall|x: int, y: int|
            0 <= x < size && 0 <= y < size ==> #[trigger] flipped_pixel(r@, rgba@, size as int, x, y),
        forall|i: int| size * size * 4 <= i < r@.len() ==> #[trigger] r@[i] == 0,
{
    let n = rgba.len();
    let mut bgra: Vec<u8> = Vec::new();
    let mut i: usize = 0;
    while i < n
        invariant
            n == rgba@.len(),
            i <= n,
            bgra@.len() == i,
            forall|j: int| 0 <= j < i ==> #[trigger] bgra@[j] == 0,
        decreases n - i,
    {
        bgra.push(0);
        i = i + 1;
    }
    let mut y: usize = 0;
    while y < size
        invariant
            n == rgba@.len(),
            n >= size * size * 4,
            bgra@.len() == n,
            y <= size,
            forall|j: int| size * size * 4 <= j < n ==> #[trigger] bgra@[j] == 0,
            forall|px: int, py: int|
                0 <= px < size && 0 <= py < y ==> #[trigger] flipped_pixel(bgra@, rgba@, size as int, px, py),
        decreases size - y,
    {
        let mut x: usize = 0;
        while x < size
            invariant
                n == rgba@.len(),
                n >= size * size * 4,
                bgra@.len() == n,
                y < size,
                x <= size,
                forall|j: int| size * size * 4 <= j < n ==> #[trigger] bgra@[j] == 0,
                forall|px: int, py: int|
                    0 <= px < size && 0 <= py < size && (py < y || (py == y && px < x)) ==> #[trigger] flipped_pixel(bgra@, rgba@, size as int, px, py),
            decreases size - x,
        {
            let ghost before = bgra@;
            proof {
                lemma_pixel_index_bounds(size as int, x as int, y as int);
                lemma_pixel_index_bounds(size as int, x as int, size - 1 - y);
                assert(y * size <= n) by (nonlinear_arith)
                    requires
                        y < size,
                        n >= size * size * 4,
                ;
                assert((size - 1 - y) * size <= n) by (nonlinear_arith)
                    requires
                        y < size,
                        n >= size * size * 4,
                ;
            }
            let src = (y * size + x) * 4;
            let dst = ((size - 1 - y) * size + x) * 4;
            bgra.set(dst, rgba[src + 2]);
            bgra.set(dst + 1, rgba[src + 1]);
            bgra.set(dst + 2, rgba[src]);
            bgra.set(dst + 3, rgba[src + 3]);
            proof {
                assert forall|px: int, py: int|
                    0 <= px < size && 0 <= py < size && (py < y || (py == y && px < x + 1)) implies #[trigger] flipped_pixel(bgra@, rgba@, size as int, px, py) by {
                    lemma_pixel_index_bounds(size as int, px, size - 1 - py);
                    if !(px == x && py == y) {
                        let qy = size - 1 - py;
                        let ty = size - 1 - y;
                        assert(flipped_pixel(before, rgba@, size as int, px, py));
                        assert forall|k: int| 0 <= k < 4 implies #[trigger] pix(bgra@, size as int, px, qy, k)
                            == pix(before, size as int, px, qy, k) by {
                            lemma_pixel_index_distinct(size as int, px, qy, x as int, ty, k, 0);
                            lemma_pixel_index_distinct(size as int, px, qy, x as int, ty, k, 1);
                            lemma_pixel_index_distinct(size as int, px, qy, x as int, ty, k, 2);
                            lemma_pixel_index_distinct(size as int, px, qy, x as int, ty, k, 3);
                        }
                        assert(pix(bgra@, size as int, px, qy, 0) == pix(before, size as int, px, qy, 0));
                        assert(pix(bgra@, size as int, px, qy, 1) == pix(before, size as int, px, qy, 1));
                        assert(pix(bgra@, size as int, px, qy, 2) == pix(before, size as int, px, qy, 2));
                        assert(pix(bgra@, size as int, px, qy, 3) == pix(before, size as int, px, qy, 3));
                    }
                }
                assert forall|j: int| size * size * 4 <= j < n implies #[trigger] bgra@[j] == 0 by {
                    assert(bgra@[j] == before[j]);
                }
            }
            x = x + 1;
        }
        proof {
            assert forall|px: int, py: int| 0 <= px < size && 0 <= py < y + 1 implies #[trigger] flipped_pixel(bgra@, rgba@, size as int, px, py) by {
                assert(py < y || (py == y && px < x));
            }
        }
        y = y + 1;
    }
    bgra
}

// ---------------------------------------------------------------------------
// The switcher's icon
// ---------------------------------------------------------------------------

/// Whether pixel (`x`, `y`) lies on the magnifier's ring: its squared
/// distance from (20, 20) is within 9.5 of 35.
pub open spec fn on_ring(x: int, y: int) -> bool {
    let d = (x - 20) * (x - 20) + (y - 20) * (y - 20);
    26 <= d <= 44
}

/// Whether pixel (`x`, `y`) lies within 1.35 of the magnifier's handle, the
/// segment from (24, 24) to (30, 30). Pixels are whole, so this is: within
/// one step of an end (beyond the ends) or at most one apart across the
/// diagonal (between them).
pub open spec fn on_handle(x: int, y: int) -> bool {
    let u = x - 24;
    let v = y - 24;
    let s = u + v;
    if s <= 0 {
        u * u + v * v <= 1
    } else if s >= 12 {
        (u - 6) * (u - 6) + (v - 6) * (v - 6) <= 1
    } else {
        -1 <= u - v <= 1
    }
}

/// The RGBA color of pixel (`x`, `y`) of the icon: a dark tile, a lighter
/// panel, four coloured window squares, and a gold magnifier drawn last.
pub open spec fn icon_rgba(x: int, y: int) -> Seq<u8> {
    if on_ring(x, y) || on_handle(x, y) {
        seq![255u8, 206u8, 86u8, 255u8]
    } else if in_box(x, y, 17, 17, 22, 22) {
        seq![236u8, 245u8, 255u8, 255u8]
    } else if in_box(x, y, 7, 17, 14, 25) {
        seq![73u8, 224u8, 144u8, 255u8]
    } else if in_box(x, y, 17, 7, 25, 14) {
        seq![92u8, 143u8, 255u8, 255u8]
    } else if in_box(x, y, 7, 7, 14, 14) {
        seq![70u8, 211u8, 220u8, 255u8]
    } else if in_box(x, y, 4, 4, 28, 28) {
        seq![25u8, 42u8, 52u8, 255u8]
    } else {
        seq![19u8, 30u8, 39u8, 255u8]
    }
}

/// The icon's color of pixel (`x`, `y`) in BGRA order.
pub open spec fn icon_bgra(x: int, y: int) -> Seq<u8> {
    let c = icon_rgba(x, y);
    seq![c[2], c[1], c[0], c[3]]
}

fn is_magnifier_pixel(x: usize, y: usize) -> (r: bool)
    requires
        x < 0x1_0000_0000,
        y < 0x1_0000_0000,
    ensures
        r == (on_ring(x as int, y as int) || on_handle(x as int, y as int)),
{
    let dx = x as i128 - 20;
    let dy = y as i128 - 20;
    assert(dx * dx <= 0x1_0000_0000_0000_0000) by (nonlinear_arith)
        requires
            -20 <= dx < 0x1_0000_0000,
    ;
    assert(dy * dy <= 0x1_0000_0000_0000_0000) by (nonlinear_arith)
        requires
            -20 <= dy < 0x1_0000_0000,
    ;
    assert(dx * dx >= 0) by (nonlinear_arith);
    assert(dy * dy >= 0) by (nonlinear_arith);
    let d = dx * dx + dy * dy;
    if 26 <= d && d <= 44 {
        return true;
    }
    let u = x as i128 - 24;
    let v = y as i128 - 24;
    let s = u + v;
    if s <= 0 {
        assert(u * u <= 0x1_0000_0000_0000_0000) by (nonlinear_arith)
            requires
                -24 <= u < 0x1_0000_0000,
        ;
        assert(v * v <= 0x1_0000_0000_0000_0000) by (nonlinear_arith)
            requires
                -24 <= v < 0x1_0000_0000,
        ;
        assert(u * u >= 0) by (nonlinear_arith);
        assert(v * v >= 0) by (nonlinear_arith);
        let uu = u * u;
        let vv = v * v;
        uu + vv <= 1
    } else if s >= 12 {
        let a = u - 6;
        let b = v - 6;
        assert(a * a <= 0x1_0000_0000_0000_0000) by (nonlinear_arith)
            requires
                -30 <= a < 0x1_0000_0000,
        ;
        assert(b * b <= 0x1_0000_0000_0000_0000) by (nonlinear_arith)
            requires
                -30 <= b < 0x1_0000_0000,
        ;
        assert(a * a >= 0) by (nonlinear_arith);
        assert(b * b >= 0) by (nonlinear_arith);
        let aa = a * a;
        let bb = b * b;
        aa + bb <= 1
    } else {
        -1 <= u - v && u - v <= 1
    }
}

/// The icon's pixels, `size` by `size`, as the color bits of a Win32 icon:
/// rows bottom-up, pixels in BGRA order.
pub fn mega_icon_xor_bits(size: usize) -> (r: Vec<u8>)
    requires
        size * size * 4 <= usize::MAX,
    ensures
        r@.len() == size * size * 4,
        forall|x: int, y: int, k: int|
            0 <= x < size && 0 <= y < size && 0 <= k < 4 ==> #[trigger] pix(
                r@,
                size as int,
                x,
                size - 1 - y,
                k,
            ) == icon_bgra(x, y)[k],
{
    proof {
        assert(size < 0x1_0000_0000) by (nonlinear_arith)
            requires
                size * size * 4 <= usize::MAX,
                usize::MAX <= 0xffff_ffff_ffff_ffff,
        ;
    }
    let n = size * size * 4;
    let mut rgba: Vec<u8> = Vec::new();
    let mut i: usize = 0;
    while i < n
        invariant
            i <= n,
            rgba@.len() == i,
        decreases n - i,
    {
        rgba.push(0);
        i = i + 1;
    }
    let c0: [u8; 4] = [19, 30, 39, 255];
    let c1: [u8; 4] = [25, 42, 52, 255];
    let c2: [u8; 4] = [70, 211, 220, 255];
    let c3: [u8; 4] = [92, 143, 255, 255];
    let c4: [u8; 4] = [73, 224, 144, 255];
    let c5: [u8; 4] = [236, 245, 255, 255];
    let gold: [u8; 4] = [255, 206, 86, 255];
    fill_icon_rect(rgba.as_mut_slice(), size, 0, 0, size, size, c0);
    fill_icon_rect(rgba.as_mut_slice(), size, 4, 4, 28, 28, c1);
    fill_icon_rect(rgba.as_mut_slice(), size, 7, 7, 14, 14, c2);
    fill_icon_rect(rgba.as_mut_slice(), size, 17, 7, 25, 14, c3);
    fill_icon_rect(rgba.as_mut_slice(), size, 7, 17, 14, 25, c4);
    fill_icon_rect(rgba.as_mut_slice(), size, 17, 17, 22, 22, c5);
    let ghost base = rgba@;
    let mut y: usize = 0;
    while y < size
        invariant
            rgba@.len() == n,
            n == size * size * 4,
            size < 0x1_0000_0000,
            y <= size,
            forall|px: int, py: int, k: int|
                0 <= px < size && 0 <= py < size && 0 <= k < 4 ==> #[trigger] pix(
                    rgba@,
                    size as int,
                    px,
                    py,
                    k,
                ) == if (on_ring(px, py) || on_handle(px, py)) && py < y {
                    gold@[k]
                } else {
                    pix(base, size as int, px, py, k)
                },
        decreases size - y,
    {
        let mut x: usize = 0;
        while x < size
            invariant
                rgba@.len() == n,
                n == size * size * 4,
                size < 0x1_0000_0000,
                y < size,
                x <= size,
                forall|px: int, py: int, k: int|
                    0 <= px < size && 0 <= py < size && 0 <= k < 4 ==> #[trigger] pix(
                        rgba@,
                        size as int,
                        px,
                        py,
                        k,
                    ) == if (on_ring(px, py) || on_handle(px, py)) && (py < y || (py == y && px < x)) {
                        gold@[k]
                    } else {
                        pix(base, size as int, px, py, k)
                    },
            decreases size - x,
        {
            if is_magnifier_pixel(x, y) {
                let ghost before = rgba@;
                set_icon_pixel(rgba.as_mut_slice(), size, x, y, gold);
                proof {
                    assert forall|px: int, py: int, k: int|
                        0 <= px < size && 0 <= py < size && 0 <= k < 4 implies #[trigger] pix(
                            rgba@,
                            size as int,
                            px,
                            py,
                            k,
                        ) == pix(before, size as int, px, py, k) || (px == x && py == y) by {
                        lemma_pixel_index_bounds(size as int, px, py);
                        if !(px == x && py == y) {
                            lemma_pixel_index_distinct(size as int, px, py, x as int, y as int, k, 0);
                            lemma_pixel_index_distinct(size as int, px, py, x as int, y as int, k, 1);
                            lemma_pixel_index_distinct(size as int, px, py, x as int, y as int, k, 2);
                            lemma_pixel_index_distinct(size as int, px, py, x as int, y as int, k, 3);
                        }
                    }
                    lemma_pixel_index_bounds(size as int, x as int, y as int);
                }
            }
            x = x + 1;
        }
        y = y + 1;
    }
    let r = rgba_to_bottom_up_bgra(rgba.as_slice(), size);
    proof {
        assert forall|x: int, y: int, k: int|
            0 <= x < size && 0 <= y < size && 0 <= k < 4 implies #[trigger] pix(
                r@,
                size as int,
                x,
                size - 1 - y,
                k,
            ) == icon_bgra(x, y)[k] by {
            assert(flipped_pixel(r@, rgba@, size as int, x, y));
        }
    }
    r
}

} // verus!
