//! Rectangle arithmetic for the overlay: hit testing, the attention border
//! drawn around a window, the search box buttons, how many result rows fit,
//! and where a window lands when it moves to the next monitor.
use vstd::prelude::*;

verus! {

/// A screen rectangle in pixels; `right` and `bottom` are exclusive.
#[derive(Clone, Copy, Debug, PartialEq, Eq, Structural)]
pub struct Rect {
    pub left: i32,
    pub top: i32,
    pub right: i32,
    pub bottom: i32,
}

pub open spec fn min_int(a: int, b: int) -> int {
    if a <= b {
        a
    } else {
        b
    }
}

pub open spec fn max_int(a: int, b: int) -> int {
    if a >= b {
        a
    } else {
        b
    }
}

/// `v` limited to `lo..=hi` (`lo <= hi`).
pub open spec fn clamp_int(v: int, lo: int, hi: int) -> int {
    if v < lo {
        lo
    } else if v > hi {
        hi
    } else {
        v
    }
}

/// Whether the point lies inside the rectangle (the right and bottom edges
/// are outside).
pub fn point_in_rect(rect: Rect, x: i32, y: i32) -> (r: bool)
    ensures
        r == (rect.left <= x < rect.right && rect.top <= y < rect.bottom),
{
    x >= rect.left && x < rect.right && y >= rect.top && y < rect.bottom
}

/// Whether the rectangle has a positive width and height.
pub fn rect_is_usable(rect: Rect) -> (r: bool)
    ensures
        r == (rect.right > rect.left && rect.bottom > rect.top),
{
    rect.right > rect.left && rect.bottom > rect.top
}

/// The span `start..end` moved inside `min..max` and widened to at least
/// `minimum_size` (taken as at least 1) where the range allows; a range too
/// small for that is returned whole (with its end at least `min + 1`).
pub open spec fn bounded_span_spec(start: int, end: int, min: int, max: int, minimum_size: int) -> (
    int,
    int,
) {
    let size = max_int(minimum_size, 1);
    if max <= min + size {
        (min, max_int(max, min + 1))
    } else {
        let s = clamp_int(start, min, max);
        let e = clamp_int(end, min, max);
        if e - s >= size {
            (s, e)
        } else {
            let e2 = min_int(s + size, max);
            (max_int(e2 - size, min), e2)
        }
    }
}

pub fn bounded_span(start: i32, end: i32, min: i32, max: i32, minimum_size: i32) -> (r: (i32, i32))
    requires
        min + max_int(minimum_size as int, 1) <= i32::MAX,
        min < i32::MAX,
    ensures
        (r.0 as int, r.1 as int) == bounded_span_spec(
            start as int,
            end as int,
            min as int,
            max as int,
            minimum_size as int,
        ),
{
    let size = if minimum_size > 1 {
        minimum_size
    } else {
        1
    };
    if max <= min + size {
        let e = if max > min + 1 {
            max
        } else {
            min + 1
        };
        return (min, e);
    }
    let s = if start < min {
        min
    } else if start > max {
        max
    } else {
        start
    };
    let e = if end < min {
        min
    } else if end > max {
        max
    } else {
        end
    };
    if e as i64 - s as i64 >= size as i64 {
        return (s, e);
    }
    let e2 = if (s as i64) + (size as i64) < max as i64 {
        s + size
    } else {
        max
    };
    let s2 = if e2 - size > min {
        e2 - size
    } else {
        min
    };
    (s2, e2)
}

/// Where a strip of `size` (at least 1) pixels starts when it is held inside
/// `min..max`.
pub open spec fn clamped_strip_start_spec(value: int, min: int, max: int, size: int) -> int {
    clamp_int(value, min, max_int(max - max_int(size, 1), min))
}

pub fn clamped_strip_start(value: i32, min: i32, max: i32, size: i32) -> (r: i32)
    requires
        max - max_int(size as int, 1) >= i32::MIN,
    ensures
        r == clamped_strip_start_spec(value as int, min as int, max as int, size as int),
{
    let size = if size > 1 {
        size
    } else {
        1
    };
    let hi = if max - size > min {
        max - size
    } else {
        min
    };
    if value < min {
        min
    } else if value > hi {
        hi
    } else {
        value
    }
}

/// The arithmetic of `attention_border_positions` stays within `i32` for
/// these arguments.
pub open spec fn border_fits(rect: Rect, bounds: Rect, thickness: int) -> bool {
    let t = max_int(thickness, 1);
    let b = if bounds.right > bounds.left && bounds.bottom > bounds.top {
        bounds
    } else {
        rect
    };
    &&& i32::MIN <= rect.left - t && rect.right + t <= i32::MAX
    &&& i32::MIN <= rect.top - t && rect.bottom + t <= i32::MAX
    &&& i32::MIN <= rect.right - t && i32::MIN <= rect.bottom - t
    &&& b.left + t <= i32::MAX && b.top + t <= i32::MAX && b.left < i32::MAX && b.top < i32::MAX
    &&& b.right - t >= i32::MIN && b.bottom - t >= i32::MIN
    &&& b.right + t <= i32::MAX && b.bottom + t <= i32::MAX
}

/// Whether `attention_border_positions` can compute the border of these
/// arguments within `i32`.
pub fn border_fits_exec(rect: Rect, bounds: Rect, thickness: i32) -> (r: bool)
    ensures
        r == border_fits(rect, bounds, thickness as int),
{
    let t: i64 = if thickness > 1 {
        thickness as i64
    } else {
        1
    };
    let b = if bounds.right > bounds.left && bounds.bottom > bounds.top {
        bounds
    } else {
        rect
    };
    let lo = i32::MIN as i64;
    let hi = i32::MAX as i64;
    lo <= rect.left as i64 - t && rect.right as i64 + t <= hi && lo <= rect.top as i64 - t
        && rect.bottom as i64 + t <= hi && lo <= rect.right as i64 - t && lo <= rect.bottom as i64
        - t && b.left as i64 + t <= hi && b.top as i64 + t <= hi && (b.left as i64) < hi
        && (b.top as i64) < hi && b.right as i64 - t >= lo && b.bottom as i64 - t >= lo
        && b.right as i64 + t <= hi && b.bottom as i64 + t <= hi
}

/// The four strips of an attention border around `rect`: top, bottom, left,
/// right, each `thickness` (at least 1) pixels thick, outside the window where
/// `bounds` (or `rect` itself when `bounds` is empty) leaves room and inside it
/// otherwise.
pub open spec fn attention_border_spec(rect: Rect, bounds: Rect, thickness: int) -> Seq<
    (int, int, int, int),
> {
    let t = max_int(thickness, 1);
    let b = if bounds.right > bounds.left && bounds.bottom > bounds.top {
        bounds
    } else {
        rect
    };
    let h = bounded_span_spec(
        rect.left - t,
        rect.right + t,
        b.left as int,
        b.right as int,
        t,
    );
    let v = bounded_span_spec(rect.top as int, rect.bottom as int, b.top as int, b.bottom as int, t);
    let top = clamped_strip_start_spec(rect.top - t, b.top as int, b.bottom as int, t);
    let bottom = if rect.bottom + t > b.bottom {
        clamped_strip_start_spec(rect.bottom - t, b.top as int, b.bottom as int, t)
    } else {
        clamped_strip_start_spec(rect.bottom as int, b.top as int, b.bottom as int, t)
    };
    let left = clamped_strip_start_spec(rect.left - t, b.left as int, b.right as int, t);
    let right = if rect.right + t > b.right {
        clamped_strip_start_spec(rect.right - t, b.left as int, b.right as int, t)
    } else {
        clamped_strip_start_spec(rect.right as int, b.left as int, b.right as int, t)
    };
    seq![
        (h.0, top, h.1, top + t),
        (h.0, bottom, h.1, bottom + t),
        (left, v.0, left + t, v.1),
        (right, v.0, right + t, v.1),
    ]
}

pub open spec fn rect_tuple(r: Rect) -> (int, int, int, int) {
    (r.left as int, r.top as int, r.right as int, r.bottom as int)
}

#[verifier::spinoff_prover]
#[verifier::rlimit(40)]
pub fn attention_border_positions(rect: Rect, bounds: Rect, thickness: i32) -> (r: [Rect; 4])
    requires
        border_fits(rect, bounds, thickness as int),
    ensures
        r@.map_values(|x: Rect| rect_tuple(x)) == attention_border_spec(
            rect,
            bounds,
            thickness as int,
        ),
{
    let t = if thickness > 1 {
        thickness
    } else {
        1
    };
    let b = if rect_is_usable(bounds) {
        bounds
    } else {
        rect
    };
    let (hl, hr) = bounded_span(rect.left - t, rect.right + t, b.left, b.right, t);
    let (vt, vb) = bounded_span(rect.top, rect.bottom, b.top, b.bottom, t);
    let top = clamped_strip_start(rect.top - t, b.top, b.bottom, t);
    let bottom = if rect.bottom as i64 + t as i64 > b.bottom as i64 {
        clamped_strip_start(rect.bottom - t, b.top, b.bottom, t)
    } else {
        clamped_strip_start(rect.bottom, b.top, b.bottom, t)
    };
    let left = clamped_strip_start(rect.left - t, b.left, b.right, t);
    let right = if rect.right as i64 + t as i64 > b.right as i64 {
        clamped_strip_start(rect.right - t, b.left, b.right, t)
    } else {
        clamped_strip_start(rect.right, b.left, b.right, t)
    };
    let ghost spec = attention_border_spec(rect, bounds, thickness as int);
    proof {
        let tt = max_int(thickness as int, 1);
        assert(t == tt);
        assert(b == (if bounds.right > bounds.left && bounds.bottom > bounds.top {
            bounds
        } else {
            rect
        }));
        assert((hl as int, hr as int) == bounded_span_spec(
            rect.left - tt,
            rect.right + tt,
            b.left as int,
            b.right as int,
            tt,
        ));
        assert(spec[0] == (hl as int, top as int, hr as int, top + tt));
        assert(spec[1] == (hl as int, bottom as int, hr as int, bottom + tt));
        assert(spec[2] == (left as int, vt as int, left + tt, vb as int));
        assert(spec[3] == (right as int, vt as int, right + tt, vb as int));
    }
    let r = [
        Rect { left: hl, top, right: hr, bottom: top + t },
        Rect { left: hl, top: bottom, right: hr, bottom: bottom + t },
        Rect { left, top: vt, right: left + t, bottom: vb },
        Rect { left: right, top: vt, right: right + t, bottom: vb },
    ];
    assert(r@.map_values(|x: Rect| rect_tuple(x)) =~= attention_border_spec(
        rect,
        bounds,
        thickness as int,
    ));
    r
}

/// The help and close buttons inside the search box.
#[derive(Clone, Copy, Debug, PartialEq, Eq, Structural)]
pub struct SearchButtonRects {
    pub help: Rect,
    pub close: Rect,
}

/// The close button sits 18 pixels from the right edge of the search box and
/// the help button 10 pixels to its left; both are 28 pixels square, 14 pixels
/// below the top.
pub fn search_button_rects(search_rect: Rect) -> (r: SearchButtonRects)
    requires
        search_rect.right - 84 >= i32::MIN,
        search_rect.top + 42 <= i32::MAX,
    ensures
        r.close == (Rect {
            left: (search_rect.right - 46) as i32,
            top: (search_rect.top + 14) as i32,
            right: (search_rect.right - 18) as i32,
            bottom: (search_rect.top + 42) as i32,
        }),
        r.help == (Rect {
            left: (search_rect.right - 84) as i32,
            top: (search_rect.top + 14) as i32,
            right: (search_rect.right - 56) as i32,
            bottom: (search_rect.top + 42) as i32,
        }),
{
    let close = Rect {
        left: search_rect.right - 46,
        top: search_rect.top + 14,
        right: search_rect.right - 18,
        bottom: search_rect.top + 42,
    };
    let help = Rect {
        left: close.left - 38,
        top: close.top,
        right: close.left - 10,
        bottom: close.bottom,
    };
    SearchButtonRects { help, close }
}

/// At most this many result rows are shown.
pub const MAX_RESULTS: usize = 8;

/// How many result rows fit below `top` in `rect`: as many rows of
/// `row_height` separated by `gap` as the height (at least one row high)
/// holds, at least one, at most `MAX_RESULTS` and at most `result_count`.
pub open spec fn visible_result_count_spec(
    rect: Rect,
    top: int,
    row_height: int,
    gap: int,
    result_count: int,
) -> int {
    if result_count == 0 {
        0
    } else {
        let available = max_int(rect.bottom - top, row_height);
        let rows = max_int((available + gap) / (row_height + gap), 1);
        min_int(min_int(rows, MAX_RESULTS as int), result_count)
    }
}

pub fn visible_result_count(rect: Rect, top: i32, row_height: i32, gap: i32, result_count: usize) -> (r:
    usize)
    requires
        row_height + gap > 0,
        row_height + gap <= i32::MAX,
        i32::MIN <= rect.bottom - top <= i32::MAX,
        rect.bottom - top + gap <= i32::MAX,
    ensures
        r == visible_result_count_spec(
            rect,
            top as int,
            row_height as int,
            gap as int,
            result_count as int,
        ),
{
    if result_count == 0 {
        return 0;
    }
    let d = rect.bottom - top;
    let available = if d > row_height {
        d
    } else {
        row_height
    };
    let q = (available + gap) / (row_height + gap);
    let rows: usize = if q > 1 {
        q as usize
    } else {
        1
    };
    let rows = if rows < MAX_RESULTS {
        rows
    } else {
        MAX_RESULTS
    };
    if rows < result_count {
        rows
    } else {
        result_count
    }
}

/// Where a window goes on the next monitor.
#[derive(Clone, Copy, Debug, PartialEq, Eq, Structural)]
pub struct WindowPlacement {
    pub left: i32,
    pub top: i32,
    pub width: i32,
    pub height: i32,
}

/// The window keeps its original size where the next monitor is large enough
/// and shrinks to the monitor otherwise; it keeps its offset from the
/// monitor's corner, held so that the window stays on the monitor.
pub open spec fn placement_spec(
    window: Rect,
    original: Rect,
    current: Rect,
    next: Rect,
) -> (int, int, int, int) {
    let ow = max_int(original.right - original.left, 1);
    let oh = max_int(original.bottom - original.top, 1);
    let nw = max_int(next.right - next.left, 1);
    let nh = max_int(next.bottom - next.top, 1);
    let w = min_int(ow, nw);
    let h = min_int(oh, nh);
    let ox = window.left - current.left;
    let oy = window.top - current.top;
    (
        next.left + clamp_int(ox, 0, max_int(nw - w, 0)),
        next.top + clamp_int(oy, 0, max_int(nh - h, 0)),
        w,
        h,
    )
}

/// The arithmetic of `next_monitor_window_placement` stays within `i32`.
pub open spec fn placement_fits(window: Rect, original: Rect, current: Rect, next: Rect) -> bool {
    &&& i32::MIN <= original.right - original.left <= i32::MAX
    &&& i32::MIN <= original.bottom - original.top <= i32::MAX
    &&& i32::MIN <= next.right - next.left <= i32::MAX
    &&& i32::MIN <= next.bottom - next.top <= i32::MAX
    &&& i32::MIN <= window.left - current.left <= i32::MAX
    &&& i32::MIN <= window.top - current.top <= i32::MAX
    &&& next.left + max_int(next.right - next.left, 1) <= i32::MAX
    &&& next.top + max_int(next.bottom - next.top, 1) <= i32::MAX
}

/// Whether `next_monitor_window_placement` can compute the placement of
/// these rectangles within `i32`.
pub fn placement_fits_exec(window: Rect, original: Rect, current: Rect, next: Rect) -> (r: bool)
    ensures
        r == placement_fits(window, original, current, next),
{
    let lo = i32::MIN as i64;
    let hi = i32::MAX as i64;
    let ow = original.right as i64 - original.left as i64;
    let oh = original.bottom as i64 - original.top as i64;
    let nw = next.right as i64 - next.left as i64;
    let nh = next.bottom as i64 - next.top as i64;
    let ox = window.left as i64 - current.left as i64;
    let oy = window.top as i64 - current.top as i64;
    let nw1 = if nw > 1 {
        nw
    } else {
        1
    };
    let nh1 = if nh > 1 {
        nh
    } else {
        1
    };
    lo <= ow && ow <= hi && lo <= oh && oh <= hi && lo <= nw && nw <= hi && lo <= nh && nh <= hi
        && lo <= ox && ox <= hi && lo <= oy && oy <= hi && next.left as i64 + nw1 <= hi
        && next.top as i64 + nh1 <= hi
}

pub fn next_monitor_window_placement(
    window_rect: Rect,
    original_window_rect: Rect,
    current_monitor_rect: Rect,
    next_monitor_rect: Rect,
) -> (r: WindowPlacement)
    requires
        placement_fits(window_rect, original_window_rect, current_monitor_rect, next_monitor_rect),
    ensures
        (r.left as int, r.top as int, r.width as int, r.height as int) == placement_spec(
            window_rect,
            original_window_rect,
            current_monitor_rect,
            next_monitor_rect,
        ),
{
    let ow0 = original_window_rect.right - original_window_rect.left;
    let ow = if ow0 > 1 {
        ow0
    } else {
        1
    };
    let oh0 = original_window_rect.bottom - original_window_rect.top;
    let oh = if oh0 > 1 {
        oh0
    } else {
        1
    };
    let nw0 = next_monitor_rect.right - next_monitor_rect.left;
    let nw = if nw0 > 1 {
        nw0
    } else {
        1
    };
    let nh0 = next_monitor_rect.bottom - next_monitor_rect.top;
    let nh = if nh0 > 1 {
        nh0
    } else {
        1
    };
    let width = if ow < nw {
        ow
    } else {
        nw
    };
    let height = if oh < nh {
        oh
    } else {
        nh
    };
    let offset_x = window_rect.left - current_monitor_rect.left;
    let offset_y = window_rect.top - current_monitor_rect.top;
    let max_x = if nw - width > 0 {
        nw - width
    } else {
        0
    };
    let max_y = if nh - height > 0 {
        nh - height
    } else {
        0
    };
    let cx = if offset_x < 0 {
        0
    } else if offset_x > max_x {
        max_x
    } else {
        offset_x
    };
    let cy = if offset_y < 0 {
        0
    } else if offset_y > max_y {
        max_y
    } else {
        offset_y
    };
    WindowPlacement {
        left: next_monitor_rect.left + cx,
        top: next_monitor_rect.top + cy,
        width,
        height,
    }
}

/// The signed x and y of a mouse message, packed in the low and high 16 bits
/// of its `lParam`.
pub open spec fn low_word_signed(raw: int) -> int {
    let w = raw % 0x10000;
    if w >= 0x8000 {
        w - 0x10000
    } else {
        w
    }
}

pub fn mouse_point(lparam: isize) -> (r: (i32, i32))
    ensures
        r.0 as int == low_word_signed((lparam as u32) as int),
        r.1 as int == low_word_signed(((lparam as u32) as int) / 0x10000),
{
    #[verifier::truncate]
    let raw = lparam as u32;
    let lo = raw % 0x10000;
    let hi = raw / 0x10000;
    let x: i32 = if lo >= 0x8000 {
        lo as i32 - 0x10000
    } else {
        lo as i32
    };
    let y: i32 = if hi >= 0x8000 {
        hi as i32 - 0x10000
    } else {
        hi as i32
    };
    (x, y)
}

} // verus!
