use vstd::prelude::*;
use crate::options::{ToastOptions, ToastPosition};

verus! {

/// A screen point in logical pixels, y growing downwards. `y` is wide because
/// a stack has no bound on how many toasts it holds; a stack reaching past
/// the range of `i128` is held at its end.
#[derive(Debug, Clone, Copy, PartialEq, Eq, Structural)]
pub struct Point {
    pub x: i64,
    pub y: i128,
}

/// A width and height in logical pixels.
#[derive(Debug, Clone, Copy, PartialEq, Eq, Structural)]
pub struct Size {
    pub width: u32,
    pub height: u32,
}

#[derive(Debug, Clone, Copy, PartialEq, Eq, Structural)]
pub struct Rect {
    pub origin: Point,
    pub size: Size,
}

/// The geometry of one monitor in logical pixels; `scale_percent` is the
/// backing scale factor in hundredths (200 for a 2x display).
#[derive(Debug, Clone, Copy, PartialEq, Eq, Structural)]
pub struct MonitorGeometry {
    pub x: i32,
    pub y: i32,
    pub width: u32,
    pub height: u32,
    pub scale_percent: u32,
}

/// The monitor to place on: the one under the pointer, else the primary one.
pub fn select_monitor(with_cursor: Option<MonitorGeometry>, primary: MonitorGeometry) -> (r:
    MonitorGeometry)
    ensures
        r == (match with_cursor {
            Some(m) => m,
            None => primary,
        }),
{
    match with_cursor {
        Some(m) => m,
        None => primary,
    }
}

/// Whether a text of size `text` padded by `padding_x` on each of four
/// horizontal insets and `padding_y` above and below still has a `Size`.
pub open spec fn padded_fits(padding_x: int, padding_y: int, text: Size) -> bool {
    &&& text.width + 4 * padding_x <= u32::MAX
    &&& text.height + 2 * padding_y <= u32::MAX
}

pub open spec fn padded(padding_x: int, padding_y: int, text: Size) -> Size {
    Size {
        width: (text.width + 4 * padding_x) as u32,
        height: (text.height + 2 * padding_y) as u32,
    }
}

pub fn fits_padded(padding_x: i64, padding_y: i64, text: Size) -> (r: bool)
    requires
        0 <= padding_x,
        0 <= padding_y,
    ensures
        r == padded_fits(padding_x as int, padding_y as int, text),
{
    let w = text.width as i128 + 4 * padding_x as i128;
    let h = text.height as i128 + 2 * padding_y as i128;
    w <= u32::MAX as i128 && h <= u32::MAX as i128
}

/// The size of a toast around a text: four horizontal paddings in all and one
/// vertical padding above and one below.
pub fn dimensions(padding_x: i64, padding_y: i64, text: Size) -> (r: Size)
    requires
        0 <= padding_x,
        0 <= padding_y,
        padded_fits(padding_x as int, padding_y as int, text),
    ensures
        r == padded(padding_x as int, padding_y as int, text),
{
    Size {
        width: (text.width as i64 + 4 * padding_x) as u32,
        height: (text.height as i64 + 2 * padding_y) as u32,
    }
}

/// Total height of a sequence of sizes.
pub open spec fn heights(s: Seq<Size>) -> int
    decreases s.len(),
{
    if s.len() == 0 {
        0
    } else {
        heights(s.drop_last()) + s.last().height
    }
}

/// How far the toast after `prev` is pushed from the anchoring edge.
pub open spec fn stack_offset(prev: Seq<Size>, margin: int) -> int {
    heights(prev) + prev.len() * margin
}

pub open spec fn centered_x(monitor: MonitorGeometry, width: int) -> int {
    monitor.x + (monitor.width - width) / 2
}

pub open spec fn edge_distance(monitor: MonitorGeometry, options: ToastOptions) -> int {
    monitor.height * options.distance * monitor.scale_percent / 10000
}

/// The y of the toast's edge nearest the anchoring monitor edge.
pub open spec fn stacked_y(monitor: MonitorGeometry, options: ToastOptions, offset: int) -> int {
    match options.position {
        ToastPosition::Bottom => monitor.y + monitor.height - edge_distance(monitor, options)
            - offset,
        ToastPosition::Top => monitor.y + edge_distance(monitor, options) + offset,
    }
}

/// `v` held within the range of `i128`.
pub open spec fn saturate(v: int) -> int {
    if v < i128::MIN {
        i128::MIN as int
    } else if v > i128::MAX {
        i128::MAX as int
    } else {
        v
    }
}

/// The rows a toast covers, as `(top, bottom)`: from the point it is placed
/// at, it reaches up when anchored to the bottom and down when anchored to
/// the top.
pub open spec fn extent(position: ToastPosition, y: int, height: int) -> (int, int) {
    match position {
        ToastPosition::Bottom => (y - height, y),
        ToastPosition::Top => (y, y + height),
    }
}

/// Where a toast of `size` goes when the toasts admitted before it and still
/// shown have the sizes `prev`.
pub open spec fn placement(
    size: Size,
    monitor: MonitorGeometry,
    options: ToastOptions,
    prev: Seq<Size>,
) -> Point {
    Point {
        x: centered_x(monitor, size.width as int) as i64,
        y: saturate(
            stacked_y(monitor, options, stack_offset(prev, options.margin_between_toasts as int)),
        ) as i128,
    }
}

pub proof fn lemma_heights_bounds(s: Seq<Size>)
    ensures
        0 <= heights(s) <= s.len() * u32::MAX,
    decreases s.len(),
{
    if s.len() > 0 {
        lemma_heights_bounds(s.drop_last());
    }
}

/// The total height of a prefix grows by at least each size it takes in.
proof fn lemma_heights_prefix(s: Seq<Size>, i: int, j: int)
    requires
        0 <= i < j <= s.len(),
    ensures
        heights(s.take(j)) >= heights(s.take(i)) + s[i].height,
    decreases j - i,
{
    assert(s.take(j).drop_last() =~= s.take(j - 1));
    if j > i + 1 {
        lemma_heights_prefix(s, i, j - 1);
    }
}

/// The stacking law: toasts placed on one monitor with one set of options
/// never overlap. Each later toast lies wholly beyond each earlier one, away
/// from the anchoring edge, with at least the margin between them, so the
/// order of the stack is the order of admission.
pub proof fn lemma_stack_disjoint(
    sizes: Seq<Size>,
    monitor: MonitorGeometry,
    options: ToastOptions,
    i: int,
    j: int,
)
    requires
        0 <= options.margin_between_toasts,
        0 <= i < j < sizes.len(),
    ensures
        ({
            let margin = options.margin_between_toasts as int;
            let yi = stacked_y(monitor, options, stack_offset(sizes.take(i), margin));
            let yj = stacked_y(monitor, options, stack_offset(sizes.take(j), margin));
            let ei = extent(options.position, yi, sizes[i].height as int);
            let ej = extent(options.position, yj, sizes[j].height as int);
            match options.position {
                ToastPosition::Bottom => ej.1 + margin <= ei.0,
                ToastPosition::Top => ei.1 + margin <= ej.0,
            }
        }),
{
    let margin = options.margin_between_toasts as int;
    lemma_heights_prefix(sizes, i, j);
    assert((j - i) * margin >= margin) by (nonlinear_arith)
        requires
            j - i >= 1,
            margin >= 0,
    ;
    assert(j * margin == i * margin + (j - i) * margin) by (nonlinear_arith);
}

/// Position of a toast of `size` that follows toasts of total height
/// `stacked` and count `count`. The products and sums below stay within
/// `i128` for every `u32` monitor size and scale, every non-negative `i64`
/// distance and margin and every `usize` count; only the last step can leave
/// it, and is held at its end.
pub(crate) fn place_after(
    size: Size,
    monitor: MonitorGeometry,
    options: &ToastOptions,
    stacked: u128,
    count: usize,
    Ghost(prev): Ghost<Seq<Size>>,
) -> (r: Point)
    requires
        0 <= options.distance,
        0 <= options.margin_between_toasts,
        stacked == heights(prev),
        count == prev.len(),
    ensures
        r == placement(size, monitor, *options, prev),
{
    proof {
        lemma_heights_bounds(prev);
    }
    let diff: i64 = monitor.width as i64 - size.width as i64;
    let half: i64 = if diff >= 0 {
        diff / 2
    } else {
        -((-diff + 1) / 2)
    };
    let x: i64 = monitor.x as i64 + half;
    let h = monitor.height as i128;
    let d = options.distance as i128;
    let s = monitor.scale_percent as i128;
    let n = count as i128;
    let m = options.margin_between_toasts as i128;
    assert(0 <= h * d <= 0xffff_ffff * 0x7fff_ffff_ffff_ffff) by (nonlinear_arith)
        requires
            0 <= h <= 0xffff_ffff,
            0 <= d <= 0x7fff_ffff_ffff_ffff,
    ;
    assert(0 <= h * d * s <= 0xffff_ffff * 0x7fff_ffff_ffff_ffff * 0xffff_ffff) by (nonlinear_arith)
        requires
            0 <= h * d <= 0xffff_ffff * 0x7fff_ffff_ffff_ffff,
            0 <= s <= 0xffff_ffff,
    ;
    assert(0 <= n * m <= 0xffff_ffff_ffff_ffff * 0x7fff_ffff_ffff_ffff) by (nonlinear_arith)
        requires
            0 <= n <= 0xffff_ffff_ffff_ffff,
            0 <= m <= 0x7fff_ffff_ffff_ffff,
    ;
    assert(prev.len() * u32::MAX <= 0xffff_ffff_ffff_ffff * 0xffff_ffff) by (nonlinear_arith)
        requires
            prev.len() <= 0xffff_ffff_ffff_ffff,
    ;
    let edge: i128 = h * d * s / 10000;
    let spread: i128 = n * m;
    let y: i128 = match options.position {
        ToastPosition::Bottom => {
            let base: i128 = monitor.y as i128 + h - edge - stacked as i128;
            match base.checked_sub(spread) {
                Some(v) => v,
                None => i128::MIN,
            }
        },
        ToastPosition::Top => {
            let base: i128 = monitor.y as i128 + edge + stacked as i128;
            match base.checked_add(spread) {
                Some(v) => v,
                None => i128::MAX,
            }
        },
    };
    Point { x, y }
}

/// The PlacementEngine: where a toast of `size` goes on `monitor` when the
/// toasts admitted before it and still shown have the sizes `predecessors`,
/// in order of admission.
pub fn place(
    size: Size,
    monitor: MonitorGeometry,
    options: &ToastOptions,
    predecessors: &[Size],
) -> (r: Point)
    requires
        0 <= options.distance,
        0 <= options.margin_between_toasts,
    ensures
        r == placement(size, monitor, *options, predecessors@),
{
    let mut stacked: u128 = 0;
    let mut i: usize = 0;
    while i < predecessors.len()
        invariant
            i <= predecessors@.len(),
            stacked == heights(predecessors@.take(i as int)),
        decreases predecessors@.len() - i,
    {
        proof {
            assert(predecessors@.take(i as int + 1).drop_last() =~= predecessors@.take(i as int));
            lemma_heights_bounds(predecessors@.take(i as int));
            assert(i * u32::MAX <= 0x1_0000_0000_0000_0000 * 0x1_0000_0000) by (nonlinear_arith)
                requires
                    0 <= i <= usize::MAX,
            ;
        }
        stacked = stacked + predecessors[i].height as u128;
        i = i + 1;
    }
    assert(predecessors@.take(i as int) =~= predecessors@);
    place_after(size, monitor, options, stacked, i, Ghost(predecessors@))
}

} // verus!
