//! The scroll compositor: where each segment is drawn so that the segment
//! run loops across the viewport without a gap.
//!
//! Widths and positions are in layout units of `1 / UNITS_PER_PX` pixel.

use vstd::prelude::*;

verus! {

/// Layout units in one pixel.
pub const UNITS_PER_PX: u64 = 1000;

/// How far the measured width may drift from the cached one before the
/// cached width follows it: one pixel.
pub const WIDTH_HYSTERESIS: u64 = UNITS_PER_PX;

/// Sum of `widths`.
pub open spec fn sum(widths: Seq<u64>) -> nat
    decreases widths.len(),
{
    if widths.len() == 0 {
        0
    } else {
        sum(widths.drop_last()) + widths.last() as nat
    }
}

/// Where segment `i` starts in a pass that starts at `start`.
pub open spec fn position(widths: Seq<u64>, start: int, i: int) -> int {
    start + sum(widths.take(i))
}

/// A segment at `x` with width `w` shows in a viewport `viewport` wide.
pub open spec fn visible(x: int, w: int, viewport: int) -> bool {
    x + w > 0 && x < viewport
}

/// The cached loop width after a frame that measured `measured`: it follows
/// the measurement when unset or off by more than the hysteresis.
pub open spec fn next_cached(cached: nat, measured: nat) -> nat {
    if cached == 0 || cached > measured + WIDTH_HYSTERESIS || measured > cached
        + WIDTH_HYSTERESIS {
        measured
    } else {
        cached
    }
}

/// One draw pass: the start of the run and where each segment goes.
pub struct DrawPass {
    pub start: i128,
    pub positions: Vec<i128>,
    pub visible: Vec<bool>,
}

/// Everything a frame draws.
pub struct FrameLayout {
    pub cached_width: u64,
    pub effective_offset: u64,
    pub first: DrawPass,
    pub second: Option<DrawPass>,
}

/// Whether `p` lays out `widths` from `start` in a viewport `viewport` wide.
pub open spec fn lays_out(p: DrawPass, widths: Seq<u64>, start: int, viewport: int) -> bool {
    &&& p.start == start
    &&& p.positions@.len() == widths.len()
    &&& p.visible@.len() == widths.len()
    &&& forall|i: int|
        0 <= i < widths.len() ==> #[trigger] p.positions@[i] == position(widths, start, i)
    &&& forall|i: int|
        0 <= i < widths.len() ==> #[trigger] p.visible@[i] == visible(
            p.positions@[i] as int,
            widths[i] as int,
            viewport,
        )
}

/// Width of a segment: its text's advance, plus the icon slot where it has
/// an icon.
pub fn segment_width(has_icon: bool, text_advance: u64, icon_space: u64) -> (r: u64)
    requires
        has_icon ==> text_advance + icon_space <= u64::MAX,
    ensures
        r == if has_icon {
            text_advance + icon_space
        } else {
            text_advance as int
        },
{
    if has_icon {
        icon_space + text_advance
    } else {
        text_advance
    }
}

/// Sum of `widths`; `None` where it exceeds `u64::MAX`.
pub fn total_width(widths: &Vec<u64>) -> (r: Option<u64>)
    ensures
        match r {
            Some(t) => t == sum(widths@),
            None => sum(widths@) > u64::MAX,
        },
{
    let mut t: u64 = 0;
    let mut i: usize = 0;
    while i < widths.len()
        invariant
            i <= widths.len(),
            t == sum(widths@.take(i as int)),
        decreases widths.len() - i,
    {
        assert(widths@.take(i as int + 1).drop_last() =~= widths@.take(i as int));
        if widths[i] > u64::MAX - t {
            proof {
                lemma_sum_prefix(widths@, i as int + 1);
            }
            return None;
        }
        t = t + widths[i];
        i += 1;
    }
    assert(widths@.take(i as int) =~= widths@);
    Some(t)
}

proof fn lemma_sum_prefix(w: Seq<u64>, j: int)
    requires
        0 <= j <= w.len(),
    ensures
        sum(w.take(j)) <= sum(w),
    decreases w.len(),
{
    if j < w.len() {
        lemma_sum_prefix(w.drop_last(), j);
        assert(w.drop_last().take(j) =~= w.take(j));
    } else {
        assert(w.take(j) =~= w);
    }
}

/// The cached loop width after a frame that measured `measured`.
pub fn next_cached_width(cached: u64, measured: u64) -> (r: u64)
    ensures
        r == next_cached(cached as nat, measured as nat),
{
    let drift = if cached >= measured {
        cached - measured
    } else {
        measured - cached
    };
    if cached == 0 || drift > WIDTH_HYSTERESIS {
        measured
    } else {
        cached
    }
}

/// The scroll offset within one loop of the segment run.
pub fn effective_offset(offset: u64, cached: u64) -> (r: u64)
    requires
        cached > 0,
    ensures
        r == offset % cached,
        r < cached,
{
    offset % cached
}

/// One animation tick: the offset moves by `step` and is brought back by one
/// loop width once it reaches it.
pub fn advance_offset(offset: u64, step: u64, cached: u64) -> (r: u64)
    requires
        offset + step <= u64::MAX,
    ensures
        r == if cached > 0 && offset + step >= cached {
            offset + step - cached
        } else {
            offset + step
        },
{
    let next = offset + step;
    if cached > 0 && next >= cached {
        next - cached
    } else {
        next
    }
}

/// Lays out every segment of `widths` from `start`: each one's position, and
/// whether any of it falls inside the viewport. Positions advance by every
/// width, drawn or not.
pub fn pass_layout(widths: &Vec<u64>, start: i128, viewport: u64) -> (r: DrawPass)
    requires
        sum(widths@) <= u64::MAX,
        -(u64::MAX as int) <= start <= u64::MAX,
    ensures
        lays_out(r, widths@, start as int, viewport as int),
{
    let mut positions: Vec<i128> = Vec::new();
    let mut shown: Vec<bool> = Vec::new();
    let mut x: i128 = start;
    let mut i: usize = 0;
    while i < widths.len()
        invariant
            i <= widths.len(),
            sum(widths@) <= u64::MAX,
            -(u64::MAX as int) <= start <= u64::MAX,
            x == position(widths@, start as int, i as int),
            positions@.len() == i,
            shown@.len() == i,
            forall|j: int|
                0 <= j < i ==> #[trigger] positions@[j] == position(widths@, start as int, j),
            forall|j: int|
                0 <= j < i ==> #[trigger] shown@[j] == visible(
                    positions@[j] as int,
                    widths@[j] as int,
                    viewport as int,
                ),
        decreases widths.len() - i,
    {
        proof {
            lemma_sum_prefix(widths@, i as int + 1);
            assert(widths@.take(i as int + 1).drop_last() =~= widths@.take(i as int));
        }
        let w = widths[i] as i128;
        positions.push(x);
        shown.push(x + w > 0 && x < viewport as i128);
        x = x + w;
        i += 1;
    }
    DrawPass { start, positions, visible: shown }
}

/// The layout of one frame, or `None` where there is nothing to draw (the
/// caller shows its placeholder). The cached width is brought up to date;
/// the first pass starts at minus the effective offset, the second one loop
/// width later, where that is still left of the viewport's right edge.
pub fn frame_layout(widths: &Vec<u64>, offset: u64, cached: u64, viewport: u64) -> (r: Option<
    FrameLayout,
>)
    requires
        sum(widths@) <= u64::MAX,
    ensures
        sum(widths@) == 0 <==> r is None,
        r matches Some(f) ==> {
            let c = next_cached(cached as nat, sum(widths@));
            let e = (offset as nat) % c;
            &&& f.cached_width == c
            &&& f.effective_offset == e
            &&& lays_out(f.first, widths@, -e, viewport as int)
            &&& (c - e < viewport) == f.second is Some
            &&& f.second matches Some(p) ==> lays_out(p, widths@, c - e, viewport as int)
        },
{
    let total = match total_width(widths) {
        Some(t) => t,
        None => {
            return None;
        },
    };
    if total == 0 {
        return None;
    }
    let c = next_cached_width(cached, total);
    let eff = effective_offset(offset, c);
    let first = pass_layout(widths, -(eff as i128), viewport);
    let end = c - eff;
    let second = if end < viewport {
        Some(pass_layout(widths, end as i128, viewport))
    } else {
        None
    };
    Some(FrameLayout { cached_width: c, effective_offset: eff, first, second })
}

/// The two passes of a frame tile: every segment of the second pass lies
/// exactly one loop width to the right of its place in the first pass.
pub proof fn lemma_passes_tile(
    widths: Seq<u64>,
    first: DrawPass,
    second: DrawPass,
    loop_width: int,
    effective: int,
    viewport: int,
)
    requires
        lays_out(first, widths, -effective, viewport),
        lays_out(second, widths, loop_width - effective, viewport),
    ensures
        second.start == first.start + loop_width,
        forall|i: int|
            0 <= i < widths.len() ==> #[trigger] second.positions@[i] == first.positions@[i]
                + loop_width,
{
    assert forall|i: int| 0 <= i < widths.len() implies #[trigger] second.positions@[i]
        == first.positions@[i] + loop_width by {
        assert(second.positions@[i] == position(widths, loop_width - effective, i));
        assert(first.positions@[i] == position(widths, -effective, i));
    }
}

} // verus!
