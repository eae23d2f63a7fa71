//! How the window's edges are shared: the chrome at the top, status bars
//! along the top and bottom edges, and the panes in what is left.
use vstd::prelude::*;
use crate::platform::PhysicalSize;

verus! {

/// A rectangle of the window, in physical pixels.
#[derive(Clone, Copy, Debug, PartialEq, Eq, Structural)]
pub struct PaneRect {
    pub x: u32,
    pub y: u32,
    pub width: u32,
    pub height: u32,
}

impl PaneRect {
    pub fn new(x: u32, y: u32, width: u32, height: u32) -> (r: PaneRect)
        ensures
            r == (PaneRect { x, y, width, height }),
    {
        PaneRect { x, y, width, height }
    }
}

/// The edge a status bar sits on.
#[derive(Clone, Copy, Debug, PartialEq, Eq, Structural)]
pub enum StatusBarPosition {
    Top,
    Bottom,
}

/// `a - b`, or zero when `b` is larger.
pub open spec fn minus(a: u32, b: u32) -> u32 {
    if b <= a {
        (a - b) as u32
    } else {
        0
    }
}

/// The smaller of two sizes.
pub open spec fn smaller(a: u32, b: u32) -> u32 {
    if a <= b {
        a
    } else {
        b
    }
}

/// `a + b`, or the largest size when that overflows.
pub open spec fn plus(a: u32, b: u32) -> u32 {
    if a + b <= u32::MAX {
        (a + b) as u32
    } else {
        u32::MAX
    }
}

/// Whether some bar sits at `position`.
pub open spec fn has_bar(bars: Seq<StatusBarPosition>, position: StatusBarPosition) -> bool {
    bars.contains(position)
}

/// The area below the chrome.
pub open spec fn below_chrome(size: PhysicalSize<u32>, chrome_height: u32) -> PaneRect {
    PaneRect {
        x: 0,
        y: smaller(chrome_height, size.height),
        width: size.width,
        height: minus(size.height, chrome_height),
    }
}

/// The area left after a top bar of at most `bar_height` takes its strip,
/// and that bar.
pub open spec fn after_top_bar(content: PaneRect, bar_height: u32) -> (PaneRect, PaneRect) {
    let size = smaller(bar_height, content.height);
    (
        PaneRect {
            x: content.x,
            y: plus(content.y, size),
            width: content.width,
            height: minus(content.height, size),
        },
        PaneRect { x: content.x, y: content.y, width: content.width, height: size },
    )
}

/// The area left after a bottom bar of at most `bar_height` takes its
/// strip, and that bar.
pub open spec fn after_bottom_bar(content: PaneRect, bar_height: u32) -> (PaneRect, PaneRect) {
    let size = smaller(bar_height, content.height);
    let height = minus(content.height, size);
    (
        PaneRect { x: content.x, y: content.y, width: content.width, height },
        PaneRect { x: content.x, y: plus(content.y, height), width: content.width, height: size },
    )
}

/// The panes' area and the status bars of a window of `size` whose
/// chrome takes `chrome_height` at the top: a bar of `bar_height` along
/// the top edge if one is configured there, then one along the bottom.
pub open spec fn edge_layout(
    size: PhysicalSize<u32>,
    chrome_height: u32,
    bar_height: u32,
    bars: Seq<StatusBarPosition>,
) -> (PaneRect, Seq<(StatusBarPosition, PaneRect)>) {
    let start = below_chrome(size, chrome_height);
    let (after_top, top) = if has_bar(bars, StatusBarPosition::Top) {
        let (rest, bar) = after_top_bar(start, bar_height);
        (rest, seq![(StatusBarPosition::Top, bar)])
    } else {
        (start, Seq::empty())
    };
    if has_bar(bars, StatusBarPosition::Bottom) {
        let (rest, bar) = after_bottom_bar(after_top, bar_height);
        (rest, top.push((StatusBarPosition::Bottom, bar)))
    } else {
        (after_top, top)
    }
}

fn has_position(bars: &Vec<StatusBarPosition>, position: StatusBarPosition) -> (r: bool)
    ensures
        r == has_bar(bars@, position),
{
    let mut i: usize = 0;
    while i < bars.len()
        invariant
            i <= bars@.len(),
            forall|k: int| 0 <= k < i ==> bars@[k] != position,
        decreases bars@.len() - i,
    {
        if bars[i] == position {
            proof {
                assert(bars@[i as int] == position);
            }
            return true;
        }
        i = i + 1;
    }
    false
}

/// Shares a window of `size` between its chrome (`chrome_height` at the
/// top), its status bars (`bar_height` each, along the edges that `bars`
/// names) and its panes.
pub fn edge_bar_layout(
    size: PhysicalSize<u32>,
    chrome_height: u32,
    bar_height: u32,
    bars: &Vec<StatusBarPosition>,
) -> (r: (PaneRect, Vec<(StatusBarPosition, PaneRect)>))
    ensures
        r.0 == edge_layout(size, chrome_height, bar_height, bars@).0,
        r.1@ == edge_layout(size, chrome_height, bar_height, bars@).1,
{
    let mut content = PaneRect::new(
        0,
        if chrome_height <= size.height {
            chrome_height
        } else {
            size.height
        },
        size.width,
        if chrome_height <= size.height {
            size.height - chrome_height
        } else {
            0
        },
    );
    let mut placed: Vec<(StatusBarPosition, PaneRect)> = Vec::new();
    if has_position(bars, StatusBarPosition::Top) {
        let size_top = if bar_height <= content.height {
            bar_height
        } else {
            content.height
        };
        let rect = PaneRect::new(content.x, content.y, content.width, size_top);
        content.y = if content.y as u64 + size_top as u64 > u32::MAX as u64 {
            u32::MAX
        } else {
            content.y + size_top
        };
        content.height = content.height - size_top;
        placed.push((StatusBarPosition::Top, rect));
    }
    if has_position(bars, StatusBarPosition::Bottom) {
        let size_bottom = if bar_height <= content.height {
            bar_height
        } else {
            content.height
        };
        content.height = content.height - size_bottom;
        let y = if content.y as u64 + content.height as u64 > u32::MAX as u64 {
            u32::MAX
        } else {
            content.y + content.height
        };
        placed.push((StatusBarPosition::Bottom, PaneRect::new(content.x, y, content.width, size_bottom)));
    }
    proof {
        assert(placed@ =~= edge_layout(size, chrome_height, bar_height, bars@).1);
    }
    (content, placed)
}

} // verus!
