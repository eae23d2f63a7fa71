//! The standard notification icons that the terminal draws itself, for
//! desktops that cannot look them up by name: small RGBA images made of
//! filled blocks, a disc, a triangle and thick straight lines.
use vstd::prelude::*;
use crate::notify::NotificationIcon;
use crate::text::same_text;

verus! {

/// The side of a standard icon, in pixels.
pub const STANDARD_ICON_SIDE: usize = 48;

/// The bytes of a standard icon: four for each pixel, row by row.
pub const STANDARD_ICON_BYTES: usize = 9216;

/// A colour with its alpha.
#[derive(Clone, Copy, Debug, PartialEq, Eq, Structural)]
pub struct Rgba {
    pub r: u8,
    pub g: u8,
    pub b: u8,
    pub a: u8,
}

/// Channel `i` of `c`: red, green, blue, then alpha.
pub open spec fn channel(c: Rgba, i: int) -> u8 {
    if i == 0 {
        c.r
    } else if i == 1 {
        c.g
    } else if i == 2 {
        c.b
    } else {
        c.a
    }
}

/// The column of the pixel that byte `k` belongs to.
pub open spec fn pixel_x(k: int) -> int {
    (k / 4) % 48
}

/// The row of the pixel that byte `k` belongs to.
pub open spec fn pixel_y(k: int) -> int {
    (k / 4) / 48
}

/// `img` with every pixel of `region` (that lies on the icon) set to
/// `color`.
pub open spec fn painted(img: Seq<u8>, region: spec_fn(int, int) -> bool, color: Rgba) -> Seq<u8> {
    Seq::new(
        img.len(),
        |k: int|
            if region(pixel_x(k), pixel_y(k)) {
                channel(color, k % 4)
            } else {
                img[k]
            },
    )
}

/// Whether (`px`, `py`) lies on the icon.
pub open spec fn on_icon(px: int, py: int) -> bool {
    0 <= px < 48 && 0 <= py < 48
}

proof fn lemma_pixel_of_byte(k: int)
    requires
        0 <= k < STANDARD_ICON_BYTES,
    ensures
        on_icon(pixel_x(k), pixel_y(k)),
        k == 4 * (48 * pixel_y(k) + pixel_x(k)) + k % 4,
{
}

/// Painting two regions one after the other in one colour paints their
/// union.
proof fn lemma_paint_union(
    img: Seq<u8>,
    first: spec_fn(int, int) -> bool,
    second: spec_fn(int, int) -> bool,
    both: spec_fn(int, int) -> bool,
    color: Rgba,
)
    requires
        forall|px: int, py: int| on_icon(px, py) ==> (both(px, py) == (first(px, py) || second(px, py))),
        img.len() == STANDARD_ICON_BYTES,
    ensures
        painted(painted(img, first, color), second, color) == painted(img, both, color),
{
    assert forall|k: int| 0 <= k < img.len() implies painted(painted(img, first, color), second, color)[k]
        == painted(img, both, color)[k] by {
        lemma_pixel_of_byte(k);
    }
    assert(painted(painted(img, first, color), second, color) =~= painted(img, both, color));
}

/// Regions that agree on the icon paint alike.
proof fn lemma_paint_same(
    img: Seq<u8>,
    first: spec_fn(int, int) -> bool,
    second: spec_fn(int, int) -> bool,
    color: Rgba,
)
    requires
        forall|px: int, py: int| on_icon(px, py) ==> (first(px, py) == second(px, py)),
        img.len() == STANDARD_ICON_BYTES,
    ensures
        painted(img, first, color) == painted(img, second, color),
{
    assert forall|k: int| 0 <= k < img.len() implies painted(img, first, color)[k] == painted(
        img,
        second,
        color,
    )[k] by {
        lemma_pixel_of_byte(k);
    }
    assert(painted(img, first, color) =~= painted(img, second, color));
}

/// Sets the pixel (`x`, `y`) of the icon.
fn set_pixel(rgba: &mut Vec<u8>, x: usize, y: usize, color: Rgba)
    requires
        old(rgba)@.len() == STANDARD_ICON_BYTES,
        x < 48,
        y < 48,
    ensures
        final(rgba)@ == painted(old(rgba)@, |px: int, py: int| px == x && py == y, color),
{
    let offset = (y * 48 + x) * 4;
    rgba.set(offset, color.r);
    rgba.set(offset + 1, color.g);
    rgba.set(offset + 2, color.b);
    rgba.set(offset + 3, color.a);
    proof {
        let want = painted(old(rgba)@, |px: int, py: int| px == x && py == y, color);
        assert forall|k: int| 0 <= k < rgba@.len() implies rgba@[k] == want[k] by {
            lemma_pixel_of_byte(k);
        }
        assert(rgba@ =~= want);
    }
}

/// Whether (`px`, `py`) lies in the block from (`x0`, `y0`) to (`x1`,
/// `y1`), both corners included.
pub open spec fn in_block(px: int, py: int, x0: int, y0: int, x1: int, y1: int) -> bool {
    x0 <= px <= x1 && y0 <= py <= y1
}

/// Fills the block from (`x0`, `y0`) to (`x1`, `y1`), both corners
/// included, as far as it lies on the icon.
fn paint_block(rgba: &mut Vec<u8>, x0: i32, y0: i32, x1: i32, y1: i32, color: Rgba)
    requires
        old(rgba)@.len() == STANDARD_ICON_BYTES,
    ensures
        final(rgba)@ == painted(
            old(rgba)@,
            |px: int, py: int| in_block(px, py, x0 as int, y0 as int, x1 as int, y1 as int),
            color,
        ),
{
    let ghost start = rgba@;
    let ghost whole = |px: int, py: int| in_block(px, py, x0 as int, y0 as int, x1 as int, y1 as int);
    let cx0: i32 = if x0 < 0 {
        0
    } else {
        x0
    };
    let cy0: i32 = if y0 < 0 {
        0
    } else {
        y0
    };
    let cx1: i32 = if x1 > 47 {
        47
    } else {
        x1
    };
    let cy1: i32 = if y1 > 47 {
        47
    } else {
        y1
    };
    if cx0 > cx1 || cy0 > cy1 {
        proof {
            lemma_paint_same(start, whole, |px: int, py: int| false, color);
            assert(painted(start, |px: int, py: int| false, color) =~= start);
        }
        return;
    }
    let mut y: i32 = cy0;
    proof {
        lemma_paint_same(start, |px: int, py: int| false, |px: int, py: int| in_block(px, py, cx0 as int, cy0 as int, cx1 as int, cy0 - 1), color);
        assert(painted(start, |px: int, py: int| false, color) =~= start);
    }
    while y <= cy1
        invariant
            start.len() == STANDARD_ICON_BYTES,
            0 <= cx0 <= cx1 <= 47,
            0 <= cy0 <= cy1 <= 47,
            cy0 <= y <= cy1 + 1,
            rgba@ == painted(
                start,
                |px: int, py: int| in_block(px, py, cx0 as int, cy0 as int, cx1 as int, y - 1),
                color,
            ),
        decreases cy1 + 1 - y,
    {
        let mut x: i32 = cx0;
        proof {
            lemma_paint_same(
                start,
                |px: int, py: int| in_block(px, py, cx0 as int, cy0 as int, cx1 as int, y - 1),
                |px: int, py: int|
                    in_block(px, py, cx0 as int, cy0 as int, cx1 as int, y - 1) || (py == y && cx0
                        <= px < x),
                color,
            );
        }
        while x <= cx1
            invariant
                start.len() == STANDARD_ICON_BYTES,
                0 <= cx0 <= cx1 <= 47,
                0 <= cy0 <= y <= cy1 <= 47,
                cx0 <= x <= cx1 + 1,
                rgba@ == painted(
                    start,
                    |px: int, py: int|
                        in_block(px, py, cx0 as int, cy0 as int, cx1 as int, y - 1) || (py == y
                            && cx0 <= px < x),
                    color,
                ),
            decreases cx1 + 1 - x,
        {
            let ghost before = rgba@;
            set_pixel(rgba, x as usize, y as usize, color);
            proof {
                lemma_paint_union(
                    start,
                    |px: int, py: int|
                        in_block(px, py, cx0 as int, cy0 as int, cx1 as int, y - 1) || (py == y
                            && cx0 <= px < x),
                    |px: int, py: int| px == x && py == y,
                    |px: int, py: int|
                        in_block(px, py, cx0 as int, cy0 as int, cx1 as int, y - 1) || (py == y
                            && cx0 <= px < x + 1),
                    color,
                );
            }
            x = x + 1;
        }
        proof {
            lemma_paint_same(
                start,
                |px: int, py: int|
                    in_block(px, py, cx0 as int, cy0 as int, cx1 as int, y - 1) || (py == y && cx0
                        <= px < x),
                |px: int, py: int| in_block(px, py, cx0 as int, cy0 as int, cx1 as int, y as int),
                color,
            );
        }
        y = y + 1;
    }
    proof {
        lemma_paint_same(
            start,
            |px: int, py: int| in_block(px, py, cx0 as int, cy0 as int, cx1 as int, y - 1),
            whole,
            color,
        );
    }
}

/// The points a line visits from (`x`, `y`) towards (`tx`, `ty`), stepping
/// as Bresenham's rule does: `a` and `b` are the distances across and down,
/// `sx` and `sy` the directions, `error` the running error term; at most
/// `fuel` steps.
pub open spec fn line_walk(
    x: int,
    y: int,
    tx: int,
    ty: int,
    a: int,
    b: int,
    sx: int,
    sy: int,
    error: int,
    fuel: nat,
) -> Seq<(int, int)>
    decreases fuel,
{
    if (x == tx && y == ty) || fuel == 0 {
        seq![(x, y)]
    } else {
        let d = 2 * error;
        let x2 = if d >= -b {
            x + sx
        } else {
            x
        };
        let e2 = if d >= -b {
            error - b
        } else {
            error
        };
        let y2 = if d <= a {
            y + sy
        } else {
            y
        };
        let e3 = if d <= a {
            e2 + a
        } else {
            e2
        };
        seq![(x, y)] + line_walk(x2, y2, tx, ty, a, b, sx, sy, e3, (fuel - 1) as nat)
    }
}

/// The distance between two numbers.
pub open spec fn distance(p: int, q: int) -> int {
    if p <= q {
        q - p
    } else {
        p - q
    }
}

/// The points of the line from `from` to `to`, by Bresenham's rule.
pub open spec fn line_points(from: (int, int), to: (int, int)) -> Seq<(int, int)> {
    let a = distance(from.0, to.0);
    let b = distance(from.1, to.1);
    let sx = if from.0 < to.0 {
        1int
    } else {
        -1int
    };
    let sy = if from.1 < to.1 {
        1int
    } else {
        -1int
    };
    line_walk(from.0, from.1, to.0, to.1, a, b, sx, sy, a - b, (a + b) as nat)
}

/// Whether (`px`, `py`) lies within `width` pixels, across and down, of a
/// point of `points`.
pub open spec fn near_points(px: int, py: int, points: Seq<(int, int)>, width: int) -> bool {
    exists|m: int|
        0 <= m < points.len() && in_block(
            px,
            py,
            (#[trigger] points[m]).0 - width,
            points[m].1 - width,
            points[m].0 + width,
            points[m].1 + width,
        )
}

/// Draws the line from `from` to `to`, `width` pixels thick on each side
/// of its points.
#[verifier::spinoff_prover]
fn icon_line(rgba: &mut Vec<u8>, from: (i32, i32), to: (i32, i32), width: i32, color: Rgba)
    requires
        old(rgba)@.len() == STANDARD_ICON_BYTES,
        -1000 <= from.0 <= 1000,
        -1000 <= from.1 <= 1000,
        -1000 <= to.0 <= 1000,
        -1000 <= to.1 <= 1000,
        0 <= width <= 1000,
    ensures
        final(rgba)@ == with_line(
            old(rgba)@,
            from.0 as int,
            from.1 as int,
            to.0 as int,
            to.1 as int,
            width as int,
            color,
        ),
{
    let ghost start = rgba@;
    let ghost points = line_points((from.0 as int, from.1 as int), (to.0 as int, to.1 as int));
    let (mut x, mut y) = from;
    let dx: i32 = if to.0 >= x {
        to.0 - x
    } else {
        x - to.0
    };
    let sx: i32 = if x < to.0 {
        1
    } else {
        -1
    };
    let dy: i32 = if to.1 >= y {
        -(to.1 - y)
    } else {
        -(y - to.1)
    };
    let sy: i32 = if y < to.1 {
        1
    } else {
        -1
    };
    let mut error: i32 = dx + dy;
    let ghost a = dx as int;
    let ghost b = -dy as int;
    let ghost mut i: int = 0;
    let ghost mut j: int = 0;
    let ghost mut k: int = 0;
    proof {
        assert(points == line_walk(x as int, y as int, to.0 as int, to.1 as int, a, b, sx as int, sy as int, error as int, (a + b) as nat));
        assert(points.skip(0) =~= points);
        lemma_paint_same(start, |px: int, py: int| false, |px: int, py: int| near_points(px, py, points.take(0), width as int), color);
        assert(painted(start, |px: int, py: int| false, color) =~= start);
    }
    loop
        invariant_except_break
            k < points.len(),
            points.skip(k) == line_walk(x as int, y as int, to.0 as int, to.1 as int, a, b, sx as int, sy as int, error as int, (a + b - k) as nat),
            rgba@ == painted(
                start,
                |px: int, py: int| near_points(px, py, points.take(k), width as int),
                color,
            ),
        invariant
            start.len() == STANDARD_ICON_BYTES,
            -1000 <= from.0 <= 1000,
            -1000 <= from.1 <= 1000,
            -1000 <= to.0 <= 1000,
            -1000 <= to.1 <= 1000,
            0 <= width <= 1000,
            a == distance(from.0 as int, to.0 as int),
            b == distance(from.1 as int, to.1 as int),
            dx == a,
            dy == -b,
            sx == (if from.0 < to.0 { 1int } else { -1int }),
            sy == (if from.1 < to.1 { 1int } else { -1int }),
            0 <= i <= a,
            0 <= j <= b,
            x == (if from.0 < to.0 { from.0 + i } else { from.0 - i }),
            y == (if from.1 < to.1 { from.1 + j } else { from.1 - j }),
            error == a * (1 + j) - b * (1 + i),
            0 <= k <= i + j,
            points == line_points((from.0 as int, from.1 as int), (to.0 as int, to.1 as int)),
        ensures
            rgba@ == painted(
                start,
                |px: int, py: int| near_points(px, py, points, width as int),
                color,
            ),
        decreases (a - i) + (b - j),
    {
        let ghost before = rgba@;
        paint_block(rgba, x - width, y - width, x + width, y + width, color);
        proof {
            assert(points.skip(k)[0] == (x as int, y as int));
            assert(points[k] == (x as int, y as int));
            let w = width as int;
            let here = points[k];
            assert forall|px: int, py: int| on_icon(px, py) implies near_points(px, py, points.take(k + 1), w)
                == (near_points(px, py, points.take(k), w) || in_block(px, py, x - width, y - width, x + width, y + width)) by {
                let t1 = points.take(k + 1);
                let t0 = points.take(k);
                if near_points(px, py, t1, w) {
                    let m = choose|m: int| 0 <= m < t1.len() && in_block(px, py, (#[trigger] t1[m]).0 - w, t1[m].1 - w, t1[m].0 + w, t1[m].1 + w);
                    if m < k {
                        assert(t0[m] == t1[m]);
                    }
                }
                if near_points(px, py, t0, w) {
                    let m = choose|m: int| 0 <= m < t0.len() && in_block(px, py, (#[trigger] t0[m]).0 - w, t0[m].1 - w, t0[m].0 + w, t0[m].1 + w);
                    assert(t1[m] == t0[m]);
                }
                if in_block(px, py, x - width, y - width, x + width, y + width) {
                    assert(t1[k] == here);
                }
            }
            lemma_paint_union(
                start,
                |px: int, py: int| near_points(px, py, points.take(k), width as int),
                |px: int, py: int| in_block(px, py, x - width, y - width, x + width, y + width),
                |px: int, py: int| near_points(px, py, points.take(k + 1), width as int),
                color,
            );
        }
        if x == to.0 && y == to.1 {
            proof {
                assert(points.skip(k) =~= seq![(x as int, y as int)]);
                assert(points.skip(k).len() == 1);
                assert(points.len() == k + 1);
                assert(points.take(k + 1) =~= points);
            }
            break;
        }
        proof {
            assert(0 <= a * (1 + j) <= 2001 * 2001) by (nonlinear_arith)
                requires
                    0 <= a <= 2000,
                    0 <= j <= 2000,
            ;
            assert(0 <= b * (1 + i) <= 2001 * 2001) by (nonlinear_arith)
                requires
                    0 <= b <= 2000,
                    0 <= i <= 2000,
            ;
        }
        let doubled = error * 2;
        let ghost old_x = x;
        let ghost old_y = y;
        let ghost old_error = error as int;
        proof {
            if i == a {
                assert(j < b);
                assert(a * (1 + j) <= a * b) by (nonlinear_arith)
                    requires
                        0 <= a,
                        1 + j <= b,
                ;
                assert(b * (1 + i) == b * (1 + a));
                assert(a * b <= b * (1 + a) - b) by (nonlinear_arith)
                    requires
                        0 <= a,
                        0 <= b,
                ;
            }
            if j == b {
                assert(i < a);
                assert(b * (1 + i) <= b * a) by (nonlinear_arith)
                    requires
                        0 <= b,
                        1 + i <= a,
                ;
                assert(a * (1 + j) == a * (1 + b));
                assert(a * b + a <= a * (1 + b)) by (nonlinear_arith)
                    requires
                        0 <= a,
                ;
            }
        }
        if doubled >= dy {
            error = error + dy;
            x = x + sx;
            proof {
                assert(b * (1 + (i + 1)) == b * (1 + i) + b) by (nonlinear_arith);
                i = i + 1;
            }
        }
        if doubled <= dx {
            error = error + dx;
            y = y + sy;
            proof {
                assert(a * (1 + (j + 1)) == a * (1 + j) + a) by (nonlinear_arith);
                j = j + 1;
            }
        }
        proof {
            let rest = points.skip(k);
            assert(rest.skip(1) =~= points.skip(k + 1));
            assert(rest =~= seq![(old_x as int, old_y as int)] + line_walk(x as int, y as int, to.0 as int, to.1 as int, a, b, sx as int, sy as int, error as int, (a + b - k - 1) as nat));
            k = k + 1;
        }
    }
}

/// Whether (`px`, `py`) lies in the disc of an icon's background.
pub open spec fn in_disk(px: int, py: int) -> bool {
    3 <= px < 45 && 3 <= py < 45 && (px - 24) * (px - 24) + (py - 24) * (py - 24) <= 441
}

/// Whether (`px`, `py`) lies in the triangle of the warning icon.
pub open spec fn in_triangle(px: int, py: int) -> bool {
    5 <= py < 44 && 24 - (py - 5) / 2 <= px <= 24 + (py - 5) / 2
}

/// Fills the disc of an icon's background.
fn icon_circle(rgba: &mut Vec<u8>, color: Rgba)
    requires
        old(rgba)@.len() == STANDARD_ICON_BYTES,
    ensures
        final(rgba)@ == with_disk(old(rgba)@, color),
{
    let ghost start = rgba@;
    proof {
        lemma_paint_same(start, |px: int, py: int| false, |px: int, py: int| in_disk(px, py) && py < 3, color);
        assert(painted(start, |px: int, py: int| false, color) =~= start);
    }
    let mut y: usize = 3;
    while y < 45
        invariant
            start.len() == STANDARD_ICON_BYTES,
            3 <= y <= 45,
            rgba@ == painted(start, |px: int, py: int| in_disk(px, py) && py < y, color),
        decreases 45 - y,
    {
        let mut x: usize = 3;
        proof {
            lemma_paint_same(
                start,
                |px: int, py: int| in_disk(px, py) && py < y,
                |px: int, py: int| in_disk(px, py) && (py < y || (py == y && px < x)),
                color,
            );
        }
        while x < 45
            invariant
                start.len() == STANDARD_ICON_BYTES,
                3 <= y < 45,
                3 <= x <= 45,
                rgba@ == painted(
                    start,
                    |px: int, py: int| in_disk(px, py) && (py < y || (py == y && px < x)),
                    color,
                ),
            decreases 45 - x,
        {
            let dx = x as i32 - 24;
            let dy = y as i32 - 24;
            proof {
                assert(dx * dx <= 576 && dy * dy <= 576 && dx * dx >= 0 && dy * dy >= 0) by (nonlinear_arith)
                    requires
                        -24 <= dx <= 24,
                        -24 <= dy <= 24,
                ;
            }
            if dx * dx + dy * dy <= 441 {
                set_pixel(rgba, x, y, color);
                proof {
                    lemma_paint_union(
                        start,
                        |px: int, py: int| in_disk(px, py) && (py < y || (py == y && px < x)),
                        |px: int, py: int| px == x && py == y,
                        |px: int, py: int| in_disk(px, py) && (py < y || (py == y && px < x + 1)),
                        color,
                    );
                }
            } else {
                proof {
                    lemma_paint_same(
                        start,
                        |px: int, py: int| in_disk(px, py) && (py < y || (py == y && px < x)),
                        |px: int, py: int| in_disk(px, py) && (py < y || (py == y && px < x + 1)),
                        color,
                    );
                }
            }
            x = x + 1;
        }
        proof {
            lemma_paint_same(
                start,
                |px: int, py: int| in_disk(px, py) && (py < y || (py == y && px < x)),
                |px: int, py: int| in_disk(px, py) && py < y + 1,
                color,
            );
        }
        y = y + 1;
    }
    proof {
        lemma_paint_same(
            start,
            |px: int, py: int| in_disk(px, py) && py < y,
            |px: int, py: int| in_disk(px, py),
            color,
        );
    }
}

/// Fills the triangle of the warning icon.
fn icon_triangle(rgba: &mut Vec<u8>, color: Rgba)
    requires
        old(rgba)@.len() == STANDARD_ICON_BYTES,
    ensures
        final(rgba)@ == with_triangle(old(rgba)@, color),
{
    let ghost start = rgba@;
    proof {
        lemma_paint_same(start, |px: int, py: int| false, |px: int, py: int| in_triangle(px, py) && py < 5, color);
        assert(painted(start, |px: int, py: int| false, color) =~= start);
    }
    let mut y: i32 = 5;
    while y < 44
        invariant
            start.len() == STANDARD_ICON_BYTES,
            5 <= y <= 44,
            rgba@ == painted(start, |px: int, py: int| in_triangle(px, py) && py < y, color),
        decreases 44 - y,
    {
        let half = (y - 5) / 2;
        paint_block(rgba, 24 - half, y, 24 + half, y, color);
        proof {
            lemma_paint_union(
                start,
                |px: int, py: int| in_triangle(px, py) && py < y,
                |px: int, py: int| in_block(px, py, 24 - half, y as int, 24 + half, y as int),
                |px: int, py: int| in_triangle(px, py) && py < y + 1,
                color,
            );
        }
        y = y + 1;
    }
    proof {
        lemma_paint_same(
            start,
            |px: int, py: int| in_triangle(px, py) && py < y,
            |px: int, py: int| in_triangle(px, py),
            color,
        );
    }
}

/// Fills the rectangle with the corners (`left`, `top`), included, and
/// (`right`, `bottom`), excluded.
fn icon_fill_rect(rgba: &mut Vec<u8>, left: usize, top: usize, right: usize, bottom: usize, color: Rgba)
    requires
        old(rgba)@.len() == STANDARD_ICON_BYTES,
        left <= right <= 48,
        top <= bottom <= 48,
    ensures
        final(rgba)@ == with_block(old(rgba)@, left as int, top as int, right - 1, bottom - 1, color),
{
    paint_block(rgba, left as i32, top as i32, right as i32 - 1, bottom as i32 - 1, color);
}

/// An opaque colour.
pub open spec fn opaque(r: u8, g: u8, b: u8) -> Rgba {
    Rgba { r, g, b, a: 255 }
}

/// An icon with nothing drawn: every byte zero.
pub open spec fn blank_icon() -> Seq<u8> {
    Seq::new(STANDARD_ICON_BYTES as nat, |k: int| 0u8)
}

/// `img` with the background disc in `color`.
pub open spec fn with_disk(img: Seq<u8>, color: Rgba) -> Seq<u8> {
    painted(img, |px: int, py: int| in_disk(px, py), color)
}

/// `img` with the warning triangle in `color`.
pub open spec fn with_triangle(img: Seq<u8>, color: Rgba) -> Seq<u8> {
    painted(img, |px: int, py: int| in_triangle(px, py), color)
}

/// `img` with the block from (`x0`, `y0`) to (`x1`, `y1`) in `color`.
pub open spec fn with_block(img: Seq<u8>, x0: int, y0: int, x1: int, y1: int, color: Rgba) -> Seq<u8> {
    painted(img, |px: int, py: int| in_block(px, py, x0, y0, x1, y1), color)
}

/// `img` with the line from (`x0`, `y0`) to (`x1`, `y1`), `width` pixels
/// thick on each side, in `color`.
pub open spec fn with_line(
    img: Seq<u8>,
    x0: int,
    y0: int,
    x1: int,
    y1: int,
    width: int,
    color: Rgba,
) -> Seq<u8> {
    painted(img, |px: int, py: int| near_points(px, py, line_points((x0, y0), (x1, y1)), width), color)
}

/// The question mark of the question icons, over `img`.
pub open spec fn with_question_mark(img: Seq<u8>) -> Seq<u8> {
    let w = opaque(255, 255, 255);
    let a = with_line(img, 17, 17, 21, 13, 2, w);
    let b = with_line(a, 21, 13, 28, 13, 2, w);
    let c = with_line(b, 28, 13, 32, 17, 2, w);
    let d = with_line(c, 32, 17, 32, 21, 2, w);
    let e = with_line(d, 32, 21, 24, 27, 2, w);
    let f = with_line(e, 24, 27, 24, 30, 2, w);
    with_line(f, 24, 36, 24, 36, 2, w)
}

/// The picture of the standard icon `name`, if there is one.
pub open spec fn standard_icon(name: Seq<char>) -> Option<Seq<u8>> {
    let white = opaque(255, 255, 255);
    let blank = blank_icon();
    if name == "dialog-error"@ {
        let disc = with_disk(blank, opaque(204, 45, 55));
        Some(with_line(with_line(disc, 16, 16, 32, 32, 2, white), 32, 16, 16, 32, 2, white))
    } else if name == "dialog-warning"@ {
        let triangle = with_triangle(blank, opaque(230, 158, 25));
        Some(with_line(with_line(triangle, 24, 16, 24, 30, 2, white), 24, 36, 24, 36, 2, white))
    } else if name == "dialog-information"@ {
        let disc = with_disk(blank, opaque(45, 117, 204));
        Some(with_line(with_line(disc, 24, 21, 24, 35, 2, white), 24, 13, 24, 14, 2, white))
    } else if name == "dialog-question"@ {
        Some(with_question_mark(with_disk(blank, opaque(126, 76, 180))))
    } else if name == "help-browser"@ {
        Some(with_question_mark(with_disk(blank, opaque(45, 154, 92))))
    } else if name == "system-file-manager"@ {
        let tab = with_block(blank, 4, 13, 22, 19, opaque(232, 175, 56));
        let body = with_block(tab, 4, 18, 43, 39, opaque(244, 194, 72));
        Some(with_line(body, 9, 25, 39, 25, 1, opaque(255, 225, 145)))
    } else if name == "utilities-system-monitor"@ {
        let green = opaque(70, 214, 120);
        let screen = with_block(blank, 4, 7, 43, 37, opaque(47, 55, 65));
        let a = with_line(screen, 9, 29, 16, 23, 1, green);
        let b = with_line(a, 16, 23, 21, 27, 1, green);
        let c = with_line(b, 21, 27, 29, 14, 1, green);
        let d = with_line(c, 29, 14, 39, 20, 1, green);
        Some(with_block(d, 18, 38, 29, 42, opaque(103, 113, 126)))
    } else if name == "accessories-text-editor"@ {
        let blue = opaque(62, 116, 184);
        let page = with_block(blank, 8, 4, 39, 43, opaque(245, 247, 250));
        let a = with_line(page, 14, 14, 34, 14, 1, blue);
        let b = with_line(a, 14, 21, 34, 21, 1, blue);
        let c = with_line(b, 14, 28, 34, 28, 1, blue);
        Some(with_line(c, 14, 35, 34, 35, 1, blue))
    } else {
        None
    }
}

fn draw_question_mark(rgba: &mut Vec<u8>)
    requires
        old(rgba)@.len() == STANDARD_ICON_BYTES,
    ensures
        final(rgba)@ == with_question_mark(old(rgba)@),
{
    let white = Rgba { r: 255, g: 255, b: 255, a: 255 };
    icon_line(rgba, (17, 17), (21, 13), 2, white);
    icon_line(rgba, (21, 13), (28, 13), 2, white);
    icon_line(rgba, (28, 13), (32, 17), 2, white);
    icon_line(rgba, (32, 17), (32, 21), 2, white);
    icon_line(rgba, (32, 21), (24, 27), 2, white);
    icon_line(rgba, (24, 27), (24, 30), 2, white);
    icon_line(rgba, (24, 36), (24, 36), 2, white);
}

/// Draws the standard icon `name`, for the names the desktop's icon theme
/// uses for dialogs, the file manager, the system monitor and the text
/// editor; none for another name.
pub fn standard_notification_icon(name: &str) -> (r: Option<NotificationIcon>)
    ensures
        match standard_icon(name@) {
            Some(picture) => r matches Some(icon) && icon.width == 48 && icon.height == 48
                && icon.rgba@ == picture,
            None => r is None,
        },
{
    let mut rgba: Vec<u8> = vec![0u8; STANDARD_ICON_BYTES];
    proof {
        assert(rgba@ =~= blank_icon());
    }
    let white = Rgba { r: 255, g: 255, b: 255, a: 255 };
    if same_text(name, "dialog-error") {
        icon_circle(&mut rgba, Rgba { r: 204, g: 45, b: 55, a: 255 });
        icon_line(&mut rgba, (16, 16), (32, 32), 2, white);
        icon_line(&mut rgba, (32, 16), (16, 32), 2, white);
    } else if same_text(name, "dialog-warning") {
        icon_triangle(&mut rgba, Rgba { r: 230, g: 158, b: 25, a: 255 });
        icon_line(&mut rgba, (24, 16), (24, 30), 2, white);
        icon_line(&mut rgba, (24, 36), (24, 36), 2, white);
    } else if same_text(name, "dialog-information") {
        icon_circle(&mut rgba, Rgba { r: 45, g: 117, b: 204, a: 255 });
        icon_line(&mut rgba, (24, 21), (24, 35), 2, white);
        icon_line(&mut rgba, (24, 13), (24, 14), 2, white);
    } else if same_text(name, "dialog-question") {
        icon_circle(&mut rgba, Rgba { r: 126, g: 76, b: 180, a: 255 });
        draw_question_mark(&mut rgba);
    } else if same_text(name, "help-browser") {
        icon_circle(&mut rgba, Rgba { r: 45, g: 154, b: 92, a: 255 });
        draw_question_mark(&mut rgba);
    } else if same_text(name, "system-file-manager") {
        icon_fill_rect(&mut rgba, 4, 13, 23, 20, Rgba { r: 232, g: 175, b: 56, a: 255 });
        icon_fill_rect(&mut rgba, 4, 18, 44, 40, Rgba { r: 244, g: 194, b: 72, a: 255 });
        icon_line(&mut rgba, (9, 25), (39, 25), 1, Rgba { r: 255, g: 225, b: 145, a: 255 });
    } else if same_text(name, "utilities-system-monitor") {
        let green = Rgba { r: 70, g: 214, b: 120, a: 255 };
        icon_fill_rect(&mut rgba, 4, 7, 44, 38, Rgba { r: 47, g: 55, b: 65, a: 255 });
        icon_line(&mut rgba, (9, 29), (16, 23), 1, green);
        icon_line(&mut rgba, (16, 23), (21, 27), 1, green);
        icon_line(&mut rgba, (21, 27), (29, 14), 1, green);
        icon_line(&mut rgba, (29, 14), (39, 20), 1, green);
        icon_fill_rect(&mut rgba, 18, 38, 30, 43, Rgba { r: 103, g: 113, b: 126, a: 255 });
    } else if same_text(name, "accessories-text-editor") {
        let blue = Rgba { r: 62, g: 116, b: 184, a: 255 };
        icon_fill_rect(&mut rgba, 8, 4, 40, 44, Rgba { r: 245, g: 247, b: 250, a: 255 });
        let rows: [i32; 4] = [14, 21, 28, 35];
        let ghost page = rgba@;
        let mut n: usize = 0;
        while n < 4
            invariant
                n <= 4,
                rows@ == seq![14i32, 21i32, 28i32, 35i32],
                rgba@.len() == STANDARD_ICON_BYTES,
                n == 0 ==> rgba@ == page,
                n == 1 ==> rgba@ == with_line(page, 14, 14, 34, 14, 1, blue),
                n == 2 ==> rgba@ == with_line(with_line(page, 14, 14, 34, 14, 1, blue), 14, 21, 34, 21, 1, blue),
                n == 3 ==> rgba@ == with_line(with_line(with_line(page, 14, 14, 34, 14, 1, blue), 14, 21, 34, 21, 1, blue), 14, 28, 34, 28, 1, blue),
                n == 4 ==> rgba@ == with_line(with_line(with_line(with_line(page, 14, 14, 34, 14, 1, blue), 14, 21, 34, 21, 1, blue), 14, 28, 34, 28, 1, blue), 14, 35, 34, 35, 1, blue),
            decreases 4 - n,
        {
            let row = rows[n];
            icon_line(&mut rgba, (14, row), (34, row), 1, blue);
            n = n + 1;
        }
    } else {
        return None;
    }
    Some(NotificationIcon { width: 48, height: 48, rgba })
}

} // verus!
