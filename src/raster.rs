use vstd::prelude::*;
use crate::buffer::{lemma_cell_distinct, lemma_cell_index, PixelBuffer};

verus! {

/// Pixel (x, y) lies on the canvas of `b`.
pub open spec fn on_canvas(b: PixelBuffer, x: int, y: int) -> bool {
    0 <= x < b.spec_width() && 0 <= y < b.spec_height()
}

/// `after` has the size of `before`, and each of its pixels is either as
/// in `before` or `color`.
pub open spec fn only_paints(before: PixelBuffer, after: PixelBuffer, color: [u8; 3]) -> bool {
    &&& after.wf()
    &&& after.spec_width() == before.spec_width()
    &&& after.spec_height() == before.spec_height()
    &&& after.cells().len() == before.cells().len()
    &&& forall|k: int|
        0 <= k < after.cells().len() ==> #[trigger] after.cells()[k] == before.cells()[k]
            || after.cells()[k] == color
}

/// Paints the pixel (x, y) with `color` if it lies on the canvas.
pub fn plot(b: &mut PixelBuffer, x: i64, y: i64, color: [u8; 3])
    requires
        old(b).wf(),
    ensures
        only_paints(*old(b), *final(b), color),
        on_canvas(*old(b), x as int, y as int) ==> final(b).at(x as int, y as int) == color,
        on_canvas(*old(b), x as int, y as int) ==> final(b).cells() == old(b).cells().update(
            old(b).index_of(x as int, y as int),
            color,
        ),
        !on_canvas(*old(b), x as int, y as int) ==> *final(b) == *old(b),
        forall|k: int|
            0 <= k < old(b).cells().len() && old(b).cells()[k] == color ==> #[trigger] final(b).cells()[k] == color,
{
    if x >= 0 && x < b.width() as i64 && y >= 0 && y < b.height() as i64 {
        b.put_pixel(x as u32, y as u32, color);
        proof {
            crate::buffer::lemma_cell_index(
                x as int,
                y as int,
                old(b).spec_width() as int,
                old(b).spec_height() as int,
            );
        }
    }
}

/// The pixels that Bresenham's walk visits from (x, y) with error term
/// `err` toward (x1, y1), where dx = |x1 - x0|, ady = |y1 - y0| and sx, sy
/// are the step directions; `fuel` bounds the number of steps.
pub open spec fn line_walk(
    x: int,
    y: int,
    err: int,
    x1: int,
    y1: int,
    dx: int,
    ady: int,
    sx: int,
    sy: int,
    fuel: nat,
) -> Seq<(int, int)>
    decreases fuel,
{
    if (x == x1 && y == y1) || fuel == 0 {
        seq![(x, y)]
    } else {
        let e2 = 2 * err;
        let nx = if e2 >= -ady { x + sx } else { x };
        let err1 = if e2 >= -ady { err - ady } else { err };
        let ny = if e2 <= dx { y + sy } else { y };
        let err2 = if e2 <= dx { err1 + dx } else { err1 };
        seq![(x, y)] + line_walk(nx, ny, err2, x1, y1, dx, ady, sx, sy, (fuel - 1) as nat)
    }
}

/// The pixels of the Bresenham line from (x0, y0) to (x1, y1), in order.
pub open spec fn line_pixels(x0: int, y0: int, x1: int, y1: int) -> Seq<(int, int)> {
    let dx = if x1 >= x0 { x1 - x0 } else { x0 - x1 };
    let ady = if y1 >= y0 { y1 - y0 } else { y0 - y1 };
    let sx = if x0 < x1 { 1int } else { -1int };
    let sy = if y0 < y1 { 1int } else { -1int };
    line_walk(x0, y0, dx - ady, x1, y1, dx, ady, sx, sy, (dx + ady) as nat)
}

/// `after` is `before` with the on-canvas pixels of `line` set to `color`.
pub open spec fn painted_line(before: PixelBuffer, after: PixelBuffer, line: Seq<(int, int)>, color: [u8; 3]) -> bool {
    forall|px: int, py: int|
        on_canvas(before, px, py) ==> #[trigger] after.at(px, py) == if line.contains((px, py)) {
            color
        } else {
            before.at(px, py)
        }
}

/// Largest coordinate magnitude the line drawer takes.
pub const LINE_REACH: i64 = 0x8000_0000_0000;

/// Draws the segment from pixel (x0, y0) to pixel (x1, y1) with Bresenham's
/// algorithm, painting each stepped pixel that lies on the canvas; others
/// are skipped. Both end pixels are painted when on the canvas.
pub fn draw_line(b: &mut PixelBuffer, x0: i64, y0: i64, x1: i64, y1: i64, color: [u8; 3])
    requires
        old(b).wf(),
        -LINE_REACH <= x0 <= LINE_REACH,
        -LINE_REACH <= y0 <= LINE_REACH,
        -LINE_REACH <= x1 <= LINE_REACH,
        -LINE_REACH <= y1 <= LINE_REACH,
    ensures
        only_paints(*old(b), *final(b), color),
        painted_line(*old(b), *final(b), line_pixels(x0 as int, y0 as int, x1 as int, y1 as int), color),
        on_canvas(*old(b), x0 as int, y0 as int) ==> final(b).at(x0 as int, y0 as int) == color,
        on_canvas(*old(b), x1 as int, y1 as int) ==> final(b).at(x1 as int, y1 as int) == color,
{
    let dx: i64 = if x1 >= x0 { x1 - x0 } else { x0 - x1 };
    let ady: i64 = if y1 >= y0 { y1 - y0 } else { y0 - y1 };
    let dy: i64 = -ady;
    let sx: i64 = if x0 < x1 { 1 } else { -1 };
    let sy: i64 = if y0 < y1 { 1 } else { -1 };
    let mut err: i64 = dx + dy;
    let mut x = x0;
    let mut y = y0;
    let ghost mut i: int = 0;
    let ghost mut j: int = 0;
    let ghost start = *b;
    let ghost line = line_pixels(x0 as int, y0 as int, x1 as int, y1 as int);
    let ghost mut visited: Seq<(int, int)> = Seq::empty();
    let ghost mut fuel: nat = (dx + ady) as nat;
    assert(err == (0 + 1) * dx - (0 + 1) * ady);
    assert(line =~= visited + line_walk(x as int, y as int, err as int, x1 as int, y1 as int, dx as int, ady as int, sx as int, sy as int, fuel));
    loop
        invariant_except_break
            line == visited + line_walk(x as int, y as int, err as int, x1 as int, y1 as int, dx as int, ady as int, sx as int, sy as int, fuel),
        invariant
            start == *old(b),
            b.wf(),
            only_paints(start, *b, color),
            0 <= dx <= 2 * LINE_REACH,
            0 <= ady <= 2 * LINE_REACH,
            dy == -ady,
            sx == 1 || sx == -1,
            sy == 1 || sy == -1,
            sx == 1 ==> x1 == x0 + dx && x == x0 + i,
            sx == -1 ==> x1 == x0 - dx && x == x0 - i,
            sy == 1 ==> y1 == y0 + ady && y == y0 + j,
            sy == -1 ==> y1 == y0 - ady && y == y0 - j,
            0 <= i <= dx,
            0 <= j <= ady,
            err == (j + 1) * dx - (i + 1) * ady,
            -2 * ady - dx <= err <= 2 * dx + ady,
            fuel >= (dx - i) + (ady - j),
            line == line_pixels(x0 as int, y0 as int, x1 as int, y1 as int),
            painted_line(start, *b, visited, color),
            (i > 0 || j > 0) && on_canvas(start, x0 as int, y0 as int) ==> b.at(x0 as int, y0 as int)
                == color,
        ensures
            only_paints(start, *b, color),
            painted_line(start, *b, line, color),
            on_canvas(start, x0 as int, y0 as int) ==> b.at(x0 as int, y0 as int) == color,
            on_canvas(start, x1 as int, y1 as int) ==> b.at(x1 as int, y1 as int) == color,
        decreases (dx - i) + (ady - j),
    {
        let ghost before = *b;
        plot(b, x, y, color);
        proof {
            let here = (x as int, y as int);
            assert forall|px: int, py: int| on_canvas(start, px, py) implies #[trigger] b.at(px, py)
                == if visited.push(here).contains((px, py)) {
                color
            } else {
                start.at(px, py)
            } by {
                if (px, py) == here {
                    assert(visited.push(here)[visited.len() as int] == here);
                } else {
                    lemma_cell_index(px, py, start.spec_width() as int, start.spec_height() as int);
                    if on_canvas(start, x as int, y as int) {
                        lemma_cell_index(x as int, y as int, start.spec_width() as int, start.spec_height() as int);
                        if before.index_of(px, py) == before.index_of(x as int, y as int) {
                            lemma_cell_distinct(px, py, x as int, y as int, start.spec_width() as int);
                        }
                    }
                    assert(b.at(px, py) == before.at(px, py));
                    if visited.push(here).contains((px, py)) {
                        let q = choose|q: int| 0 <= q < visited.push(here).len() && visited.push(here)[q] == (px, py);
                        assert(visited[q] == (px, py));
                    }
                    if visited.contains((px, py)) {
                        let q = choose|q: int| 0 <= q < visited.len() && visited[q] == (px, py);
                        assert(visited.push(here)[q] == (px, py));
                    }
                }
            }
            assert(line =~= visited.push(here) + line_walk(x as int, y as int, err as int, x1 as int, y1 as int, dx as int, ady as int, sx as int, sy as int, fuel).drop_first()) by {
                assert(line_walk(x as int, y as int, err as int, x1 as int, y1 as int, dx as int, ady as int, sx as int, sy as int, fuel)[0] == here);
            }
            visited = visited.push(here);
        }
        proof {
            if on_canvas(start, x0 as int, y0 as int) && (i > 0 || j > 0) {
                crate::buffer::lemma_cell_index(
                    x0 as int,
                    y0 as int,
                    start.spec_width() as int,
                    start.spec_height() as int,
                );
                assert(before.cells()[before.index_of(x0 as int, y0 as int)] == color);
            }
        }
        if x == x1 && y == y1 {
            proof {
                assert(line =~= visited);
            }
            break;
        }
        proof {
            assert(i < dx || j < ady) by {
                if i == dx && j == ady {
                    assert(x == x1 && y == y1);
                }
            }
        }
        let e2 = 2 * err;
        let step_x = e2 >= dy;
        let step_y = e2 <= dx;
        proof {
            assert(step_x || step_y);
            if step_x && i == dx {
                assert(false) by (nonlinear_arith)
                    requires
                        2 * ((j + 1) * dx - (i + 1) * ady) >= -ady,
                        i == dx,
                        0 <= j < ady,
                        dx >= 0,
                ;
            }
            if step_y && j == ady {
                assert(false) by (nonlinear_arith)
                    requires
                        2 * ((j + 1) * dx - (i + 1) * ady) <= dx,
                        j == ady,
                        0 <= i < dx,
                        ady >= 0,
                ;
            }
        }
        proof {
            assert(fuel > 0);
            let rest = line_walk(x as int, y as int, err as int, x1 as int, y1 as int, dx as int, ady as int, sx as int, sy as int, fuel);
            let next = line_walk(
                (if step_x { x + sx } else { x as int }),
                (if step_y { y + sy } else { y as int }),
                err + (if step_x { dy as int } else { 0int }) + (if step_y { dx as int } else { 0int }),
                x1 as int, y1 as int, dx as int, ady as int, sx as int, sy as int, (fuel - 1) as nat);
            assert(rest == seq![(x as int, y as int)] + next);
            assert(rest.drop_first() =~= next);
            fuel = (fuel - 1) as nat;
        }
        let ghost i0 = i;
        let ghost j0 = j;
        let ghost err0 = err;
        if step_x {
            err = err + dy;
            x = x + sx;
            proof {
                i = i + 1;
            }
        }
        if step_y {
            err = err + dx;
            y = y + sy;
            proof {
                j = j + 1;
            }
        }
        proof {
            assert(err == (j + 1) * dx - (i + 1) * ady) by (nonlinear_arith)
                requires
                    err0 == (j0 + 1) * dx - (i0 + 1) * ady,
                    i == i0 + (if step_x { 1int } else { 0int }),
                    j == j0 + (if step_y { 1int } else { 0int }),
                    err == err0 + (if step_x { -ady } else { 0int }) + (if step_y { dx as int } else { 0int }),
            ;
        }
    }
}

} // verus!
