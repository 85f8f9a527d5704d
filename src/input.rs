use vstd::prelude::*;
use vstd::arithmetic::div_mod::{lemma_fundamental_div_mod, lemma_fundamental_div_mod_converse};
use crate::sand::{brush_ok, cell_brushed, cell_kept, BrushKind, Game, ParticleSystem};
use crate::util::{Coord, MAX_COORD, SUBCELLS};

verus! {

/// Pointer state between input events.
#[derive(Clone, Copy, Debug, PartialEq, Eq, Structural)]
pub enum MouseState {
    Up,
    Down(Coord),
}

/// A paint operation: what to do to each covered cell, and how far from the
/// stroke it reaches, in sub-cell units.
#[derive(Clone, Copy, Debug, PartialEq, Eq, Structural)]
pub struct Brush {
    pub kind: BrushKind,
    pub radius: u32,
}

impl Brush {
    pub open spec fn wf(&self) -> bool {
        self.radius <= MAX_COORD
    }
}

/// `floor(a / SUBCELLS)`: the cell whose span holds sub-cell position `a`.
pub open spec fn floor_cells(a: int) -> int {
    a / (SUBCELLS as int)
}

/// `ceil(a / SUBCELLS)`.
pub open spec fn ceil_cells(a: int) -> int {
    -((-a) / (SUBCELLS as int))
}

/// The sample point of cell `(x, y)` lies within distance `r` of `c`.
pub open spec fn in_disk(c: Coord, r: int, x: int, y: int) -> bool {
    let dx = x * SUBCELLS - c.x;
    let dy = y * SUBCELLS - c.y;
    dx * dx + dy * dy <= r * r
}

/// Cell `(x, y)` is a candidate of the circle fill around `c`: the box
/// `[floor(cx - r), ceil(cx + r)] x [floor(cy - r), ceil(cy + r)]`, clamped
/// to non-negative cells. It holds every cell of the disk, those on its rim
/// included.
pub open spec fn in_circle_box(c: Coord, r: int, x: int, y: int) -> bool {
    &&& 0 <= x && floor_cells(c.x - r) <= x <= ceil_cells(c.x + r)
    &&& 0 <= y && floor_cells(c.y - r) <= y <= ceil_cells(c.y + r)
}

/// Cell `(x, y)` is filled by a circle of radius `r` around `c`: every
/// cell of the disk, rim included.
pub open spec fn circle_covers(c: Coord, r: int, x: int, y: int) -> bool {
    0 <= x && 0 <= y && in_disk(c, r, x, y)
}

/// Every cell of the disk lies in the candidate box that the circle fill
/// scans.
pub proof fn lemma_disk_in_circle_box(c: Coord, r: int, x: int, y: int)
    requires
        r >= 0,
        circle_covers(c, r, x, y),
    ensures
        in_circle_box(c, r, x, y),
{
    let dx = x * SUBCELLS - c.x;
    let dy = y * SUBCELLS - c.y;
    assert(-r <= dx <= r && -r <= dy <= r) by (nonlinear_arith)
        requires
            dx * dx + dy * dy <= r * r,
            r >= 0,
    ;
}

pub open spec fn min_int(a: int, b: int) -> int {
    if a <= b {
        a
    } else {
        b
    }
}

pub open spec fn max_int(a: int, b: int) -> int {
    if a <= b {
        b
    } else {
        a
    }
}

/// Cell `(x, y)` lies in the bounding box of the segment `s -> e` widened
/// by `r`, clamped to non-negative cells.
pub open spec fn in_line_box(s: Coord, e: Coord, r: int, x: int, y: int) -> bool {
    &&& 0 <= x && floor_cells(min_int(s.x as int, e.x as int) - r) <= x <= floor_cells(
        max_int(s.x as int, e.x as int) + r,
    )
    &&& 0 <= y && floor_cells(min_int(s.y as int, e.y as int) - r) <= y <= floor_cells(
        max_int(s.y as int, e.y as int) + r,
    )
}

/// Cell `(x, y)` lies in the body of the capsule around `s -> e`: in the
/// segment's own frame its tangential coordinate is in `[0, 1]` and its
/// perpendicular one in `[-1, 1]` (scaled by `r`). Both tests are written
/// without division: `0 <= dot <= |l|^2` and `cross^2 <= |l|^2 r^2`. A
/// degenerate segment has no body.
pub open spec fn in_capsule_body(s: Coord, e: Coord, r: int, x: int, y: int) -> bool {
    let lx = e.x - s.x;
    let ly = e.y - s.y;
    let n2 = lx * lx + ly * ly;
    let vx = x * SUBCELLS - s.x;
    let vy = y * SUBCELLS - s.y;
    let dot = lx * vx + ly * vy;
    let cross = lx * vy - ly * vx;
    n2 > 0 && 0 <= dot <= n2 && cross * cross <= n2 * (r * r)
}

/// Cell `(x, y)` is filled by a drag stroke from `s` to `e` with radius `r`:
/// one of the two end disks, or the capsule body.
pub open spec fn line_covers(s: Coord, e: Coord, r: int, x: int, y: int) -> bool {
    ||| circle_covers(s, r, x, y)
    ||| circle_covers(e, r, x, y)
    ||| in_line_box(s, e, r, x, y) && in_capsule_body(s, e, r, x, y)
}

/// Brushing a cell, then keeping or brushing it again, amounts to one brush
/// application; keeping it first changes nothing.
proof fn lemma_compose(
    a: ParticleSystem,
    b: ParticleSystem,
    c: ParticleSystem,
    x: int,
    y: int,
    mode: BrushKind,
)
    ensures
        cell_kept(a, b, x, y) && cell_kept(b, c, x, y) ==> cell_kept(a, c, x, y),
        cell_brushed(a, b, x, y, mode) && cell_kept(b, c, x, y) ==> cell_brushed(a, c, x, y, mode),
        cell_kept(a, b, x, y) && cell_brushed(b, c, x, y, mode) ==> cell_brushed(a, c, x, y, mode),
        cell_brushed(a, b, x, y, mode) && cell_brushed(b, c, x, y, mode) ==> cell_brushed(
            a,
            c,
            x,
            y,
            mode,
        ),
{
}

const OFFSET_CELLS: i64 = 0x1_0000_0000;

const OFFSET_SUBCELLS: i64 = 0x100_0000_0000;

/// `floor(a / SUBCELLS)`, computed on a non-negative shift of `a`.
fn floor_div_cells(a: i64) -> (r: i64)
    requires
        -0x10_0000_0000 <= a <= 0x10_0000_0000,
    ensures
        r == floor_cells(a as int),
{
    let shifted: u64 = (a + OFFSET_SUBCELLS) as u64;
    let q: u64 = shifted / (SUBCELLS as u64);
    proof {
        let d = SUBCELLS as int;
        lemma_fundamental_div_mod(a as int, d);
        let q0 = (a as int) / d;
        let r0 = (a as int) % d;
        assert(shifted as int == (q0 + OFFSET_CELLS) * d + r0) by (nonlinear_arith)
            requires
                a as int == d * q0 + r0,
                shifted as int == a + OFFSET_SUBCELLS,
                d == 256,
                OFFSET_SUBCELLS == 256 * OFFSET_CELLS,
        ;
        lemma_fundamental_div_mod_converse(shifted as int, d, q0 + OFFSET_CELLS, r0);
    }
    q as i64 - OFFSET_CELLS
}

/// `ceil(a / SUBCELLS)`.
fn ceil_div_cells(a: i64) -> (r: i64)
    requires
        -0x10_0000_0000 <= a <= 0x10_0000_0000,
    ensures
        r == ceil_cells(a as int),
{
    -floor_div_cells(-a)
}

/// `v` clamped into `0..=cap`.
pub open spec fn clamp_int(v: int, cap: int) -> int {
    if v < 0 {
        0
    } else if v > cap {
        cap
    } else {
        v
    }
}

/// Clamps the cell bound `v` into `0..=cap`.
fn clamp_cells(v: i64, cap: usize) -> (r: usize)
    ensures
        r as int == clamp_int(v as int, cap as int),
{
    if v < 0 {
        0
    } else if v as u64 > cap as u64 {
        cap
    } else {
        v as usize
    }
}

fn disk_test(c: Coord, r: u32, x: usize, y: usize) -> (b: bool)
    requires
        c.wf(),
        r <= MAX_COORD,
        x * SUBCELLS <= 0x400_0000,
        y * SUBCELLS <= 0x400_0000,
    ensures
        b == in_disk(c, r as int, x as int, y as int),
{
    let dx: i64 = x as i64 * (SUBCELLS as i64) - c.x as i64;
    let dy: i64 = y as i64 * (SUBCELLS as i64) - c.y as i64;
    let rr: i64 = r as i64;
    proof {
        assert(dx * dx <= 0x40_0000_0000_0000) by (nonlinear_arith)
            requires
                -0x800_0000 <= dx <= 0x800_0000,
        ;
        assert(dy * dy <= 0x40_0000_0000_0000) by (nonlinear_arith)
            requires
                -0x800_0000 <= dy <= 0x800_0000,
        ;
        assert(rr * rr <= 0x1_0000_0000_0000) by (nonlinear_arith)
            requires
                0 <= rr <= 0x100_0000,
        ;
        assert(dx * dx >= 0) by (nonlinear_arith);
        assert(dy * dy >= 0) by (nonlinear_arith);
    }
    dx * dx + dy * dy <= rr * rr
}

fn body_test(s: Coord, e: Coord, r: u32, x: usize, y: usize) -> (b: bool)
    requires
        s.wf(),
        e.wf(),
        r <= MAX_COORD,
        x * SUBCELLS <= 0x400_0000,
        y * SUBCELLS <= 0x400_0000,
    ensures
        b == in_capsule_body(s, e, r as int, x as int, y as int),
{
    let lx: i128 = e.x as i128 - s.x as i128;
    let ly: i128 = e.y as i128 - s.y as i128;
    let vx: i128 = x as i128 * (SUBCELLS as i128) - s.x as i128;
    let vy: i128 = y as i128 * (SUBCELLS as i128) - s.y as i128;
    let rr: i128 = r as i128;
    proof {
        assert(-0x40_0000_0000_0000 <= lx * vx <= 0x40_0000_0000_0000) by (nonlinear_arith)
            requires
                -0x200_0000 <= lx <= 0x200_0000,
                -0x800_0000 <= vx <= 0x800_0000,
        ;
        assert(-0x40_0000_0000_0000 <= ly * vy <= 0x40_0000_0000_0000) by (nonlinear_arith)
            requires
                -0x200_0000 <= ly <= 0x200_0000,
                -0x800_0000 <= vy <= 0x800_0000,
        ;
        assert(-0x40_0000_0000_0000 <= lx * vy <= 0x40_0000_0000_0000) by (nonlinear_arith)
            requires
                -0x200_0000 <= lx <= 0x200_0000,
                -0x800_0000 <= vy <= 0x800_0000,
        ;
        assert(-0x40_0000_0000_0000 <= ly * vx <= 0x40_0000_0000_0000) by (nonlinear_arith)
            requires
                -0x200_0000 <= ly <= 0x200_0000,
                -0x800_0000 <= vx <= 0x800_0000,
        ;
        assert(0 <= lx * lx <= 0x4_0000_0000_0000) by (nonlinear_arith)
            requires
                -0x200_0000 <= lx <= 0x200_0000,
        ;
        assert(0 <= ly * ly <= 0x4_0000_0000_0000) by (nonlinear_arith)
            requires
                -0x200_0000 <= ly <= 0x200_0000,
        ;
        assert(0 <= rr * rr <= 0x1_0000_0000_0000) by (nonlinear_arith)
            requires
                0 <= rr <= 0x100_0000,
        ;
    }
    let n2: i128 = lx * lx + ly * ly;
    let dot: i128 = lx * vx + ly * vy;
    let cross: i128 = lx * vy - ly * vx;
    let r2: i128 = rr * rr;
    proof {
        assert(0 <= cross * cross <= 0x1_0000_0000_0000_0000_0000_0000_0000) by (nonlinear_arith)
            requires
                -0x80_0000_0000_0000 <= cross <= 0x80_0000_0000_0000,
        ;
        assert(0 <= n2 * r2 <= 0x8_0000_0000_0000_0000_0000_0000_0000) by (nonlinear_arith)
            requires
                0 <= n2 <= 0x8_0000_0000_0000,
                0 <= r2 <= 0x1_0000_0000_0000,
        ;
    }
    n2 > 0 && 0 <= dot && dot <= n2 && cross * cross <= n2 * r2
}

impl ParticleSystem {
    /// Applies the brush to every grid cell whose sample point lies within
    /// the brush radius of `coord`, scanning only the circle's bounding box;
    /// cells off the grid are skipped.
    pub fn fill_circle(&mut self, coord: Coord, brush: &Brush)
        requires
            old(self).wf(),
            coord.wf(),
            brush.wf(),
            brush_ok(old(self).elements, brush.kind),
        ensures
            final(self).wf(),
            final(self).grid.width == old(self).grid.width,
            final(self).grid.height == old(self).grid.height,
            final(self).elements == old(self).elements,
            forall|x: int, y: int|
                old(self).in_bounds(x, y) && circle_covers(coord, brush.radius as int, x, y)
                    ==> #[trigger] cell_brushed(*old(self), *final(self), x, y, brush.kind),
            forall|x: int, y: int|
                old(self).in_bounds(x, y) && !circle_covers(coord, brush.radius as int, x, y)
                    ==> #[trigger] cell_kept(*old(self), *final(self), x, y),
    {
        let ghost start = *self;
        let r: i64 = brush.radius as i64;
        let x0: usize = clamp_cells(floor_div_cells(coord.x as i64 - r), self.grid.width);
        let y0: usize = clamp_cells(floor_div_cells(coord.y as i64 - r), self.grid.height);
        let x1: usize = clamp_cells(ceil_div_cells(coord.x as i64 + r) + 1, self.grid.width);
        let y1: usize = clamp_cells(ceil_div_cells(coord.y as i64 + r) + 1, self.grid.height);
        assert forall|x2: int, y2: int| #[trigger]
            circle_covers(coord, brush.radius as int, x2, y2) implies in_circle_box(
            coord,
            brush.radius as int,
            x2,
            y2,
        ) by {
            lemma_disk_in_circle_box(coord, brush.radius as int, x2, y2);
        }
        let mut x: usize = x0;
        while x < x1
            invariant
                forall|x2: int, y2: int| #[trigger]
                    circle_covers(coord, brush.radius as int, x2, y2) ==> in_circle_box(
                        coord,
                        brush.radius as int,
                        x2,
                        y2,
                    ),
                self.wf(),
                self.grid.width == start.grid.width,
                self.grid.height == start.grid.height,
                self.elements == start.elements,
                brush_ok(start.elements, brush.kind),
                coord.wf(),
                brush.wf(),
                x0 <= x <= x1,
                y0 <= y1,
                x0 as int == clamp_int(floor_cells(coord.x - brush.radius), start.grid.width as int),
                y0 as int == clamp_int(floor_cells(coord.y - brush.radius), start.grid.height as int),
                x1 as int == clamp_int(ceil_cells(coord.x + brush.radius) + 1, start.grid.width as int),
                y1 as int == clamp_int(ceil_cells(coord.y + brush.radius) + 1, start.grid.height as int),
                forall|x2: int, y2: int|
                    start.in_bounds(x2, y2) && x2 < x && circle_covers(
                        coord,
                        brush.radius as int,
                        x2,
                        y2,
                    ) ==> #[trigger] cell_brushed(start, *self, x2, y2, brush.kind),
                forall|x2: int, y2: int|
                    start.in_bounds(x2, y2) && !(x2 < x && circle_covers(
                        coord,
                        brush.radius as int,
                        x2,
                        y2,
                    )) ==> #[trigger] cell_kept(start, *self, x2, y2),
            decreases x1 - x,
        {
            let mut y: usize = y0;
            while y < y1
                invariant
                    forall|x2: int, y2: int| #[trigger]
                        circle_covers(coord, brush.radius as int, x2, y2) ==> in_circle_box(
                            coord,
                            brush.radius as int,
                            x2,
                            y2,
                        ),
                    self.wf(),
                    self.grid.width == start.grid.width,
                    self.grid.height == start.grid.height,
                    self.elements == start.elements,
                    brush_ok(start.elements, brush.kind),
                    coord.wf(),
                    brush.wf(),
                    x0 <= x < x1,
                    y0 <= y <= y1,
                    x0 as int == clamp_int(floor_cells(coord.x - brush.radius), start.grid.width as int),
                    y0 as int == clamp_int(floor_cells(coord.y - brush.radius), start.grid.height as int),
                    x1 as int == clamp_int(ceil_cells(coord.x + brush.radius) + 1, start.grid.width as int),
                    y1 as int == clamp_int(ceil_cells(coord.y + brush.radius) + 1, start.grid.height as int),
                    forall|x2: int, y2: int|
                        start.in_bounds(x2, y2) && (x2 < x || (x2 == x && y2 < y)) && circle_covers(
                            coord,
                            brush.radius as int,
                            x2,
                            y2,
                        ) ==> #[trigger] cell_brushed(start, *self, x2, y2, brush.kind),
                    forall|x2: int, y2: int|
                        start.in_bounds(x2, y2) && !((x2 < x || (x2 == x && y2 < y)) && circle_covers(
                            coord,
                            brush.radius as int,
                            x2,
                            y2,
                        )) ==> #[trigger] cell_kept(start, *self, x2, y2),
                decreases y1 - y,
            {
                let ghost before = *self;
                if disk_test(coord, brush.radius, x, y) {
                    self.draw_point(x, y, &brush.kind);
                }
                proof {
                    assert forall|x2: int, y2: int|
                        start.in_bounds(x2, y2) && (x2 < x || (x2 == x && y2 < y + 1)) && circle_covers(
                            coord,
                            brush.radius as int,
                            x2,
                            y2,
                        ) implies #[trigger] cell_brushed(start, *self, x2, y2, brush.kind) by {
                        lemma_compose(start, before, *self, x2, y2, brush.kind);
                    }
                    assert forall|x2: int, y2: int|
                        start.in_bounds(x2, y2) && !((x2 < x || (x2 == x && y2 < y + 1)) && circle_covers(
                            coord,
                            brush.radius as int,
                            x2,
                            y2,
                        )) implies #[trigger] cell_kept(start, *self, x2, y2) by {
                        lemma_compose(start, before, *self, x2, y2, brush.kind);
                    }
                }
                y = y + 1;
            }
            x = x + 1;
        }
    }

    /// Applies the brush along a drag stroke from `start` to `end`: both end
    /// disks, then every cell of the capsule body found in the stroke's
    /// bounding box widened by the radius (clamped to the grid). A stroke
    /// whose ends coincide is a single circle fill.
    pub fn fill_line(&mut self, start: Coord, end: Coord, brush: &Brush)
        requires
            old(self).wf(),
            start.wf(),
            end.wf(),
            brush.wf(),
            brush_ok(old(self).elements, brush.kind),
        ensures
            final(self).wf(),
            final(self).grid.width == old(self).grid.width,
            final(self).grid.height == old(self).grid.height,
            final(self).elements == old(self).elements,
            forall|x: int, y: int|
                old(self).in_bounds(x, y) && line_covers(start, end, brush.radius as int, x, y)
                    ==> #[trigger] cell_brushed(*old(self), *final(self), x, y, brush.kind),
            forall|x: int, y: int|
                old(self).in_bounds(x, y) && !line_covers(start, end, brush.radius as int, x, y)
                    ==> #[trigger] cell_kept(*old(self), *final(self), x, y),
    {
        let ghost s0 = *self;
        let ghost rad = brush.radius as int;
        self.fill_circle(start, brush);
        let ghost s1 = *self;
        self.fill_circle(end, brush);
        proof {
            assert forall|x2: int, y2: int|
                s0.in_bounds(x2, y2) && (circle_covers(start, rad, x2, y2) || circle_covers(
                    end,
                    rad,
                    x2,
                    y2,
                )) implies #[trigger] cell_brushed(s0, *self, x2, y2, brush.kind) by {
                lemma_compose(s0, s1, *self, x2, y2, brush.kind);
            }
            assert forall|x2: int, y2: int|
                s0.in_bounds(x2, y2) && !(circle_covers(start, rad, x2, y2) || circle_covers(
                    end,
                    rad,
                    x2,
                    y2,
                )) implies #[trigger] cell_kept(s0, *self, x2, y2) by {
                lemma_compose(s0, s1, *self, x2, y2, brush.kind);
            }
        }
        let r: i64 = brush.radius as i64;
        let lo_x: i64 = if start.x <= end.x { start.x as i64 } else { end.x as i64 };
        let hi_x: i64 = if start.x <= end.x { end.x as i64 } else { start.x as i64 };
        let lo_y: i64 = if start.y <= end.y { start.y as i64 } else { end.y as i64 };
        let hi_y: i64 = if start.y <= end.y { end.y as i64 } else { start.y as i64 };
        let left_cell: i64 = floor_div_cells(lo_x - r);
        let right_cell: i64 = floor_div_cells(hi_x + r);
        let bottom_cell: i64 = floor_div_cells(lo_y - r);
        let top_cell: i64 = floor_div_cells(hi_y + r);
        if (start.x == end.x && start.y == end.y) || right_cell < 0 || top_cell < 0
            || self.grid.width == 0 || self.grid.height == 0 {
            return;
        }
        let left: usize = clamp_cells(left_cell, self.grid.width);
        let right: usize = clamp_cells(right_cell, self.grid.width - 1);
        let bottom: usize = clamp_cells(bottom_cell, self.grid.height);
        let top: usize = clamp_cells(top_cell, self.grid.height - 1);
        if left > right || bottom > top {
            return;
        }
        let mut y: usize = bottom;
        while y <= top
            invariant
                self.wf(),
                self.grid.width == s0.grid.width,
                self.grid.height == s0.grid.height,
                self.elements == s0.elements,
                brush_ok(s0.elements, brush.kind),
                start.wf(),
                end.wf(),
                brush.wf(),
                rad == brush.radius,
                bottom <= y <= top + 1,
                left <= right,
                right < s0.grid.width,
                top < s0.grid.height,
                forall|x2: int, y2: int|
                    s0.in_bounds(x2, y2) ==> (in_line_box(start, end, rad, x2, y2) <==> (left <= x2
                        <= right && bottom <= y2 <= top)),
                forall|x2: int|
                    0 <= x2 <= right ==> #[trigger] (x2 * SUBCELLS) <= 0x400_0000,
                forall|y2: int|
                    0 <= y2 <= top ==> #[trigger] (y2 * SUBCELLS) <= 0x400_0000,
                forall|x2: int, y2: int|
                    s0.in_bounds(x2, y2) && (circle_covers(start, rad, x2, y2) || circle_covers(
                        end,
                        rad,
                        x2,
                        y2,
                    ) || (y2 < y && in_line_box(start, end, rad, x2, y2) && in_capsule_body(
                        start,
                        end,
                        rad,
                        x2,
                        y2,
                    ))) ==> #[trigger] cell_brushed(s0, *self, x2, y2, brush.kind),
                forall|x2: int, y2: int|
                    s0.in_bounds(x2, y2) && !(circle_covers(start, rad, x2, y2) || circle_covers(
                        end,
                        rad,
                        x2,
                        y2,
                    ) || (y2 < y && in_line_box(start, end, rad, x2, y2) && in_capsule_body(
                        start,
                        end,
                        rad,
                        x2,
                        y2,
                    ))) ==> #[trigger] cell_kept(s0, *self, x2, y2),
            decreases top + 1 - y,
        {
            let mut x: usize = left;
            while x <= right
                invariant
                    self.wf(),
                    self.grid.width == s0.grid.width,
                    self.grid.height == s0.grid.height,
                    self.elements == s0.elements,
                    brush_ok(s0.elements, brush.kind),
                    start.wf(),
                    end.wf(),
                    brush.wf(),
                    rad == brush.radius,
                    bottom <= y <= top,
                    left <= x <= right + 1,
                    right < s0.grid.width,
                    top < s0.grid.height,
                    forall|x2: int, y2: int|
                        s0.in_bounds(x2, y2) ==> (in_line_box(start, end, rad, x2, y2) <==> (left
                            <= x2 <= right && bottom <= y2 <= top)),
                    forall|x2: int|
                        0 <= x2 <= right ==> #[trigger] (x2 * SUBCELLS) <= 0x400_0000,
                    forall|y2: int|
                        0 <= y2 <= top ==> #[trigger] (y2 * SUBCELLS) <= 0x400_0000,
                    forall|x2: int, y2: int|
                        s0.in_bounds(x2, y2) && (circle_covers(start, rad, x2, y2) || circle_covers(
                            end,
                            rad,
                            x2,
                            y2,
                        ) || ((y2 < y || (y2 == y && x2 < x)) && in_line_box(
                            start,
                            end,
                            rad,
                            x2,
                            y2,
                        ) && in_capsule_body(start, end, rad, x2, y2)))
                            ==> #[trigger] cell_brushed(s0, *self, x2, y2, brush.kind),
                    forall|x2: int, y2: int|
                        s0.in_bounds(x2, y2) && !(circle_covers(start, rad, x2, y2)
                            || circle_covers(end, rad, x2, y2) || ((y2 < y || (y2 == y && x2 < x))
                            && in_line_box(start, end, rad, x2, y2) && in_capsule_body(
                            start,
                            end,
                            rad,
                            x2,
                            y2,
                        ))) ==> #[trigger] cell_kept(s0, *self, x2, y2),
                decreases right + 1 - x,
            {
                let ghost before = *self;
                assert((x as int) * SUBCELLS <= 0x400_0000);
                assert((y as int) * SUBCELLS <= 0x400_0000);
                if body_test(start, end, brush.radius, x, y) {
                    self.draw_point(x, y, &brush.kind);
                }
                proof {
                    assert forall|x2: int, y2: int|
                        s0.in_bounds(x2, y2) && (circle_covers(start, rad, x2, y2) || circle_covers(
                            end,
                            rad,
                            x2,
                            y2,
                        ) || ((y2 < y || (y2 == y && x2 < x + 1)) && in_line_box(
                            start,
                            end,
                            rad,
                            x2,
                            y2,
                        ) && in_capsule_body(start, end, rad, x2, y2))) implies #[trigger] cell_brushed(
                        s0,
                        *self,
                        x2,
                        y2,
                        brush.kind,
                    ) by {
                        lemma_compose(s0, before, *self, x2, y2, brush.kind);
                    }
                    assert forall|x2: int, y2: int|
                        s0.in_bounds(x2, y2) && !(circle_covers(start, rad, x2, y2)
                            || circle_covers(end, rad, x2, y2) || ((y2 < y || (y2 == y && x2 < x
                            + 1)) && in_line_box(start, end, rad, x2, y2) && in_capsule_body(
                            start,
                            end,
                            rad,
                            x2,
                            y2,
                        ))) implies #[trigger] cell_kept(s0, *self, x2, y2) by {
                        lemma_compose(s0, before, *self, x2, y2, brush.kind);
                    }
                }
                x = x + 1;
            }
            y = y + 1;
        }
    }
}

/// A drag whose two ends coincide fills exactly the circle around that
/// point: the capsule body is empty and no division by the segment's length
/// occurs.
pub proof fn lemma_degenerate_stroke_is_circle(c: Coord, r: int, x: int, y: int)
    ensures
        line_covers(c, c, r, x, y) == circle_covers(c, r, x, y),
{
}

/// The game's state after a brush operation: every field but the world is
/// kept, and each in-grid cell is brushed where `covers` holds and kept
/// elsewhere.
pub open spec fn brushed_game(
    before: Game,
    after: Game,
    covers: spec_fn(int, int) -> bool,
) -> bool {
    &&& after.wf()
    &&& after.running == before.running
    &&& after.last_tick == before.last_tick
    &&& after.brush == before.brush
    &&& after.particle_system.grid.width == before.particle_system.grid.width
    &&& after.particle_system.grid.height == before.particle_system.grid.height
    &&& after.particle_system.elements == before.particle_system.elements
    &&& forall|x: int, y: int|
        before.particle_system.in_bounds(x, y) && covers(x, y) ==> #[trigger] cell_brushed(
            before.particle_system,
            after.particle_system,
            x,
            y,
            before.brush.kind,
        )
    &&& forall|x: int, y: int|
        before.particle_system.in_bounds(x, y) && !covers(x, y) ==> #[trigger] cell_kept(
            before.particle_system,
            after.particle_system,
            x,
            y,
        )
}

/// A click: one circle fill with the game's brush around `coord`.
pub fn handle_mouse_click(coord: Coord, game: &mut Game)
    requires
        old(game).wf(),
        coord.wf(),
    ensures
        brushed_game(
            *old(game),
            *final(game),
            |x: int, y: int| circle_covers(coord, old(game).brush.radius as int, x, y),
        ),
        final(game).mouse_state == old(game).mouse_state,
{
    game.particle_system.fill_circle(coord, &game.brush);
}

/// A drag from `start` to `end`: one capsule fill with the game's brush.
pub fn handle_mouse_drag(start: Coord, end: Coord, game: &mut Game)
    requires
        old(game).wf(),
        start.wf(),
        end.wf(),
    ensures
        brushed_game(
            *old(game),
            *final(game),
            |x: int, y: int| line_covers(start, end, old(game).brush.radius as int, x, y),
        ),
        final(game).mouse_state == old(game).mouse_state,
{
    game.particle_system.fill_line(start, end, &game.brush)
}

impl Game {
    /// Pointer pressed at `coord`: paints a circle there and remembers the
    /// point as the start of a drag.
    pub fn mouse_down(&mut self, coord: Coord)
        requires
            old(self).wf(),
            coord.wf(),
        ensures
            brushed_game(
                *old(self),
                *final(self),
                |x: int, y: int| circle_covers(coord, old(self).brush.radius as int, x, y),
            ),
            final(self).mouse_state == MouseState::Down(coord),
    {
        handle_mouse_click(coord, self);
        self.mouse_state = MouseState::Down(coord);
    }

    /// Pointer moved to `coord`: while pressed, paints the stroke from the
    /// last point and moves the drag start; otherwise nothing happens.
    pub fn mouse_move(&mut self, coord: Coord)
        requires
            old(self).wf(),
            coord.wf(),
        ensures
            old(self).mouse_state == MouseState::Up ==> *final(self) == *old(self),
            old(self).mouse_state matches MouseState::Down(prev) ==> brushed_game(
                *old(self),
                *final(self),
                |x: int, y: int| line_covers(prev, coord, old(self).brush.radius as int, x, y),
            ) && final(self).mouse_state == MouseState::Down(coord),
    {
        match self.mouse_state {
            MouseState::Up => {},
            MouseState::Down(prev) => {
                handle_mouse_drag(prev, coord, self);
                self.mouse_state = MouseState::Down(coord);
            },
        }
    }

    /// Pointer released: no drag is in progress any more.
    pub fn mouse_up(&mut self)
        ensures
            *final(self) == (Game { mouse_state: MouseState::Up, ..*old(self) }),
    {
        self.mouse_state = MouseState::Up;
    }
}

} // verus!
