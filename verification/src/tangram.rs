//! Polygon filling and the fifteen pieces of the "OS" tangram picture.
use vstd::prelude::*;

use crate::color::Color;
use crate::raster::{Region, paint, point, union, screen_fits, put_pixel, lemma_paint_union,
    lemma_paint_ext, lemma_paint_nothing};

verus! {

/// Number of pieces in the tangram picture.
pub const PIECE_COUNT: usize = 15;

/// Minimal drawing target abstraction: a BGRA framebuffer of a given size.
pub trait Canvas {
    /// The bytes of the drawing target.
    spec fn canvas_bytes(&self) -> Seq<u8>;

    /// Width of the drawing target in pixels.
    spec fn canvas_width(&self) -> int;

    /// Height of the drawing target in pixels.
    spec fn canvas_height(&self) -> int;

    /// The pixel writes made on the drawing target so far, in order: column,
    /// row and color of each.
    spec fn writes(&self) -> Seq<(int, int, Color)>;

    /// Paint one pixel.
    fn put_pixel(&mut self, x: usize, y: usize, color: Color)
        requires
            screen_fits(old(self).canvas_width(), old(self).canvas_height()),
        ensures
            final(self).writes() == old(self).writes().push((x as int, y as int, color)),
            final(self).canvas_width() == old(self).canvas_width(),
            final(self).canvas_height() == old(self).canvas_height(),
            final(self).canvas_bytes() == paint(old(self).canvas_bytes(), old(self).canvas_width(),
                old(self).canvas_height(), point(x as int, y as int), color),
    ;
}

/// A canvas that owns the bytes of a framebuffer.
pub struct FramebufferCanvas {
    /// The BGRA bytes, row by row.
    pub framebuffer: Vec<u8>,
    /// Width in pixels.
    pub width: usize,
    /// Height in pixels.
    pub height: usize,
    /// The pixel writes made so far.
    pub log: Ghost<Seq<(int, int, Color)>>,
}

impl FramebufferCanvas {
    /// Wraps `framebuffer` as a canvas of `width` by `height` pixels, with
    /// no pixel written yet.
    pub fn new(framebuffer: Vec<u8>, width: usize, height: usize) -> (canvas: Self)
        ensures
            canvas.framebuffer@ == framebuffer@,
            canvas.width == width,
            canvas.height == height,
            canvas.writes() == Seq::<(int, int, Color)>::empty(),
    {
        FramebufferCanvas { framebuffer, width, height, log: Ghost(Seq::empty()) }
    }
}

impl Canvas for FramebufferCanvas {
    open spec fn canvas_bytes(&self) -> Seq<u8> {
        self.framebuffer@
    }

    open spec fn canvas_width(&self) -> int {
        self.width as int
    }

    open spec fn canvas_height(&self) -> int {
        self.height as int
    }

    open spec fn writes(&self) -> Seq<(int, int, Color)> {
        self.log@
    }

    fn put_pixel(&mut self, x: usize, y: usize, color: Color) {
        put_pixel(&mut self.framebuffer, self.width, self.height, x, y, color);
        self.log = Ghost(self.log@.push((x as int, y as int, color)));
    }
}

/// A vertex of a polygon.
#[derive(Clone, Copy, Debug, PartialEq, Eq, Structural)]
pub struct PolyPoint {
    /// Column.
    pub x: isize,
    /// Row.
    pub y: isize,
}

/// A filled polygon of up to four vertices.
#[derive(Clone, Copy)]
pub struct Polygon {
    /// The vertices; only the first `len` count.
    pub points: [PolyPoint; 4],
    /// Number of vertices in use.
    pub len: usize,
    /// Fill color.
    pub color: Color,
}

impl Polygon {
    /// The vertex count fits the vertex table.
    pub open spec fn wf(&self) -> bool {
        self.len <= 4
    }

    /// Number of vertices that span the polygon's bounding box: its
    /// vertices, or the first slot for a polygon without vertices.
    pub open spec fn box_len(&self) -> int {
        if self.len == 0 { 1 } else { self.len as int }
    }

    /// Vertex `i`.
    pub open spec fn vertex(&self, i: int) -> PolyPoint {
        self.points@[i]
    }

    /// The vertex after vertex `i`, wrapping around.
    pub open spec fn next_vertex(&self, i: int) -> PolyPoint {
        self.points@[(i + 1) % (self.len as int)]
    }
}

/// The cross product that tells on which side of edge `a -> b` point `p` lies.
pub open spec fn edge_value(a: PolyPoint, b: PolyPoint, p: PolyPoint) -> int {
    (p.x - a.x) * (b.y - a.y) - (p.y - a.y) * (b.x - a.x)
}

/// Every intermediate value of the cross product fits an `isize`.
pub open spec fn edge_fits(a: PolyPoint, b: PolyPoint, p: PolyPoint) -> bool {
    let d1 = p.x - a.x;
    let d2 = b.y - a.y;
    let d3 = p.y - a.y;
    let d4 = b.x - a.x;
    &&& isize::MIN <= d1 <= isize::MAX
    &&& isize::MIN <= d2 <= isize::MAX
    &&& isize::MIN <= d3 <= isize::MAX
    &&& isize::MIN <= d4 <= isize::MAX
    &&& isize::MIN <= d1 * d2 <= isize::MAX
    &&& isize::MIN <= d3 * d4 <= isize::MAX
    &&& isize::MIN <= d1 * d2 - d3 * d4 <= isize::MAX
}

/// Which side of edge `a -> b` point `p` lies on: positive on one side,
/// negative on the other, zero on the line.
pub fn edge(a: PolyPoint, b: PolyPoint, p: PolyPoint) -> (v: isize)
    requires
        edge_fits(a, b, p),
    ensures
        v == edge_value(a, b, p),
{
    (p.x - a.x) * (b.y - a.y) - (p.y - a.y) * (b.x - a.x)
}

/// The cross products of every edge of `poly` with `p` fit an `isize`.
pub open spec fn edges_fit(poly: Polygon, p: PolyPoint) -> bool {
    forall|i: int| 0 <= i < poly.len ==> #[trigger] edge_fits(poly.vertex(i), poly.next_vertex(i), p)
}

/// `p` lies inside `poly` or on its boundary: no two edges see it on
/// opposite sides.
pub open spec fn poly_contains(poly: Polygon, p: PolyPoint) -> bool {
    !((exists|i: int| 0 <= i < poly.len && #[trigger] edge_value(poly.vertex(i), poly.next_vertex(i), p) > 0)
        && (exists|j: int| 0 <= j < poly.len && #[trigger] edge_value(poly.vertex(j), poly.next_vertex(j), p) < 0))
}

/// Whether `p` lies inside `poly` or on its boundary.
pub fn contains(poly: &Polygon, p: PolyPoint) -> (inside: bool)
    requires
        poly.wf(),
        edges_fit(*poly, p),
    ensures
        inside == poly_contains(*poly, p),
{
    let mut has_pos = false;
    let mut has_neg = false;
    let mut i: usize = 0;
    while i < poly.len
        invariant
            poly.wf(),
            edges_fit(*poly, p),
            i <= poly.len,
            has_pos == (exists|j: int| 0 <= j < i && #[trigger] edge_value(poly.vertex(j), poly.next_vertex(j), p) > 0),
            has_neg == (exists|j: int| 0 <= j < i && #[trigger] edge_value(poly.vertex(j), poly.next_vertex(j), p) < 0),
        decreases poly.len - i,
    {
        let a = poly.points[i];
        let b = poly.points[(i + 1) % poly.len];
        proof {
            assert(edge_fits(poly.vertex(i as int), poly.next_vertex(i as int), p));
        }
        let value = edge(a, b, p);
        if value > 0 {
            has_pos = true;
        }
        if value < 0 {
            has_neg = true;
        }
        i += 1;
    }
    !(has_pos && has_neg)
}

/// Walking an edge the other way flips the sign of the cross product.
proof fn lemma_edge_swap(a: PolyPoint, b: PolyPoint, p: PolyPoint)
    ensures
        edge_value(b, a, p) == -edge_value(a, b, p),
{
    let (ax, ay, bx, by, px, py) = (a.x as int, a.y as int, b.x as int, b.y as int, p.x as int, p.y as int);
    assert((px - bx) * (ay - by) - (py - by) * (ax - bx) == -((px - ax) * (by - ay) - (py - ay) * (bx - ax)))
        by (nonlinear_arith);
}

/// Whether a polygon contains a point does not depend on the direction in
/// which its vertices are listed: `r` lists the vertices of `poly`
/// backwards.
pub proof fn lemma_contains_reversed(poly: Polygon, r: Polygon, p: PolyPoint)
    requires
        poly.wf(),
        r.len == poly.len,
        forall|i: int| 0 <= i < poly.len ==> #[trigger] r.vertex(i) == poly.vertex(poly.len - 1 - i),
    ensures
        poly_contains(r, p) == poly_contains(poly, p),
{
    let n = poly.len as int;
    assert forall|i: int| 0 <= i < n implies
        #[trigger] r.vertex(i) == poly.next_vertex(if i < n - 1 { n - 2 - i } else { n - 1 })
        && r.next_vertex(i) == poly.vertex(if i < n - 1 { n - 2 - i } else { n - 1 }) by {
        let jj = if i < n - 1 { n - 2 - i } else { n - 1 };
        let i1 = (i + 1) % n;
        if n == 1 {
            assert((jj + 1) % n == n - 1 - i && i1 == 0);
        } else if n == 2 {
            assert((jj + 1) % n == n - 1 - i && n - 1 - i1 == jj && 0 <= i1 < n);
        } else if n == 3 {
            assert((jj + 1) % n == n - 1 - i && n - 1 - i1 == jj && 0 <= i1 < n);
        } else {
            assert(n == 4);
            assert((jj + 1) % 4 == n - 1 - i && n - 1 - (i + 1) % 4 == jj && 0 <= (i + 1) % 4 < n);
        }
        assert(r.next_vertex(i) == r.vertex(i1));
        assert(r.vertex(i1) == poly.vertex(n - 1 - i1));
        assert(poly.next_vertex(jj) == poly.vertex((jj + 1) % n));
    }
    if exists|i: int| 0 <= i < n && #[trigger] edge_value(r.vertex(i), r.next_vertex(i), p) > 0 {
        let i = choose|i: int| 0 <= i < n && #[trigger] edge_value(r.vertex(i), r.next_vertex(i), p) > 0;
        let j = if i < n - 1 { n - 2 - i } else { n - 1 };
        assert(r.vertex(i) == poly.next_vertex(j));
        lemma_edge_swap(poly.vertex(j), poly.next_vertex(j), p);
        assert(edge_value(poly.vertex(j), poly.next_vertex(j), p) < 0);
    }
    if exists|i: int| 0 <= i < n && #[trigger] edge_value(r.vertex(i), r.next_vertex(i), p) < 0 {
        let i = choose|i: int| 0 <= i < n && #[trigger] edge_value(r.vertex(i), r.next_vertex(i), p) < 0;
        let j = if i < n - 1 { n - 2 - i } else { n - 1 };
        assert(r.vertex(i) == poly.next_vertex(j));
        lemma_edge_swap(poly.vertex(j), poly.next_vertex(j), p);
        assert(edge_value(poly.vertex(j), poly.next_vertex(j), p) > 0);
    }
    if exists|j: int| 0 <= j < n && #[trigger] edge_value(poly.vertex(j), poly.next_vertex(j), p) > 0 {
        let j = choose|j: int| 0 <= j < n && #[trigger] edge_value(poly.vertex(j), poly.next_vertex(j), p) > 0;
        let i = if j < n - 1 { n - 2 - j } else { n - 1 };
        assert(r.vertex(i) == poly.next_vertex(j));
        lemma_edge_swap(poly.vertex(j), poly.next_vertex(j), p);
        assert(edge_value(r.vertex(i), r.next_vertex(i), p) < 0);
    }
    if exists|j: int| 0 <= j < n && #[trigger] edge_value(poly.vertex(j), poly.next_vertex(j), p) < 0 {
        let j = choose|j: int| 0 <= j < n && #[trigger] edge_value(poly.vertex(j), poly.next_vertex(j), p) < 0;
        let i = if j < n - 1 { n - 2 - j } else { n - 1 };
        assert(r.vertex(i) == poly.next_vertex(j));
        lemma_edge_swap(poly.vertex(j), poly.next_vertex(j), p);
        assert(edge_value(r.vertex(i), r.next_vertex(i), p) > 0);
    }
}

/// Index arithmetic of a list of `n` vertices started at vertex `k`.
proof fn lemma_rotation_mod(n: int, i: int, k: int)
    requires
        1 <= n <= 4,
        0 <= i < n,
        0 <= k < n,
    ensures
        0 <= (i + 1) % n < n,
        0 <= (i + k) % n < n,
        ((i + 1) % n + k) % n == ((i + k) % n + 1) % n,
        0 <= (i + n - k) % n < n,
        ((i + n - k) % n + k) % n == i,
{
    if n == 1 {
        assert(i == 0 && k == 0);
    } else if n == 2 {
        assert(0 <= (i + 1) % 2 < 2 && 0 <= (i + k) % 2 < 2 && ((i + 1) % 2 + k) % 2 == ((i + k) % 2 + 1) % 2
            && 0 <= (i + 2 - k) % 2 < 2 && ((i + 2 - k) % 2 + k) % 2 == i);
    } else if n == 3 {
        assert(0 <= (i + 1) % 3 < 3 && 0 <= (i + k) % 3 < 3 && ((i + 1) % 3 + k) % 3 == ((i + k) % 3 + 1) % 3
            && 0 <= (i + 3 - k) % 3 < 3 && ((i + 3 - k) % 3 + k) % 3 == i);
    } else {
        assert(n == 4);
        assert(0 <= (i + 1) % 4 < 4 && 0 <= (i + k) % 4 < 4 && ((i + 1) % 4 + k) % 4 == ((i + k) % 4 + 1) % 4
            && 0 <= (i + 4 - k) % 4 < 4 && ((i + 4 - k) % 4 + k) % 4 == i);
    }
}

/// Whether a polygon contains a point does not depend on the vertex at
/// which its list of vertices starts: `r` lists the vertices of `poly`
/// from vertex `k` on, wrapping around.
pub proof fn lemma_contains_rotated(poly: Polygon, r: Polygon, k: int, p: PolyPoint)
    requires
        poly.wf(),
        0 <= k < poly.len,
        r.len == poly.len,
        forall|i: int| 0 <= i < poly.len ==> #[trigger] r.vertex(i) == poly.vertex((i + k) % (poly.len as int)),
    ensures
        poly_contains(r, p) == poly_contains(poly, p),
{
    let n = poly.len as int;
    assert forall|i: int| 0 <= i < n implies
        #[trigger] r.vertex(i) == poly.vertex((i + k) % n) && r.next_vertex(i) == poly.next_vertex((i + k) % n) by {
        lemma_rotation_mod(n, i, k);
        assert(r.next_vertex(i) == r.vertex((i + 1) % n));
        assert(r.vertex((i + 1) % n) == poly.vertex(((i + 1) % n + k) % n));
    }
    assert forall|j: int| 0 <= j < n implies 0 <= #[trigger] ((j + n - k) % n) < n && ((j + n - k) % n + k) % n == j by {
        lemma_rotation_mod(n, j, k);
    }
    if exists|i: int| 0 <= i < n && #[trigger] edge_value(r.vertex(i), r.next_vertex(i), p) > 0 {
        let i = choose|i: int| 0 <= i < n && #[trigger] edge_value(r.vertex(i), r.next_vertex(i), p) > 0;
        let j = (i + k) % n;
        assert(0 <= j < n) by { vstd::arithmetic::div_mod::lemma_mod_pos_bound(i + k, n); }
        assert(edge_value(poly.vertex(j), poly.next_vertex(j), p) > 0);
    }
    if exists|i: int| 0 <= i < n && #[trigger] edge_value(r.vertex(i), r.next_vertex(i), p) < 0 {
        let i = choose|i: int| 0 <= i < n && #[trigger] edge_value(r.vertex(i), r.next_vertex(i), p) < 0;
        let j = (i + k) % n;
        assert(0 <= j < n) by { vstd::arithmetic::div_mod::lemma_mod_pos_bound(i + k, n); }
        assert(edge_value(poly.vertex(j), poly.next_vertex(j), p) < 0);
    }
    if exists|j: int| 0 <= j < n && #[trigger] edge_value(poly.vertex(j), poly.next_vertex(j), p) > 0 {
        let j = choose|j: int| 0 <= j < n && #[trigger] edge_value(poly.vertex(j), poly.next_vertex(j), p) > 0;
        let i = (j + n - k) % n;
        assert(0 <= i < n && (i + k) % n == j);
        assert(edge_value(r.vertex(i), r.next_vertex(i), p) > 0);
    }
    if exists|j: int| 0 <= j < n && #[trigger] edge_value(poly.vertex(j), poly.next_vertex(j), p) < 0 {
        let j = choose|j: int| 0 <= j < n && #[trigger] edge_value(poly.vertex(j), poly.next_vertex(j), p) < 0;
        let i = (j + n - k) % n;
        assert(0 <= i < n && (i + k) % n == j);
        assert(edge_value(r.vertex(i), r.next_vertex(i), p) < 0);
    }
}

/// The bounding box of the vertices of `poly`; for a polygon without
/// vertices, the point in its first slot.
pub open spec fn in_bounding_box(poly: Polygon, x: int, y: int) -> bool {
    &&& exists|i: int| 0 <= i < poly.box_len() && #[trigger] poly.vertex(i).x <= x
    &&& exists|i: int| 0 <= i < poly.box_len() && #[trigger] poly.vertex(i).x >= x
    &&& exists|i: int| 0 <= i < poly.box_len() && #[trigger] poly.vertex(i).y <= y
    &&& exists|i: int| 0 <= i < poly.box_len() && #[trigger] poly.vertex(i).y >= y
}

/// The pixels that filling `poly` paints: the points with non-negative
/// coordinates inside its bounding box that it contains.
pub open spec fn polygon_region(poly: Polygon) -> Region {
    |px: int, py: int|
        0 <= px && 0 <= py && in_bounding_box(poly, px, py)
            && poly_contains(poly, PolyPoint { x: px as isize, y: py as isize })
}

/// Filling `poly` computes its cross products without overflow: every point
/// of its bounding box with non-negative coordinates fits every edge.
pub open spec fn scan_fits(poly: Polygon) -> bool {
    &&& forall|i: int| 0 <= i < poly.box_len() ==> (#[trigger] poly.vertex(i)).x < isize::MAX && poly.vertex(i).y < isize::MAX
    &&& forall|x: int, y: int| 0 <= x <= isize::MAX && 0 <= y <= isize::MAX && #[trigger] in_bounding_box(poly, x, y)
        ==> edges_fit(poly, PolyPoint { x: x as isize, y: y as isize })
}

/// The least column among the first `n` vertices of `poly` (the first
/// vertex's when `n` is at most 1).
pub open spec fn min_x_upto(poly: Polygon, n: int) -> int
    decreases n,
{
    if n <= 1 { poly.vertex(0).x as int } else {
        let m = min_x_upto(poly, n - 1);
        if (poly.vertex(n - 1).x as int) < m { poly.vertex(n - 1).x as int } else { m }
    }
}

/// The greatest column among the first `n` vertices of `poly`.
pub open spec fn max_x_upto(poly: Polygon, n: int) -> int
    decreases n,
{
    if n <= 1 { poly.vertex(0).x as int } else {
        let m = max_x_upto(poly, n - 1);
        if (poly.vertex(n - 1).x as int) > m { poly.vertex(n - 1).x as int } else { m }
    }
}

/// The least row among the first `n` vertices of `poly`.
pub open spec fn min_y_upto(poly: Polygon, n: int) -> int
    decreases n,
{
    if n <= 1 { poly.vertex(0).y as int } else {
        let m = min_y_upto(poly, n - 1);
        if (poly.vertex(n - 1).y as int) < m { poly.vertex(n - 1).y as int } else { m }
    }
}

/// The greatest row among the first `n` vertices of `poly`.
pub open spec fn max_y_upto(poly: Polygon, n: int) -> int
    decreases n,
{
    if n <= 1 { poly.vertex(0).y as int } else {
        let m = max_y_upto(poly, n - 1);
        if (poly.vertex(n - 1).y as int) > m { poly.vertex(n - 1).y as int } else { m }
    }
}

/// The pixel write that filling `poly` makes at `(x, y)`, if any: one at
/// each point with non-negative coordinates that `poly` contains.
pub open spec fn scan_write(poly: Polygon, x: int, y: int) -> Seq<(int, int, Color)> {
    if x >= 0 && y >= 0 && poly_contains(poly, PolyPoint { x: x as isize, y: y as isize }) {
        seq![(x, y, poly.color)]
    } else {
        Seq::empty()
    }
}

/// The writes of the first `n` columns of row `y`, from column `x0` on.
pub open spec fn row_writes(poly: Polygon, y: int, x0: int, n: int) -> Seq<(int, int, Color)>
    decreases n,
{
    if n <= 0 { Seq::empty() } else { row_writes(poly, y, x0, n - 1) + scan_write(poly, x0 + n - 1, y) }
}

/// The writes of the first `n` rows from row `y0` on, each of `w` columns
/// from column `x0` on.
pub open spec fn rows_writes(poly: Polygon, y0: int, x0: int, w: int, n: int) -> Seq<(int, int, Color)>
    decreases n,
{
    if n <= 0 { Seq::empty() } else { rows_writes(poly, y0, x0, w, n - 1) + row_writes(poly, y0 + n - 1, x0, w) }
}

/// The pixel writes that filling `poly` makes, in order: its bounding box
/// row by row from the top, each row from the left.
pub open spec fn scan_writes(poly: Polygon) -> Seq<(int, int, Color)> {
    let min_x = min_x_upto(poly, poly.box_len());
    let max_x = max_x_upto(poly, poly.box_len());
    let min_y = min_y_upto(poly, poly.box_len());
    let max_y = max_y_upto(poly, poly.box_len());
    rows_writes(poly, min_y, min_x, max_x - min_x + 1, max_y - min_y + 1)
}

/// The part of a polygon fill done after the rows of the box before `yy`,
/// and the columns before `xx` of row `yy`.
spec fn scan_progress(poly: Polygon, min_x: int, max_x: int, min_y: int, yy: int, xx: int) -> Region {
    |px: int, py: int|
        polygon_region(poly)(px, py) && ((min_y <= py < yy && min_x <= px <= max_x) || (py == yy && min_x <= px < xx))
}

/// Fills `poly` on `canvas`, scanning its bounding box.
pub fn draw_polygon<C: Canvas>(canvas: &mut C, poly: Polygon)
    requires
        poly.wf(),
        scan_fits(poly),
        screen_fits(old(canvas).canvas_width(), old(canvas).canvas_height()),
    ensures
        final(canvas).canvas_width() == old(canvas).canvas_width(),
        final(canvas).canvas_height() == old(canvas).canvas_height(),
        final(canvas).canvas_bytes() == paint(old(canvas).canvas_bytes(), old(canvas).canvas_width(),
            old(canvas).canvas_height(), polygon_region(poly), poly.color),
        final(canvas).writes() == old(canvas).writes() + scan_writes(poly),
{
    let ghost old_bytes = canvas.canvas_bytes();
    let ghost w0 = canvas.writes();
    let ghost w = canvas.canvas_width();
    let ghost h = canvas.canvas_height();
    let mut min_x = poly.points[0].x;
    let mut max_x = poly.points[0].x;
    let mut min_y = poly.points[0].y;
    let mut max_y = poly.points[0].y;
    let mut i: usize = 1;
    proof {
        assert(poly.vertex(0) == poly.points[0]);
    }
    while i < poly.len
        invariant
            poly.wf(),
            1 <= i <= poly.box_len(),
            min_x == min_x_upto(poly, i as int),
            max_x == max_x_upto(poly, i as int),
            min_y == min_y_upto(poly, i as int),
            max_y == max_y_upto(poly, i as int),
            exists|j: int| 0 <= j < i && #[trigger] poly.vertex(j).x == min_x,
            exists|j: int| 0 <= j < i && #[trigger] poly.vertex(j).x == max_x,
            exists|j: int| 0 <= j < i && #[trigger] poly.vertex(j).y == min_y,
            exists|j: int| 0 <= j < i && #[trigger] poly.vertex(j).y == max_y,
            forall|j: int| 0 <= j < i ==> min_x <= #[trigger] poly.vertex(j).x <= max_x,
            forall|j: int| 0 <= j < i ==> min_y <= #[trigger] poly.vertex(j).y <= max_y,
            min_x <= max_x,
            min_y <= max_y,
        decreases poly.len - i,
    {
        let p = poly.points[i];
        if p.x < min_x {
            min_x = p.x;
        }
        if p.x > max_x {
            max_x = p.x;
        }
        if p.y < min_y {
            min_y = p.y;
        }
        if p.y > max_y {
            max_y = p.y;
        }
        proof {
            assert(poly.vertex(i as int) == p);
        }
        i += 1;
    }
    proof {
        assert forall|x: int, y: int| #[trigger] in_bounding_box(poly, x, y) <==> (min_x <= x <= max_x && min_y <= y <= max_y) by {
            if min_x <= x <= max_x && min_y <= y <= max_y {
                let a = choose|j: int| 0 <= j < poly.box_len() && #[trigger] poly.vertex(j).x == min_x;
                let b = choose|j: int| 0 <= j < poly.box_len() && #[trigger] poly.vertex(j).x == max_x;
                let c = choose|j: int| 0 <= j < poly.box_len() && #[trigger] poly.vertex(j).y == min_y;
                let d = choose|j: int| 0 <= j < poly.box_len() && #[trigger] poly.vertex(j).y == max_y;
                assert(poly.vertex(a).x <= x);
                assert(poly.vertex(b).x >= x);
                assert(poly.vertex(c).y <= y);
                assert(poly.vertex(d).y >= y);
            }
        }
        let m = choose|j: int| 0 <= j < poly.box_len() && #[trigger] poly.vertex(j).x == max_x;
        let n = choose|j: int| 0 <= j < poly.box_len() && #[trigger] poly.vertex(j).y == max_y;
        assert(poly.vertex(m).x < isize::MAX);
        assert(poly.vertex(n).y < isize::MAX);
        lemma_paint_nothing(old_bytes, w, h,
            scan_progress(poly, min_x as int, max_x as int, min_y as int, min_y as int, min_x as int), poly.color);
    }
    let ghost bw = max_x - min_x + 1;
    proof {
        assert(rows_writes(poly, min_y as int, min_x as int, bw, 0) =~= Seq::<(int, int, Color)>::empty());
        assert(w0 + Seq::<(int, int, Color)>::empty() =~= w0);
    }
    let mut y = min_y;
    while y <= max_y
        invariant
            bw == max_x - min_x + 1,
            min_x == min_x_upto(poly, poly.box_len()),
            max_x == max_x_upto(poly, poly.box_len()),
            min_y == min_y_upto(poly, poly.box_len()),
            max_y == max_y_upto(poly, poly.box_len()),
            canvas.writes() == w0 + rows_writes(poly, min_y as int, min_x as int, bw, y - min_y),
            poly.wf(),
            scan_fits(poly),
            screen_fits(w, h),
            w == canvas.canvas_width(),
            h == canvas.canvas_height(),
            max_x < isize::MAX,
            max_y < isize::MAX,
            min_x <= max_x,
            forall|x: int, y: int| #[trigger] in_bounding_box(poly, x, y) <==> (min_x <= x <= max_x && min_y <= y <= max_y),
            min_y <= y <= max_y + 1,
            canvas.canvas_bytes() == paint(old_bytes, w, h,
                scan_progress(poly, min_x as int, max_x as int, min_y as int, y as int, min_x as int), poly.color),
        decreases max_y + 1 - y,
    {
        let ghost row_start = canvas.writes();
        proof {
            assert(row_writes(poly, y as int, min_x as int, 0) =~= Seq::<(int, int, Color)>::empty());
            assert(row_start + Seq::<(int, int, Color)>::empty() =~= row_start);
        }
        let mut x = min_x;
        while x <= max_x
            invariant
                bw == max_x - min_x + 1,
                row_start == w0 + rows_writes(poly, min_y as int, min_x as int, bw, y - min_y),
                canvas.writes() == row_start + row_writes(poly, y as int, min_x as int, x - min_x),
                poly.wf(),
                scan_fits(poly),
                screen_fits(w, h),
                w == canvas.canvas_width(),
                h == canvas.canvas_height(),
                max_x < isize::MAX,
                max_y < isize::MAX,
                forall|x: int, y: int| #[trigger] in_bounding_box(poly, x, y) <==> (min_x <= x <= max_x && min_y <= y <= max_y),
                min_y <= y <= max_y,
                min_x <= x <= max_x + 1,
                canvas.canvas_bytes() == paint(old_bytes, w, h,
                    scan_progress(poly, min_x as int, max_x as int, min_y as int, y as int, x as int), poly.color),
            decreases max_x + 1 - x,
        {
            let ghost p0 = scan_progress(poly, min_x as int, max_x as int, min_y as int, y as int, x as int);
            let ghost p1 = scan_progress(poly, min_x as int, max_x as int, min_y as int, y as int, x + 1);
            let ghost before = canvas.canvas_bytes();
            let ghost wb = canvas.writes();
            proof {
                assert(row_writes(poly, y as int, min_x as int, x + 1 - min_x)
                    == row_writes(poly, y as int, min_x as int, x - min_x) + scan_write(poly, x as int, y as int));
            }
            let inside = if x >= 0 && y >= 0 {
                proof {
                    assert(in_bounding_box(poly, x as int, y as int));
                }
                contains(&poly, PolyPoint { x, y })
            } else {
                false
            };
            if inside {
                canvas.put_pixel(x as usize, y as usize, poly.color);
                proof {
                    assert(in_bounding_box(poly, x as int, y as int));
                    lemma_paint_union(old_bytes, w, h, p0, point(x as int, y as int), poly.color);
                    lemma_paint_ext(old_bytes, w, h, union(p0, point(x as int, y as int)), p1, poly.color);
                }
            } else {
                proof {
                    assert forall|px: int, py: int| 0 <= px < w && 0 <= py < h implies
                        #[trigger] p0(px, py) == p1(px, py) by {
                        if px == x && py == y {
                            assert(in_bounding_box(poly, x as int, y as int));
                        }
                    }
                    lemma_paint_ext(old_bytes, w, h, p0, p1, poly.color);
                }
            }
            proof {
                if inside {
                    assert(scan_write(poly, x as int, y as int) =~= seq![(x as int, y as int, poly.color)]);
                } else {
                    assert(scan_write(poly, x as int, y as int) =~= Seq::<(int, int, Color)>::empty());
                }
                assert(canvas.writes() =~= row_start + row_writes(poly, y as int, min_x as int, x + 1 - min_x));
            }
            x += 1;
        }
        proof {
            lemma_paint_ext(old_bytes, w, h,
                scan_progress(poly, min_x as int, max_x as int, min_y as int, y as int, x as int),
                scan_progress(poly, min_x as int, max_x as int, min_y as int, y + 1, min_x as int), poly.color);
        }
        proof {
            assert(rows_writes(poly, min_y as int, min_x as int, bw, y + 1 - min_y)
                == rows_writes(poly, min_y as int, min_x as int, bw, y - min_y) + row_writes(poly, y as int, min_x as int, bw));
            assert(canvas.writes() =~= w0 + rows_writes(poly, min_y as int, min_x as int, bw, y + 1 - min_y));
        }
        y += 1;
    }
    proof {
        assert(canvas.writes() =~= w0 + scan_writes(poly));
        lemma_paint_ext(old_bytes, w, h,
            scan_progress(poly, min_x as int, max_x as int, min_y as int, y as int, min_x as int),
            polygon_region(poly), poly.color);
    }
}

/// A polygon with vertices `pts` (at most four) in `color`; unused vertex
/// slots hold the origin.
pub open spec fn outline_polygon(pts: Seq<(int, int)>, color: Color) -> Polygon
    recommends
        pts.len() <= 4,
{
    let v = |k: int| if k < pts.len() { PolyPoint { x: pts[k].0 as isize, y: pts[k].1 as isize } } else { PolyPoint { x: 0, y: 0 } };
    Polygon { points: [v(0), v(1), v(2), v(3)], len: pts.len() as usize, color }
}

/// The triangle `a`, `b`, `c`.
pub fn triangle(a: (isize, isize), b: (isize, isize), c: (isize, isize), color: Color) -> (poly: Polygon)
    ensures
        poly == outline_polygon(seq![(a.0 as int, a.1 as int), (b.0 as int, b.1 as int), (c.0 as int, c.1 as int)], color),
{
    Polygon {
        points: [
            PolyPoint { x: a.0, y: a.1 },
            PolyPoint { x: b.0, y: b.1 },
            PolyPoint { x: c.0, y: c.1 },
            PolyPoint { x: 0, y: 0 },
        ],
        len: 3,
        color,
    }
}

/// The quadrilateral `a`, `b`, `c`, `d`.
pub fn quad(
    a: (isize, isize),
    b: (isize, isize),
    c: (isize, isize),
    d: (isize, isize),
    color: Color,
) -> (poly: Polygon)
    ensures
        poly == outline_polygon(
            seq![(a.0 as int, a.1 as int), (b.0 as int, b.1 as int), (c.0 as int, c.1 as int), (d.0 as int, d.1 as int)],
            color,
        ),
{
    Polygon {
        points: [
            PolyPoint { x: a.0, y: a.1 },
            PolyPoint { x: b.0, y: b.1 },
            PolyPoint { x: c.0, y: c.1 },
            PolyPoint { x: d.0, y: d.1 },
        ],
        len: 4,
        color,
    }
}

/// Red of the first piece.
pub open spec fn red() -> Color { Color { r: 220, g: 15, b: 10 } }
/// Yellow.
pub open spec fn yellow() -> Color { Color { r: 255, g: 210, b: 20 } }
/// Cyan.
pub open spec fn cyan() -> Color { Color { r: 20, g: 190, b: 220 } }
/// Green.
pub open spec fn green() -> Color { Color { r: 80, g: 240, b: 25 } }
/// Blue.
pub open spec fn blue() -> Color { Color { r: 70, g: 35, b: 235 } }
/// Magenta.
pub open spec fn magenta() -> Color { Color { r: 230, g: 70, b: 215 } }
/// Orange.
pub open spec fn orange() -> Color { Color { r: 255, g: 140, b: 0 } }

/// The vertices and color of tangram piece `index`; every index from 14 on
/// names the last piece.
pub open spec fn piece_shape(index: int) -> (Seq<(int, int)>, Color) {
    if index == 0 {
        (seq![(50, 60), (150, 60), (50, 160)], red())
    } else if index == 1 {
        (seq![(50, 160), (150, 60), (150, 250), (50, 330)], yellow())
    } else if index == 2 {
        (seq![(50, 330), (250, 430), (50, 430)], cyan())
    } else if index == 3 {
        (seq![(150, 350), (250, 250), (350, 350), (250, 430)], green())
    } else if index == 4 {
        (seq![(250, 150), (350, 250), (350, 350), (250, 250)], blue())
    } else if index == 5 {
        (seq![(150, 60), (350, 60), (350, 250)], magenta())
    } else if index == 6 {
        (seq![(410, 60), (500, 60), (410, 160)], cyan())
    } else if index == 7 {
        (seq![(410, 160), (500, 60), (500, 260)], cyan())
    } else if index == 8 {
        (seq![(500, 60), (575, 60), (575, 160)], blue())
    } else if index == 9 {
        (seq![(575, 45), (630, 45), (630, 110), (575, 160)], magenta())
    } else if index == 10 {
        (seq![(500, 160), (630, 260), (500, 260)], green())
    } else if index == 11 {
        (seq![(500, 260), (630, 260), (630, 350), (555, 350)], magenta())
    } else if index == 12 {
        (seq![(555, 350), (630, 350), (630, 430)], magenta())
    } else if index == 13 {
        (seq![(410, 350), (545, 350), (600, 430), (455, 430)], orange())
    } else {
        (seq![(545, 350), (630, 350), (630, 430)], blue())
    }
}

/// Tangram piece `index` as a polygon.
pub open spec fn tangram_piece(index: int) -> Polygon {
    outline_polygon(piece_shape(index).0, piece_shape(index).1)
}

/// Tangram piece `index` of the "OS" picture.
pub fn piece(index: usize) -> (poly: Polygon)
    ensures
        poly == tangram_piece(index as int),
{
    let red = Color { r: 220, g: 15, b: 10 };
    let yellow = Color { r: 255, g: 210, b: 20 };
    let cyan = Color { r: 20, g: 190, b: 220 };
    let green = Color { r: 80, g: 240, b: 25 };
    let blue = Color { r: 70, g: 35, b: 235 };
    let magenta = Color { r: 230, g: 70, b: 215 };
    let orange = Color { r: 255, g: 140, b: 0 };
    match index {
        0 => triangle((50, 60), (150, 60), (50, 160), red),
        1 => quad((50, 160), (150, 60), (150, 250), (50, 330), yellow),
        2 => triangle((50, 330), (250, 430), (50, 430), cyan),
        3 => quad((150, 350), (250, 250), (350, 350), (250, 430), green),
        4 => quad((250, 150), (350, 250), (350, 350), (250, 250), blue),
        5 => triangle((150, 60), (350, 60), (350, 250), magenta),
        6 => triangle((410, 60), (500, 60), (410, 160), cyan),
        7 => triangle((410, 160), (500, 60), (500, 260), cyan),
        8 => triangle((500, 60), (575, 60), (575, 160), blue),
        9 => quad((575, 45), (630, 45), (630, 110), (575, 160), magenta),
        10 => triangle((500, 160), (630, 260), (500, 260), green),
        11 => quad((500, 260), (630, 260), (630, 350), (555, 350), magenta),
        12 => triangle((555, 350), (630, 350), (630, 430), magenta),
        13 => quad((410, 350), (545, 350), (600, 430), (455, 430), orange),
        _ => triangle((545, 350), (630, 350), (630, 430), blue),
    }
}

/// A polygon whose vertices lie in `[0, 1000]` on both axes is filled
/// without overflow.
pub proof fn lemma_small_polygon_scan_fits(poly: Polygon)
    requires
        poly.wf(),
        forall|i: int| 0 <= i < poly.box_len() ==> 0 <= (#[trigger] poly.vertex(i)).x <= 1000 && 0 <= poly.vertex(i).y <= 1000,
    ensures
        scan_fits(poly),
{
    assert forall|x: int, y: int| 0 <= x <= isize::MAX && 0 <= y <= isize::MAX && #[trigger] in_bounding_box(poly, x, y)
        implies edges_fit(poly, PolyPoint { x: x as isize, y: y as isize }) by {
        let c = choose|i: int| 0 <= i < poly.box_len() && #[trigger] poly.vertex(i).x >= x;
        let d = choose|i: int| 0 <= i < poly.box_len() && #[trigger] poly.vertex(i).y >= y;
        assert(poly.vertex(c).x >= x);
        assert(poly.vertex(d).y >= y);
        let p = PolyPoint { x: x as isize, y: y as isize };
        assert forall|i: int| 0 <= i < poly.len implies #[trigger] edge_fits(poly.vertex(i), poly.next_vertex(i), p) by {
            let a = poly.vertex(i);
            let j = (i + 1) % (poly.len as int);
            assert(0 <= j < poly.len) by {
                vstd::arithmetic::div_mod::lemma_mod_pos_bound(i + 1, poly.len as int);
            }
            let b = poly.vertex(j);
            assert(poly.vertex(j) == poly.next_vertex(i));
            assert(0 <= a.x <= 1000 && 0 <= a.y <= 1000);
            assert(0 <= b.x <= 1000 && 0 <= b.y <= 1000);
            let d1 = p.x - a.x;
            let d2 = b.y - a.y;
            let d3 = p.y - a.y;
            let d4 = b.x - a.x;
            assert(-1000 * 1000 <= d1 * d2 <= 1000 * 1000) by (nonlinear_arith)
                requires -1000 <= d1 <= 1000, -1000 <= d2 <= 1000;
            assert(-1000 * 1000 <= d3 * d4 <= 1000 * 1000) by (nonlinear_arith)
                requires -1000 <= d3 <= 1000, -1000 <= d4 <= 1000;
        }
    }
}

/// The pieces of the picture lie within `[0, 1000]` on both axes.
pub proof fn lemma_piece_scan_fits(index: int)
    ensures
        tangram_piece(index).wf(),
        scan_fits(tangram_piece(index)),
{
    let poly = tangram_piece(index);
    assert forall|i: int| 0 <= i < poly.box_len() implies 0 <= (#[trigger] poly.vertex(i)).x <= 1000 && 0 <= poly.vertex(i).y <= 1000 by {
        assert(poly.points@ == seq![poly.points[0], poly.points[1], poly.points[2], poly.points[3]]);
    }
    lemma_small_polygon_scan_fits(poly);
}

/// Draws tangram piece `index` on `canvas`.
pub fn draw_piece(canvas: &mut FramebufferCanvas, index: usize)
    requires
        screen_fits(old(canvas).width as int, old(canvas).height as int),
    ensures
        final(canvas).width == old(canvas).width,
        final(canvas).height == old(canvas).height,
        final(canvas).framebuffer@ == paint(old(canvas).framebuffer@, old(canvas).width as int,
            old(canvas).height as int, polygon_region(tangram_piece(index as int)), tangram_piece(index as int).color),
        final(canvas).writes() == old(canvas).writes() + scan_writes(tangram_piece(index as int)),
{
    let poly = piece(index);
    proof {
        lemma_piece_scan_fits(index as int);
    }
    draw_polygon(canvas, poly);
}

} // verus!
