//! Points, closed rings and polygons on the pixel-corner grid.
//!
//! Coordinates are pixel corners: the origin is the top-left corner of the
//! image, `x` grows to the right and `y` grows downward. A ring is stored
//! closed, its last point repeating its first.
use crate::error::Error;
use vstd::prelude::*;

verus! {

/// A pixel corner.
#[derive(Clone, Copy, Debug, PartialEq, Eq, Structural)]
pub struct Point {
    pub x: u32,
    pub y: u32,
}

/// The cross product of the position vectors of `a` and `b`: twice the
/// signed area of the triangle from the origin to `a` to `b`.
pub open spec fn cross(a: Point, b: Point) -> int {
    a.x * b.y - b.x * a.y
}

/// The shoelace sum over the first `n` edges of a point sequence.
pub open spec fn shoelace(s: Seq<Point>, n: nat) -> int
    decreases n,
{
    if n == 0 {
        0
    } else {
        shoelace(s, (n - 1) as nat) + cross(s[n - 1], s[n as int])
    }
}

/// Twice the signed area that a closed point sequence encloses. It is
/// positive for a ring that runs right, then down, then left, then up.
pub open spec fn twice_area(s: Seq<Point>) -> int {
    if s.len() == 0 {
        0
    } else {
        shoelace(s, (s.len() - 1) as nat)
    }
}

/// Whether the horizontal ray from `p` to the right crosses the edge from
/// `a` to `b`: the edge straddles the ray's height and meets it strictly to
/// the right of `p`.
pub open spec fn ray_crosses(p: Point, a: Point, b: Point) -> bool {
    &&& (a.y > p.y) != (b.y > p.y)
    &&& if b.y > a.y {
        (p.x - a.x) * (b.y - a.y) < (b.x - a.x) * (p.y - a.y)
    } else {
        (p.x - a.x) * (b.y - a.y) > (b.x - a.x) * (p.y - a.y)
    }
}

/// How many of the first `n` edges of `s` the ray from `p` crosses.
pub open spec fn crossings(s: Seq<Point>, p: Point, n: nat) -> nat
    decreases n,
{
    if n == 0 {
        0
    } else {
        crossings(s, p, (n - 1) as nat) + if ray_crosses(p, s[n as int], s[n - 1]) {
            1nat
        } else {
            0nat
        }
    }
}

/// The even-odd test: `p` is inside the closed sequence `s` iff the ray
/// from `p` crosses its edges an odd number of times.
pub open spec fn encloses(s: Seq<Point>, p: Point) -> bool {
    s.len() > 0 && crossings(s, p, (s.len() - 1) as nat) % 2 == 1
}

/// Whether the bounding box of the points of `s` is at least `dim` pixels
/// wide and `dim` pixels high: two of the points lie `dim` or more apart
/// along each axis.
pub open spec fn spans(s: Seq<Point>, dim: int) -> bool {
    &&& exists|i: int, j: int|
        0 <= i < s.len() && 0 <= j < s.len() && (#[trigger] s[j]).x - (#[trigger] s[i]).x >= dim
    &&& exists|i: int, j: int|
        0 <= i < s.len() && 0 <= j < s.len() && (#[trigger] s[j]).y - (#[trigger] s[i]).y >= dim
}

/// Whether the points of `s` cover at least `dim` grid lines along each
/// axis, the two outermost counted: the measure of an interior ring. A hole
/// of two by two pixels covers three grid lines each way.
pub open spec fn covers(s: Seq<Point>, dim: int) -> bool {
    spans(s, dim - 1)
}

/// Whether two points lie on one grid line.
pub open spec fn on_one_line(a: Point, b: Point) -> bool {
    a.x == b.x || a.y == b.y
}

/// Whether every side of a point sequence runs along a grid line, so that
/// each of its points is a corner at which it may turn a quarter.
pub open spec fn rectilinear(s: Seq<Point>) -> bool {
    forall|i: int| 0 <= i < s.len() - 1 ==> on_one_line(#[trigger] s[i], s[i + 1])
}

/// What makes a point sequence a ring: at least four points, the last one
/// repeating the first.
pub open spec fn is_ring(s: Seq<Point>) -> bool {
    s.len() >= 4 && s.last() == s[0]
}

/// A point sequence with its first point repeated at the end, unless it
/// ends there already.
pub open spec fn closed(s: Seq<Point>) -> Seq<Point> {
    if s.len() > 0 && s.last() != s[0] {
        s.push(s[0])
    } else {
        s
    }
}

/// The mathematical content of a polygon.
pub struct PolygonView {
    pub exterior: Seq<Point>,
    pub interiors: Seq<Seq<Point>>,
}

/// A closed ring of pixel corners, together with its doubled signed area.
#[derive(Debug)]
pub struct Ring {
    points: Vec<Point>,
    /// The sum of the positive shoelace terms.
    gain: u128,
    /// The sum of the negated negative shoelace terms.
    loss: u128,
}

impl View for Ring {
    type V = Seq<Point>;

    /// The points of the ring, the closing point included.
    closed spec fn view(&self) -> Seq<Point> {
        self.points@
    }
}

/// Run the other way round, a point sequence encloses the opposite area.
pub proof fn lemma_reverse_area(s: Seq<Point>)
    ensures
        twice_area(s.reverse()) == -twice_area(s),
{
    if s.len() > 0 {
        lemma_reverse_shoelace(s, (s.len() - 1) as nat);
    }
}

/// The first `k` edges of the reversed sequence are the last `k` edges of
/// the sequence, each run the other way.
proof fn lemma_reverse_shoelace(s: Seq<Point>, k: nat)
    requires
        k < s.len(),
    ensures
        shoelace(s.reverse(), k) == shoelace(s, (s.len() - 1 - k) as nat) - shoelace(
            s,
            (s.len() - 1) as nat,
        ),
    decreases k,
{
    if k > 0 {
        lemma_reverse_shoelace(s, (k - 1) as nat);
        let n = s.len() - 1;
        let r = s.reverse();
        assert(r[k - 1] == s[n - k + 1]);
        assert(r[k as int] == s[n - k]);
        assert(cross(s[n - k + 1], s[n - k]) == -cross(s[n - k], s[n - k + 1]));
        assert(shoelace(s, (n - k + 1) as nat) == shoelace(s, (n - k) as nat) + cross(
            s[n - k],
            s[n - k + 1],
        ));
    }
}

/// The doubled area of `points` as a pair `(gain, loss)` with
/// `gain - loss == twice_area(points)`.
fn measure(points: &Vec<Point>) -> (sums: (u128, u128))
    ensures
        sums.0 - sums.1 == twice_area(points@),
{
    let n = points.len();
    if n == 0 {
        return (0, 0);
    }
    let mut gain: u128 = 0;
    let mut loss: u128 = 0;
    let mut i: usize = 0;
    while i + 1 < n
        invariant
            n == points@.len(),
            i < n,
            gain - loss == shoelace(points@, i as nat),
            gain <= i * 0x1_0000_0000_0000_0000,
            loss <= i * 0x1_0000_0000_0000_0000,
        decreases n - i,
    {
        let a = points[i];
        let b = points[i + 1];
        assert(a.x * b.y <= 0xffff_ffff * 0xffff_ffff && b.x * a.y <= 0xffff_ffff * 0xffff_ffff)
            by (nonlinear_arith)
            requires
                0 <= a.x <= 0xffff_ffff,
                0 <= a.y <= 0xffff_ffff,
                0 <= b.x <= 0xffff_ffff,
                0 <= b.y <= 0xffff_ffff,
        ;
        assert((i + 1) * 0x1_0000_0000_0000_0000 <= 0xffff_ffff_ffff_ffff * 0x1_0000_0000_0000_0000)
            by (nonlinear_arith)
            requires
                i + 1 <= 0xffff_ffff_ffff_ffff,
        ;
        assert((i + 1) * 0x1_0000_0000_0000_0000 == i * 0x1_0000_0000_0000_0000
            + 0x1_0000_0000_0000_0000) by (nonlinear_arith);
        let forward: u128 = a.x as u128 * b.y as u128;
        let backward: u128 = b.x as u128 * a.y as u128;
        if forward >= backward {
            gain = gain + (forward - backward);
        } else {
            loss = loss + (backward - forward);
        }
        i += 1;
    }
    (gain, loss)
}

impl Ring {
    #[verifier::type_invariant]
    spec fn well_formed(self) -> bool {
        &&& is_ring(self.points@)
        &&& self.gain - self.loss == twice_area(self.points@)
    }

    /// Makes a ring out of a point list, closing it if its last point is not
    /// its first. A list that, once closed, has fewer than four points is no
    /// ring.
    pub fn new(points: Vec<Point>) -> (res: Result<Ring, Error>)
        ensures
            res is Ok <==> closed(points@).len() >= 4,
            res matches Ok(ring) ==> ring@ == closed(points@) && is_ring(ring@),
            res matches Err(e) ==> e is NotEnoughPoints,
    {
        let mut points = points;
        let n = points.len();
        if n == 0 {
            return Err(Error::NotEnoughPoints);
        }
        let first = points[0];
        let last = points[n - 1];
        if first.x != last.x || first.y != last.y {
            points.push(first);
        }
        if points.len() < 4 {
            return Err(Error::NotEnoughPoints);
        }
        let (gain, loss) = measure(&points);
        Ok(Ring { points, gain, loss })
    }

    /// The points of the ring; the last one repeats the first.
    pub fn points(&self) -> (points: &Vec<Point>)
        ensures
            points@ == self@,
            is_ring(self@),
    {
        proof {
            use_type_invariant(self);
        }
        &self.points
    }

    /// The number of points, the closing point included.
    pub fn len(&self) -> (n: usize)
        ensures
            n == self@.len(),
            n >= 4,
    {
        proof {
            use_type_invariant(self);
        }
        self.points.len()
    }

    /// Whether the ring encloses a positive area, as exterior rings do.
    pub fn is_positive(&self) -> (yes: bool)
        ensures
            yes == (twice_area(self@) > 0),
    {
        proof {
            use_type_invariant(self);
        }
        self.gain > self.loss
    }

    /// Whether the ring encloses a negative area, as interior rings do.
    pub fn is_negative(&self) -> (yes: bool)
        ensures
            yes == (twice_area(self@) < 0),
    {
        proof {
            use_type_invariant(self);
        }
        self.gain < self.loss
    }

    /// Twice the area that the ring encloses, without its sign.
    pub fn doubled_area(&self) -> (area: u128)
        ensures
            area == vstd::math::abs(twice_area(self@)),
    {
        proof {
            use_type_invariant(self);
        }
        if self.gain >= self.loss {
            self.gain - self.loss
        } else {
            self.loss - self.gain
        }
    }

    /// The even-odd point-in-polygon test against this ring.
    pub fn contains(&self, p: Point) -> (inside: bool)
        ensures
            inside == encloses(self@, p),
    {
        proof {
            use_type_invariant(self);
        }
        let n = self.points.len();
        let mut inside = false;
        let mut i: usize = 0;
        while i + 1 < n
            invariant
                n == self.points@.len(),
                n >= 4,
                i < n,
                inside == (crossings(self.points@, p, i as nat) % 2 == 1),
            decreases n - i,
        {
            let b = self.points[i];
            let a = self.points[i + 1];
            if edge_crossed(p, a, b) {
                inside = !inside;
            }
            i += 1;
        }
        inside
    }

    /// Whether the bounding box of the ring is at least `dim` pixels wide
    /// and `dim` pixels high. This is the measure of an exterior ring; an
    /// interior ring is measured by [`Ring::covers`], in the grid lines it
    /// covers, which is one more than its pixels.
    pub fn reaches(&self, dim: usize) -> (yes: bool)
        ensures
            yes == spans(self@, dim as int),
    {
        proof {
            use_type_invariant(self);
        }
        let n = self.points.len();
        let first = self.points[0];
        let mut min_x = first.x;
        let mut max_x = first.x;
        let mut min_y = first.y;
        let mut max_y = first.y;
        let ghost mut at_min_x = 0int;
        let ghost mut at_max_x = 0int;
        let ghost mut at_min_y = 0int;
        let ghost mut at_max_y = 0int;
        let mut i: usize = 1;
        while i < n
            invariant
                n == self.points@.len(),
                1 <= i <= n,
                0 <= at_min_x < i && self.points@[at_min_x].x == min_x,
                0 <= at_max_x < i && self.points@[at_max_x].x == max_x,
                0 <= at_min_y < i && self.points@[at_min_y].y == min_y,
                0 <= at_max_y < i && self.points@[at_max_y].y == max_y,
                forall|k: int|
                    0 <= k < i ==> min_x <= (#[trigger] self.points@[k]).x <= max_x && min_y
                        <= self.points@[k].y <= max_y,
            decreases n - i,
        {
            let p = self.points[i];
            if p.x < min_x {
                min_x = p.x;
                proof {
                    at_min_x = i as int;
                }
            }
            if p.x > max_x {
                max_x = p.x;
                proof {
                    at_max_x = i as int;
                }
            }
            if p.y < min_y {
                min_y = p.y;
                proof {
                    at_min_y = i as int;
                }
            }
            if p.y > max_y {
                max_y = p.y;
                proof {
                    at_max_y = i as int;
                }
            }
            i += 1;
        }
        let width: u64 = (max_x - min_x) as u64;
        let height: u64 = (max_y - min_y) as u64;
        let yes = width >= dim as u64 && height >= dim as u64;
        proof {
            let s = self.points@;
            if width >= dim {
                assert(s[at_max_x].x - s[at_min_x].x >= dim);
            }
            if height >= dim {
                assert(s[at_max_y].y - s[at_min_y].y >= dim);
            }
        }
        yes
    }

    /// Whether the ring covers at least `dim` grid lines along each axis,
    /// the two outermost counted: the measure by which an interior ring is
    /// kept. An interior ring round a hole of two by two pixels covers three
    /// grid lines each way, so it is kept up to a least dimension of three.
    pub fn covers(&self, dim: usize) -> (yes: bool)
        ensures
            yes == covers(self@, dim as int),
    {
        if dim == 0 {
            let points = self.points();
            assert(points@[0].x - points@[0].x >= -1 && points@[0].y - points@[0].y >= -1);
            true
        } else {
            self.reaches(dim - 1)
        }
    }

    /// The same ring run the other way round, from the same first point. It
    /// encloses the opposite area.
    pub fn reversed(&self) -> (ring: Ring)
        ensures
            ring@ == self@.reverse(),
            is_ring(ring@),
            twice_area(ring@) == -twice_area(self@),
    {
        proof {
            use_type_invariant(self);
        }
        let n = self.points.len();
        let mut points: Vec<Point> = Vec::new();
        let mut i: usize = n;
        while i > 0
            invariant
                n == self.points@.len(),
                i <= n,
                points@.len() == n - i,
                forall|k: int| 0 <= k < n - i ==> points@[k] == self.points@[n - 1 - k],
            decreases i,
        {
            i -= 1;
            points.push(self.points[i]);
        }
        proof {
            assert(points@ =~= self.points@.reverse());
            lemma_reverse_area(self.points@);
        }
        Ring { points, gain: self.loss, loss: self.gain }
    }
}

/// Decides [`ray_crosses`] in machine arithmetic.
fn edge_crossed(p: Point, a: Point, b: Point) -> (yes: bool)
    ensures
        yes == ray_crosses(p, a, b),
{
    if (a.y > p.y) == (b.y > p.y) {
        return false;
    }
    let px = p.x as i128;
    let py = p.y as i128;
    let ax = a.x as i128;
    let ay = a.y as i128;
    let bx = b.x as i128;
    let by = b.y as i128;
    assert(-0x1_0000_0000_0000_0000 <= (px - ax) * (by - ay) <= 0x1_0000_0000_0000_0000
        && -0x1_0000_0000_0000_0000 <= (bx - ax) * (py - ay) <= 0x1_0000_0000_0000_0000)
        by (nonlinear_arith)
        requires
            -0x1_0000_0000 <= px - ax <= 0x1_0000_0000,
            -0x1_0000_0000 <= by - ay <= 0x1_0000_0000,
            -0x1_0000_0000 <= bx - ax <= 0x1_0000_0000,
            -0x1_0000_0000 <= py - ay <= 0x1_0000_0000,
    ;
    let left: i128 = (px - ax) * (by - ay);
    let right: i128 = (bx - ax) * (py - ay);
    if by > ay {
        left < right
    } else {
        left > right
    }
}

/// A region of the image: an exterior ring and the holes cut out of it.
#[derive(Debug)]
pub struct Polygon {
    exterior: Ring,
    interiors: Vec<Ring>,
}

/// The point sequences of a list of rings.
pub open spec fn ring_views(rings: Seq<Ring>) -> Seq<Seq<Point>> {
    Seq::new(rings.len(), |i: int| rings[i]@)
}

impl View for Polygon {
    type V = PolygonView;

    closed spec fn view(&self) -> PolygonView {
        PolygonView { exterior: self.exterior@, interiors: ring_views(self.interiors@) }
    }
}

/// The mathematical contents of a list of polygons.
pub open spec fn polygon_views(polygons: Seq<Polygon>) -> Seq<PolygonView> {
    Seq::new(polygons.len(), |i: int| polygons[i]@)
}

impl Polygon {
    /// A polygon with the given exterior and holes.
    pub fn new(exterior: Ring, interiors: Vec<Ring>) -> (polygon: Polygon)
        ensures
            polygon@.exterior == exterior@,
            polygon@.interiors == ring_views(interiors@),
    {
        Polygon { exterior, interiors }
    }

    /// The outer ring.
    pub fn exterior(&self) -> (ring: &Ring)
        ensures
            ring@ == self@.exterior,
            is_ring(ring@),
    {
        let ring = &self.exterior;
        let _ = ring.points();
        ring
    }

    /// Cuts one more hole out of the polygon.
    pub fn push_interior(&mut self, ring: Ring)
        ensures
            final(self)@.exterior == old(self)@.exterior,
            final(self)@.interiors == old(self)@.interiors.push(ring@),
    {
        self.interiors.push(ring);
        assert(ring_views(self.interiors@) =~= ring_views(old(self).interiors@).push(ring@));
    }

    /// The rings of the holes.
    pub fn interiors(&self) -> (rings: &Vec<Ring>)
        ensures
            ring_views(rings@) == self@.interiors,
    {
        &self.interiors
    }
}

} // verus!
