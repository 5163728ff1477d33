//! The walk by eightfold symmetry: each ring is traced one eighth at a
//! time, and every step of that eighth is mirrored into the other seven.

use vstd::prelude::*;
use crate::integer::{lemma_shifted_apart, shifted, Int};
use crate::walk::rings;

verus! {

/// The number of coordinates on a ring: the centre alone, or eight for
/// each of the `ring + 1` steps of an eighth of the ring.
pub open spec fn euclidean_ring_len(ring: nat) -> nat {
    if ring == 0 {
        1
    } else {
        8 * (ring + 1)
    }
}

/// The offset `(x, y)` mirrored into one of the eight octants.
pub open spec fn reflected(x: int, y: int, octant: int) -> (int, int) {
    if octant == 0 {
        (x, y)
    } else if octant == 1 {
        (x, -y)
    } else if octant == 2 {
        (-x, y)
    } else if octant == 3 {
        (-x, -y)
    } else if octant == 4 {
        (y, x)
    } else if octant == 5 {
        (y, -x)
    } else if octant == 6 {
        (-y, x)
    } else {
        (-y, -x)
    }
}

/// The offset from the centre of the coordinate at position `pos` of a ring.
///
/// A ring runs through the offsets `(0, ring)`, `(1, ring)` and so on to
/// `(ring, ring)`, and yields each of them in all eight octants before it
/// goes on to the next.
pub open spec fn euclidean_offset(ring: nat, pos: nat) -> (int, int) {
    reflected(pos as int / 8, ring as int, pos as int % 8)
}

/// The square of the Euclidean distance of the offset `(dx, dy)` from the
/// centre.
pub open spec fn euclidean_distance_squared(dx: int, dy: int) -> int {
    dx * dx + dy * dy
}

/// The ring of the offset `(dx, dy)`: the greater of its two parts, in
/// magnitude.
pub open spec fn euclidean_ring_of(dx: int, dy: int) -> nat {
    let ax = if dx < 0 { -dx } else { dx };
    let ay = if dy < 0 { -dy } else { dy };
    (if ax < ay { ay } else { ax }) as nat
}

/// A position on its ring of the coordinate at the offset `(dx, dy)`: the
/// first one, where the ring yields the coordinate more than once.
pub open spec fn euclidean_pos_of(dx: int, dy: int) -> nat {
    let ax = if dx < 0 { -dx } else { dx };
    let ay = if dy < 0 { -dy } else { dy };
    let left = if dx < 0 { 2int } else { 0int };
    let down = if dy < 0 { 1int } else { 0int };
    (if ax <= ay {
        8 * ax + left + down
    } else {
        8 * ay + 4 + left + down
    }) as nat
}

/// The coordinate at position `pos` of a ring around `center`.
pub open spec fn euclidean_coordinate<I: Int>(center: (I, I), ring: nat, pos: nat) -> (I, I) {
    let d = euclidean_offset(ring, pos);
    (shifted(center.0, d.0), shifted(center.1, d.1))
}

/// The ring and the position that follow a position: the next one on the
/// same ring, or the start of the next ring after the last one.
pub open spec fn euclidean_successor(ring: nat, pos: nat) -> (nat, nat) {
    if pos + 1 < euclidean_ring_len(ring) {
        (ring, pos + 1)
    } else {
        (ring + 1, 0)
    }
}

/// The number of coordinates that a walk yields before the one at
/// position `pos` of a ring.
pub open spec fn euclidean_index(ring: nat, pos: nat) -> nat {
    if ring == 0 {
        0
    } else {
        (1 + 4 * (ring - 1) * (ring + 2) + pos) as nat
    }
}

/// The number of coordinates that a walk bounded by `max_distance` yields
/// in all.
pub open spec fn euclidean_total(max_distance: int) -> nat {
    euclidean_index(rings(max_distance), 0)
}

/// Whether a walk bounded by `max_distance` can stand at position `pos` of
/// a ring: on a ring that it visits, or at the start of the first ring
/// that it does not visit, where it ends.
pub open spec fn euclidean_cursor(max_distance: int, ring: nat, pos: nat) -> bool {
    if ring < rings(max_distance) {
        pos < euclidean_ring_len(ring)
    } else {
        ring == rings(max_distance) && pos == 0
    }
}

/// The ring and the position at which a walk stands after it has yielded
/// `n` coordinates.
pub open spec fn euclidean_cursor_at(n: nat) -> (nat, nat)
    decreases n,
{
    if n == 0 {
        (0, 0)
    } else {
        let before = euclidean_cursor_at((n - 1) as nat);
        euclidean_successor(before.0, before.1)
    }
}

/// All that a walk around `center` bounded by `max_distance` yields, in
/// the order in which it yields it.
pub open spec fn euclidean_walk<I: Int>(center: (I, I), max_distance: int) -> Seq<(I, I)> {
    Seq::new(
        euclidean_total(max_distance),
        |n: int|
            euclidean_coordinate(
                center,
                euclidean_cursor_at(n as nat).0,
                euclidean_cursor_at(n as nat).1,
            ),
    )
}

/// Whether the square root of `squared` is `root` when rounded to the
/// nearest integer.
pub open spec fn rounds_to(squared: int, root: int) -> bool {
    &&& 0 <= root
    &&& squared <= root * root + root
    &&& root == 0 || root * root - root < squared
}

/// Of the two parts of a ring's offset the greater, in magnitude, is the
/// ring, so that the Euclidean distance from the centre lies between the
/// ring and the ring's diagonal.
pub proof fn lemma_euclidean_on_ring(ring: nat, pos: nat)
    requires
        pos < euclidean_ring_len(ring),
    ensures
        euclidean_ring_of(euclidean_offset(ring, pos).0, euclidean_offset(ring, pos).1) == ring,
        ring * ring <= euclidean_distance_squared(
            euclidean_offset(ring, pos).0,
            euclidean_offset(ring, pos).1,
        ) <= 2 * (ring * ring),
{
    let x = pos as int / 8;
    let r = ring as int;
    let (dx, dy) = euclidean_offset(ring, pos);
    assert(0 <= x <= r);
    assert(dx * dx + dy * dy == x * x + r * r) by (nonlinear_arith)
        requires
            (dx == x || dx == -x) && (dy == r || dy == -r) || (dx == r || dx == -r) && (dy == x
                || dy == -x),
    ;
    assert(0 <= x * x <= r * r) by (nonlinear_arith)
        requires
            0 <= x <= r,
    ;
}

/// No part of a coordinate's offset reaches the walk's bound: the rings
/// that a walk visits lie below the number of its rings, which for a bound
/// of one or more is the bound.
pub proof fn lemma_euclidean_within_bound(max_distance: int, ring: nat, pos: nat)
    requires
        ring < rings(max_distance),
        pos < euclidean_ring_len(ring),
    ensures
        euclidean_ring_of(euclidean_offset(ring, pos).0, euclidean_offset(ring, pos).1) < rings(
            max_distance,
        ),
        max_distance >= 1 ==> euclidean_ring_of(
            euclidean_offset(ring, pos).0,
            euclidean_offset(ring, pos).1,
        ) < max_distance,
{
    lemma_euclidean_on_ring(ring, pos);
}

/// Where the step along a ring's eighth is short enough, the Euclidean
/// distance from the centre, rounded to the nearest integer, is within one
/// of the ring.
pub proof fn lemma_euclidean_rounds_near_ring(ring: nat, pos: nat, root: int)
    requires
        pos < euclidean_ring_len(ring),
        (pos / 8) * (pos / 8) <= 3 * ring + 2,
        rounds_to(
            euclidean_distance_squared(
                euclidean_offset(ring, pos).0,
                euclidean_offset(ring, pos).1,
            ),
            root,
        ),
    ensures
        ring - 1 <= root <= ring + 1,
{
    let x = pos as int / 8;
    let r = ring as int;
    let (dx, dy) = euclidean_offset(ring, pos);
    let s = euclidean_distance_squared(dx, dy);
    assert(s == x * x + r * r) by (nonlinear_arith)
        requires
            s == dx * dx + dy * dy,
            (dx == x || dx == -x) && (dy == r || dy == -r) || (dx == r || dx == -r) && (dy == x
                || dy == -x),
    ;
    assert(root <= r + 1) by (nonlinear_arith)
        requires
            0 <= r,
            s <= r * r + 3 * r + 2,
            root == 0 || root * root - root < s,
    ;
    assert(r - 1 <= root) by (nonlinear_arith)
        requires
            0 <= root,
            0 <= r,
            r * r <= s,
            s <= root * root + root,
    ;
}

/// The eight coordinates of a step are the step's offset, `(step, ring)`,
/// mirrored into the eight octants in turn.
pub proof fn lemma_euclidean_octants(ring: nat, step: nat, octant: nat)
    requires
        0 < ring,
        step <= ring,
        octant < 8,
    ensures
        8 * step + octant < euclidean_ring_len(ring),
        euclidean_offset(ring, 8 * step + octant) == reflected(
            step as int,
            ring as int,
            octant as int,
        ),
{
}

/// A ring holds every lattice point of which the greater part, in
/// magnitude, is the ring: the point at `(dx, dy)` stands at
/// `euclidean_pos_of(dx, dy)`.
pub proof fn lemma_euclidean_ring_complete(dx: int, dy: int)
    ensures
        euclidean_pos_of(dx, dy) < euclidean_ring_len(euclidean_ring_of(dx, dy)),
        euclidean_offset(euclidean_ring_of(dx, dy), euclidean_pos_of(dx, dy)) == (dx, dy),
{
}

/// The centre is yielded as it was given, and no other coordinate of a
/// walk is the centre.
pub proof fn lemma_euclidean_center<I: Int>(center: (I, I), ring: nat, pos: nat)
    requires
        ring <= I::highest(),
        pos < euclidean_ring_len(ring),
    ensures
        euclidean_coordinate(center, ring, pos) == center <==> ring == 0,
{
    let d = euclidean_offset(ring, pos);
    lemma_euclidean_on_ring(ring, pos);
    lemma_shifted_apart(center.0, d.0);
    lemma_shifted_apart(center.1, d.1);
}

/// The centre is one coordinate, and a ring further out holds eight
/// coordinates for each step of its eighth.
pub proof fn lemma_euclidean_ring_count(ring: nat)
    ensures
        euclidean_index(ring + 1, 0) - euclidean_index(ring, 0) == euclidean_ring_len(ring),
        euclidean_ring_len(0) == 1,
        ring > 0 ==> euclidean_ring_len(ring) == 8 * (ring + 1),
{
    let a = ring - 1;
    assert(4 * (a + 1) * (a + 4) == 4 * a * (a + 3) + 8 * (a + 2)) by (nonlinear_arith);
    assert(a == -1 ==> 4 * (a + 1) * (a + 4) == 0) by (nonlinear_arith);
}

/// Each step of a walk adds one to the number of coordinates yielded.
pub proof fn lemma_euclidean_index_step(ring: nat, pos: nat)
    requires
        pos < euclidean_ring_len(ring),
    ensures
        euclidean_index(euclidean_successor(ring, pos).0, euclidean_successor(ring, pos).1)
            == euclidean_index(ring, pos) + 1,
{
    lemma_euclidean_ring_count(ring);
}

/// Rings further out start later.
pub proof fn lemma_euclidean_index_grows(inner: nat, outer: nat)
    requires
        inner <= outer,
    ensures
        euclidean_index(inner, 0) <= euclidean_index(outer, 0),
    decreases outer - inner,
{
    if inner < outer {
        lemma_euclidean_ring_count(inner);
        lemma_euclidean_index_grows(inner + 1, outer);
    }
}

/// No two positions have equally many coordinates before them.
pub proof fn lemma_euclidean_index_unique(ring_a: nat, pos_a: nat, ring_b: nat, pos_b: nat)
    requires
        pos_a < euclidean_ring_len(ring_a),
        pos_b < euclidean_ring_len(ring_b),
        euclidean_index(ring_a, pos_a) == euclidean_index(ring_b, pos_b),
    ensures
        ring_a == ring_b,
        pos_a == pos_b,
{
    lemma_euclidean_ring_count(ring_a);
    lemma_euclidean_ring_count(ring_b);
    if ring_a < ring_b {
        lemma_euclidean_index_grows(ring_a + 1, ring_b);
    } else if ring_b < ring_a {
        lemma_euclidean_index_grows(ring_b + 1, ring_a);
    }
}

/// A walk bounded by `max_distance` yields `1 + 4 * (n - 1) * (n + 2)`
/// coordinates in all, `n` being the number of its rings: it has yielded
/// fewer while it stands on one of its rings, and that many when it has
/// visited them all.
pub proof fn lemma_euclidean_total(max_distance: int, ring: nat, pos: nat)
    requires
        euclidean_cursor(max_distance, ring, pos),
    ensures
        euclidean_total(max_distance) == 1 + 4 * (rings(max_distance) - 1) * (rings(max_distance)
            + 2),
        euclidean_index(ring, pos) <= euclidean_total(max_distance),
        ring >= rings(max_distance) <==> euclidean_index(ring, pos) == euclidean_total(
            max_distance,
        ),
{
    let n = rings(max_distance);
    lemma_euclidean_ring_count(ring);
    if ring < n {
        lemma_euclidean_index_grows(ring + 1, n);
    }
}

/// After `n` coordinates a walk stands on a ring, at the one position
/// before which `n` coordinates lie.
pub proof fn lemma_euclidean_cursor_at(n: nat)
    ensures
        euclidean_cursor_at(n).1 < euclidean_ring_len(euclidean_cursor_at(n).0),
        euclidean_index(euclidean_cursor_at(n).0, euclidean_cursor_at(n).1) == n,
    decreases n,
{
    if n > 0 {
        let before = euclidean_cursor_at((n - 1) as nat);
        lemma_euclidean_cursor_at((n - 1) as nat);
        lemma_euclidean_index_step(before.0, before.1);
    }
}

/// A walk that stands at position `pos` of a ring has yielded
/// `euclidean_index(ring, pos)` coordinates to get there.
pub proof fn lemma_euclidean_cursor_at_index(ring: nat, pos: nat)
    requires
        pos < euclidean_ring_len(ring),
    ensures
        euclidean_cursor_at(euclidean_index(ring, pos)) == (ring, pos),
{
    let at = euclidean_cursor_at(euclidean_index(ring, pos));
    lemma_euclidean_cursor_at(euclidean_index(ring, pos));
    lemma_euclidean_index_unique(at.0, at.1, ring, pos);
}

/// A walk yields every lattice point of which no part reaches its bound:
/// after as many coordinates as lie before the point's position on its
/// ring, if not again later on the ring.
pub proof fn lemma_euclidean_visits(max_distance: int, dx: int, dy: int)
    requires
        euclidean_ring_of(dx, dy) < rings(max_distance),
    ensures
        ({
            let n = euclidean_index(euclidean_ring_of(dx, dy), euclidean_pos_of(dx, dy));
            &&& n < euclidean_total(max_distance)
            &&& euclidean_offset(euclidean_cursor_at(n).0, euclidean_cursor_at(n).1) == (dx, dy)
        }),
{
    let ring = euclidean_ring_of(dx, dy);
    let pos = euclidean_pos_of(dx, dy);
    lemma_euclidean_ring_complete(dx, dy);
    lemma_euclidean_ring_count(ring);
    lemma_euclidean_index_grows(ring + 1, rings(max_distance));
    lemma_euclidean_cursor_at_index(ring, pos);
}

/// What a walk yields: as many coordinates as its rings hold, each on its
/// ring, ring after ring from the centre outwards, and none with a part
/// that reaches the walk's bound.
pub proof fn lemma_euclidean_walk<I: Int>(center: (I, I), max_distance: int, n: nat)
    requires
        n < euclidean_total(max_distance),
    ensures
        euclidean_walk(center, max_distance).len() == euclidean_total(max_distance),
        euclidean_walk(center, max_distance)[n as int] == euclidean_coordinate(
            center,
            euclidean_cursor_at(n).0,
            euclidean_cursor_at(n).1,
        ),
        euclidean_ring_of(
            euclidean_offset(euclidean_cursor_at(n).0, euclidean_cursor_at(n).1).0,
            euclidean_offset(euclidean_cursor_at(n).0, euclidean_cursor_at(n).1).1,
        ) == euclidean_cursor_at(n).0,
        euclidean_cursor_at(n).0 < rings(max_distance),
        n > 0 ==> euclidean_cursor_at((n - 1) as nat).0 <= euclidean_cursor_at(n).0
            <= euclidean_cursor_at((n - 1) as nat).0 + 1,
{
    let at = euclidean_cursor_at(n);
    lemma_euclidean_cursor_at(n);
    lemma_euclidean_on_ring(at.0, at.1);
    if at.0 >= rings(max_distance) {
        lemma_euclidean_index_grows(rings(max_distance), at.0);
    }
}

/// One of the eight mirror images of an offset.
#[derive(Clone, Copy, Debug)]
pub(crate) enum Octant {
    Zero,
    One,
    Two,
    Three,
    Four,
    Five,
    Six,
    Seven,
}

impl Octant {
    /// The place of the octant among the eight.
    pub(crate) open spec fn number(self) -> int {
        match self {
            Octant::Zero => 0,
            Octant::One => 1,
            Octant::Two => 2,
            Octant::Three => 3,
            Octant::Four => 4,
            Octant::Five => 5,
            Octant::Six => 6,
            Octant::Seven => 7,
        }
    }
}

/// What a walk does next: yield its step in an octant, or move on to the
/// next step, or the next ring, first.
#[derive(Clone, Copy, Debug)]
pub(crate) enum Leg {
    Mirror(Octant),
    Advance,
}

/// An iterator over the coordinates around a centre, ring by ring, that
/// traces an eighth of each ring and yields every step of it in all eight
/// octants.
///
/// The walk stands before the coordinate at position `pos()` of the ring
/// `ring()`, which the next call of `next` yields. It visits the rings
/// below `max_distance`, and the centre in any case. The centre is yielded
/// once; a coordinate on an axis or on a diagonal is its own mirror image
/// and is yielded twice. Coordinates wrap around at the ends of the range
/// of `I`.
#[derive(Debug)]
pub struct EuclideanIterator<I: Int> {
    max_distance: I,
    start_x: I,
    start_y: I,
    step: I,
    ring: I,
    leg: Leg,
}

impl<I: Int> EuclideanIterator<I> {
    /// The step lies on the eighth of a ring that the walk visits, and the
    /// centre has no mirror images.
    #[verifier::type_invariant]
    spec fn inv(self) -> bool {
        let r = self.ring.value();
        let s = self.step.value();
        &&& 0 <= s <= r < rings(self.max_distance.value())
        &&& r == 0 ==> (self.leg matches Leg::Mirror(octant) ==> octant is Zero)
    }

    /// The centre of the walk.
    pub closed spec fn center(&self) -> (I, I) {
        (self.start_x, self.start_y)
    }

    /// The bound of the walk: no ring at this distance or beyond is visited.
    pub closed spec fn max_distance(&self) -> I {
        self.max_distance
    }

    /// The ring that the walk stands on.
    pub closed spec fn ring(&self) -> nat {
        (if self.leg is Advance && self.step.value() >= self.ring.value() {
            self.ring.value() + 1
        } else {
            self.ring.value()
        }) as nat
    }

    /// The position on its ring that the walk stands at.
    pub closed spec fn pos(&self) -> nat {
        let s = self.step.value();
        (match self.leg {
            Leg::Mirror(octant) => 8 * s + octant.number(),
            Leg::Advance => if s < self.ring.value() {
                8 * (s + 1)
            } else {
                0
            },
        }) as nat
    }

    /// Whether the walk has visited all its rings.
    pub open spec fn exhausted(&self) -> bool {
        self.ring() >= rings(self.max_distance().value())
    }

    /// What the next call of `next` yields.
    pub open spec fn upcoming(&self) -> Option<(I, I)> {
        if self.exhausted() {
            None
        } else {
            Some(euclidean_coordinate(self.center(), self.ring(), self.pos()))
        }
    }

    /// The number of coordinates that the walk has yielded.
    pub open spec fn emitted(&self) -> nat {
        euclidean_index(self.ring(), self.pos())
    }

    /// What the walk has yet to yield: all that a walk around its centre
    /// yields, less what it has yielded.
    pub open spec fn pending(&self) -> Seq<(I, I)> {
        euclidean_walk(self.center(), self.max_distance().value()).skip(self.emitted() as int)
    }

    /// What is left of a walk starts with what it yields next, and nothing
    /// is left when it has visited all its rings.
    pub proof fn lemma_pending(&self)
        requires
            euclidean_cursor(self.max_distance().value(), self.ring(), self.pos()),
        ensures
            self.pending().len() == euclidean_total(self.max_distance().value()) - self.emitted(),
            self.exhausted() <==> self.pending().len() == 0,
            !self.exhausted() ==> self.upcoming() == Some(self.pending()[0]),
    {
        lemma_euclidean_total(self.max_distance().value(), self.ring(), self.pos());
        if !self.exhausted() {
            lemma_euclidean_cursor_at_index(self.ring(), self.pos());
        }
    }

    /// Two walks with the same centre and the same bound that have yielded
    /// equally many coordinates stand at the same place, and yield the
    /// same coordinates from there on.
    pub proof fn lemma_deterministic(&self, other: &Self)
        requires
            self.center() == other.center(),
            self.max_distance() == other.max_distance(),
            self.emitted() == other.emitted(),
            euclidean_cursor(self.max_distance().value(), self.ring(), self.pos()),
            euclidean_cursor(other.max_distance().value(), other.ring(), other.pos()),
        ensures
            self.ring() == other.ring(),
            self.pos() == other.pos(),
            self.upcoming() == other.upcoming(),
            self.pending() == other.pending(),
    {
        lemma_euclidean_index_unique(self.ring(), self.pos(), other.ring(), other.pos());
    }

    /// A walk around `(x, y)` that stands at its centre.
    pub fn new(x: I, y: I, max_distance: I) -> (it: Self)
        ensures
            it.center() == (x, y),
            it.max_distance() == max_distance,
            it.ring() == 0,
            it.pos() == 0,
            it.pending() == euclidean_walk((x, y), max_distance.value()),
    {
        EuclideanIterator {
            max_distance,
            start_x: x,
            start_y: y,
            step: I::zero(),
            ring: I::zero(),
            leg: Leg::Mirror(Octant::Zero),
        }
    }
}

impl<I: Int> Iterator for EuclideanIterator<I> {
    type Item = (I, I);

    /// Yields the coordinate that the walk stands at and moves on to the
    /// next one, on this ring or at the start of the next. Yields nothing,
    /// and stays, once all rings are visited.
    fn next(&mut self) -> (r: Option<(I, I)>)
        ensures
            r == old(self).upcoming(),
            final(self).center() == old(self).center(),
            final(self).max_distance() == old(self).max_distance(),
            euclidean_cursor(
                final(self).max_distance().value(),
                final(self).ring(),
                final(self).pos(),
            ),
            old(self).exhausted() ==> *final(self) == *old(self),
            !old(self).exhausted() ==> (final(self).ring(), final(self).pos())
                == euclidean_successor(old(self).ring(), old(self).pos()),
            !old(self).exhausted() ==> final(self).emitted() == old(self).emitted() + 1,
    {
        proof {
            use_type_invariant(&*self);
            I::lemma_range();
            self.ring.lemma_value();
            self.step.lemma_value();
            self.max_distance.lemma_value();
            lemma_euclidean_index_step(self.ring(), self.pos());
            lemma_euclidean_total(self.max_distance.value(), self.ring(), self.pos());
            lemma_euclidean_cursor_at_index(self.ring(), self.pos());
        }
        let ghost before = *self;
        let one: I = I::one();
        let mut step: I = self.step;
        let mut ring: I = self.ring;
        let octant: Octant = match self.leg {
            Leg::Mirror(octant) => octant,
            Leg::Advance => {
                if step.less_than(ring) {
                    step = step.wrapping_add(one);
                } else {
                    let outer: I = ring.wrapping_add(one);
                    if !outer.less_than(self.max_distance) {
                        return None;
                    }
                    ring = outer;
                    step = I::zero();
                }
                Octant::Zero
            },
        };
        let x: I = self.start_x;
        let y: I = self.start_y;
        let out: (I, I) = match octant {
            Octant::Zero => (x.wrapping_add(step), y.wrapping_add(ring)),
            Octant::One => (x.wrapping_add(step), y.wrapping_sub(ring)),
            Octant::Two => (x.wrapping_sub(step), y.wrapping_add(ring)),
            Octant::Three => (x.wrapping_sub(step), y.wrapping_sub(ring)),
            Octant::Four => (x.wrapping_add(ring), y.wrapping_add(step)),
            Octant::Five => (x.wrapping_add(ring), y.wrapping_sub(step)),
            Octant::Six => (x.wrapping_sub(ring), y.wrapping_add(step)),
            Octant::Seven => (x.wrapping_sub(ring), y.wrapping_sub(step)),
        };
        let leg: Leg = match octant {
            Octant::Zero => if ring.equals(I::zero()) {
                Leg::Advance
            } else {
                Leg::Mirror(Octant::One)
            },
            Octant::One => Leg::Mirror(Octant::Two),
            Octant::Two => Leg::Mirror(Octant::Three),
            Octant::Three => Leg::Mirror(Octant::Four),
            Octant::Four => Leg::Mirror(Octant::Five),
            Octant::Five => Leg::Mirror(Octant::Six),
            Octant::Six => Leg::Mirror(Octant::Seven),
            Octant::Seven => Leg::Advance,
        };
        proof {
            out.0.lemma_value();
            out.1.lemma_value();
        }
        *self = EuclideanIterator {
            max_distance: self.max_distance,
            start_x: self.start_x,
            start_y: self.start_y,
            step,
            ring,
            leg,
        };
        proof {
            lemma_euclidean_total(self.max_distance.value(), self.ring(), self.pos());
            assert(self.pending() =~= before.pending().drop_first());
        }
        Some(out)
    }
}

impl<I: Int> vstd::std_specs::iter::IteratorSpecImpl for EuclideanIterator<I> {
    open spec fn obeys_prophetic_iter_laws(&self) -> bool {
        true
    }

    open spec fn remaining(&self) -> Seq<Self::Item> {
        self.pending()
    }

    open spec fn will_return_none(&self) -> bool {
        true
    }

    open spec fn decrease(&self) -> Option<nat> {
        Some((euclidean_total(self.max_distance().value()) - self.emitted()) as nat)
    }

    open spec fn initial_value_relation(&self, init: &Self) -> bool {
        *self == *init
    }

    open spec fn peek(&self, index: int) -> Option<Self::Item> {
        if 0 <= index < self.pending().len() {
            Some(self.pending()[index])
        } else {
            None
        }
    }
}

/// A walk that has yielded `None` yields `None` from then on.
impl<I: Int> core::iter::FusedIterator for EuclideanIterator<I> {

}

impl<I: Int> Clone for EuclideanIterator<I> {
    /// A walk that stands where this one stands.
    fn clone(&self) -> (r: Self)
        ensures
            r == *self,
    {
        proof {
            use_type_invariant(self);
        }
        EuclideanIterator {
            max_distance: self.max_distance,
            start_x: self.start_x,
            start_y: self.start_y,
            step: self.step,
            ring: self.ring,
            leg: self.leg,
        }
    }
}

} // verus!
