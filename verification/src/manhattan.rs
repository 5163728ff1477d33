//! The walk by Manhattan distance: rings are diamonds.

use vstd::prelude::*;
use crate::integer::{lemma_shifted_apart, shifted, Int};
use crate::offset::Offset;
use crate::walk::{rings, Leg};

verus! {

/// The Manhattan distance of the offset `(dx, dy)` from the centre.
pub open spec fn manhattan_distance(dx: int, dy: int) -> int {
    (if dx < 0 { -dx } else { dx }) + (if dy < 0 { -dy } else { dy })
}

/// The number of coordinates on a ring.
pub open spec fn manhattan_ring_len(ring: nat) -> nat {
    if ring == 0 {
        1
    } else {
        4 * ring
    }
}

/// The offset from the centre of the coordinate at position `pos` of a ring.
///
/// A ring starts to the right of the centre, at `(ring, 0)`, and runs
/// through `(0, ring)`, `(-ring, 0)` and `(0, -ring)` back towards its start.
pub open spec fn manhattan_offset(ring: nat, pos: nat) -> (int, int) {
    let r = ring as int;
    let j = pos as int;
    if j < r {
        (r - j, j)
    } else if j < 2 * r {
        (r - j, 2 * r - j)
    } else if j < 3 * r {
        (j - 3 * r, 2 * r - j)
    } else {
        (j - 3 * r, j - 4 * r)
    }
}

/// The position on its ring of the coordinate at the offset `(dx, dy)`.
pub open spec fn manhattan_pos_of(dx: int, dy: int) -> nat {
    let r = manhattan_distance(dx, dy);
    (if dx > 0 && dy >= 0 {
        dy
    } else if dx <= 0 && dy > 0 {
        r - dx
    } else if dx < 0 && dy <= 0 {
        2 * r - dy
    } else {
        3 * r + dx
    }) as nat
}

/// The coordinate at position `pos` of a ring around `center`.
pub open spec fn manhattan_coordinate<I: Int>(center: (I, I), ring: nat, pos: nat) -> (I, I) {
    let d = manhattan_offset(ring, pos);
    (shifted(center.0, d.0), shifted(center.1, d.1))
}

/// The ring and the position that follow a position: the next one on the
/// same ring, or the start of the next ring after the last one.
pub open spec fn manhattan_successor(ring: nat, pos: nat) -> (nat, nat) {
    if pos + 1 < manhattan_ring_len(ring) {
        (ring, pos + 1)
    } else {
        (ring + 1, 0)
    }
}

/// The number of coordinates that a walk yields before the one at
/// position `pos` of a ring.
pub open spec fn manhattan_index(ring: nat, pos: nat) -> nat {
    if ring == 0 {
        0
    } else {
        (1 + 2 * ring * (ring - 1) + pos) as nat
    }
}

/// The number of coordinates that a walk bounded by `max_distance` yields
/// in all.
pub open spec fn manhattan_total(max_distance: int) -> nat {
    manhattan_index(rings(max_distance), 0)
}

/// Whether a walk bounded by `max_distance` can stand at position `pos` of
/// a ring: on a ring that it visits, or at the start of the first ring
/// that it does not visit, where it ends.
pub open spec fn manhattan_cursor(max_distance: int, ring: nat, pos: nat) -> bool {
    if ring < rings(max_distance) {
        pos < manhattan_ring_len(ring)
    } else {
        ring == rings(max_distance) && pos == 0
    }
}

/// The ring and the position at which a walk stands after it has yielded
/// `n` coordinates.
pub open spec fn manhattan_cursor_at(n: nat) -> (nat, nat)
    decreases n,
{
    if n == 0 {
        (0, 0)
    } else {
        let before = manhattan_cursor_at((n - 1) as nat);
        manhattan_successor(before.0, before.1)
    }
}

/// All that a walk around `center` bounded by `max_distance` yields, in
/// the order in which it yields it.
pub open spec fn manhattan_walk<I: Int>(center: (I, I), max_distance: int) -> Seq<(I, I)> {
    Seq::new(
        manhattan_total(max_distance),
        |n: int|
            manhattan_coordinate(
                center,
                manhattan_cursor_at(n as nat).0,
                manhattan_cursor_at(n as nat).1,
            ),
    )
}

/// Every coordinate of a ring lies at the ring's distance from the centre.
pub proof fn lemma_manhattan_on_ring(ring: nat, pos: nat)
    requires
        pos < manhattan_ring_len(ring),
    ensures
        manhattan_distance(manhattan_offset(ring, pos).0, manhattan_offset(ring, pos).1) == ring,
{
}

/// No coordinate of a walk lies at the walk's bound or beyond it: the
/// rings that a walk visits lie below the number of its rings, which for a
/// bound of one or more is the bound.
pub proof fn lemma_manhattan_within_bound(max_distance: int, ring: nat, pos: nat)
    requires
        ring < rings(max_distance),
        pos < manhattan_ring_len(ring),
    ensures
        manhattan_distance(manhattan_offset(ring, pos).0, manhattan_offset(ring, pos).1) < rings(
            max_distance,
        ),
        max_distance >= 1 ==> manhattan_distance(
            manhattan_offset(ring, pos).0,
            manhattan_offset(ring, pos).1,
        ) < max_distance,
{
    lemma_manhattan_on_ring(ring, pos);
}

/// A ring holds every lattice point at its distance from the centre: the
/// point at `(dx, dy)` stands at `manhattan_pos_of(dx, dy)`.
pub proof fn lemma_manhattan_ring_complete(dx: int, dy: int)
    ensures
        manhattan_pos_of(dx, dy) < manhattan_ring_len(manhattan_distance(dx, dy) as nat),
        manhattan_offset(manhattan_distance(dx, dy) as nat, manhattan_pos_of(dx, dy)) == (dx, dy),
{
}

/// The coordinates of a ring differ from one another: each stands at the
/// position that its offset gives, and nowhere else.
pub proof fn lemma_manhattan_ring_distinct(ring: nat, pos: nat)
    requires
        pos < manhattan_ring_len(ring),
    ensures
        manhattan_pos_of(manhattan_offset(ring, pos).0, manhattan_offset(ring, pos).1) == pos,
{
}

/// The centre is yielded as it was given, and no other coordinate of a
/// walk is the centre.
pub proof fn lemma_manhattan_center<I: Int>(center: (I, I), ring: nat, pos: nat)
    requires
        ring <= I::highest(),
        pos < manhattan_ring_len(ring),
    ensures
        manhattan_coordinate(center, ring, pos) == center <==> ring == 0,
{
    let d = manhattan_offset(ring, pos);
    lemma_manhattan_on_ring(ring, pos);
    lemma_shifted_apart(center.0, d.0);
    lemma_shifted_apart(center.1, d.1);
}

/// The centre is one coordinate, and a ring further out holds four times
/// as many coordinates as its distance from the centre.
pub proof fn lemma_manhattan_ring_count(ring: nat)
    ensures
        manhattan_index(ring + 1, 0) - manhattan_index(ring, 0) == manhattan_ring_len(ring),
        manhattan_ring_len(0) == 1,
        ring > 0 ==> manhattan_ring_len(ring) == 4 * ring,
{
    assert(2 * (ring + 1) * ((ring + 1) - 1) == 2 * ring * (ring - 1) + 4 * ring)
        by (nonlinear_arith);
}

/// Each step of a walk adds one to the number of coordinates yielded.
pub proof fn lemma_manhattan_index_step(ring: nat, pos: nat)
    requires
        pos < manhattan_ring_len(ring),
    ensures
        manhattan_index(manhattan_successor(ring, pos).0, manhattan_successor(ring, pos).1)
            == manhattan_index(ring, pos) + 1,
{
    lemma_manhattan_ring_count(ring);
}

/// Rings further out start later.
pub proof fn lemma_manhattan_index_grows(inner: nat, outer: nat)
    requires
        inner <= outer,
    ensures
        manhattan_index(inner, 0) <= manhattan_index(outer, 0),
    decreases outer - inner,
{
    if inner < outer {
        lemma_manhattan_ring_count(inner);
        lemma_manhattan_index_grows(inner + 1, outer);
    }
}

/// No two positions have equally many coordinates before them.
pub proof fn lemma_manhattan_index_unique(ring_a: nat, pos_a: nat, ring_b: nat, pos_b: nat)
    requires
        pos_a < manhattan_ring_len(ring_a),
        pos_b < manhattan_ring_len(ring_b),
        manhattan_index(ring_a, pos_a) == manhattan_index(ring_b, pos_b),
    ensures
        ring_a == ring_b,
        pos_a == pos_b,
{
    lemma_manhattan_ring_count(ring_a);
    lemma_manhattan_ring_count(ring_b);
    if ring_a < ring_b {
        lemma_manhattan_index_grows(ring_a + 1, ring_b);
    } else if ring_b < ring_a {
        lemma_manhattan_index_grows(ring_b + 1, ring_a);
    }
}

/// A walk bounded by `max_distance` yields `1 + 2 * n * (n - 1)`
/// coordinates in all, `n` being the number of its rings: it has yielded
/// fewer while it stands on one of its rings, and that many when it has
/// visited them all.
pub proof fn lemma_manhattan_total(max_distance: int, ring: nat, pos: nat)
    requires
        manhattan_cursor(max_distance, ring, pos),
    ensures
        manhattan_total(max_distance) == 1 + 2 * rings(max_distance) * (rings(max_distance) - 1),
        manhattan_index(ring, pos) <= manhattan_total(max_distance),
        ring >= rings(max_distance) <==> manhattan_index(ring, pos) == manhattan_total(
            max_distance,
        ),
{
    let n = rings(max_distance);
    lemma_manhattan_ring_count(ring);
    if ring < n {
        lemma_manhattan_index_grows(ring + 1, n);
    }
}

/// After `n` coordinates a walk stands on a ring, at the one position
/// before which `n` coordinates lie.
pub proof fn lemma_manhattan_cursor_at(n: nat)
    ensures
        manhattan_cursor_at(n).1 < manhattan_ring_len(manhattan_cursor_at(n).0),
        manhattan_index(manhattan_cursor_at(n).0, manhattan_cursor_at(n).1) == n,
    decreases n,
{
    if n > 0 {
        let before = manhattan_cursor_at((n - 1) as nat);
        lemma_manhattan_cursor_at((n - 1) as nat);
        lemma_manhattan_index_step(before.0, before.1);
    }
}

/// A walk that stands at position `pos` of a ring has yielded
/// `manhattan_index(ring, pos)` coordinates to get there.
pub proof fn lemma_manhattan_cursor_at_index(ring: nat, pos: nat)
    requires
        pos < manhattan_ring_len(ring),
    ensures
        manhattan_cursor_at(manhattan_index(ring, pos)) == (ring, pos),
{
    let at = manhattan_cursor_at(manhattan_index(ring, pos));
    lemma_manhattan_cursor_at(manhattan_index(ring, pos));
    lemma_manhattan_index_unique(at.0, at.1, ring, pos);
}

/// A walk yields every lattice point that lies nearer to the centre than
/// its bound, and yields it once: after as many coordinates as lie before
/// the point's position on its ring.
pub proof fn lemma_manhattan_visits_once(max_distance: int, dx: int, dy: int, n: nat)
    requires
        manhattan_distance(dx, dy) < rings(max_distance),
    ensures
        ({
            let at = manhattan_cursor_at(n);
            let ring = manhattan_distance(dx, dy) as nat;
            let index = manhattan_index(ring, manhattan_pos_of(dx, dy));
            &&& index < manhattan_total(max_distance)
            &&& manhattan_offset(at.0, at.1) == (dx, dy) <==> n == index
        }),
{
    let ring = manhattan_distance(dx, dy) as nat;
    let pos = manhattan_pos_of(dx, dy);
    let at = manhattan_cursor_at(n);
    lemma_manhattan_ring_complete(dx, dy);
    lemma_manhattan_ring_count(ring);
    lemma_manhattan_index_grows(ring + 1, rings(max_distance));
    lemma_manhattan_cursor_at_index(ring, pos);
    lemma_manhattan_cursor_at(n);
    lemma_manhattan_on_ring(at.0, at.1);
    lemma_manhattan_ring_distinct(at.0, at.1);
}

/// What a walk yields: as many coordinates as its rings hold, each at the
/// distance of its ring from the centre, ring after ring from the centre
/// outwards, and none at the walk's bound or beyond.
pub proof fn lemma_manhattan_walk<I: Int>(center: (I, I), max_distance: int, n: nat)
    requires
        n < manhattan_total(max_distance),
    ensures
        manhattan_walk(center, max_distance).len() == manhattan_total(max_distance),
        manhattan_walk(center, max_distance)[n as int] == manhattan_coordinate(
            center,
            manhattan_cursor_at(n).0,
            manhattan_cursor_at(n).1,
        ),
        manhattan_distance(
            manhattan_offset(manhattan_cursor_at(n).0, manhattan_cursor_at(n).1).0,
            manhattan_offset(manhattan_cursor_at(n).0, manhattan_cursor_at(n).1).1,
        ) == manhattan_cursor_at(n).0,
        manhattan_cursor_at(n).0 < rings(max_distance),
        n > 0 ==> manhattan_cursor_at((n - 1) as nat).0 <= manhattan_cursor_at(n).0
            <= manhattan_cursor_at((n - 1) as nat).0 + 1,
{
    let at = manhattan_cursor_at(n);
    lemma_manhattan_cursor_at(n);
    lemma_manhattan_on_ring(at.0, at.1);
    if at.0 >= rings(max_distance) {
        lemma_manhattan_index_grows(rings(max_distance), at.0);
    }
}

/// An iterator over the coordinates around a centre, ring by ring, with
/// the distance `|dx| + |dy|`.
///
/// The walk stands before the coordinate at position `pos()` of the ring
/// `ring()`, which the next call of `next` yields. It visits the rings
/// below `max_distance`, and the centre in any case. Coordinates wrap
/// around at the ends of the range of `I`.
#[derive(Debug)]
pub struct ManhattanIterator<I: Int> {
    max_distance: I,
    start_x: I,
    start_y: I,
    x: Offset<I>,
    y: Offset<I>,
    ring: I,
    leg: Leg,
}

impl<I: Int> ManhattanIterator<I> {
    /// The offset lies on the ring, in the quarter that the leg says. A
    /// walk that has visited all its rings stands at the start of the
    /// next one.
    #[verifier::type_invariant]
    spec fn inv(self) -> bool {
        let r = self.ring.value();
        let x = self.x.value();
        let y = self.y.value();
        &&& self.x.wf()
        &&& self.y.wf()
        &&& 0 <= r <= rings(self.max_distance.value())
        &&& r == rings(self.max_distance.value()) ==> self.leg is Right && y == 0
        &&& match self.leg {
            Leg::Center => r == 0 && x == 0 && y == 0,
            Leg::Right => x >= 1 && y >= 0 && x + y == r,
            Leg::Top => x <= 0 && y >= 1 && y - x == r,
            Leg::Left => x <= -1 && y <= 0 && -x - y == r,
            Leg::Bottom => x >= 0 && y <= -1 && x - y == r,
        }
    }

    /// The centre of the walk.
    pub closed spec fn center(&self) -> (I, I) {
        (self.start_x, self.start_y)
    }

    /// The bound of the walk: no ring at this distance or beyond is visited.
    pub closed spec fn max_distance(&self) -> I {
        self.max_distance
    }

    /// The ring that the walk stands on.
    pub closed spec fn ring(&self) -> nat {
        self.ring.value() as nat
    }

    /// The position on its ring that the walk stands at.
    pub closed spec fn pos(&self) -> nat {
        let r = self.ring.value();
        (match self.leg {
            Leg::Center => 0,
            Leg::Right => self.y.value(),
            Leg::Top => r - self.x.value(),
            Leg::Left => 2 * r - self.y.value(),
            Leg::Bottom => 3 * r + self.x.value(),
        }) as nat
    }

    /// Whether the walk has visited all its rings.
    pub open spec fn exhausted(&self) -> bool {
        self.ring() >= rings(self.max_distance().value())
    }

    /// What the next call of `next` yields.
    pub open spec fn upcoming(&self) -> Option<(I, I)> {
        if self.exhausted() {
            None
        } else {
            Some(manhattan_coordinate(self.center(), self.ring(), self.pos()))
        }
    }

    /// The number of coordinates that the walk has yielded.
    pub open spec fn emitted(&self) -> nat {
        manhattan_index(self.ring(), self.pos())
    }

    /// What the walk has yet to yield: all that a walk around its centre
    /// yields, less what it has yielded.
    pub open spec fn pending(&self) -> Seq<(I, I)> {
        manhattan_walk(self.center(), self.max_distance().value()).skip(self.emitted() as int)
    }

    /// What is left of a walk starts with what it yields next, and nothing
    /// is left when it has visited all its rings.
    pub proof fn lemma_pending(&self)
        requires
            manhattan_cursor(self.max_distance().value(), self.ring(), self.pos()),
        ensures
            self.pending().len() == manhattan_total(self.max_distance().value()) - self.emitted(),
            self.exhausted() <==> self.pending().len() == 0,
            !self.exhausted() ==> self.upcoming() == Some(self.pending()[0]),
    {
        lemma_manhattan_total(self.max_distance().value(), self.ring(), self.pos());
        if !self.exhausted() {
            lemma_manhattan_cursor_at_index(self.ring(), self.pos());
        }
    }

    /// Two walks with the same centre and the same bound that have yielded
    /// equally many coordinates stand at the same place, and yield the
    /// same coordinates from there on.
    pub proof fn lemma_deterministic(&self, other: &Self)
        requires
            self.center() == other.center(),
            self.max_distance() == other.max_distance(),
            self.emitted() == other.emitted(),
            manhattan_cursor(self.max_distance().value(), self.ring(), self.pos()),
            manhattan_cursor(other.max_distance().value(), other.ring(), other.pos()),
        ensures
            self.ring() == other.ring(),
            self.pos() == other.pos(),
            self.upcoming() == other.upcoming(),
            self.pending() == other.pending(),
    {
        lemma_manhattan_index_unique(self.ring(), self.pos(), other.ring(), other.pos());
    }

    /// A walk around `(x, y)` that stands at its centre.
    pub fn new(x: I, y: I, max_distance: I) -> (it: Self)
        ensures
            it.center() == (x, y),
            it.max_distance() == max_distance,
            it.ring() == 0,
            it.pos() == 0,
            it.pending() == manhattan_walk((x, y), max_distance.value()),
    {
        ManhattanIterator {
            max_distance,
            start_x: x,
            start_y: y,
            x: Offset::zero(),
            y: Offset::zero(),
            ring: I::zero(),
            leg: Leg::Center,
        }
    }
}

impl<I: Int> Iterator for ManhattanIterator<I> {
    type Item = (I, I);

    /// Yields the coordinate that the walk stands at and moves on to the
    /// next one, on this ring or at the start of the next. Yields nothing,
    /// and stays, once all rings are visited.
    fn next(&mut self) -> (r: Option<(I, I)>)
        ensures
            r == old(self).upcoming(),
            final(self).center() == old(self).center(),
            final(self).max_distance() == old(self).max_distance(),
            manhattan_cursor(
                final(self).max_distance().value(),
                final(self).ring(),
                final(self).pos(),
            ),
            old(self).exhausted() ==> *final(self) == *old(self),
            !old(self).exhausted() ==> (final(self).ring(), final(self).pos())
                == manhattan_successor(old(self).ring(), old(self).pos()),
            !old(self).exhausted() ==> final(self).emitted() == old(self).emitted() + 1,
    {
        proof {
            use_type_invariant(&*self);
            I::lemma_range();
            self.ring.lemma_value();
            self.max_distance.lemma_value();
            lemma_manhattan_index_step(self.ring(), self.pos());
            lemma_manhattan_total(self.max_distance.value(), self.ring(), self.pos());
            lemma_manhattan_cursor_at_index(self.ring(), self.pos());
        }
        let ghost before = *self;
        let one: I = I::one();
        match self.leg {
            Leg::Center => {},
            _ => {
                if !self.ring.less_than(self.max_distance) {
                    return None;
                }
            },
        }
        let out: (I, I) = (self.x.shift(self.start_x), self.y.shift(self.start_y));
        let mut x: Offset<I> = self.x;
        let mut y: Offset<I> = self.y;
        let mut ring: I = self.ring;
        let mut leg: Leg = self.leg;
        match self.leg {
            Leg::Center => {
                x = x.inc();
                ring = one;
                leg = Leg::Right;
            },
            Leg::Right => {
                x = x.dec();
                y = y.inc();
                if x.is_zero() {
                    leg = Leg::Top;
                }
            },
            Leg::Top => {
                x = x.dec();
                y = y.dec();
                if y.is_zero() {
                    leg = Leg::Left;
                }
            },
            Leg::Left => {
                x = x.inc();
                y = y.dec();
                if x.is_zero() {
                    leg = Leg::Bottom;
                }
            },
            Leg::Bottom => {
                x = x.inc();
                y = y.inc();
                if y.is_zero() {
                    x = x.inc();
                    ring = ring.wrapping_add(one);
                    leg = Leg::Right;
                }
            },
        }
        *self = ManhattanIterator {
            max_distance: self.max_distance,
            start_x: self.start_x,
            start_y: self.start_y,
            x,
            y,
            ring,
            leg,
        };
        proof {
            lemma_manhattan_total(self.max_distance.value(), self.ring(), self.pos());
            assert(self.pending() =~= before.pending().drop_first());
        }
        Some(out)
    }
}

impl<I: Int> vstd::std_specs::iter::IteratorSpecImpl for ManhattanIterator<I> {
    open spec fn obeys_prophetic_iter_laws(&self) -> bool {
        true
    }

    open spec fn remaining(&self) -> Seq<Self::Item> {
        self.pending()
    }

    open spec fn will_return_none(&self) -> bool {
        true
    }

    open spec fn decrease(&self) -> Option<nat> {
        Some((manhattan_total(self.max_distance().value()) - self.emitted()) as nat)
    }

    open spec fn initial_value_relation(&self, init: &Self) -> bool {
        *self == *init
    }

    open spec fn peek(&self, index: int) -> Option<Self::Item> {
        if 0 <= index < self.pending().len() {
            Some(self.pending()[index])
        } else {
            None
        }
    }
}

/// A walk that has yielded `None` yields `None` from then on.
impl<I: Int> core::iter::FusedIterator for ManhattanIterator<I> {

}

impl<I: Int> Clone for ManhattanIterator<I> {
    /// A walk that stands where this one stands.
    fn clone(&self) -> (r: Self)
        ensures
            r == *self,
    {
        proof {
            use_type_invariant(self);
        }
        ManhattanIterator {
            max_distance: self.max_distance,
            start_x: self.start_x,
            start_y: self.start_y,
            x: self.x,
            y: self.y,
            ring: self.ring,
            leg: self.leg,
        }
    }
}

} // verus!
