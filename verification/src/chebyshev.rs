//! The walk by Chebyshev distance: rings are squares.

use vstd::prelude::*;
use crate::integer::{lemma_shifted_apart, shifted, Int};
use crate::offset::Offset;
use crate::walk::{rings, Leg};

verus! {

/// The Chebyshev distance of the offset `(dx, dy)` from the centre.
pub open spec fn chebyshev_distance(dx: int, dy: int) -> int {
    let ax = if dx < 0 { -dx } else { dx };
    let ay = if dy < 0 { -dy } else { dy };
    if ax < ay {
        ay
    } else {
        ax
    }
}

/// The number of coordinates on a ring.
pub open spec fn chebyshev_ring_len(ring: nat) -> nat {
    if ring == 0 {
        1
    } else {
        8 * ring
    }
}

/// The offset from the centre of the coordinate at position `pos` of a ring.
///
/// A ring starts on its right side, at `(ring, 1 - ring)`, runs along that
/// side to `(ring, ring)`, along the top to `(-ring, ring)`, along the left
/// side to `(-ring, -ring)` and along the bottom to `(ring, -ring)`.
pub open spec fn chebyshev_offset(ring: nat, pos: nat) -> (int, int) {
    let r = ring as int;
    let j = pos as int;
    if r == 0 {
        (0, 0)
    } else if j < 2 * r {
        (r, j - r + 1)
    } else if j < 4 * r {
        (3 * r - j - 1, r)
    } else if j < 6 * r {
        (-r, 5 * r - j - 1)
    } else {
        (j - 7 * r + 1, -r)
    }
}

/// The position on its ring of the coordinate at the offset `(dx, dy)`.
pub open spec fn chebyshev_pos_of(dx: int, dy: int) -> nat {
    let r = chebyshev_distance(dx, dy);
    (if r == 0 {
        0
    } else if dx == r && dy > -r {
        dy + r - 1
    } else if dy == r {
        3 * r - dx - 1
    } else if dx == -r {
        5 * r - dy - 1
    } else {
        dx + 7 * r - 1
    }) as nat
}

/// The coordinate at position `pos` of a ring around `center`.
pub open spec fn chebyshev_coordinate<I: Int>(center: (I, I), ring: nat, pos: nat) -> (I, I) {
    let d = chebyshev_offset(ring, pos);
    (shifted(center.0, d.0), shifted(center.1, d.1))
}

/// The ring and the position that follow a position: the next one on the
/// same ring, or the start of the next ring after the last one.
pub open spec fn chebyshev_successor(ring: nat, pos: nat) -> (nat, nat) {
    if pos + 1 < chebyshev_ring_len(ring) {
        (ring, pos + 1)
    } else {
        (ring + 1, 0)
    }
}

/// The number of coordinates that a walk yields before the one at
/// position `pos` of a ring.
pub open spec fn chebyshev_index(ring: nat, pos: nat) -> nat {
    if ring == 0 {
        0
    } else {
        ((2 * ring - 1) * (2 * ring - 1) + pos) as nat
    }
}

/// The number of coordinates that a walk bounded by `max_distance` yields
/// in all.
pub open spec fn chebyshev_total(max_distance: int) -> nat {
    chebyshev_index(rings(max_distance), 0)
}

/// Whether a walk bounded by `max_distance` can stand at position `pos` of
/// a ring: on a ring that it visits, or at the start of the first ring
/// that it does not visit, where it ends.
pub open spec fn chebyshev_cursor(max_distance: int, ring: nat, pos: nat) -> bool {
    if ring < rings(max_distance) {
        pos < chebyshev_ring_len(ring)
    } else {
        ring == rings(max_distance) && pos == 0
    }
}

/// The ring and the position at which a walk stands after it has yielded
/// `n` coordinates.
pub open spec fn chebyshev_cursor_at(n: nat) -> (nat, nat)
    decreases n,
{
    if n == 0 {
        (0, 0)
    } else {
        let before = chebyshev_cursor_at((n - 1) as nat);
        chebyshev_successor(before.0, before.1)
    }
}

/// All that a walk around `center` bounded by `max_distance` yields, in
/// the order in which it yields it.
pub open spec fn chebyshev_walk<I: Int>(center: (I, I), max_distance: int) -> Seq<(I, I)> {
    Seq::new(
        chebyshev_total(max_distance),
        |n: int|
            chebyshev_coordinate(
                center,
                chebyshev_cursor_at(n as nat).0,
                chebyshev_cursor_at(n as nat).1,
            ),
    )
}

/// Every coordinate of a ring lies at the ring's distance from the centre.
pub proof fn lemma_chebyshev_on_ring(ring: nat, pos: nat)
    requires
        pos < chebyshev_ring_len(ring),
    ensures
        chebyshev_distance(chebyshev_offset(ring, pos).0, chebyshev_offset(ring, pos).1) == ring,
{
}

/// No coordinate of a walk lies at the walk's bound or beyond it: the
/// rings that a walk visits lie below the number of its rings, which for a
/// bound of one or more is the bound.
pub proof fn lemma_chebyshev_within_bound(max_distance: int, ring: nat, pos: nat)
    requires
        ring < rings(max_distance),
        pos < chebyshev_ring_len(ring),
    ensures
        chebyshev_distance(chebyshev_offset(ring, pos).0, chebyshev_offset(ring, pos).1) < rings(
            max_distance,
        ),
        max_distance >= 1 ==> chebyshev_distance(
            chebyshev_offset(ring, pos).0,
            chebyshev_offset(ring, pos).1,
        ) < max_distance,
{
    lemma_chebyshev_on_ring(ring, pos);
}

/// A ring holds every lattice point at its distance from the centre: the
/// point at `(dx, dy)` stands at `chebyshev_pos_of(dx, dy)`.
pub proof fn lemma_chebyshev_ring_complete(dx: int, dy: int)
    ensures
        chebyshev_pos_of(dx, dy) < chebyshev_ring_len(chebyshev_distance(dx, dy) as nat),
        chebyshev_offset(chebyshev_distance(dx, dy) as nat, chebyshev_pos_of(dx, dy)) == (dx, dy),
{
}

/// The coordinates of a ring differ from one another: each stands at the
/// position that its offset gives, and nowhere else.
pub proof fn lemma_chebyshev_ring_distinct(ring: nat, pos: nat)
    requires
        pos < chebyshev_ring_len(ring),
    ensures
        chebyshev_pos_of(chebyshev_offset(ring, pos).0, chebyshev_offset(ring, pos).1) == pos,
{
}

/// The centre is yielded as it was given, and no other coordinate of a
/// walk is the centre.
pub proof fn lemma_chebyshev_center<I: Int>(center: (I, I), ring: nat, pos: nat)
    requires
        ring <= I::highest(),
        pos < chebyshev_ring_len(ring),
    ensures
        chebyshev_coordinate(center, ring, pos) == center <==> ring == 0,
{
    let d = chebyshev_offset(ring, pos);
    lemma_chebyshev_on_ring(ring, pos);
    lemma_shifted_apart(center.0, d.0);
    lemma_shifted_apart(center.1, d.1);
}

/// The centre is one coordinate, and a ring further out holds eight times
/// as many coordinates as its distance from the centre.
pub proof fn lemma_chebyshev_ring_count(ring: nat)
    ensures
        chebyshev_index(ring + 1, 0) - chebyshev_index(ring, 0) == chebyshev_ring_len(ring),
        chebyshev_ring_len(0) == 1,
        ring > 0 ==> chebyshev_ring_len(ring) == 8 * ring,
{
    let side = 2 * ring - 1;
    assert((side + 2) * (side + 2) == side * side + 4 * side + 4) by (nonlinear_arith);
    assert(ring == 0 ==> side * side == 1) by (nonlinear_arith)
        requires
            side == 2 * ring - 1,
    ;
}

/// Each step of a walk adds one to the number of coordinates yielded.
pub proof fn lemma_chebyshev_index_step(ring: nat, pos: nat)
    requires
        pos < chebyshev_ring_len(ring),
    ensures
        chebyshev_index(chebyshev_successor(ring, pos).0, chebyshev_successor(ring, pos).1)
            == chebyshev_index(ring, pos) + 1,
{
    lemma_chebyshev_ring_count(ring);
}

/// Rings further out start later.
pub proof fn lemma_chebyshev_index_grows(inner: nat, outer: nat)
    requires
        inner <= outer,
    ensures
        chebyshev_index(inner, 0) <= chebyshev_index(outer, 0),
    decreases outer - inner,
{
    if inner < outer {
        lemma_chebyshev_ring_count(inner);
        lemma_chebyshev_index_grows(inner + 1, outer);
    }
}

/// No two positions have equally many coordinates before them.
pub proof fn lemma_chebyshev_index_unique(ring_a: nat, pos_a: nat, ring_b: nat, pos_b: nat)
    requires
        pos_a < chebyshev_ring_len(ring_a),
        pos_b < chebyshev_ring_len(ring_b),
        chebyshev_index(ring_a, pos_a) == chebyshev_index(ring_b, pos_b),
    ensures
        ring_a == ring_b,
        pos_a == pos_b,
{
    lemma_chebyshev_ring_count(ring_a);
    lemma_chebyshev_ring_count(ring_b);
    if ring_a < ring_b {
        lemma_chebyshev_index_grows(ring_a + 1, ring_b);
    } else if ring_b < ring_a {
        lemma_chebyshev_index_grows(ring_b + 1, ring_a);
    }
}

/// A walk bounded by `max_distance` yields `(2 * n - 1) * (2 * n - 1)`
/// coordinates in all, `n` being the number of its rings: it has yielded
/// fewer while it stands on one of its rings, and that many when it has
/// visited them all.
pub proof fn lemma_chebyshev_total(max_distance: int, ring: nat, pos: nat)
    requires
        chebyshev_cursor(max_distance, ring, pos),
    ensures
        chebyshev_total(max_distance) == (2 * rings(max_distance) - 1) * (2 * rings(max_distance)
            - 1),
        chebyshev_index(ring, pos) <= chebyshev_total(max_distance),
        ring >= rings(max_distance) <==> chebyshev_index(ring, pos) == chebyshev_total(
            max_distance,
        ),
{
    let n = rings(max_distance);
    lemma_chebyshev_ring_count(ring);
    if ring < n {
        lemma_chebyshev_index_grows(ring + 1, n);
    }
}

/// After `n` coordinates a walk stands on a ring, at the one position
/// before which `n` coordinates lie.
pub proof fn lemma_chebyshev_cursor_at(n: nat)
    ensures
        chebyshev_cursor_at(n).1 < chebyshev_ring_len(chebyshev_cursor_at(n).0),
        chebyshev_index(chebyshev_cursor_at(n).0, chebyshev_cursor_at(n).1) == n,
    decreases n,
{
    if n > 0 {
        let before = chebyshev_cursor_at((n - 1) as nat);
        lemma_chebyshev_cursor_at((n - 1) as nat);
        lemma_chebyshev_index_step(before.0, before.1);
    }
}

/// A walk that stands at position `pos` of a ring has yielded
/// `chebyshev_index(ring, pos)` coordinates to get there.
pub proof fn lemma_chebyshev_cursor_at_index(ring: nat, pos: nat)
    requires
        pos < chebyshev_ring_len(ring),
    ensures
        chebyshev_cursor_at(chebyshev_index(ring, pos)) == (ring, pos),
{
    let at = chebyshev_cursor_at(chebyshev_index(ring, pos));
    lemma_chebyshev_cursor_at(chebyshev_index(ring, pos));
    lemma_chebyshev_index_unique(at.0, at.1, ring, pos);
}

/// A walk yields every lattice point that lies nearer to the centre than
/// its bound, and yields it once: after as many coordinates as lie before
/// the point's position on its ring.
pub proof fn lemma_chebyshev_visits_once(max_distance: int, dx: int, dy: int, n: nat)
    requires
        chebyshev_distance(dx, dy) < rings(max_distance),
    ensures
        ({
            let at = chebyshev_cursor_at(n);
            let ring = chebyshev_distance(dx, dy) as nat;
            let index = chebyshev_index(ring, chebyshev_pos_of(dx, dy));
            &&& index < chebyshev_total(max_distance)
            &&& chebyshev_offset(at.0, at.1) == (dx, dy) <==> n == index
        }),
{
    let ring = chebyshev_distance(dx, dy) as nat;
    let pos = chebyshev_pos_of(dx, dy);
    let at = chebyshev_cursor_at(n);
    lemma_chebyshev_ring_complete(dx, dy);
    lemma_chebyshev_ring_count(ring);
    lemma_chebyshev_index_grows(ring + 1, rings(max_distance));
    lemma_chebyshev_cursor_at_index(ring, pos);
    lemma_chebyshev_cursor_at(n);
    lemma_chebyshev_on_ring(at.0, at.1);
    lemma_chebyshev_ring_distinct(at.0, at.1);
}

/// What a walk yields: as many coordinates as its rings hold, each at the
/// distance of its ring from the centre, ring after ring from the centre
/// outwards, and none at the walk's bound or beyond.
pub proof fn lemma_chebyshev_walk<I: Int>(center: (I, I), max_distance: int, n: nat)
    requires
        n < chebyshev_total(max_distance),
    ensures
        chebyshev_walk(center, max_distance).len() == chebyshev_total(max_distance),
        chebyshev_walk(center, max_distance)[n as int] == chebyshev_coordinate(
            center,
            chebyshev_cursor_at(n).0,
            chebyshev_cursor_at(n).1,
        ),
        chebyshev_distance(
            chebyshev_offset(chebyshev_cursor_at(n).0, chebyshev_cursor_at(n).1).0,
            chebyshev_offset(chebyshev_cursor_at(n).0, chebyshev_cursor_at(n).1).1,
        ) == chebyshev_cursor_at(n).0,
        chebyshev_cursor_at(n).0 < rings(max_distance),
        n > 0 ==> chebyshev_cursor_at((n - 1) as nat).0 <= chebyshev_cursor_at(n).0
            <= chebyshev_cursor_at((n - 1) as nat).0 + 1,
{
    let at = chebyshev_cursor_at(n);
    lemma_chebyshev_cursor_at(n);
    lemma_chebyshev_on_ring(at.0, at.1);
    if at.0 >= rings(max_distance) {
        lemma_chebyshev_index_grows(rings(max_distance), at.0);
    }
}

/// An iterator over the coordinates around a centre, ring by ring, with
/// the distance `max(|dx|, |dy|)`.
///
/// The walk stands before the coordinate at position `pos()` of the ring
/// `ring()`, which the next call of `next` yields. It visits the rings
/// below `max_distance`, and the centre in any case. Coordinates wrap
/// around at the ends of the range of `I`.
#[derive(Debug)]
pub struct ChebyshevIterator<I: Int> {
    max_distance: I,
    start_x: I,
    start_y: I,
    x: Offset<I>,
    y: Offset<I>,
    ring: I,
    leg: Leg,
}

impl<I: Int> ChebyshevIterator<I> {
    /// The offset lies on the ring, on the side that the leg says. A walk
    /// that has visited all its rings stands at the start of the next one.
    #[verifier::type_invariant]
    spec fn inv(self) -> bool {
        let r = self.ring.value();
        let x = self.x.value();
        let y = self.y.value();
        &&& self.x.wf()
        &&& self.y.wf()
        &&& 0 <= r <= rings(self.max_distance.value())
        &&& r == rings(self.max_distance.value()) ==> self.leg is Top && y == 1 - r
        &&& match self.leg {
            Leg::Center => r == 0 && x == 0 && y == 0,
            Leg::Top => r >= 1 && x == r && 1 - r <= y <= r - 1,
            Leg::Left => r >= 1 && y == r && 1 - r <= x <= r,
            Leg::Bottom => r >= 1 && x == -r && 1 - r <= y <= r,
            Leg::Right => r >= 1 && y == -r && -r <= x <= r,
        }
    }

    /// The centre of the walk.
    pub closed spec fn center(&self) -> (I, I) {
        (self.start_x, self.start_y)
    }

    /// The bound of the walk: no ring at this distance or beyond is visited.
    pub closed spec fn max_distance(&self) -> I {
        self.max_distance
    }

    /// The ring that the walk stands on.
    pub closed spec fn ring(&self) -> nat {
        self.ring.value() as nat
    }

    /// The position on its ring that the walk stands at.
    pub closed spec fn pos(&self) -> nat {
        let r = self.ring.value();
        (match self.leg {
            Leg::Center => 0,
            Leg::Top => self.y.value() + r - 1,
            Leg::Left => 3 * r - self.x.value() - 1,
            Leg::Bottom => 5 * r - self.y.value() - 1,
            Leg::Right => self.x.value() + 7 * r - 1,
        }) as nat
    }

    /// Whether the walk has visited all its rings.
    pub open spec fn exhausted(&self) -> bool {
        self.ring() >= rings(self.max_distance().value())
    }

    /// What the next call of `next` yields.
    pub open spec fn upcoming(&self) -> Option<(I, I)> {
        if self.exhausted() {
            None
        } else {
            Some(chebyshev_coordinate(self.center(), self.ring(), self.pos()))
        }
    }

    /// The number of coordinates that the walk has yielded.
    pub open spec fn emitted(&self) -> nat {
        chebyshev_index(self.ring(), self.pos())
    }

    /// What the walk has yet to yield: all that a walk around its centre
    /// yields, less what it has yielded.
    pub open spec fn pending(&self) -> Seq<(I, I)> {
        chebyshev_walk(self.center(), self.max_distance().value()).skip(self.emitted() as int)
    }

    /// What is left of a walk starts with what it yields next, and nothing
    /// is left when it has visited all its rings.
    pub proof fn lemma_pending(&self)
        requires
            chebyshev_cursor(self.max_distance().value(), self.ring(), self.pos()),
        ensures
            self.pending().len() == chebyshev_total(self.max_distance().value()) - self.emitted(),
            self.exhausted() <==> self.pending().len() == 0,
            !self.exhausted() ==> self.upcoming() == Some(self.pending()[0]),
    {
        lemma_chebyshev_total(self.max_distance().value(), self.ring(), self.pos());
        if !self.exhausted() {
            lemma_chebyshev_cursor_at_index(self.ring(), self.pos());
        }
    }

    /// Two walks with the same centre and the same bound that have yielded
    /// equally many coordinates stand at the same place, and yield the
    /// same coordinates from there on.
    pub proof fn lemma_deterministic(&self, other: &Self)
        requires
            self.center() == other.center(),
            self.max_distance() == other.max_distance(),
            self.emitted() == other.emitted(),
            chebyshev_cursor(self.max_distance().value(), self.ring(), self.pos()),
            chebyshev_cursor(other.max_distance().value(), other.ring(), other.pos()),
        ensures
            self.ring() == other.ring(),
            self.pos() == other.pos(),
            self.upcoming() == other.upcoming(),
            self.pending() == other.pending(),
    {
        lemma_chebyshev_index_unique(self.ring(), self.pos(), other.ring(), other.pos());
    }

    /// A walk around `(x, y)` that stands at its centre.
    pub fn new(x: I, y: I, max_distance: I) -> (it: Self)
        ensures
            it.center() == (x, y),
            it.max_distance() == max_distance,
            it.ring() == 0,
            it.pos() == 0,
            it.pending() == chebyshev_walk((x, y), max_distance.value()),
    {
        ChebyshevIterator {
            max_distance,
            start_x: x,
            start_y: y,
            x: Offset::zero(),
            y: Offset::zero(),
            ring: I::zero(),
            leg: Leg::Center,
        }
    }
}

impl<I: Int> Iterator for ChebyshevIterator<I> {
    type Item = (I, I);

    /// Yields the coordinate that the walk stands at and moves on to the
    /// next one, on this ring or at the start of the next. Yields nothing,
    /// and stays, once all rings are visited.
    fn next(&mut self) -> (r: Option<(I, I)>)
        ensures
            r == old(self).upcoming(),
            final(self).center() == old(self).center(),
            final(self).max_distance() == old(self).max_distance(),
            chebyshev_cursor(
                final(self).max_distance().value(),
                final(self).ring(),
                final(self).pos(),
            ),
            old(self).exhausted() ==> *final(self) == *old(self),
            !old(self).exhausted() ==> (final(self).ring(), final(self).pos())
                == chebyshev_successor(old(self).ring(), old(self).pos()),
            !old(self).exhausted() ==> final(self).emitted() == old(self).emitted() + 1,
    {
        proof {
            use_type_invariant(&*self);
            I::lemma_range();
            self.ring.lemma_value();
            self.max_distance.lemma_value();
            lemma_chebyshev_index_step(self.ring(), self.pos());
            lemma_chebyshev_total(self.max_distance.value(), self.ring(), self.pos());
            lemma_chebyshev_cursor_at_index(self.ring(), self.pos());
        }
        let ghost before = *self;
        let one: I = I::one();
        match self.leg {
            Leg::Center => {},
            _ => {
                if !self.ring.less_than(self.max_distance) {
                    return None;
                }
            },
        }
        let out: (I, I) = (self.x.shift(self.start_x), self.y.shift(self.start_y));
        let mut x: Offset<I> = self.x;
        let mut y: Offset<I> = self.y;
        let mut ring: I = self.ring;
        let mut leg: Leg = self.leg;
        match self.leg {
            Leg::Center => {
                x = x.inc();
                ring = one;
                leg = Leg::Top;
            },
            Leg::Top => {
                y = y.inc();
                if y.is_at(ring) {
                    leg = Leg::Left;
                }
            },
            Leg::Left => {
                x = x.dec();
                if x.is_opposite(ring) {
                    leg = Leg::Bottom;
                }
            },
            Leg::Bottom => {
                y = y.dec();
                if y.is_opposite(ring) {
                    leg = Leg::Right;
                }
            },
            Leg::Right => {
                let outer: I = ring.wrapping_add(one);
                x = x.inc();
                if x.is_at(outer) {
                    ring = outer;
                    leg = Leg::Top;
                }
            },
        }
        *self = ChebyshevIterator {
            max_distance: self.max_distance,
            start_x: self.start_x,
            start_y: self.start_y,
            x,
            y,
            ring,
            leg,
        };
        proof {
            lemma_chebyshev_total(self.max_distance.value(), self.ring(), self.pos());
            assert(self.pending() =~= before.pending().drop_first());
        }
        Some(out)
    }
}

impl<I: Int> vstd::std_specs::iter::IteratorSpecImpl for ChebyshevIterator<I> {
    open spec fn obeys_prophetic_iter_laws(&self) -> bool {
        true
    }

    open spec fn remaining(&self) -> Seq<Self::Item> {
        self.pending()
    }

    open spec fn will_return_none(&self) -> bool {
        true
    }

    open spec fn decrease(&self) -> Option<nat> {
        Some((chebyshev_total(self.max_distance().value()) - self.emitted()) as nat)
    }

    open spec fn initial_value_relation(&self, init: &Self) -> bool {
        *self == *init
    }

    open spec fn peek(&self, index: int) -> Option<Self::Item> {
        if 0 <= index < self.pending().len() {
            Some(self.pending()[index])
        } else {
            None
        }
    }
}

/// A walk that has yielded `None` yields `None` from then on.
impl<I: Int> core::iter::FusedIterator for ChebyshevIterator<I> {

}

impl<I: Int> Clone for ChebyshevIterator<I> {
    /// A walk that stands where this one stands.
    fn clone(&self) -> (r: Self)
        ensures
            r == *self,
    {
        proof {
            use_type_invariant(self);
        }
        ChebyshevIterator {
            max_distance: self.max_distance,
            start_x: self.start_x,
            start_y: self.start_y,
            x: self.x,
            y: self.y,
            ring: self.ring,
            leg: self.leg,
        }
    }
}

} // verus!
