//! Coordinates around a centre, in spiral order.
//!
//! A walk starts at its centre and then visits ring after ring of lattice
//! points around it, from the nearest outwards, in a fixed order within
//! each ring. There are three walks, which differ in what a ring is:
//!
//! - [`ChebyshevIterator`] visits squares: the ring `r` holds the points
//!   with `max(|dx|, |dy|) == r`, each once, from `(r, 1 - r)` by way of
//!   `(r, r)`, `(-r, r)` and `(-r, -r)` to `(r, -r)`.
//! - [`ManhattanIterator`] visits diamonds: the ring `r` holds the points
//!   with `|dx| + |dy| == r`, each once, from `(r, 0)` by way of `(0, r)`,
//!   `(-r, 0)` and `(0, -r)` to `(r - 1, -1)`.
//! - [`EuclideanIterator`] traces an eighth of a ring, the offsets
//!   `(0, r)` to `(r, r)`, and yields each of them together with its seven
//!   mirror images. The points of the ring `r` lie no nearer to the centre
//!   than `r` and no further from it than the corners of the square of
//!   that ring.
//!
//! A walk bounded by `max_distance` visits the rings `0` to
//! `max_distance - 1`. Ring `0` is the centre, which every walk yields
//! first, also with a bound below one. When its rings are visited a walk
//! yields `None`, however often it is asked.
//!
//! Coordinates are machine integers of any width, with or without a sign
//! (see [`Int`]). A coordinate that lies beyond the range of its type
//! wraps around to the other end of the range.
//!
//! ```
//! use spiral::ChebyshevIterator;
//!
//! for (x, y) in ChebyshevIterator::new(3, 3, 4) {
//!     // Visits a grid of 7 by 7 from its middle outwards.
//! }
//! ```

pub mod chebyshev;
pub mod euclidean;
pub mod integer;
pub mod manhattan;
mod offset;
pub mod signed;
pub mod unsigned;
pub mod walk;

pub use chebyshev::ChebyshevIterator;
pub use euclidean::EuclideanIterator;
pub use integer::Int;
pub use manhattan::ManhattanIterator;
