use spiral::{ChebyshevIterator, EuclideanIterator, ManhattanIterator};
use std::iter::FusedIterator;

fn manhattan_all(x: i32, y: i32, max_distance: i32) -> Vec<(i32, i32)> {
    ManhattanIterator::new(x, y, max_distance).collect()
}

fn chebyshev_all(x: i32, y: i32, max_distance: i32) -> Vec<(i32, i32)> {
    ChebyshevIterator::new(x, y, max_distance).collect()
}

#[test]
fn manhattan_order_around_two_two() {
    let expected: Vec<(i32, i32)> = vec![
        (2, 2),
        (3, 2),
        (2, 3),
        (1, 2),
        (2, 1),
        (4, 2),
        (3, 3),
        (2, 4),
        (1, 3),
        (0, 2),
        (1, 1),
        (2, 0),
        (3, 1),
    ];
    assert_eq!(manhattan_all(2, 2, 3), expected);
}

#[test]
fn manhattan_grid_around_two_two() {
    let rows: [[usize; 5]; 5] = [
        [0, 0, 12, 0, 0],
        [0, 11, 5, 13, 0],
        [10, 4, 1, 2, 6],
        [0, 9, 3, 7, 0],
        [0, 0, 8, 0, 0],
    ];
    let got = manhattan_all(2, 2, 3);
    assert_eq!(got.len(), 13);
    for (n, (x, y)) in got.iter().enumerate() {
        assert_eq!(rows[*y as usize][*x as usize], n + 1);
    }
}

#[test]
fn chebyshev_order_around_two_two() {
    let expected: Vec<(i32, i32)> = vec![
        (2, 2),
        (3, 2),
        (3, 3),
        (2, 3),
        (1, 3),
        (1, 2),
        (1, 1),
        (2, 1),
        (3, 1),
        (4, 1),
        (4, 2),
        (4, 3),
        (4, 4),
        (3, 4),
        (2, 4),
        (1, 4),
        (0, 4),
        (0, 3),
        (0, 2),
        (0, 1),
        (0, 0),
        (1, 0),
        (2, 0),
        (3, 0),
        (4, 0),
    ];
    assert_eq!(chebyshev_all(2, 2, 3), expected);
}

#[test]
fn chebyshev_fills_block_ring_by_ring() {
    let got = chebyshev_all(2, 2, 3);
    assert_eq!(got.len(), 25);
    let mut seen: [[bool; 5]; 5] = [[false; 5]; 5];
    for (n, (x, y)) in got.iter().enumerate() {
        assert!(!seen[*y as usize][*x as usize]);
        seen[*y as usize][*x as usize] = true;
        let distance: i32 = std::cmp::max((x - 2).abs(), (y - 2).abs());
        let ring: i32 = if n == 0 {
            0
        } else if n < 9 {
            1
        } else {
            2
        };
        assert_eq!(distance, ring);
    }
    for row in seen.iter() {
        for cell in row.iter() {
            assert!(*cell);
        }
    }
}

#[test]
fn chebyshev_grid_around_three_three() {
    let rows: [[usize; 7]; 7] = [
        [43, 44, 45, 46, 47, 48, 49],
        [42, 21, 22, 23, 24, 25, 26],
        [41, 20, 7, 8, 9, 10, 27],
        [40, 19, 6, 1, 2, 11, 28],
        [39, 18, 5, 4, 3, 12, 29],
        [38, 17, 16, 15, 14, 13, 30],
        [37, 36, 35, 34, 33, 32, 31],
    ];
    let got = chebyshev_all(3, 3, 4);
    assert_eq!(got.len(), 49);
    for (n, (x, y)) in got.iter().enumerate() {
        assert_eq!(rows[*y as usize][*x as usize], n + 1);
    }
}

#[test]
fn manhattan_grid_around_three_three() {
    let rows: [[usize; 7]; 7] = [
        [0, 0, 0, 23, 0, 0, 0],
        [0, 0, 22, 12, 24, 0, 0],
        [0, 21, 11, 5, 13, 25, 0],
        [20, 10, 4, 1, 2, 6, 14],
        [0, 19, 9, 3, 7, 15, 0],
        [0, 0, 18, 8, 16, 0, 0],
        [0, 0, 0, 17, 0, 0, 0],
    ];
    let got = manhattan_all(3, 3, 4);
    assert_eq!(got.len(), 25);
    for (n, (x, y)) in got.iter().enumerate() {
        assert_eq!(rows[*y as usize][*x as usize], n + 1);
    }
}

#[test]
fn bound_of_one_yields_the_centre_alone() {
    let mut m = ManhattanIterator::new(5i32, -7i32, 1i32);
    assert_eq!(m.next(), Some((5, -7)));
    assert_eq!(m.next(), None);
    assert_eq!(m.next(), None);

    let mut c = ChebyshevIterator::new(5i32, -7i32, 1i32);
    assert_eq!(c.next(), Some((5, -7)));
    assert_eq!(c.next(), None);
    assert_eq!(c.next(), None);
}

#[test]
fn bound_below_one_yields_the_centre_alone() {
    let mut m = ManhattanIterator::new(5i32, -7i32, 0i32);
    assert_eq!(m.next(), Some((5, -7)));
    assert_eq!(m.next(), None);
    assert_eq!(m.next(), None);

    let mut m = ManhattanIterator::new(5i64, -7i64, -3i64);
    assert_eq!(m.next(), Some((5, -7)));
    assert_eq!(m.next(), None);

    let mut m = ManhattanIterator::new(5u16, 7u16, 0u16);
    assert_eq!(m.next(), Some((5, 7)));
    assert_eq!(m.next(), None);

    let mut c = ChebyshevIterator::new(5i32, -7i32, 0i32);
    assert_eq!(c.next(), Some((5, -7)));
    assert_eq!(c.next(), None);
    assert_eq!(c.next(), None);

    let mut c = ChebyshevIterator::new(5i8, -7i8, i8::MIN);
    assert_eq!(c.next(), Some((5, -7)));
    assert_eq!(c.next(), None);

    let mut c = ChebyshevIterator::new(5usize, 7usize, 0usize);
    assert_eq!(c.next(), Some((5, 7)));
    assert_eq!(c.next(), None);
}

#[test]
fn exhausted_walks_stay_exhausted() {
    let mut m = ManhattanIterator::new(0i32, 0i32, 3i32);
    let mut count: usize = m.by_ref().count();
    assert_eq!(count, 13);
    for _ in 0..100 {
        assert_eq!(m.next(), None);
    }

    let mut c = ChebyshevIterator::new(0i32, 0i32, 3i32);
    count = c.by_ref().count();
    assert_eq!(count, 25);
    for _ in 0..100 {
        assert_eq!(c.next(), None);
    }
}

#[test]
fn chebyshev_wraps_past_the_greatest_value() {
    let got: Vec<(i8, i8)> = ChebyshevIterator::new(i8::MAX - 1, i8::MAX, 2i8).collect();
    let expected: Vec<(i8, i8)> = vec![
        (126, 127),
        (127, 127),
        (127, -128),
        (126, -128),
        (125, -128),
        (125, 127),
        (125, 126),
        (126, 126),
        (127, 126),
    ];
    assert_eq!(got, expected);
}

#[test]
fn manhattan_wraps_at_both_ends() {
    let got: Vec<(u8, u8)> = ManhattanIterator::new(0u8, 255u8, 3u8).collect();
    let expected: Vec<(u8, u8)> = vec![
        (0, 255),
        (1, 255),
        (0, 0),
        (255, 255),
        (0, 254),
        (2, 255),
        (1, 0),
        (0, 1),
        (255, 0),
        (254, 255),
        (255, 254),
        (0, 253),
        (1, 254),
    ];
    assert_eq!(got, expected);
}

#[test]
fn chebyshev_wraps_below_zero() {
    let got: Vec<(u32, u32)> = ChebyshevIterator::new(0u32, 0u32, 2u32).collect();
    let top: u32 = u32::MAX;
    let expected: Vec<(u32, u32)> = vec![
        (0, 0),
        (1, 0),
        (1, 1),
        (0, 1),
        (top, 1),
        (top, 0),
        (top, top),
        (0, top),
        (1, top),
    ];
    assert_eq!(got, expected);
}

#[test]
fn walks_far_from_zero_in_wide_types() {
    let mut walk = ManhattanIterator::new(i128::MAX, i128::MIN, 2i128);
    assert_eq!(walk.next(), Some((i128::MAX, i128::MIN)));
    assert_eq!(walk.next(), Some((i128::MIN, i128::MIN)));
    assert_eq!(walk.next(), Some((i128::MAX, i128::MIN + 1)));
    assert_eq!(walk.next(), Some((i128::MAX - 1, i128::MIN)));
    assert_eq!(walk.next(), Some((i128::MAX, i128::MAX)));
    assert_eq!(walk.next(), None);

    let mut walk = ChebyshevIterator::new(u64::MAX, 0u64, u64::MAX);
    assert_eq!(walk.next(), Some((u64::MAX, 0)));
    assert_eq!(walk.next(), Some((0, 0)));
    assert_eq!(walk.next(), Some((0, 1)));
    assert_eq!(walk.next(), Some((u64::MAX, 1)));
    assert_eq!(walk.next(), Some((u64::MAX - 1, 1)));
    assert_eq!(walk.next(), Some((u64::MAX - 1, 0)));
    assert_eq!(walk.next(), Some((u64::MAX - 1, u64::MAX)));
    assert_eq!(walk.next(), Some((u64::MAX, u64::MAX)));
    assert_eq!(walk.next(), Some((0, u64::MAX)));
    assert_eq!(walk.next(), Some((1, u64::MAX)));
}

#[test]
fn a_clone_goes_on_from_where_the_walk_stands() {
    let mut walk = ChebyshevIterator::new(0i32, 0i32, 4i32);
    for _ in 0..11 {
        walk.next();
    }
    let mut twin = walk.clone();
    loop {
        let a = walk.next();
        let b = twin.next();
        assert_eq!(a, b);
        if a.is_none() {
            break;
        }
    }

    let mut walk = ManhattanIterator::new(0i32, 0i32, 4i32);
    for _ in 0..11 {
        walk.next();
    }
    let mut twin = walk.clone();
    loop {
        let a = walk.next();
        let b = twin.next();
        assert_eq!(a, b);
        if a.is_none() {
            break;
        }
    }
}

#[test]
fn walks_can_be_printed() {
    let walk = ChebyshevIterator::new(1i32, 2i32, 3i32);
    assert!(format!("{:?}", walk).contains("ChebyshevIterator"));
    let walk = ManhattanIterator::new(1i32, 2i32, 3i32);
    assert!(format!("{:?}", walk).contains("ManhattanIterator"));
}

fn count_fused<T: FusedIterator>(walk: T) -> usize {
    walk.count()
}

#[test]
fn walks_are_fused() {
    assert_eq!(count_fused(ChebyshevIterator::new(0i32, 0i32, 2i32)), 9);
    assert_eq!(count_fused(ManhattanIterator::new(0i32, 0i32, 2i32)), 5);
    assert_eq!(count_fused(EuclideanIterator::new(0i32, 0i32, 2i32)), 17);
}
