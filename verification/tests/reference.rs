use spiral::{ChebyshevIterator, ManhattanIterator};

fn chebyshev_offsets(rings: i64) -> Vec<(i64, i64)> {
    let mut out: Vec<(i64, i64)> = vec![(0, 0)];
    for r in 1..rings {
        let mut x: i64 = r;
        let mut y: i64 = 1 - r;
        out.push((x, y));
        while y < r {
            y += 1;
            out.push((x, y));
        }
        while x > -r {
            x -= 1;
            out.push((x, y));
        }
        while y > -r {
            y -= 1;
            out.push((x, y));
        }
        while x < r {
            x += 1;
            out.push((x, y));
        }
    }
    out
}

fn manhattan_offsets(rings: i64) -> Vec<(i64, i64)> {
    let mut out: Vec<(i64, i64)> = vec![(0, 0)];
    for r in 1..rings {
        for t in 0..r {
            out.push((r - t, t));
        }
        for t in 0..r {
            out.push((-t, r - t));
        }
        for t in 0..r {
            out.push((t - r, -t));
        }
        for t in 0..r {
            out.push((t, t - r));
        }
    }
    out
}

#[test]
fn chebyshev_u8_with_the_greatest_bound() {
    let cx: u8 = 200;
    let cy: u8 = 3;
    let mut walk = ChebyshevIterator::new(cx, cy, u8::MAX);
    for (dx, dy) in chebyshev_offsets(255) {
        let x: u8 = (cx as i64 + dx).rem_euclid(256) as u8;
        let y: u8 = (cy as i64 + dy).rem_euclid(256) as u8;
        assert_eq!(walk.next(), Some((x, y)));
    }
    assert_eq!(walk.next(), None);
    assert_eq!(walk.next(), None);
}

#[test]
fn manhattan_u8_with_the_greatest_bound() {
    let cx: u8 = 200;
    let cy: u8 = 3;
    let mut walk = ManhattanIterator::new(cx, cy, u8::MAX);
    for (dx, dy) in manhattan_offsets(255) {
        let x: u8 = (cx as i64 + dx).rem_euclid(256) as u8;
        let y: u8 = (cy as i64 + dy).rem_euclid(256) as u8;
        assert_eq!(walk.next(), Some((x, y)));
    }
    assert_eq!(walk.next(), None);
    assert_eq!(walk.next(), None);
}

#[test]
fn chebyshev_i8_with_the_greatest_bound() {
    let cx: i8 = -100;
    let cy: i8 = 127;
    let mut walk = ChebyshevIterator::new(cx, cy, i8::MAX);
    for (dx, dy) in chebyshev_offsets(127) {
        let x: i8 = ((cx as i64 + dx + 128).rem_euclid(256) - 128) as i8;
        let y: i8 = ((cy as i64 + dy + 128).rem_euclid(256) - 128) as i8;
        assert_eq!(walk.next(), Some((x, y)));
    }
    assert_eq!(walk.next(), None);
    assert_eq!(walk.next(), None);
}

#[test]
fn manhattan_i8_with_the_greatest_bound() {
    let cx: i8 = -100;
    let cy: i8 = 127;
    let mut walk = ManhattanIterator::new(cx, cy, i8::MAX);
    for (dx, dy) in manhattan_offsets(127) {
        let x: i8 = ((cx as i64 + dx + 128).rem_euclid(256) - 128) as i8;
        let y: i8 = ((cy as i64 + dy + 128).rem_euclid(256) - 128) as i8;
        assert_eq!(walk.next(), Some((x, y)));
    }
    assert_eq!(walk.next(), None);
    assert_eq!(walk.next(), None);
}

#[test]
fn chebyshev_agrees_in_every_width() {
    let offsets = chebyshev_offsets(12);
    let mut a = ChebyshevIterator::new(7i16, -7i16, 12i16);
    let mut b = ChebyshevIterator::new(7i32, -7i32, 12i32);
    let mut c = ChebyshevIterator::new(7i64, -7i64, 12i64);
    let mut d = ChebyshevIterator::new(7i128, -7i128, 12i128);
    let mut e = ChebyshevIterator::new(7isize, -7isize, 12isize);
    let mut f = ChebyshevIterator::new(70u16, 70u16, 12u16);
    let mut g = ChebyshevIterator::new(70u32, 70u32, 12u32);
    let mut h = ChebyshevIterator::new(70u64, 70u64, 12u64);
    let mut i = ChebyshevIterator::new(70u128, 70u128, 12u128);
    let mut j = ChebyshevIterator::new(70usize, 70usize, 12usize);
    for (dx, dy) in offsets {
        assert_eq!(a.next(), Some(((7 + dx) as i16, (-7 + dy) as i16)));
        assert_eq!(b.next(), Some(((7 + dx) as i32, (-7 + dy) as i32)));
        assert_eq!(c.next(), Some((7 + dx, -7 + dy)));
        assert_eq!(d.next(), Some(((7 + dx) as i128, (-7 + dy) as i128)));
        assert_eq!(e.next(), Some(((7 + dx) as isize, (-7 + dy) as isize)));
        assert_eq!(f.next(), Some(((70 + dx) as u16, (70 + dy) as u16)));
        assert_eq!(g.next(), Some(((70 + dx) as u32, (70 + dy) as u32)));
        assert_eq!(h.next(), Some(((70 + dx) as u64, (70 + dy) as u64)));
        assert_eq!(i.next(), Some(((70 + dx) as u128, (70 + dy) as u128)));
        assert_eq!(j.next(), Some(((70 + dx) as usize, (70 + dy) as usize)));
    }
    assert_eq!(a.next(), None);
    assert_eq!(b.next(), None);
    assert_eq!(c.next(), None);
    assert_eq!(d.next(), None);
    assert_eq!(e.next(), None);
    assert_eq!(f.next(), None);
    assert_eq!(g.next(), None);
    assert_eq!(h.next(), None);
    assert_eq!(i.next(), None);
    assert_eq!(j.next(), None);
}

#[test]
fn manhattan_agrees_in_every_width() {
    let offsets = manhattan_offsets(12);
    let mut a = ManhattanIterator::new(7i16, -7i16, 12i16);
    let mut b = ManhattanIterator::new(7i32, -7i32, 12i32);
    let mut c = ManhattanIterator::new(7i64, -7i64, 12i64);
    let mut d = ManhattanIterator::new(7i128, -7i128, 12i128);
    let mut e = ManhattanIterator::new(7isize, -7isize, 12isize);
    let mut f = ManhattanIterator::new(70u16, 70u16, 12u16);
    let mut g = ManhattanIterator::new(70u32, 70u32, 12u32);
    let mut h = ManhattanIterator::new(70u64, 70u64, 12u64);
    let mut i = ManhattanIterator::new(70u128, 70u128, 12u128);
    let mut j = ManhattanIterator::new(70usize, 70usize, 12usize);
    for (dx, dy) in offsets {
        assert_eq!(a.next(), Some(((7 + dx) as i16, (-7 + dy) as i16)));
        assert_eq!(b.next(), Some(((7 + dx) as i32, (-7 + dy) as i32)));
        assert_eq!(c.next(), Some((7 + dx, -7 + dy)));
        assert_eq!(d.next(), Some(((7 + dx) as i128, (-7 + dy) as i128)));
        assert_eq!(e.next(), Some(((7 + dx) as isize, (-7 + dy) as isize)));
        assert_eq!(f.next(), Some(((70 + dx) as u16, (70 + dy) as u16)));
        assert_eq!(g.next(), Some(((70 + dx) as u32, (70 + dy) as u32)));
        assert_eq!(h.next(), Some(((70 + dx) as u64, (70 + dy) as u64)));
        assert_eq!(i.next(), Some(((70 + dx) as u128, (70 + dy) as u128)));
        assert_eq!(j.next(), Some(((70 + dx) as usize, (70 + dy) as usize)));
    }
    assert_eq!(a.next(), None);
    assert_eq!(b.next(), None);
    assert_eq!(c.next(), None);
    assert_eq!(d.next(), None);
    assert_eq!(e.next(), None);
    assert_eq!(f.next(), None);
    assert_eq!(g.next(), None);
    assert_eq!(h.next(), None);
    assert_eq!(i.next(), None);
    assert_eq!(j.next(), None);
}
