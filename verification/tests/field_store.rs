use stable_fluids::field::Field;

fn numbered(width: usize, height: usize) -> Field<i64> {
    let mut f = Field::new(width, height, 0i64).expect("a grid with positive sides");
    for y in 0..height {
        for x in 0..width {
            assert!(f.set(x, y, (100 * y + x) as i64));
        }
    }
    f
}

#[test]
fn new_field_is_filled() {
    let f = Field::new(4, 3, 7i64).expect("a grid with positive sides");
    assert_eq!(f.width(), 4);
    assert_eq!(f.height(), 3);
    for y in 0..3 {
        for x in 0..4 {
            assert_eq!(f.get(x, y), Some(7));
        }
    }
}

#[test]
fn new_field_rejects_empty_sides() {
    assert!(Field::new(0, 3, 0i64).is_none());
    assert!(Field::new(3, 0, 0i64).is_none());
    assert!(Field::new(0, 0, 0i64).is_none());
}

#[test]
fn new_field_rejects_a_cell_count_past_usize() {
    assert!(Field::new(usize::MAX, 2, 0u8).is_none());
    assert!(Field::new(2, usize::MAX, 0u8).is_none());
    assert!(Field::new(usize::MAX / 2 + 1, 2, 0u8).is_none());
}

#[test]
fn index_is_row_major() {
    let f = Field::new(5, 4, 0i64).expect("a grid with positive sides");
    assert_eq!(f.index(0, 0), Some(0));
    assert_eq!(f.index(4, 0), Some(4));
    assert_eq!(f.index(0, 1), Some(5));
    assert_eq!(f.index(3, 2), Some(13));
    assert_eq!(f.index(4, 3), Some(19));
}

#[test]
fn index_outside_is_none() {
    let f = Field::new(5, 4, 0i64).expect("a grid with positive sides");
    assert_eq!(f.index(5, 0), None);
    assert_eq!(f.index(0, 4), None);
    assert_eq!(f.index(6, 1), None);
    assert_eq!(f.index(usize::MAX, usize::MAX), None);
}

#[test]
fn get_does_not_wrap_into_the_next_row() {
    let f = numbered(5, 4);
    assert_eq!(f.get(1, 1), Some(101));
    assert_eq!(f.get(6, 0), None);
    assert_eq!(f.get(5, 2), None);
}

#[test]
fn read_returns_what_was_set() {
    let f = numbered(3, 3);
    assert_eq!(f.read(0, 0), 0);
    assert_eq!(f.read(2, 1), 102);
    assert_eq!(f.read(1, 2), 201);
}

#[test]
fn set_changes_one_cell() {
    let mut f = numbered(4, 4);
    assert!(f.set(2, 1, -9));
    for y in 0..4 {
        for x in 0..4 {
            let expected = if (x, y) == (2, 1) { -9 } else { (100 * y + x) as i64 };
            assert_eq!(f.get(x, y), Some(expected));
        }
    }
}

#[test]
fn set_outside_changes_nothing() {
    let mut f = numbered(4, 4);
    assert!(!f.set(4, 1, -9));
    assert!(!f.set(1, 4, -9));
    assert!(!f.set(5, 0, -9));
    for y in 0..4 {
        for x in 0..4 {
            assert_eq!(f.get(x, y), Some((100 * y + x) as i64));
        }
    }
}

#[test]
fn blank_has_the_same_shape() {
    let f = numbered(6, 2);
    let b = f.blank(-1);
    assert_eq!(b.width(), 6);
    assert_eq!(b.height(), 2);
    for y in 0..2 {
        for x in 0..6 {
            assert_eq!(b.get(x, y), Some(-1));
        }
    }
    assert_eq!(f.get(5, 1), Some(105));
}

#[test]
fn duplicate_is_equal_and_independent() {
    let mut f = numbered(4, 3);
    let copy = f.duplicate();
    assert!(f.set(1, 1, -5));
    assert_eq!(copy.width(), 4);
    assert_eq!(copy.height(), 3);
    for y in 0..3 {
        for x in 0..4 {
            assert_eq!(copy.get(x, y), Some((100 * y + x) as i64));
        }
    }
    assert_eq!(f.get(1, 1), Some(-5));
}

#[test]
fn pin_border_overwrites_the_ring_only() {
    let mut f = numbered(5, 4);
    f.pin_border(-1);
    for y in 0..4 {
        for x in 0..5 {
            let ring = x == 0 || y == 0 || x == 4 || y == 3;
            let expected = if ring { -1 } else { (100 * y + x) as i64 };
            assert_eq!(f.get(x, y), Some(expected));
        }
    }
}

#[test]
fn pin_border_covers_a_grid_without_interior() {
    let mut f = numbered(2, 5);
    f.pin_border(-1);
    for y in 0..5 {
        for x in 0..2 {
            assert_eq!(f.get(x, y), Some(-1));
        }
    }
    let mut g = numbered(1, 1);
    g.pin_border(-1);
    assert_eq!(g.get(0, 0), Some(-1));
}

#[test]
fn mirror_border_copies_the_nearest_interior_cell() {
    let mut f = numbered(5, 4);
    f.mirror_border();
    for y in 0..4usize {
        for x in 0..5usize {
            let nx = x.clamp(1, 3);
            let ny = y.clamp(1, 2);
            assert_eq!(f.get(x, y), Some((100 * ny + nx) as i64));
        }
    }
}

#[test]
fn mirror_border_on_the_smallest_grid_with_an_interior() {
    let mut f = numbered(3, 3);
    f.mirror_border();
    for y in 0..3 {
        for x in 0..3 {
            assert_eq!(f.get(x, y), Some(101));
        }
    }
}

#[test]
fn mirror_border_leaves_a_grid_without_interior() {
    let mut f = numbered(2, 6);
    f.mirror_border();
    for y in 0..6 {
        for x in 0..2 {
            assert_eq!(f.get(x, y), Some((100 * y + x) as i64));
        }
    }
}
