use caravan::coords::{Coords, CoordsDelta, Dimensions, Grid, Rect};

#[test]
fn manhattan_distance() {
    let a = Coords::new(1, 2);
    let b = Coords::new(-3, 5);
    assert_eq!(a.dist(b), 7);
    assert_eq!(b.dist(a), 7);
    assert_eq!(a.dist(a), 0);
}

#[test]
fn coords_arithmetic() {
    let c = Coords::new(3, 4).shifted(CoordsDelta::new(-1, 2));
    assert_eq!(c, Coords::new(2, 6));
    let d = Coords::new(5, 5).delta_from(Coords::new(2, 7));
    assert_eq!(d, CoordsDelta::new(3, -2));
    assert_eq!(CoordsDelta::new(1, -2).neg(), CoordsDelta::new(-1, 2));
}

#[test]
fn four_directions_in_scan_order() {
    let dirs = CoordsDelta::iter_4_directions();
    assert_eq!(
        dirs,
        vec![
            CoordsDelta::new(0, -1),
            CoordsDelta::new(1, 0),
            CoordsDelta::new(0, 1),
            CoordsDelta::new(-1, 0),
        ]
    );
}

#[test]
fn dimensions_contains_and_index() {
    let d = Dimensions::new(4, 3);
    assert!(d.contains(Coords::new(0, 0)));
    assert!(d.contains(Coords::new(3, 2)));
    assert!(!d.contains(Coords::new(4, 0)));
    assert!(!d.contains(Coords::new(0, 3)));
    assert!(!d.contains(Coords::new(-1, 1)));
    assert_eq!(d.index_of_coords(Coords::new(2, 1)), Some(6));
    assert_eq!(d.index_of_coords(Coords::new(3, 2)), Some(11));
    assert_eq!(d.index_of_coords(Coords::new(4, 2)), None);
    assert_eq!(d.area(), 12);
    assert_eq!(Dimensions::square(5), Dimensions::new(5, 5));
}

#[test]
fn rect_is_half_open() {
    let r = Rect::xywh(2, 3, 4, 5);
    assert_eq!(r.top(), 3);
    assert_eq!(r.left(), 2);
    assert_eq!(r.bottom_excluded(), 8);
    assert_eq!(r.right_excluded(), 6);
    assert!(r.contains(Coords::new(2, 3)));
    assert!(r.contains(Coords::new(5, 7)));
    assert!(!r.contains(Coords::new(6, 7)));
    assert!(!r.contains(Coords::new(5, 8)));
    assert!(!r.contains(Coords::new(1, 3)));
}

#[test]
fn rect_tile_and_margin() {
    let t = Rect::tile(Coords::new(2, 3), 16);
    assert_eq!(t, Rect::xywh(32, 48, 16, 16));
    let m = Rect::xywh(10, 10, 4, 4).add_margin(2);
    assert_eq!(m, Rect::xywh(8, 8, 8, 8));
    let shrunk = Rect::xywh(10, 10, 4, 4).add_margin(-1);
    assert_eq!(shrunk, Rect::xywh(11, 11, 2, 2));
}

#[test]
fn rect_iteration_is_row_major_and_finite() {
    let mut it = Rect::xywh(1, 1, 2, 2).iter();
    assert_eq!(it.next(), Some(Coords::new(1, 1)));
    assert_eq!(it.next(), Some(Coords::new(2, 1)));
    assert_eq!(it.next(), Some(Coords::new(1, 2)));
    assert_eq!(it.next(), Some(Coords::new(2, 2)));
    assert_eq!(it.next(), None);
    assert_eq!(it.next(), None);
}

#[test]
fn empty_rect_iterates_nothing() {
    let mut it = Dimensions::new(0, 3).iter();
    assert_eq!(it.next(), None);
    let mut it = Rect::xywh(0, 0, -2, 3).iter();
    assert_eq!(it.next(), None);
}

#[test]
fn dimensions_iteration_counts_area() {
    let mut it = Dimensions::new(3, 2).iter();
    let mut n = 0;
    let mut last = None;
    while let Some(c) = it.next() {
        n += 1;
        last = Some(c);
    }
    assert_eq!(n, 6);
    assert_eq!(last, Some(Coords::new(2, 1)));
}

#[test]
fn grid_get_outside_is_none() {
    let g = Grid::new(Dimensions::new(3, 2), |c: Coords| c.x * 10 + c.y);
    assert_eq!(g.get(Coords::new(2, 1)), Some(&21));
    assert_eq!(g.get(Coords::new(0, 0)), Some(&0));
    assert_eq!(g.get(Coords::new(3, 0)), None);
    assert_eq!(g.get(Coords::new(0, -1)), None);
}

#[test]
fn grid_get_mut_and_set() {
    let mut g = Grid::new(Dimensions::new(2, 2), |_c: Coords| 0u8);
    *g.get_mut(Coords::new(1, 0)).unwrap() = 7;
    g.set(Coords::new(0, 1), 9);
    assert_eq!(g.get(Coords::new(1, 0)), Some(&7));
    assert_eq!(g.get(Coords::new(0, 1)), Some(&9));
    assert_eq!(g.get(Coords::new(0, 0)), Some(&0));
    assert!(g.get_mut(Coords::new(2, 2)).is_none());
}

#[test]
fn concatenation_reads_left_then_shifted_right() {
    let a = Grid::new(Dimensions::new(2, 3), |c: Coords| (0, c.x, c.y));
    let b = Grid::new(Dimensions::new(3, 3), |c: Coords| (1, c.x, c.y));
    let joined = a.clone().add_to_right(b.clone());
    assert_eq!(joined.dims, Dimensions::new(5, 3));
    for y in 0..3 {
        for x in 0..5 {
            let c = Coords::new(x, y);
            if x < 2 {
                assert_eq!(joined.get(c), a.get(c));
            } else {
                assert_eq!(joined.get(c), b.get(Coords::new(x - 2, y)));
            }
        }
    }
    assert_eq!(joined.get(Coords::new(4, 2)), Some(&(1, 2, 2)));
}

#[test]
fn concatenation_onto_empty_grid_gives_right() {
    let empty: Grid<u32> = Grid::of_size_zero();
    let b = Grid::new(Dimensions::new(3, 2), |c: Coords| (c.x + c.y) as u32);
    let joined = empty.add_to_right(b);
    assert_eq!(joined.dims, Dimensions::new(3, 2));
    assert_eq!(joined.get(Coords::new(2, 1)), Some(&3));
}
