use axgeom::vec2;
use axgeom::Vec2;
use dists::grid::from_center;
use dists::grid::from_top_left;
use dists::grid::CenterGrower;
use dists::grid::CornerGrower;
use dists::ratio::AspectRatio;

fn square() -> AspectRatio {
    AspectRatio::new(1, 1).unwrap()
}

fn pairs<T: Copy>(cells: &[Vec2<T>]) -> Vec<(T, T)> {
    cells.iter().map(|c| (c.x, c.y)).collect()
}

#[test]
fn single_point_is_the_seed_cell() {
    for ar in [square(), AspectRatio::new(16, 9).unwrap(), AspectRatio::new(1, 5).unwrap()] {
        assert_eq!(pairs(&from_center(ar, 1)), vec![(0, 0)]);
        let (cells, extent) = from_top_left(ar, 1);
        assert_eq!(pairs(&cells), vec![(0, 0)]);
        assert_eq!(extent, vec2(1, 1));
    }
}

#[test]
fn center_five_points_square_ratio() {
    let cells = from_center(square(), 5);
    assert_eq!(pairs(&cells), vec![(0, 0), (1, 0), (0, 1), (1, 1), (-1, 0)]);
}

#[test]
fn center_nine_points_fill_a_three_by_three_square() {
    let cells = from_center(square(), 9);
    assert_eq!(
        pairs(&cells),
        vec![(0, 0), (1, 0), (0, 1), (1, 1), (-1, 0), (-1, 1), (-1, -1), (0, -1), (1, -1)]
    );
    let min_x = cells.iter().map(|c| c.x).min().unwrap();
    let max_x = cells.iter().map(|c| c.x).max().unwrap();
    let min_y = cells.iter().map(|c| c.y).min().unwrap();
    let max_y = cells.iter().map(|c| c.y).max().unwrap();
    assert_eq!((max_x - min_x + 1, max_y - min_y + 1), (3, 3));
    let mut sorted = pairs(&cells);
    sorted.sort();
    sorted.dedup();
    assert_eq!(sorted.len(), 9);
}

#[test]
fn center_wide_ratio_grows_columns_first() {
    let ar = AspectRatio::new(3, 1).unwrap();
    assert_eq!(
        pairs(&from_center(ar, 8)),
        vec![(0, 0), (1, 0), (-1, 0), (2, 0), (-1, 1), (0, 1), (1, 1), (2, 1)]
    );
    // Cut short in the middle of the row.
    assert_eq!(
        pairs(&from_center(ar, 6)),
        vec![(0, 0), (1, 0), (-1, 0), (2, 0), (-1, 1), (0, 1)]
    );
}

#[test]
fn corner_nine_points_square_ratio() {
    let (cells, extent) = from_top_left(square(), 9);
    assert_eq!(
        pairs(&cells),
        vec![(0, 0), (1, 0), (0, 1), (1, 1), (2, 0), (2, 1), (0, 2), (1, 2), (2, 2)]
    );
    assert_eq!(extent, vec2(3, 3));
}

#[test]
fn corner_extent_ignores_a_ring_cut_short() {
    let (cells, extent) = from_top_left(square(), 3);
    assert_eq!(pairs(&cells), vec![(0, 0), (1, 0), (0, 1)]);
    assert_eq!(extent, vec2(2, 1));
    let (_, extent) = from_top_left(square(), 4);
    assert_eq!(extent, vec2(2, 2));
}

#[test]
fn zero_points_yield_nothing() {
    assert!(from_center(square(), 0).is_empty());
    let (cells, extent) = from_top_left(square(), 0);
    assert!(cells.is_empty());
    assert_eq!(extent, vec2(0, 0));
}

#[test]
fn exact_count_then_stops() {
    for num in [1usize, 2, 7, 50, 333] {
        for ar in [square(), AspectRatio::new(4, 3).unwrap(), AspectRatio::new(1, 7).unwrap()] {
            assert_eq!(from_center(ar, num).len(), num);
            assert_eq!(from_top_left(ar, num).0.len(), num);
            let mut g = CenterGrower::new(ar, num);
            let mut n = 0;
            while g.next().is_some() {
                n += 1;
            }
            assert_eq!(n, num);
            assert!(g.next().is_none());
            assert!(g.next().is_none());
            let mut g = CornerGrower::new(ar, num);
            let mut n = 0;
            while g.next().is_some() {
                n += 1;
            }
            assert_eq!(n, num);
            assert!(g.next().is_none());
        }
    }
}

#[test]
fn runs_are_deterministic() {
    let ar = AspectRatio::new(5, 2).unwrap();
    assert_eq!(from_center(ar, 97), from_center(ar, 97));
    assert_eq!(from_top_left(ar, 97), from_top_left(ar, 97));
}

#[test]
fn cells_are_distinct() {
    let ar = AspectRatio::new(7, 3).unwrap();
    let mut cells = pairs(&from_center(ar, 500));
    cells.sort();
    cells.dedup();
    assert_eq!(cells.len(), 500);
    let mut cells = pairs(&from_top_left(ar, 500).0);
    cells.sort();
    cells.dedup();
    assert_eq!(cells.len(), 500);
}

#[test]
fn frontier_area_matches_points_at_ring_ends() {
    // With a square target, complete frontiers are 1, 2, 4, 6, 9, 12, 16 cells.
    for (num, w, h) in [(1usize, 1usize, 1usize), (2, 2, 1), (4, 2, 2), (6, 3, 2), (9, 3, 3), (12, 4, 3), (16, 4, 4)] {
        let (_, extent) = from_top_left(square(), num);
        assert_eq!(extent, vec2(w, h));
        assert_eq!(extent.x * extent.y, num);
    }
}

#[test]
fn shape_converges_to_ratio() {
    let ar = AspectRatio::new(16, 9).unwrap();
    let (_, extent) = from_top_left(ar, 100_000);
    let (w, h) = (extent.x as i64, extent.y as i64);
    assert!(w * 9 - h * 16 <= 9);
    assert!(h * 16 - w * 9 < 16);
    let ratio = w as f64 / h as f64;
    assert!((ratio - 16.0 / 9.0).abs() < 0.01);
}

#[test]
fn corner_first_cell_then_column() {
    let mut g = CornerGrower::new(square(), 2);
    assert_eq!(g.extent(), vec2(0, 0));
    assert_eq!(g.next(), Some(vec2(0, 0)));
    assert_eq!(g.extent(), vec2(1, 1));
    assert_eq!(g.next(), Some(vec2(1, 0)));
    assert_eq!(g.extent(), vec2(2, 1));
    assert_eq!(g.next(), None);
}

#[test]
fn tall_ratio_grows_rows() {
    let ar = AspectRatio::new(1, 3).unwrap();
    assert_eq!(
        pairs(&from_center(ar, 4)),
        vec![(0, 0), (0, 1), (0, -1), (1, -1)]
    );
    let (cells, extent) = from_top_left(ar, 6);
    assert_eq!(pairs(&cells), vec![(0, 0), (0, 1), (0, 2), (1, 0), (1, 1), (1, 2)]);
    assert_eq!(extent, vec2(2, 3));
}

#[test]
fn aspect_ratio_rejects_zero_sides() {
    assert!(AspectRatio::new(0, 1).is_none());
    assert!(AspectRatio::new(1, 0).is_none());
    assert!(AspectRatio::new(0, 0).is_none());
    let ar = AspectRatio::new(16, 9).unwrap();
    assert_eq!((ar.width, ar.height), (16, 9));
}

#[test]
fn aspect_ratio_comparison() {
    let ar = AspectRatio::new(3, 2).unwrap();
    assert!(!ar.exceeded_by(3, 2));
    assert!(ar.exceeded_by(4, 2));
    assert!(!ar.exceeded_by(2, 2));
    let sq = AspectRatio::new(1, 1).unwrap();
    assert!(sq.exceeded_by(u64::MAX, u64::MAX - 1));
    assert!(!sq.exceeded_by(u64::MAX, u64::MAX));
}

#[test]
fn pulling_matches_collecting() {
    let ar = AspectRatio::new(2, 3).unwrap();
    let mut g = CenterGrower::new(ar, 40);
    let mut pulled = Vec::new();
    while let Some(c) = g.next() {
        pulled.push(c);
    }
    assert_eq!(pulled, from_center(ar, 40));
    let mut g = CornerGrower::new(ar, 40);
    let mut pulled = Vec::new();
    while let Some(c) = g.next() {
        pulled.push(c);
    }
    let (cells, extent) = from_top_left(ar, 40);
    assert_eq!(pulled, cells);
    assert_eq!(g.extent(), extent);
}
