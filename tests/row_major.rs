use axgeom::vec2;
use dists::grid_iter;
use dists::row_major::GridCursor;

fn drain(mut it: dists::GridIter) -> Vec<[usize; 2]> {
    let mut out = Vec::new();
    while let Some(c) = it.next() {
        out.push(c);
    }
    assert_eq!(it.next(), None);
    out
}

#[test]
fn grid_iter_walks_each_cell_once_row_by_row() {
    assert_eq!(drain(grid_iter([2, 2])), vec![[0, 0], [1, 0], [0, 1], [1, 1]]);
    assert_eq!(drain(grid_iter([3, 1])), vec![[0, 0], [1, 0], [2, 0]]);
    assert_eq!(drain(grid_iter([1, 1])), vec![[0, 0]]);
    assert_eq!(drain(grid_iter([1, 3])), vec![[0, 0], [0, 1], [0, 2]]);
}

#[test]
fn grid_iter_covers_the_block_exactly() {
    let cells = drain(grid_iter([7, 5]));
    assert_eq!(cells.len(), 35);
    for (i, c) in cells.iter().enumerate() {
        assert_eq!(*c, [i % 7, i / 7]);
    }
}

#[test]
fn grid_iter_without_rows_is_empty() {
    assert!(drain(grid_iter([3, 0])).is_empty());
    assert!(drain(grid_iter([0, 0])).is_empty());
}

#[test]
fn grid_iter_without_columns_is_empty() {
    assert!(drain(grid_iter([0, 3])).is_empty());
}

#[test]
fn cursor_covers_the_block() {
    let mut c = GridCursor::with_rows(4, 2);
    assert_eq!(c.dim(), vec2(2, 2));
    let mut out = Vec::new();
    while let Some(p) = c.next() {
        out.push((p.x, p.y));
    }
    assert_eq!(out, vec![(0, 0), (1, 0), (0, 1), (1, 1)]);
    assert_eq!(c.next(), None);
    assert_eq!(c.next(), None);
}

#[test]
fn cursor_columns_come_from_integer_division() {
    let mut c = GridCursor::with_rows(10, 3);
    assert_eq!(c.dim(), vec2(3, 3));
    let mut n = 0;
    while c.next().is_some() {
        n += 1;
    }
    assert_eq!(n, 9);
    let mut c = GridCursor::with_rows(1, 2);
    assert_eq!(c.dim(), vec2(0, 2));
    assert_eq!(c.next(), None);
}
