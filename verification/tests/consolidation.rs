use platformer_core::consolidate::{collider_shape, consolidate, Rect};
use platformer_core::Cell;

fn cells_of(coords: &[(i32, i32)]) -> Vec<Cell> {
    coords.iter().map(|&(x, y)| Cell { x, y }).collect()
}

#[test]
fn single_row_of_five_cells_is_one_rectangle() {
    let cells = cells_of(&[(0, 0), (1, 0), (2, 0), (3, 0), (4, 0)]);
    let rects = consolidate(&cells, 8, 4);
    assert_eq!(rects, vec![Rect { left: 0, right: 4, bottom: 0, top: 0 }]);
}

#[test]
fn two_separated_cells_are_two_unit_rectangles() {
    let cells = cells_of(&[(0, 0), (5, 0)]);
    let rects = consolidate(&cells, 8, 4);
    assert_eq!(
        rects,
        vec![
            Rect { left: 0, right: 0, bottom: 0, top: 0 },
            Rect { left: 5, right: 5, bottom: 0, top: 0 },
        ]
    );
}

#[test]
fn three_by_three_block_is_one_rectangle() {
    let mut coords = Vec::new();
    for y in 0..3 {
        for x in 0..3 {
            coords.push((x, y));
        }
    }
    let rects = consolidate(&cells_of(&coords), 8, 8);
    assert_eq!(rects, vec![Rect { left: 0, right: 2, bottom: 0, top: 2 }]);
}

#[test]
fn empty_cell_set_yields_no_rectangles() {
    let rects = consolidate(&Vec::new(), 16, 16);
    assert!(rects.is_empty());
}

#[test]
fn shifted_plate_starts_a_new_rectangle() {
    // Bottom row spans three columns, the row above only one: the shapes
    // differ, so two rectangles come out even though one would cover less.
    let cells = cells_of(&[(0, 0), (1, 0), (2, 0), (0, 1)]);
    let rects = consolidate(&cells, 8, 4);
    assert_eq!(
        rects,
        vec![
            Rect { left: 0, right: 2, bottom: 0, top: 0 },
            Rect { left: 0, right: 0, bottom: 1, top: 1 },
        ]
    );
}

#[test]
fn cells_touching_the_grid_edges_are_closed() {
    // Runs touching the right edge and columns reaching the top row rely on
    // the scan sentinels.
    let cells = cells_of(&[(2, 0), (3, 0), (3, 1)]);
    let rects = consolidate(&cells, 4, 2);
    assert_eq!(
        rects,
        vec![
            Rect { left: 2, right: 3, bottom: 0, top: 0 },
            Rect { left: 3, right: 3, bottom: 1, top: 1 },
        ]
    );
}

#[test]
fn a_full_column_fuses_into_one_rectangle() {
    let cells = cells_of(&[(2, 0), (2, 1), (2, 2), (2, 3)]);
    let rects = consolidate(&cells, 4, 4);
    assert_eq!(rects, vec![Rect { left: 2, right: 2, bottom: 0, top: 3 }]);
}

#[test]
fn a_checkerboard_yields_one_rectangle_per_cell() {
    let mut coords = Vec::new();
    for y in 0..4 {
        for x in 0..4 {
            if (x + y) % 2 == 0 {
                coords.push((x, y));
            }
        }
    }
    let rects = consolidate(&cells_of(&coords), 4, 4);
    assert_eq!(rects.len(), coords.len());
    for rect in &rects {
        assert_eq!(rect.left, rect.right);
        assert_eq!(rect.bottom, rect.top);
    }
}

#[test]
fn consolidation_is_deterministic() {
    let cells = cells_of(&[(0, 0), (1, 0), (1, 1), (4, 2), (4, 3), (5, 2), (5, 3)]);
    let first = consolidate(&cells, 8, 8);
    let second = consolidate(&cells, 8, 8);
    assert_eq!(first, second);
}

#[test]
fn rectangles_cover_exactly_and_never_overlap() {
    let cells = cells_of(&[
        (0, 0),
        (1, 0),
        (2, 0),
        (0, 1),
        (1, 1),
        (2, 1),
        (4, 1),
        (4, 2),
        (2, 3),
    ]);
    let rects = consolidate(&cells, 8, 8);
    let mut covered = 0usize;
    for x in 0..8 {
        for y in 0..8 {
            let occupied = cells.iter().any(|c| c.x == x && c.y == y);
            let covering = rects
                .iter()
                .filter(|r| r.left <= x && x <= r.right && r.bottom <= y && y <= r.top)
                .count();
            assert_eq!(covering, if occupied { 1 } else { 0 });
            covered += covering;
        }
    }
    assert_eq!(covered, cells.len());
}

#[test]
fn collider_shape_scales_to_world_units() {
    let rect = Rect { left: 0, right: 4, bottom: 1, top: 2 };
    let shape = collider_shape(&rect, 32);
    assert_eq!(shape.width, 160);
    assert_eq!(shape.height, 64);
    assert_eq!(shape.center_x2, 160);
    assert_eq!(shape.center_y2, 128);
}
