use fractal_atlas::atlas::{partition, AtlasTile, Range, Rect};

#[test]
fn single_tile_grid() {
    let tiles = partition(1);
    assert_eq!(tiles.len(), 1);
    assert_eq!(tiles[0].cell, Rect { x: Range { min: 0, max: 1 }, y: Range { min: 0, max: 1 } });
}

#[test]
fn empty_grid_has_no_tiles() {
    assert!(partition(0).is_empty());
}

#[test]
fn tiles_cover_grid_exactly() {
    let g: u32 = 5;
    let tiles = partition(g);
    assert_eq!(tiles.len(), 25);
    assert_eq!(tiles.iter().map(|t| t.cell.x.min).min(), Some(0));
    assert_eq!(tiles.iter().map(|t| t.cell.x.max).max(), Some(g));
    assert_eq!(tiles.iter().map(|t| t.cell.y.min).min(), Some(0));
    assert_eq!(tiles.iter().map(|t| t.cell.y.max).max(), Some(g));
    let mut seen = vec![false; 25];
    for t in &tiles {
        let k = (t.grid_x * g + t.grid_y) as usize;
        assert!(!seen[k]);
        seen[k] = true;
    }
    assert!(seen.iter().all(|s| *s));
}

#[test]
fn neighbours_share_bounds() {
    let g: u32 = 4;
    let tiles = partition(g);
    let at = |i: u32, j: u32| -> AtlasTile { tiles[(i * g + j) as usize] };
    for i in 0..g {
        for j in 0..g {
            assert_eq!((at(i, j).grid_x, at(i, j).grid_y), (i, j));
            if i + 1 < g {
                assert_eq!(at(i, j).cell.x.max, at(i + 1, j).cell.x.min);
            }
            if j + 1 < g {
                assert_eq!(at(i, j).cell.y.max, at(i, j + 1).cell.y.min);
            }
        }
    }
}
