//! Cutting a global rectangle of the plane into a `G x G` grid of tiles.
//!
//! A tile's bounds are kept in grid units: tile `(i, j)` spans
//! `[i, i + 1] x [j, j + 1]` of the grid `[0, G] x [0, G]`. Mapping grid
//! units onto the plane is affine and done per bound, so two tiles that share
//! a bound in grid units share it exactly in the plane too.
use vstd::prelude::*;
use vstd::arithmetic::div_mod::lemma_fundamental_div_mod_converse;

verus! {

/// A closed interval `[min, max]`.
#[derive(Clone, Copy, Debug, PartialEq)]
pub struct Range<T> {
    pub min: T,
    pub max: T,
}

/// A rectangle: `x` along the real axis, `y` along the imaginary one.
#[derive(Clone, Copy, Debug, PartialEq)]
pub struct Rect<T> {
    pub x: Range<T>,
    pub y: Range<T>,
}

/// One tile of the atlas: its grid position and its bounds in grid units.
#[derive(Clone, Copy, Debug, PartialEq)]
pub struct AtlasTile {
    pub grid_x: u32,
    pub grid_y: u32,
    pub cell: Rect<u32>,
}

/// The tile at grid position `(i, j)`.
pub open spec fn tile_at(i: u32, j: u32) -> AtlasTile {
    AtlasTile {
        grid_x: i,
        grid_y: j,
        cell: Rect {
            x: Range { min: i, max: (i + 1) as u32 },
            y: Range { min: j, max: (j + 1) as u32 },
        },
    }
}

/// The tiles of a `grid x grid` atlas, column by column: entry `k` is tile
/// `(k / grid, k % grid)`.
pub open spec fn atlas_tiles(grid: u32) -> Seq<AtlasTile> {
    Seq::new(
        grid as nat * grid as nat,
        |k: int| tile_at((k / grid as int) as u32, (k % grid as int) as u32),
    )
}

/// The tiles of a `grid x grid` atlas.
pub fn partition(grid: u32) -> (r: Vec<AtlasTile>)
    ensures
        r@ == atlas_tiles(grid),
{
    let mut tiles: Vec<AtlasTile> = Vec::new();
    let mut i: u32 = 0;
    while i < grid
        invariant
            i <= grid,
            tiles.len() == i as nat * grid as nat,
            forall|k: int|
                0 <= k < tiles.len() ==> #[trigger] tiles@[k] == atlas_tiles(grid)[k],
        decreases grid - i,
    {
        let mut j: u32 = 0;
        while j < grid
            invariant
                i < grid,
                j <= grid,
                tiles.len() == i as nat * grid as nat + j,
                forall|k: int|
                    0 <= k < tiles.len() ==> #[trigger] tiles@[k] == atlas_tiles(grid)[k],
            decreases grid - j,
        {
            let tile = AtlasTile {
                grid_x: i,
                grid_y: j,
                cell: Rect { x: Range { min: i, max: i + 1 }, y: Range { min: j, max: j + 1 } },
            };
            proof {
                let k = i as int * grid as int + j as int;
                lemma_fundamental_div_mod_converse(k, grid as int, i as int, j as int);
                assert(k < grid as nat * grid as nat) by (nonlinear_arith)
                    requires
                        k == i as int * grid as int + j as int,
                        i < grid,
                        j < grid,
                ;
            }
            tiles.push(tile);
            j = j + 1;
        }
        proof {
            assert((i + 1) as nat * grid as nat == i as nat * grid as nat + grid) by (nonlinear_arith);
        }
        i = i + 1;
    }
    assert(tiles@ =~= atlas_tiles(grid));
    tiles
}

/// The atlas tiles cover the grid exactly. Each tile lies in `[0, grid]` on
/// both axes; some tile starts at 0 and some ends at `grid` on each axis, so
/// the tiles reach the global rectangle's bounds; every unit cell `(i, j)` is
/// the tile at index `i * grid + j`, and no two tiles sit on the same cell,
/// so there are no gaps and no overlaps; neighbouring tiles share their
/// common bound exactly.
pub proof fn lemma_partition_covers(grid: u32)
    requires
        grid >= 1,
    ensures
        forall|k: int|
            0 <= k < atlas_tiles(grid).len() ==> {
                let t = #[trigger] atlas_tiles(grid)[k];
                &&& t.cell.x.min < t.cell.x.max <= grid
                &&& t.cell.y.min < t.cell.y.max <= grid
            },
        exists|k: int|
            0 <= k < atlas_tiles(grid).len() && #[trigger] atlas_tiles(grid)[k].cell.x.min == 0
                && atlas_tiles(grid)[k].cell.y.min == 0,
        exists|k: int|
            0 <= k < atlas_tiles(grid).len() && #[trigger] atlas_tiles(grid)[k].cell.x.max == grid
                && atlas_tiles(grid)[k].cell.y.max == grid,
        forall|i: u32, j: u32|
            i < grid && j < grid ==> #[trigger] atlas_tiles(grid)[i * grid + j] == tile_at(i, j),
        forall|k1: int, k2: int|
            0 <= k1 < atlas_tiles(grid).len() && 0 <= k2 < atlas_tiles(grid).len() && k1 != k2
                ==> (#[trigger] atlas_tiles(grid)[k1]).cell != (#[trigger] atlas_tiles(
                grid,
            )[k2]).cell,
        forall|i: u32, j: u32|
            i + 1 < grid && j < grid ==> (#[trigger] atlas_tiles(grid)[i * grid + j]).cell.x.max
                == atlas_tiles(grid)[(i + 1) * grid + j].cell.x.min,
        forall|i: u32, j: u32|
            i < grid && j + 1 < grid ==> (#[trigger] atlas_tiles(grid)[i * grid + j]).cell.y.max
                == atlas_tiles(grid)[i * grid + j + 1].cell.y.min,
{
    lemma_tiles_in_grid(grid);
    lemma_corner_tiles(grid);
    assert forall|i: u32, j: u32| i < grid && j < grid implies #[trigger] atlas_tiles(grid)[i
        * grid + j] == tile_at(i, j) by {
        cell_index_facts(grid, i, j);
    }
    lemma_tiles_distinct(grid);
    assert forall|i: u32, j: u32| i + 1 < grid && j < grid implies (#[trigger] atlas_tiles(
        grid,
    )[i * grid + j]).cell.x.max == atlas_tiles(grid)[(i + 1) * grid + j].cell.x.min by {
        cell_index_facts(grid, i, j);
        cell_index_facts(grid, (i + 1) as u32, j);
    }
    assert forall|i: u32, j: u32| i < grid && j + 1 < grid implies (#[trigger] atlas_tiles(
        grid,
    )[i * grid + j]).cell.y.max == atlas_tiles(grid)[i * grid + j + 1].cell.y.min by {
        cell_index_facts(grid, i, j);
        cell_index_facts(grid, i, (j + 1) as u32);
    }
}

proof fn lemma_tiles_in_grid(grid: u32)
    requires
        grid >= 1,
    ensures
        forall|k: int|
            0 <= k < atlas_tiles(grid).len() ==> {
                let t = #[trigger] atlas_tiles(grid)[k];
                &&& t.cell.x.min < t.cell.x.max <= grid
                &&& t.cell.y.min < t.cell.y.max <= grid
            },
{
    let g = grid as int;
    assert forall|k: int| 0 <= k < atlas_tiles(grid).len() implies {
        let t = #[trigger] atlas_tiles(grid)[k];
        &&& t.cell.x.min < t.cell.x.max <= grid
        &&& t.cell.y.min < t.cell.y.max <= grid
    } by {
        assert(0 <= k / g < g) by (nonlinear_arith)
            requires
                0 <= k < g * g,
                g > 0,
        ;
    }
}

proof fn lemma_corner_tiles(grid: u32)
    requires
        grid >= 1,
    ensures
        exists|k: int|
            0 <= k < atlas_tiles(grid).len() && #[trigger] atlas_tiles(grid)[k].cell.x.min == 0
                && atlas_tiles(grid)[k].cell.y.min == 0,
        exists|k: int|
            0 <= k < atlas_tiles(grid).len() && #[trigger] atlas_tiles(grid)[k].cell.x.max == grid
                && atlas_tiles(grid)[k].cell.y.max == grid,
{
    cell_index_facts(grid, 0, 0);
    assert(atlas_tiles(grid)[0].cell.x.min == 0);
    cell_index_facts(grid, (grid - 1) as u32, (grid - 1) as u32);
    let last = (grid - 1) * grid + (grid - 1);
    assert(atlas_tiles(grid)[last].cell.x.max == grid);
}

proof fn lemma_tiles_distinct(grid: u32)
    requires
        grid >= 1,
    ensures
        forall|k1: int, k2: int|
            0 <= k1 < atlas_tiles(grid).len() && 0 <= k2 < atlas_tiles(grid).len() && k1 != k2
                ==> (#[trigger] atlas_tiles(grid)[k1]).cell != (#[trigger] atlas_tiles(
                grid,
            )[k2]).cell,
{
    let g = grid as int;
    assert forall|k1: int, k2: int|
        0 <= k1 < atlas_tiles(grid).len() && 0 <= k2 < atlas_tiles(grid).len() && k1
            != k2 implies (#[trigger] atlas_tiles(grid)[k1]).cell != (#[trigger] atlas_tiles(
        grid,
    )[k2]).cell by {
        vstd::arithmetic::div_mod::lemma_fundamental_div_mod(k1, g);
        vstd::arithmetic::div_mod::lemma_fundamental_div_mod(k2, g);
        assert(0 <= k1 / g < g && 0 <= k2 / g < g) by (nonlinear_arith)
            requires
                0 <= k1 < g * g,
                0 <= k2 < g * g,
                g > 0,
        ;
        assert(0 <= k1 % g < g && 0 <= k2 % g < g);
    }
}

proof fn cell_index_facts(grid: u32, i: u32, j: u32)
    requires
        i < grid,
        j < grid,
    ensures
        0 <= i * grid + j < grid as nat * grid as nat,
        atlas_tiles(grid)[i * grid + j] == tile_at(i, j),
{
    let k = i as int * grid as int + j as int;
    assert(0 <= k < grid as nat * grid as nat) by (nonlinear_arith)
        requires
            k == i as int * grid as int + j as int,
            i < grid,
            j < grid,
    ;
    lemma_fundamental_div_mod_converse(k, grid as int, i as int, j as int);
}

} // verus!
