use vstd::arithmetic::div_mod::lemma_fundamental_div_mod_converse;
use vstd::prelude::*;

verus! {

/// Depth of the demo grid (number of planes, less one).
pub const Z_SIZE: u32 = 3;

/// Height of the demo grid (rows per plane, less one).
pub const Y_SIZE: u32 = 10;

/// Width of the demo grid (cells per row, less one).
pub const X_SIZE: u32 = 10;

/// The extent of a grid: indices run over the inclusive ranges
/// `0..=depth`, `0..=height` and `0..=width`.
#[derive(Clone, Copy, Debug, PartialEq, Eq, Structural)]
pub struct GridDimensions {
    pub depth: u32,
    pub height: u32,
    pub width: u32,
}

/// A nested matrix: planes of rows of cells.
pub type Matrix3d = Vec<Vec<Vec<u32>>>;

/// The shape of the matrix that `mk_voxel_cube` builds: `depth + 1` planes of
/// `height + 1` rows, each row holding `0, 1, ..., width`.
pub open spec fn is_voxel_cube(dims: GridDimensions, cube: Seq<Vec<Vec<u32>>>) -> bool {
    &&& cube.len() == dims.depth + 1
    &&& forall|z: int| #![trigger cube[z]] 0 <= z < cube.len() ==> cube[z]@.len() == dims.height + 1
    &&& forall|z: int, y: int|
        #![trigger cube[z]@[y]]
        0 <= z < cube.len() && 0 <= y < cube[z]@.len() ==> cube[z]@[y]@ =~= row_of(dims.width)
}

/// The row `0, 1, ..., width`.
pub open spec fn row_of(width: u32) -> Seq<u32> {
    Seq::new((width + 1) as nat, |x: int| x as u32)
}

fn mk_row(width: u32) -> (row: Vec<u32>)
    ensures
        row@ =~= row_of(width),
{
    let mut row: Vec<u32> = Vec::new();
    let mut x: u64 = 0;
    while x <= width as u64
        invariant
            x <= width as u64 + 1,
            row@.len() == x,
            forall|i: int| 0 <= i < x ==> row@[i] == i as u32,
        decreases width as u64 + 1 - x,
    {
        row.push(x as u32);
        x = x + 1;
    }
    row
}

/// Builds the voxel matrix of the given extent.
pub fn mk_voxel_cube(dims: GridDimensions) -> (cube: Matrix3d)
    ensures
        is_voxel_cube(dims, cube@),
{
    let mut cube: Matrix3d = Vec::new();
    let mut z: u64 = 0;
    while z <= dims.depth as u64
        invariant
            z <= dims.depth as u64 + 1,
            cube@.len() == z,
            forall|i: int| #![trigger cube@[i]] 0 <= i < z ==> cube@[i]@.len() == dims.height + 1,
            forall|i: int, j: int|
                #![trigger cube@[i]@[j]]
                0 <= i < z && 0 <= j < cube@[i]@.len() ==> cube@[i]@[j]@ =~= row_of(dims.width),
        decreases dims.depth as u64 + 1 - z,
    {
        let mut plane: Vec<Vec<u32>> = Vec::new();
        let mut y: u64 = 0;
        while y <= dims.height as u64
            invariant
                y <= dims.height as u64 + 1,
                plane@.len() == y,
                forall|j: int| #![trigger plane@[j]] 0 <= j < y ==> plane@[j]@ =~= row_of(dims.width),
            decreases dims.height as u64 + 1 - y,
        {
            let row = mk_row(dims.width);
            plane.push(row);
            y = y + 1;
        }
        cube.push(plane);
        z = z + 1;
    }
    cube
}

/// The grid indices of one cube; fixed when the cube is made.
#[derive(Clone, Copy, Debug, PartialEq, Eq, Structural)]
pub struct VoxelCoordinate {
    pub x: u32,
    pub y: u32,
    pub z: u32,
}

impl View for VoxelCoordinate {
    type V = (int, int, int);

    open spec fn view(&self) -> (int, int, int) {
        (self.x as int, self.y as int, self.z as int)
    }
}

/// Where a cube stands in the world, in half units: each field is twice the
/// world coordinate, so that centring a grid of odd width stays exact.
#[derive(Clone, Copy, Debug, PartialEq, Eq, Structural)]
pub struct Placement {
    pub twice_x: i64,
    pub twice_y: i64,
    pub twice_z: i64,
}

impl View for Placement {
    type V = (int, int, int);

    open spec fn view(&self) -> (int, int, int) {
        (self.twice_x as int, self.twice_y as int, self.twice_z as int)
    }
}

/// One cube of the grid: its indices and its placement.
#[derive(Clone, Copy, Debug, PartialEq, Eq, Structural)]
pub struct Voxel {
    pub coordinate: VoxelCoordinate,
    pub placement: Placement,
}

/// Twice the placement of the cell `c` in a grid of the given width:
/// `x - width / 2` on the X axis, `y + 1` on the Y axis, `z` on the Z axis.
pub open spec fn placement_at(width: int, c: (int, int, int)) -> (int, int, int) {
    (2 * c.0 - width, 2 * c.1 + 2, 2 * c.2)
}

/// Number of cells in the grid.
pub open spec fn cell_count(dims: GridDimensions) -> int {
    (dims.depth + 1) * (dims.height + 1) * (dims.width + 1)
}

/// Whether `c` lies in the grid.
pub open spec fn in_grid(dims: GridDimensions, c: (int, int, int)) -> bool {
    &&& 0 <= c.0 <= dims.width
    &&& 0 <= c.1 <= dims.height
    &&& 0 <= c.2 <= dims.depth
}

/// Position of the cell `(x, y, z)` in the enumeration: planes outermost,
/// then rows, then cells.
pub open spec fn grid_index(dims: GridDimensions, c: (int, int, int)) -> int {
    (c.2 * (dims.height + 1) + c.1) * (dims.width + 1) + c.0
}

/// The cell at position `k` of the enumeration.
pub open spec fn coordinate_at(dims: GridDimensions, k: int) -> (int, int, int) {
    let row = k / (dims.width + 1);
    (k % (dims.width + 1), row % (dims.height + 1), row / (dims.height + 1))
}

/// Places the cell `c` in a grid of the given width.
pub fn placement(width: u32, c: VoxelCoordinate) -> (p: Placement)
    ensures
        p@ == placement_at(width as int, c@),
{
    Placement {
        twice_x: 2 * (c.x as i64) - width as i64,
        twice_y: 2 * (c.y as i64) + 2,
        twice_z: 2 * (c.z as i64),
    }
}

proof fn lemma_coordinate_at_index(dims: GridDimensions, c: (int, int, int))
    requires
        in_grid(dims, c),
    ensures
        coordinate_at(dims, grid_index(dims, c)) == c,
        0 <= grid_index(dims, c) < cell_count(dims),
{
    let w = dims.width + 1;
    let h = dims.height + 1;
    let row = c.2 * h + c.1;
    lemma_fundamental_div_mod_converse(grid_index(dims, c), w, row, c.0);
    lemma_fundamental_div_mod_converse(row, h, c.2, c.1);
    assert(0 <= row < (dims.depth + 1) * h) by (nonlinear_arith)
        requires
            row == c.2 * h + c.1,
            0 <= c.1 < h,
            0 <= c.2 <= dims.depth,
    ;
    assert(0 <= grid_index(dims, c) < cell_count(dims)) by (nonlinear_arith)
        requires
            grid_index(dims, c) == row * w + c.0,
            0 <= c.0 < w,
            0 <= row < (dims.depth + 1) * h,
            cell_count(dims) == (dims.depth + 1) * h * w,
    ;
}

proof fn lemma_index_of_coordinate(dims: GridDimensions, k: int)
    requires
        0 <= k < cell_count(dims),
    ensures
        in_grid(dims, coordinate_at(dims, k)),
        grid_index(dims, coordinate_at(dims, k)) == k,
{
    let w = dims.width + 1;
    let h = dims.height + 1;
    let row = k / w;
    let c = coordinate_at(dims, k);
    assert(k == row * w + k % w && 0 <= k % w < w) by (nonlinear_arith)
        requires
            w > 0,
            row == k / w,
    ;
    assert(row == (row / h) * h + row % h && 0 <= row % h < h) by (nonlinear_arith)
        requires
            h > 0,
    ;
    assert(0 <= row < (dims.depth + 1) * h) by (nonlinear_arith)
        requires
            row == k / w,
            0 <= k < (dims.depth + 1) * h * w,
            w > 0,
            h > 0,
    ;
    assert(0 <= row / h <= dims.depth) by (nonlinear_arith)
        requires
            0 <= row < (dims.depth + 1) * h,
            h > 0,
    ;
}

proof fn lemma_grid_enumeration(dims: GridDimensions)
    ensures
        forall|k: int| 0 <= k < cell_count(dims) ==> #[trigger] in_grid(dims, coordinate_at(dims, k)),
        forall|i: int, j: int|
            0 <= i < cell_count(dims) && 0 <= j < cell_count(dims) && i != j
                ==> #[trigger] coordinate_at(dims, i) != #[trigger] coordinate_at(dims, j),
        forall|c: (int, int, int)|
            #[trigger] in_grid(dims, c) ==> 0 <= grid_index(dims, c) < cell_count(dims)
                && coordinate_at(dims, grid_index(dims, c)) == c,
{
    assert forall|k: int| 0 <= k < cell_count(dims) implies #[trigger] in_grid(dims, coordinate_at(dims, k)) by {
        lemma_index_of_coordinate(dims, k);
    }
    assert forall|i: int, j: int|
        0 <= i < cell_count(dims) && 0 <= j < cell_count(dims) && i != j
            implies #[trigger] coordinate_at(dims, i) != #[trigger] coordinate_at(dims, j) by {
        lemma_index_of_coordinate(dims, i);
        lemma_index_of_coordinate(dims, j);
    }
    assert forall|c: (int, int, int)| #[trigger] in_grid(dims, c) implies 0 <= grid_index(dims, c) < cell_count(dims)
        && coordinate_at(dims, grid_index(dims, c)) == c by {
        lemma_coordinate_at_index(dims, c);
    }
}

/// `v` is the cube at position `k` of a grid of the given extent.
pub open spec fn is_cell_at(dims: GridDimensions, v: Voxel, k: int) -> bool {
    &&& v.coordinate@ == coordinate_at(dims, k)
    &&& v.placement@ == placement_at(dims.width as int, v.coordinate@)
}

/// `cells` lists every cube of the grid, in enumeration order.
pub open spec fn is_grid_layout(dims: GridDimensions, cells: Seq<Voxel>) -> bool {
    &&& cells.len() == cell_count(dims)
    &&& forall|k: int| 0 <= k < cells.len() ==> #[trigger] is_cell_at(dims, cells[k], k)
}

/// Lays out the grid: one cube per cell, planes outermost, then rows, then
/// cells, each with its indices and its placement.
pub fn build_grid(dims: GridDimensions) -> (cells: Vec<Voxel>)
    ensures
        is_grid_layout(dims, cells@),
{
    let cube = mk_voxel_cube(dims);
    let mut cells: Vec<Voxel> = Vec::new();
    let mut z: usize = 0;
    assert(grid_index(dims, (0, 0, 0)) == 0) by (nonlinear_arith);
    while z < cube.len()
        invariant
            is_voxel_cube(dims, cube@),
            z <= cube@.len(),
            cells@.len() == grid_index(dims, (0, 0, z as int)),
            forall|k: int| 0 <= k < cells@.len() ==> #[trigger] is_cell_at(dims, cells@[k], k),
        decreases cube@.len() - z,
    {
        let plane = &cube[z];
        let mut y: usize = 0;
        while y < plane.len()
            invariant
                is_voxel_cube(dims, cube@),
                z < cube@.len(),
                *plane == cube@[z as int],
                y <= plane@.len(),
                cells@.len() == grid_index(dims, (0, y as int, z as int)),
                forall|k: int| 0 <= k < cells@.len() ==> #[trigger] is_cell_at(dims, cells@[k], k),
            decreases plane@.len() - y,
        {
            let row = &plane[y];
            let mut x: usize = 0;
            while x < row.len()
                invariant
                    is_voxel_cube(dims, cube@),
                    z < cube@.len(),
                    *plane == cube@[z as int],
                    y < plane@.len(),
                    *row == plane@[y as int],
                    x <= row@.len(),
                    cells@.len() == grid_index(dims, (x as int, y as int, z as int)),
                    forall|k: int| 0 <= k < cells@.len() ==> #[trigger] is_cell_at(dims, cells@[k], k),
                decreases row@.len() - x,
            {
                let c = VoxelCoordinate { x: x as u32, y: y as u32, z: z as u32 };
                proof {
                    lemma_coordinate_at_index(dims, c@);
                }
                cells.push(Voxel { coordinate: c, placement: placement(dims.width, c) });
                x = x + 1;
            }
            proof {
                let (w, h) = (dims.width + 1, dims.height + 1);
                assert((z * h + y) * w + w == (z * h + (y + 1)) * w) by (nonlinear_arith);
            }
            y = y + 1;
        }
        proof {
            let (w, h) = (dims.width + 1, dims.height + 1);
            assert((z * h + h) * w == ((z + 1) * h) * w) by (nonlinear_arith);
        }
        z = z + 1;
    }
    proof {
        let (w, h) = (dims.width + 1, dims.height + 1);
        assert(((dims.depth + 1) * h) * w == (dims.depth + 1) * h * w) by (nonlinear_arith);
    }
    cells
}

/// A grid layout holds exactly `(depth + 1) * (height + 1) * (width + 1)`
/// cubes; each sits on a cell of the grid, no two share a cell, and every
/// cell of the grid carries one.
pub proof fn lemma_grid_cells_distinct_and_complete(dims: GridDimensions, cells: Seq<Voxel>)
    requires
        is_grid_layout(dims, cells),
    ensures
        cells.len() == (dims.depth + 1) * (dims.height + 1) * (dims.width + 1),
        forall|k: int| 0 <= k < cells.len() ==> #[trigger] in_grid(dims, cells[k].coordinate@),
        forall|i: int, j: int|
            0 <= i < cells.len() && 0 <= j < cells.len() && i != j
                ==> #[trigger] cells[i].coordinate != #[trigger] cells[j].coordinate,
        forall|c: (int, int, int)|
            #[trigger] in_grid(dims, c) ==> exists|k: int| 0 <= k < cells.len() && #[trigger] cells[k].coordinate@ == c,
{
    lemma_grid_enumeration(dims);
    assert forall|k: int| 0 <= k < cells.len() implies #[trigger] in_grid(dims, cells[k].coordinate@) by {
        assert(is_cell_at(dims, cells[k], k));
        assert(in_grid(dims, coordinate_at(dims, k)));
    }
    assert forall|i: int, j: int|
        0 <= i < cells.len() && 0 <= j < cells.len() && i != j
            implies #[trigger] cells[i].coordinate != #[trigger] cells[j].coordinate by {
        assert(is_cell_at(dims, cells[i], i));
        assert(is_cell_at(dims, cells[j], j));
        assert(coordinate_at(dims, i) != coordinate_at(dims, j));
    }
    assert forall|c: (int, int, int)| #[trigger] in_grid(dims, c) implies exists|k: int|
        0 <= k < cells.len() && #[trigger] cells[k].coordinate@ == c by {
        let k = grid_index(dims, c);
        assert(is_cell_at(dims, cells[k], k));
    }
}

} // verus!
