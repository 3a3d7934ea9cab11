use crate::heightmap::{HeightMap, HeightMapView};
use vstd::arithmetic::div_mod::{
    lemma_div_is_ordered, lemma_fundamental_div_mod, lemma_fundamental_div_mod_converse,
};
use vstd::prelude::*;

verus! {

/// Vertex and index buffers of a triangle mesh.
///
/// The three vertex buffers run in parallel: entry `i` of each describes vertex
/// `i`. A position is `(x, y, z)` with `x` and `z` in whole grid cells and `y` in
/// steps of `1 / resolution`. Every three entries of `indices` name the
/// vertices of one triangle.
#[derive(Debug, Clone, PartialEq, Eq)]
pub struct MeshBuffers {
    pub positions: Vec<(u16, i64, u16)>,
    pub normals: Vec<(i8, i8, i8)>,
    pub uvs: Vec<(u16, u16)>,
    pub indices: Vec<u32>,
    /// Number of `y` steps that make up one unit of height.
    pub resolution: u64,
}

/// The mathematical content of a [`MeshBuffers`].
pub struct MeshView {
    pub positions: Seq<(int, int, int)>,
    pub normals: Seq<(int, int, int)>,
    pub uvs: Seq<(int, int)>,
    pub indices: Seq<int>,
    pub resolution: nat,
}

impl View for MeshBuffers {
    type V = MeshView;

    open spec fn view(&self) -> MeshView {
        MeshView {
            positions: Seq::new(
                self.positions@.len(),
                |i: int|
                    (
                        self.positions@[i].0 as int,
                        self.positions@[i].1 as int,
                        self.positions@[i].2 as int,
                    ),
            ),
            normals: Seq::new(
                self.normals@.len(),
                |i: int|
                    (
                        self.normals@[i].0 as int,
                        self.normals@[i].1 as int,
                        self.normals@[i].2 as int,
                    ),
            ),
            uvs: Seq::new(
                self.uvs@.len(),
                |i: int| (self.uvs@[i].0 as int, self.uvs@[i].1 as int),
            ),
            indices: Seq::new(self.indices@.len(), |i: int| self.indices@[i] as int),
            resolution: self.resolution as nat,
        }
    }
}

impl MeshView {
    /// The height of vertex `i`.
    pub open spec fn vertex_elevation(self, i: int) -> real {
        self.positions[i].1 as real / self.resolution as real
    }
}

/// Number of quads between the samples of a grid of side `width`.
pub open spec fn quad_count(width: int) -> int {
    (width - 1) * (width - 1)
}

/// The vertex at the upper left corner of quad `q`, quads being numbered row
/// by row.
pub open spec fn quad_corner(width: int, q: int) -> int {
    (q / (width - 1)) * width + q % (width - 1)
}

/// Entry `k` of the index buffer of a grid of side `width`.
///
/// Quad `k / 6` with upper left corner `a` contributes the triangles
/// `(a, a + width + 1, a + 1)` and `(a, a + width, a + width + 1)`.
pub open spec fn quad_index(width: int, k: int) -> int {
    let a = quad_corner(width, k / 6);
    let slot = k % 6;
    if slot == 0 || slot == 3 {
        a
    } else if slot == 1 || slot == 5 {
        a + width + 1
    } else if slot == 2 {
        a + 1
    } else {
        a + width
    }
}

/// The index buffer of a grid of side `width`: two triangles for each quad.
pub open spec fn terrain_indices(width: int) -> Seq<int> {
    Seq::new((6 * quad_count(width)) as nat, |k: int| quad_index(width, k))
}

/// The mesh of a grid: one vertex for each sample, at its column, elevation
/// and row; the same normal everywhere; texture coordinates equal to the grid
/// coordinates; two triangles for each quad.
pub open spec fn terrain_mesh(grid: HeightMapView) -> MeshView {
    let width = grid.width as int;
    MeshView {
        positions: Seq::new(grid.map.len(), |i: int| (i % width, grid.map[i], i / width)),
        normals: Seq::new(grid.map.len(), |i: int| (0int, 0int, 1int)),
        uvs: Seq::new(grid.map.len(), |i: int| (i % width, i / width)),
        indices: terrain_indices(width),
        resolution: grid.resolution,
    }
}

/// Number of quads whose corner comes before vertex `a` when the vertices are
/// walked in order and the last column is passed over.
pub open spec fn quads_before(width: int, a: int) -> int {
    (a / width) * (width - 1) + a % width
}

/// Moving one vertex on adds one quad, except from the last column of a row.
proof fn lemma_quads_before_step(width: int, a: int)
    requires
        width >= 2,
        a >= 0,
    ensures
        a % width != width - 1 ==> quads_before(width, a + 1) == quads_before(width, a) + 1,
        a % width == width - 1 ==> quads_before(width, a + 1) == quads_before(width, a),
        0 <= a % width < width,
        a / width >= 0,
{
    let row = a / width;
    let col = a % width;
    lemma_fundamental_div_mod(a, width);
    assert(width * row == row * width) by (nonlinear_arith);
    assert(row >= 0) by (nonlinear_arith)
        requires
            a == row * width + col,
            0 <= col < width,
            a >= 0,
    ;
    if col != width - 1 {
        lemma_fundamental_div_mod_converse(a + 1, width, row, col + 1);
    } else {
        assert(a + 1 == (row + 1) * width + 0) by (nonlinear_arith)
            requires
                a == row * width + col,
                col == width - 1,
        ;
        lemma_fundamental_div_mod_converse(a + 1, width, row + 1, 0);
        assert((row + 1) * (width - 1) == row * (width - 1) + (width - 1)) by (nonlinear_arith);
    }
}

/// A vertex outside the last column is the corner of the quad counted for it.
proof fn lemma_corner_of_counted_quad(width: int, a: int)
    requires
        width >= 2,
        a >= 0,
        a % width != width - 1,
    ensures
        quad_corner(width, quads_before(width, a)) == a,
        quads_before(width, a) >= 0,
{
    let row = a / width;
    let col = a % width;
    lemma_quads_before_step(width, a);
    lemma_fundamental_div_mod(a, width);
    assert(width * row == row * width) by (nonlinear_arith);
    let q = row * (width - 1) + col;
    lemma_fundamental_div_mod_converse(q, width - 1, row, col);
    assert(q >= 0) by (nonlinear_arith)
        requires
            q == row * (width - 1) + col,
            row >= 0,
            col >= 0,
            width >= 2,
    ;
}

/// Where the walk over the vertices ends, every quad has been counted.
proof fn lemma_quads_before_end(width: int)
    requires
        width >= 2,
    ensures
        quads_before(width, width * width - width - 1) == quad_count(width),
{
    let end = width * width - width - 1;
    assert(end == (width - 2) * width + (width - 1)) by (nonlinear_arith)
        requires
            end == width * width - width - 1,
    ;
    lemma_fundamental_div_mod_converse(end, width, width - 2, width - 1);
    assert((width - 2) * (width - 1) + (width - 1) == (width - 1) * (width - 1))
        by (nonlinear_arith);
}

/// The count of quads never runs ahead of the walk.
proof fn lemma_quads_before_bound(width: int, a: int)
    requires
        width >= 2,
        0 <= a < width * width - width - 1,
        a % width != width - 1,
    ensures
        0 <= quads_before(width, a) < quad_count(width),
{
    let row = a / width;
    let col = a % width;
    lemma_quads_before_step(width, a);
    lemma_fundamental_div_mod(a, width);
    assert(width * row == row * width) by (nonlinear_arith);
    assert(row <= width - 2) by (nonlinear_arith)
        requires
            a == row * width + col,
            0 <= col,
            a < width * width - width - 1,
            width >= 2,
    ;
    assert(row * (width - 1) + col < (width - 1) * (width - 1)) by (nonlinear_arith)
        requires
            0 <= row <= width - 2,
            0 <= col < width - 1,
            width >= 2,
    ;
    assert(row * (width - 1) + col >= 0) by (nonlinear_arith)
        requires
            0 <= row,
            0 <= col,
            width >= 2,
    ;
}

/// The corner of every quad is a vertex that the walk does not pass over:
/// it comes before the last row, lies outside the last column, and as many
/// quads are counted before it as its quad has predecessors.
pub proof fn lemma_corner_is_walked(width: int, q: int)
    requires
        width >= 2,
        0 <= q < quad_count(width),
    ensures
        0 <= quad_corner(width, q) < width * width - width - 1,
        quad_corner(width, q) % width != width - 1,
        quads_before(width, quad_corner(width, q)) == q,
{
    let row = q / (width - 1);
    let col = q % (width - 1);
    let a = quad_corner(width, q);
    lemma_fundamental_div_mod(q, width - 1);
    assert((width - 1) * row == row * (width - 1)) by (nonlinear_arith);
    assert(0 <= row <= width - 2) by (nonlinear_arith)
        requires
            q == row * (width - 1) + col,
            0 <= col < width - 1,
            0 <= q < (width - 1) * (width - 1),
            width >= 2,
    ;
    assert(0 <= row * width <= (width - 2) * width) by (nonlinear_arith)
        requires
            0 <= row <= width - 2,
            width >= 2,
    ;
    assert((width - 2) * width == width * width - 2 * width) by (nonlinear_arith);
    lemma_fundamental_div_mod_converse(a, width, row, col);
}

/// Every vertex that the walk does not pass over is the corner of a quad,
/// namely of the quad with as many predecessors as quads are counted before
/// the vertex.
pub proof fn lemma_walked_is_corner(width: int, a: int)
    requires
        width >= 2,
        0 <= a < width * width - width - 1,
        a % width != width - 1,
    ensures
        0 <= quads_before(width, a) < quad_count(width),
        quad_corner(width, quads_before(width, a)) == a,
{
    lemma_quads_before_bound(width, a);
    lemma_corner_of_counted_quad(width, a);
}

/// Quads come in the order of their corners: a later quad has a later corner.
pub proof fn lemma_corners_ascend(width: int, p: int, q: int)
    requires
        width >= 2,
        0 <= p < q,
    ensures
        quad_corner(width, p) < quad_corner(width, q),
{
    let across = width - 1;
    let p_row = p / across;
    let p_col = p % across;
    let q_row = q / across;
    let q_col = q % across;
    lemma_fundamental_div_mod(p, across);
    lemma_fundamental_div_mod(q, across);
    lemma_div_is_ordered(p, q, across);
    if p_row < q_row {
        assert(p_row * width + width <= q_row * width) by (nonlinear_arith)
            requires
                p_row + 1 <= q_row,
                width >= 2,
        ;
    } else {
        assert(across * p_row == across * q_row);
    }
}

/// Every entry of the index buffer names a vertex of the grid.
pub proof fn lemma_indices_name_vertices(width: int, k: int)
    requires
        width >= 1,
        0 <= k < terrain_indices(width).len(),
    ensures
        0 <= terrain_indices(width)[k] < width * width,
{
    assert(width >= 2) by {
        if width == 1 {
            assert((width - 1) * (width - 1) == 0) by (nonlinear_arith)
                requires
                    width == 1,
            ;
        }
    }
    let q = k / 6;
    assert(0 <= q < quad_count(width));
    lemma_corner_is_walked(width, q);
}

/// Every vertex of the mesh of a grid stands at the elevation of its sample.
pub proof fn lemma_vertex_elevations(grid: HeightMapView, i: int)
    requires
        0 <= i < grid.map.len(),
    ensures
        terrain_mesh(grid).vertex_elevation(i) == grid.elevation(i),
{
}

/// Builds the mesh of a height map.
///
/// Each sample becomes one vertex; each quad between four neighbouring
/// samples becomes two triangles. A map of side 1 gives a single vertex and
/// no triangle.
pub fn create_simple_terrain(height_map: &HeightMap) -> (mesh: MeshBuffers)
    requires
        height_map@.is_square(),
    ensures
        mesh@ == terrain_mesh(height_map@),
        mesh.positions@.len() == height_map.width * height_map.width,
        mesh.normals@.len() == mesh.positions@.len(),
        mesh.uvs@.len() == mesh.positions@.len(),
        mesh.indices@.len() == 6 * quad_count(height_map.width as int),
{
    let size: u16 = height_map.width;
    let count: usize = height_map.map.len();
    let ghost grid = height_map@;
    let ghost width = size as int;
    let mut positions: Vec<(u16, i64, u16)> = Vec::with_capacity(count);
    let mut normals: Vec<(i8, i8, i8)> = Vec::with_capacity(count);
    let mut uvs: Vec<(u16, u16)> = Vec::with_capacity(count);
    let mut indices: Vec<u32> = Vec::new();

    assert(width * width <= 0xffff * 0xffff) by (nonlinear_arith)
        requires
            1 <= width <= 0xffff,
    ;

    let mut x: u16 = 0;
    let mut z: u16 = 0;
    let mut i: usize = 0;
    while i < count
        invariant
            width == size as int,
            width >= 1,
            count == height_map.map@.len(),
            count == width * width,
            i <= count,
            i == z * width + x,
            x < size,
            z <= size,
            positions@.len() == i,
            normals@.len() == i,
            uvs@.len() == i,
            forall|j: int|
                0 <= j < i ==> (#[trigger] positions@[j]).0 == j % width && positions@[j].1
                    == height_map.map@[j] && positions@[j].2 == j / width,
            forall|j: int| 0 <= j < i ==> #[trigger] normals@[j] == (0i8, 0i8, 1i8),
            forall|j: int|
                0 <= j < i ==> (#[trigger] uvs@[j]).0 == j % width && uvs@[j].1 == j / width,
        decreases count - i,
    {
        proof {
            lemma_fundamental_div_mod_converse(i as int, width, z as int, x as int);
            assert(z < size) by (nonlinear_arith)
                requires
                    i == z * width + x,
                    i < width * width,
                    x >= 0,
                    width == size,
                    width >= 1,
            ;
        }
        positions.push((x, height_map.map[i], z));
        normals.push((0i8, 0i8, 1i8));
        uvs.push((x, z));
        x += 1;
        if x == size {
            x = 0;
            z += 1;
        }
        i += 1;
        proof {
            assert(i == z * width + x) by (nonlinear_arith)
                requires
                    (x == 0 && i - 1 == (z - 1) * width + (width - 1)) || (x >= 1 && i - 1 == z
                        * width + (x - 1)),
            ;
        }
    }

    let side: u32 = size as u32;
    let last: u32 = side - 1;
    let end: u32 = if size >= 2 {
        assert(width * width - width - 1 >= 0) by (nonlinear_arith)
            requires
                width >= 2,
        ;
        side * side - side - 1
    } else {
        0
    };
    let mut a: u32 = 0;
    proof {
        if width >= 2 {
            lemma_fundamental_div_mod_converse(0, width, 0, 0);
        }
    }
    while a < end
        invariant
            width == size as int,
            side == width,
            last == width - 1,
            1 <= width <= 0xffff,
            width * width <= 0xffff * 0xffff,
            width >= 2 ==> end == width * width - width - 1,
            width < 2 ==> end == 0,
            a <= end,
            width >= 2 ==> indices@.len() == 6 * quads_before(width, a as int),
            width >= 2 ==> 0 <= quads_before(width, a as int) <= quad_count(width),
            width < 2 ==> indices@.len() == 0,
            forall|k: int|
                0 <= k < indices@.len() ==> #[trigger] indices@[k] as int == quad_index(width, k),
        decreases end - a,
    {
        proof {
            lemma_quads_before_step(width, a as int);
        }
        if a % side != last {
            let ghost q = quads_before(width, a as int);
            let ghost before = indices@;
            proof {
                lemma_corner_of_counted_quad(width, a as int);
                lemma_quads_before_bound(width, a as int);
            }
            indices.push(a);
            indices.push(a + 1 + side);
            indices.push(a + 1);

            indices.push(a);
            indices.push(a + side);
            indices.push(a + 1 + side);
            proof {
                assert forall|k: int| 0 <= k < indices@.len() implies #[trigger] indices@[k] as int
                    == quad_index(width, k) by {
                    if k < 6 * q {
                        assert(indices@[k] == before[k]);
                    } else {
                        assert(k / 6 == q);
                        assert(quad_corner(width, k / 6) == a);
                    }
                }
            }
        }
        a += 1;
    }

    let mesh = MeshBuffers { positions, normals, uvs, indices, resolution: height_map.resolution };
    proof {
        let target = terrain_mesh(grid);
        if width >= 2 {
            lemma_quads_before_end(width);
        } else {
            assert((width - 1) * (width - 1) == 0) by (nonlinear_arith)
                requires
                    width == 1,
            ;
        }
        assert(mesh@.positions =~= target.positions);
        assert(mesh@.normals =~= target.normals);
        assert(mesh@.uvs =~= target.uvs);
        assert(mesh@.indices =~= target.indices);
    }
    mesh
}

} // verus!
