//! Chunks: grids of voxels, and the mesh of their visible faces.

use vstd::prelude::*;
use super::model::{all_can_move, all_moved, flat_indices, flat_vertices, lemma_flatten_quads};
use super::model::{Color, MeshView, Model, Position, Vertex};
use super::voxel::{Side, Voxel, VOXEL_DEPTH, VOXEL_HEIGHT, VOXEL_WIDTH};

verus! {

/// The width of the chunks of a world, in voxels.
pub const CHUNK_WIDTH: usize = 10;

/// The height of the chunks of a world, in voxels.
pub const CHUNK_HEIGHT: usize = 10;

/// The depth of the chunks of a world, in voxels.
pub const CHUNK_DEPTH: usize = 10;

/// The most voxels that a chunk can have along one axis.
pub const CHUNK_SIZE_LIMIT: usize = 31;

/// The most faces whose vertices sixteen-bit indices can tell apart.
pub const FACE_LIMIT: usize = 16384;

/// The place of a chunk in the world, counted in chunks.
#[derive(Clone, Copy, Debug, PartialEq, Eq, Hash, Structural)]
pub struct ChunkPos {
    pub x: i32,
    pub y: i32,
    pub z: i32,
}

/// The cell next to `(x, y, z)` on the side `side`.
pub open spec fn neighbour(x: int, y: int, z: int, side: Side) -> (int, int, int) {
    match side {
        Side::Left => (x - 1, y, z),
        Side::Right => (x + 1, y, z),
        Side::Bottom => (x, y - 1, z),
        Side::Top => (x, y + 1, z),
        Side::Back => (x, y, z - 1),
        Side::Front => (x, y, z + 1),
    }
}

/// Where the cell `(x, y, z)` of a chunk lies, measured from the chunk's
/// first cell.
pub open spec fn cell_offset(x: int, y: int, z: int) -> Position {
    [(x * VOXEL_WIDTH) as i64, (y * VOXEL_HEIGHT) as i64, (z * VOXEL_DEPTH) as i64]
}

/// The meshes of the faces `sides` of the cube around the origin, in `color`.
pub open spec fn side_meshes(sides: Seq<Side>, color: Color) -> Seq<MeshView> {
    Seq::new(sides.len(), |i: int| Voxel::side_mesh(sides[i], color))
}

/// A colour for every cell of a chunk.
pub struct ChunkColors<const W: usize, const H: usize, const D: usize>(pub [[[Color; D]; H]; W]);

impl<const W: usize, const H: usize, const D: usize> ChunkColors<W, H, D> {
    /// The colour of the cell `(x, y, z)`.
    pub open spec fn at(&self, x: int, y: int, z: int) -> Color {
        self.0[x][y][z]
    }
}

/// The voxels of a chunk: for every cell a voxel, or nothing.
pub struct ChunkVoxels<const W: usize, const H: usize, const D: usize>(pub [[[Option<Voxel>; D]; H]; W]);

impl<const W: usize, const H: usize, const D: usize> ChunkVoxels<W, H, D> {
    /// Whether `(x, y, z)` is a cell of the chunk.
    pub open spec fn inside(x: int, y: int, z: int) -> bool {
        0 <= x < W && 0 <= y < H && 0 <= z < D
    }

    /// What the cell `(x, y, z)` holds.
    pub open spec fn at(&self, x: int, y: int, z: int) -> Option<Voxel> {
        self.0[x][y][z]
    }

    /// Whether `(x, y, z)` is a cell of the chunk that holds a voxel.
    pub open spec fn occupied(&self, x: int, y: int, z: int) -> bool {
        Self::inside(x, y, z) && self.at(x, y, z) is Some
    }

    /// Whether the face `side` of the cell `(x, y, z)` can be seen: the cell
    /// next to it on that side is no occupied cell of this chunk. A face on
    /// the chunk's border can always be seen.
    pub open spec fn visible(&self, x: int, y: int, z: int, side: Side) -> bool {
        let n = neighbour(x, y, z, side);
        !self.occupied(n.0, n.1, n.2)
    }

    /// `sides`, and after them `side` if that face of the cell `(x, y, z)` can
    /// be seen.
    pub open spec fn with_side(&self, sides: Seq<Side>, x: int, y: int, z: int, side: Side) -> Seq<Side> {
        if self.visible(x, y, z, side) {
            sides.push(side)
        } else {
            sides
        }
    }

    /// The faces that the cell `(x, y, z)` gives to the mesh, in the order in
    /// which they are added: none for an empty cell, else those of left,
    /// right, top, bottom, front and back that can be seen.
    pub open spec fn cell_sides(&self, x: int, y: int, z: int) -> Seq<Side> {
        if self.occupied(x, y, z) {
            let sides = self.with_side(Seq::empty(), x, y, z, Side::Left);
            let sides = self.with_side(sides, x, y, z, Side::Right);
            let sides = self.with_side(sides, x, y, z, Side::Top);
            let sides = self.with_side(sides, x, y, z, Side::Bottom);
            let sides = self.with_side(sides, x, y, z, Side::Front);
            self.with_side(sides, x, y, z, Side::Back)
        } else {
            Seq::empty()
        }
    }

    /// The meshes of the cell `(x, y, z)` in `color`: one quad for each of its
    /// faces, placed at the cell.
    pub open spec fn cell_model(&self, color: Color, x: int, y: int, z: int) -> Seq<MeshView> {
        all_moved(side_meshes(self.cell_sides(x, y, z), color), cell_offset(x, y, z))
    }

    /// The meshes of the cells `(x, y, 0)` up to `(x, y, n - 1)`.
    pub open spec fn column_model(&self, colors: ChunkColors<W, H, D>, x: int, y: int, n: int) -> Seq<MeshView>
        decreases n,
    {
        if n <= 0 {
            Seq::empty()
        } else {
            self.column_model(colors, x, y, n - 1) + self.cell_model(colors.at(x, y, n - 1), x, y, n - 1)
        }
    }

    /// The meshes of the columns `(x, 0)` up to `(x, n - 1)`.
    pub open spec fn slab_model(&self, colors: ChunkColors<W, H, D>, x: int, n: int) -> Seq<MeshView>
        decreases n,
    {
        if n <= 0 {
            Seq::empty()
        } else {
            self.slab_model(colors, x, n - 1) + self.column_model(colors, x, n - 1, D as int)
        }
    }

    /// The meshes of the slabs `0` up to `n - 1`.
    pub open spec fn grid_model(&self, colors: ChunkColors<W, H, D>, n: int) -> Seq<MeshView>
        decreases n,
    {
        if n <= 0 {
            Seq::empty()
        } else {
            self.grid_model(colors, n - 1) + self.slab_model(colors, n - 1, H as int)
        }
    }

    /// Where the first cell of the chunk at `chunk_pos` lies in the world.
    pub open spec fn chunk_offset(chunk_pos: ChunkPos) -> Position {
        [
            (chunk_pos.x * VOXEL_WIDTH * W) as i64,
            (chunk_pos.y * VOXEL_HEIGHT * H) as i64,
            (chunk_pos.z * VOXEL_DEPTH * D) as i64,
        ]
    }

    /// The meshes of the whole chunk at `chunk_pos`: those of its cells, x
    /// outermost and z innermost, placed in the world.
    pub open spec fn chunk_model(&self, colors: ChunkColors<W, H, D>, chunk_pos: ChunkPos) -> Seq<MeshView> {
        all_moved(self.grid_model(colors, W as int), Self::chunk_offset(chunk_pos))
    }

    /// The number of faces of the cells `(x, y, 0)` up to `(x, y, n - 1)`.
    pub open spec fn column_faces(&self, x: int, y: int, n: int) -> nat
        decreases n,
    {
        if n <= 0 {
            0
        } else {
            self.column_faces(x, y, n - 1) + self.cell_sides(x, y, n - 1).len()
        }
    }

    /// The number of faces of the columns `(x, 0)` up to `(x, n - 1)`.
    pub open spec fn slab_faces(&self, x: int, n: int) -> nat
        decreases n,
    {
        if n <= 0 {
            0
        } else {
            self.slab_faces(x, n - 1) + self.column_faces(x, n - 1, D as int)
        }
    }

    /// The number of faces of the slabs `0` up to `n - 1`.
    pub open spec fn grid_faces(&self, n: int) -> nat
        decreases n,
    {
        if n <= 0 {
            0
        } else {
            self.grid_faces(n - 1) + self.slab_faces(n - 1, H as int)
        }
    }

    /// The number of faces of the chunk's mesh.
    pub open spec fn face_count(&self) -> nat {
        self.grid_faces(W as int)
    }

    /// Whether `colors` gives every occupied cell a colour that its voxel can
    /// have.
    pub open spec fn colored_by(&self, colors: ChunkColors<W, H, D>) -> bool {
        forall|x: int, y: int, z: int| #[trigger]
            self.occupied(x, y, z) ==> self.at(x, y, z)->0.has_color(colors.at(x, y, z))
    }

    /// The meshes of the cell `(x, y, z)` in `color`: one quad for each face
    /// of the cell that can be seen, placed at the cell.
    pub fn voxel_model(&self, x: usize, y: usize, z: usize, color: Color) -> (model: Model)
        requires
            Self::inside(x as int, y as int, z as int),
            W <= CHUNK_SIZE_LIMIT,
            H <= CHUNK_SIZE_LIMIT,
            D <= CHUNK_SIZE_LIMIT,
        ensures
            model@ == self.cell_model(color, x as int, y as int, z as int),
    {
        let mut voxel_model = Model::default();
        if self.0[x][y][z].is_none() {
            assert(voxel_model@ =~= self.cell_model(color, x as int, y as int, z as int));
            return voxel_model;
        }
        let draw_left = x == 0 || self.0[x - 1][y][z].is_none();
        let draw_right = x == W - 1 || self.0[x + 1][y][z].is_none();
        let draw_bottom = y == 0 || self.0[x][y - 1][z].is_none();
        let draw_top = y == H - 1 || self.0[x][y + 1][z].is_none();
        let draw_back = z == 0 || self.0[x][y][z - 1].is_none();
        let draw_front = z == D - 1 || self.0[x][y][z + 1].is_none();
        let ghost xi = x as int;
        let ghost yi = y as int;
        let ghost zi = z as int;
        let ghost left = self.with_side(Seq::empty(), xi, yi, zi, Side::Left);
        let ghost right = self.with_side(left, xi, yi, zi, Side::Right);
        let ghost top = self.with_side(right, xi, yi, zi, Side::Top);
        let ghost bottom = self.with_side(top, xi, yi, zi, Side::Bottom);
        let ghost front = self.with_side(bottom, xi, yi, zi, Side::Front);
        let ghost back = self.with_side(front, xi, yi, zi, Side::Back);
        assert(voxel_model@ =~= side_meshes(Seq::empty(), color));
        add_side(&mut voxel_model, draw_left, Side::Left, color, Ghost(Seq::empty()));
        add_side(&mut voxel_model, draw_right, Side::Right, color, Ghost(left));
        add_side(&mut voxel_model, draw_top, Side::Top, color, Ghost(right));
        add_side(&mut voxel_model, draw_bottom, Side::Bottom, color, Ghost(top));
        add_side(&mut voxel_model, draw_front, Side::Front, color, Ghost(bottom));
        add_side(&mut voxel_model, draw_back, Side::Back, color, Ghost(front));
        assert(voxel_model@ == side_meshes(back, color));
        let offset: Position = [x as i64 * VOXEL_WIDTH, y as i64 * VOXEL_HEIGHT, z as i64 * VOXEL_DEPTH];
        assert(offset@ =~= cell_offset(xi, yi, zi)@);
        proof {
            lemma_sides_can_move(back, color, offset);
        }
        voxel_model.move_model(offset);
        assert(voxel_model@ =~= self.cell_model(color, xi, yi, zi));
        voxel_model
    }

    /// The number of faces of the cell `(x, y, z)`: of its sides that can be
    /// seen, or nought if the cell is empty.
    pub fn count_cell_faces(&self, x: usize, y: usize, z: usize) -> (count: usize)
        requires
            Self::inside(x as int, y as int, z as int),
        ensures
            count == self.cell_sides(x as int, y as int, z as int).len(),
            count <= 6,
    {
        if self.0[x][y][z].is_none() {
            return 0;
        }
        let left: usize = if x == 0 || self.0[x - 1][y][z].is_none() { 1 } else { 0 };
        let right: usize = if x == W - 1 || self.0[x + 1][y][z].is_none() { 1 } else { 0 };
        let bottom: usize = if y == 0 || self.0[x][y - 1][z].is_none() { 1 } else { 0 };
        let top: usize = if y == H - 1 || self.0[x][y + 1][z].is_none() { 1 } else { 0 };
        let back: usize = if z == 0 || self.0[x][y][z - 1].is_none() { 1 } else { 0 };
        let front: usize = if z == D - 1 || self.0[x][y][z + 1].is_none() { 1 } else { 0 };
        proof {
            let (xi, yi, zi) = (x as int, y as int, z as int);
            let sides = self.with_side(Seq::empty(), xi, yi, zi, Side::Left);
            assert(sides.len() == left);
            let sides = self.with_side(sides, xi, yi, zi, Side::Right);
            assert(sides.len() == left + right);
            let sides = self.with_side(sides, xi, yi, zi, Side::Top);
            assert(sides.len() == left + right + top);
            let sides = self.with_side(sides, xi, yi, zi, Side::Bottom);
            assert(sides.len() == left + right + top + bottom);
            let sides = self.with_side(sides, xi, yi, zi, Side::Front);
            assert(sides.len() == left + right + top + bottom + front);
        }
        left + right + top + bottom + front + back
    }

    /// The number of faces of the chunk's mesh.
    pub fn count_faces(&self) -> (count: usize)
        requires
            W <= CHUNK_SIZE_LIMIT,
            H <= CHUNK_SIZE_LIMIT,
            D <= CHUNK_SIZE_LIMIT,
        ensures
            count == self.face_count(),
    {
        let mut count: usize = 0;
        let mut x: usize = 0;
        while x < W
            invariant
                x <= W,
                W <= CHUNK_SIZE_LIMIT,
                H <= CHUNK_SIZE_LIMIT,
                D <= CHUNK_SIZE_LIMIT,
                count == self.grid_faces(x as int),
                count <= 5766 * x,
            decreases W - x,
        {
            let ghost grid = count;
            let mut y: usize = 0;
            while y < H
                invariant
                    x < W,
                    y <= H,
                    W <= CHUNK_SIZE_LIMIT,
                    H <= CHUNK_SIZE_LIMIT,
                    D <= CHUNK_SIZE_LIMIT,
                    grid == self.grid_faces(x as int),
                    grid <= 5766 * x,
                    count == grid + self.slab_faces(x as int, y as int),
                    count <= grid + 186 * y,
                decreases H - y,
            {
                let ghost slab = count;
                let mut z: usize = 0;
                while z < D
                    invariant
                        x < W,
                        y < H,
                        z <= D,
                        W <= CHUNK_SIZE_LIMIT,
                        H <= CHUNK_SIZE_LIMIT,
                        D <= CHUNK_SIZE_LIMIT,
                        slab <= 200_000,
                        count == slab + self.column_faces(x as int, y as int, z as int),
                        count <= slab + 6 * z,
                    decreases D - z,
                {
                    count += self.count_cell_faces(x, y, z);
                    z += 1;
                }
                y += 1;
            }
            x += 1;
        }
        count
    }

    /// Whether `vertices` and `indices` are the buffers of the chunk at
    /// `chunk_pos` with the colours `colors`: its meshes flattened.
    pub open spec fn meshed_as(
        &self,
        colors: ChunkColors<W, H, D>,
        chunk_pos: ChunkPos,
        vertices: Seq<Vertex>,
        indices: Seq<u16>,
    ) -> bool {
        let model = self.chunk_model(colors, chunk_pos);
        &&& vertices == flat_vertices(model)
        &&& indices.len() == flat_indices(model).len()
        &&& forall|i: int| 0 <= i < indices.len() ==> #[trigger] indices[i] == flat_indices(model)[i]
    }

    /// Builds the buffers of the chunk at `chunk_pos`, with the colour of each
    /// cell taken from `colors`.
    ///
    /// Every face is a quad of its own: four vertices and six indices, and
    /// every index picks a vertex of the result. The last part of the result
    /// is the number of indices.
    pub fn build_colored_model(&self, colors: &ChunkColors<W, H, D>, chunk_pos: ChunkPos) -> (r: (
        Vec<Vertex>,
        Vec<u16>,
        u32,
    ))
        requires
            W <= CHUNK_SIZE_LIMIT,
            H <= CHUNK_SIZE_LIMIT,
            D <= CHUNK_SIZE_LIMIT,
            self.face_count() <= FACE_LIMIT,
        ensures
            self.meshed_as(*colors, chunk_pos, r.0@, r.1@),
            r.0.len() == 4 * self.face_count(),
            r.1.len() == 6 * self.face_count(),
            r.2 == r.1.len(),
            forall|i: int| 0 <= i < r.1.len() ==> #[trigger] r.1[i] < r.0.len(),
    {
        let mut chunk_model = Model::default();
        let mut x: usize = 0;
        while x < W
            invariant
                x <= W,
                W <= CHUNK_SIZE_LIMIT,
                H <= CHUNK_SIZE_LIMIT,
                D <= CHUNK_SIZE_LIMIT,
                chunk_model@ == self.grid_model(*colors, x as int),
                chunk_model@.len() == self.grid_faces(x as int),
                quads_within(chunk_model@, -1, 2 * CHUNK_SIZE_LIMIT + 1),
            decreases W - x,
        {
            let ghost grid = chunk_model@;
            let mut y: usize = 0;
            assert(chunk_model@ =~= grid + self.slab_model(*colors, x as int, 0));
            while y < H
                invariant
                    x < W,
                    y <= H,
                    W <= CHUNK_SIZE_LIMIT,
                    H <= CHUNK_SIZE_LIMIT,
                    D <= CHUNK_SIZE_LIMIT,
                    grid.len() == self.grid_faces(x as int),
                    chunk_model@ == grid + self.slab_model(*colors, x as int, y as int),
                    chunk_model@.len() == grid.len() + self.slab_faces(x as int, y as int),
                    quads_within(chunk_model@, -1, 2 * CHUNK_SIZE_LIMIT + 1),
                decreases H - y,
            {
                let ghost slab = chunk_model@;
                let mut z: usize = 0;
                assert(chunk_model@ =~= slab + self.column_model(*colors, x as int, y as int, 0));
                while z < D
                    invariant
                        x < W,
                        y < H,
                        z <= D,
                        W <= CHUNK_SIZE_LIMIT,
                        H <= CHUNK_SIZE_LIMIT,
                        D <= CHUNK_SIZE_LIMIT,
                        chunk_model@ == slab + self.column_model(*colors, x as int, y as int, z as int),
                        chunk_model@.len() == slab.len() + self.column_faces(x as int, y as int, z as int),
                        quads_within(chunk_model@, -1, 2 * CHUNK_SIZE_LIMIT + 1),
                    decreases D - z,
                {
                    let voxel_model = self.voxel_model(x, y, z, colors.0[x][y][z]);
                    proof {
                        self.lemma_cell_model(colors.at(x as int, y as int, z as int), x as int, y as int, z as int);
                        assert(slab + self.column_model(*colors, x as int, y as int, z as int + 1) =~= chunk_model@
                            + voxel_model@);
                    }
                    chunk_model.add_model(voxel_model);
                    z += 1;
                }
                assert(chunk_model@ =~= grid + self.slab_model(*colors, x as int, y as int + 1));
                y += 1;
            }
            x += 1;
        }
        proof {
            lemma_product_bound(chunk_pos.x * VOXEL_WIDTH, W as int);
            lemma_product_bound(chunk_pos.y * VOXEL_HEIGHT, H as int);
            lemma_product_bound(chunk_pos.z * VOXEL_DEPTH, D as int);
        }
        let offset: Position = [
            chunk_pos.x as i64 * VOXEL_WIDTH * W as i64,
            chunk_pos.y as i64 * VOXEL_HEIGHT * H as i64,
            chunk_pos.z as i64 * VOXEL_DEPTH * D as i64,
        ];
        assert(offset@ =~= Self::chunk_offset(chunk_pos)@);
        proof {
            lemma_quads_can_move(chunk_model@, -1, 2 * CHUNK_SIZE_LIMIT + 1, offset);
        }
        chunk_model.move_model(offset);
        proof {
            let model = chunk_model@;
            assert(model == self.chunk_model(*colors, chunk_pos));
            assert forall|k: int| 0 <= k < model.len() implies (#[trigger] model[k]).is_quad() by {
                assert(self.grid_model(*colors, W as int)[k].is_quad());
            }
            lemma_flatten_quads(model);
        }
        let (vertices, indices) = chunk_model.build_model();
        let index_count = indices.len() as u32;
        (vertices, indices, index_count)
    }

    /// Picks a colour for every occupied cell, x outermost and z innermost.
    /// An empty cell gets black.
    pub fn pick_colors(&self) -> (colors: ChunkColors<W, H, D>)
        ensures
            self.colored_by(colors),
            forall|x: int, y: int, z: int|
                Self::inside(x, y, z) && !#[trigger] self.occupied(x, y, z) ==> colors.at(x, y, z)@ == seq![
                    0u16,
                    0u16,
                    0u16,
                ],
    {
        let mut colors = ChunkColors([[[[0u16; 3]; D]; H]; W]);
        assert forall|a: int, b: int, c: int| Self::inside(a, b, c) implies colors.at(a, b, c)@ == seq![
            0u16,
            0u16,
            0u16,
        ] by {
            assert(colors.at(a, b, c)@ =~= seq![0u16, 0u16, 0u16]);
        }
        let mut x: usize = 0;
        while x < W
            invariant
                x <= W,
                self.colored_before(colors, x as int, 0, 0),
            decreases W - x,
        {
            let mut y: usize = 0;
            while y < H
                invariant
                    x < W,
                    y <= H,
                    self.colored_before(colors, x as int, y as int, 0),
                decreases H - y,
            {
                let mut z: usize = 0;
                while z < D
                    invariant
                        x < W,
                        y < H,
                        z <= D,
                        self.colored_before(colors, x as int, y as int, z as int),
                    decreases D - z,
                {
                    let ghost earlier = colors;
                    match self.0[x][y][z] {
                        Some(voxel) => {
                            let color = voxel.get_color();
                            colors.0[x][y][z] = color;
                        },
                        None => {},
                    }
                    proof {
                        assert forall|a: int, b: int, c: int|
                            Self::inside(a, b, c) && !(a == x && b == y && c == z) implies #[trigger] colors.at(a, b, c)
                            == earlier.at(a, b, c) by {
                            if a != x {
                                assert(colors.0[a] == earlier.0[a]);
                            } else if b != y {
                                assert(colors.0[a][b] == earlier.0[a][b]);
                            }
                        }
                        self.lemma_colored_one_more(earlier, colors, x as int, y as int, z as int);
                    }
                    z += 1;
                }
                assert(self.colored_before(colors, x as int, y as int + 1, 0));
                y += 1;
            }
            assert(self.colored_before(colors, x as int + 1, 0, 0));
            x += 1;
        }
        colors
    }

    /// Colouring the cell `(x, y, z)` after the cells before it colours the
    /// cells before the next one.
    proof fn lemma_colored_one_more(
        &self,
        earlier: ChunkColors<W, H, D>,
        colors: ChunkColors<W, H, D>,
        x: int,
        y: int,
        z: int,
    )
        requires
            Self::inside(x, y, z),
            self.colored_before(earlier, x, y, z),
            forall|a: int, b: int, c: int|
                Self::inside(a, b, c) && !(a == x && b == y && c == z) ==> #[trigger] colors.at(a, b, c)
                    == earlier.at(a, b, c),
            self.occupied(x, y, z) ==> self.at(x, y, z)->0.has_color(colors.at(x, y, z)),
            !self.occupied(x, y, z) ==> colors.at(x, y, z) == earlier.at(x, y, z),
        ensures
            self.colored_before(colors, x, y, z + 1),
    {
        assert forall|a: int, b: int, c: int| Self::inside(a, b, c) implies if #[trigger] self.occupied(a, b, c)
            && comes_before(a, b, c, x, y, z + 1) {
            self.at(a, b, c)->0.has_color(colors.at(a, b, c))
        } else {
            colors.at(a, b, c)@ == seq![0u16, 0u16, 0u16]
        } by {
            if a == x && b == y && c == z {
                assert(!comes_before(a, b, c, x, y, z));
                assert(comes_before(a, b, c, x, y, z + 1));
            } else {
                assert(colors.at(a, b, c) == earlier.at(a, b, c));
                assert(comes_before(a, b, c, x, y, z) == comes_before(a, b, c, x, y, z + 1));
            }
        }
    }

    /// Whether the cells that come before `(x, y, z)`, x outermost and z
    /// innermost, have their colours in `colors`, and the others are black.
    pub open spec fn colored_before(&self, colors: ChunkColors<W, H, D>, x: int, y: int, z: int) -> bool {
        forall|a: int, b: int, c: int|
            Self::inside(a, b, c) ==> if #[trigger] self.occupied(a, b, c) && comes_before(a, b, c, x, y, z) {
                self.at(a, b, c)->0.has_color(colors.at(a, b, c))
            } else {
                colors.at(a, b, c)@ == seq![0u16, 0u16, 0u16]
            }
    }

    /// The meshes of a cell are one quad for each of its faces, and their
    /// vertices lie at the corners of the cell.
    pub proof fn lemma_cell_model(&self, color: Color, x: int, y: int, z: int)
        requires
            Self::inside(x, y, z),
            W <= CHUNK_SIZE_LIMIT,
            H <= CHUNK_SIZE_LIMIT,
            D <= CHUNK_SIZE_LIMIT,
        ensures
            self.cell_model(color, x, y, z).len() == self.cell_sides(x, y, z).len(),
            quads_within(self.cell_model(color, x, y, z), -1, 2 * CHUNK_SIZE_LIMIT + 1),
    {
        let sides = self.cell_sides(x, y, z);
        let model = self.cell_model(color, x, y, z);
        let offset = cell_offset(x, y, z);
        assert forall|i: int| 0 <= i < model.len() implies quad_within(
            #[trigger] model[i],
            -1,
            2 * CHUNK_SIZE_LIMIT + 1,
        ) by {
            lemma_side_corners(sides[i], color);
            let side = Voxel::side_mesh(sides[i], color);
            assert(model[i] == side.moved(offset));
            assert forall|j: int, k: int| 0 <= j < 4 && 0 <= k < 3 implies -1 <= #[trigger] model[i].vertices[j].pos[k]
                <= 2 * CHUNK_SIZE_LIMIT + 1 by {
                assert(-1 <= side.vertices[j].pos[k] <= 1);
                assert(model[i].vertices[j] == side.vertices[j].moved(offset));
            }
        }
    }
}

/// The bytes of `indices`, two for each: the low byte first if `little`, else
/// the high byte first.
pub open spec fn index_bytes_of(indices: Seq<u16>, little: bool) -> Seq<u8> {
    Seq::new(
        2 * indices.len(),
        |k: int|
            if (k % 2 == 0) == little {
                (indices[k / 2] % 256) as u8
            } else {
                (indices[k / 2] / 256) as u8
            },
    )
}

/// `bytemuck::cast_slice` from `u16` to `u8`: the memory of `indices` read
/// byte by byte, so two bytes for each index, in the byte order of the
/// machine, which is one of the two. With a target of single bytes the cast
/// has nothing to fail on.
#[verifier::external_body]
fn cast_indices(indices: &[u16]) -> (bytes: &[u8])
    ensures
        bytes@ == index_bytes_of(indices@, true) || bytes@ == index_bytes_of(indices@, false),
{
    bytemuck::cast_slice(indices)
}

/// The voxels of a chunk of the world.
pub type WorldVoxels = ChunkVoxels<CHUNK_WIDTH, CHUNK_HEIGHT, CHUNK_DEPTH>;

/// A chunk of the world: its voxels, and the buffers of its mesh.
pub struct Chunk {
    voxels: WorldVoxels,
    vertex_buffer: Vec<Vertex>,
    index_buffer: Vec<u16>,
    index_count: u32,
}

impl Chunk {
    /// The chunk's voxels.
    pub closed spec fn grid(&self) -> WorldVoxels {
        self.voxels
    }

    /// The vertices of the chunk's mesh.
    pub closed spec fn mesh_vertices(&self) -> Seq<Vertex> {
        self.vertex_buffer@
    }

    /// The indices of the chunk's mesh.
    pub closed spec fn mesh_indices(&self) -> Seq<u16> {
        self.index_buffer@
    }

    /// The number of indices to draw.
    pub closed spec fn mesh_index_count(&self) -> u32 {
        self.index_count
    }

    /// Whether `vertices`, `indices` and `index_count` are the mesh of
    /// `voxels` at `chunk_pos`, in colours that the voxels can have.
    pub open spec fn is_mesh_of<const W: usize, const H: usize, const D: usize>(
        voxels: ChunkVoxels<W, H, D>,
        chunk_pos: ChunkPos,
        vertices: Seq<Vertex>,
        indices: Seq<u16>,
        index_count: u32,
    ) -> bool {
        &&& exists|colors: ChunkColors<W, H, D>| #[trigger]
            voxels.colored_by(colors) && voxels.meshed_as(colors, chunk_pos, vertices, indices)
        &&& vertices.len() == 4 * voxels.face_count()
        &&& indices.len() == 6 * voxels.face_count()
        &&& index_count == indices.len()
        &&& forall|i: int| 0 <= i < indices.len() ==> #[trigger] indices[i] < vertices.len()
    }

    /// Whether the chunk's buffers hold the mesh of its voxels at `chunk_pos`.
    pub open spec fn built_at(&self, chunk_pos: ChunkPos) -> bool {
        Self::is_mesh_of(
            self.grid(),
            chunk_pos,
            self.mesh_vertices(),
            self.mesh_indices(),
            self.mesh_index_count(),
        )
    }

    /// Whether every cell of the chunk holds grass.
    pub open spec fn is_grass(&self) -> bool {
        forall|x: int, y: int, z: int|
            WorldVoxels::inside(x, y, z) ==> #[trigger] self.grid().at(x, y, z) == Some(Voxel::Grass)
    }

    /// A chunk of grass at `chunk_pos`, with its mesh built.
    pub fn new(chunk_pos: ChunkPos) -> (chunk: Chunk)
        ensures
            chunk.built_at(chunk_pos),
            chunk.is_grass(),
    {
        let voxels = ChunkVoxels([[[Some(Voxel::Grass); CHUNK_DEPTH]; CHUNK_HEIGHT]; CHUNK_WIDTH]);
        proof {
            voxels.lemma_face_count_bound();
        }
        let (vertex_buffer, index_buffer, index_count) = Self::build_chunk_model(chunk_pos, &voxels);
        Chunk { voxels, vertex_buffer, index_buffer, index_count }
    }

    /// Builds the mesh anew from the chunk's voxels, for the place
    /// `chunk_pos`. The voxels stay as they are.
    pub fn rebuild_chunk_model(&mut self, chunk_pos: ChunkPos)
        ensures
            final(self).grid() == old(self).grid(),
            final(self).built_at(chunk_pos),
    {
        proof {
            self.voxels.lemma_face_count_bound();
        }
        let (vertex_buffer, index_buffer, index_count) = Self::build_chunk_model(chunk_pos, &self.voxels);
        self.vertex_buffer = vertex_buffer;
        self.index_buffer = index_buffer;
        self.index_count = index_count;
    }

    /// Builds the mesh of `voxels` for the chunk at `chunk_pos`: the vertex
    /// buffer, the index buffer, and the number of indices.
    ///
    /// The mesh has one quad for every face of an occupied cell that no
    /// occupied cell of the same chunk covers. The colour of each voxel is
    /// picked as the mesh is built, so two calls may differ in their colours,
    /// and in nothing else.
    pub fn build_chunk_model<const W: usize, const H: usize, const D: usize>(
        chunk_pos: ChunkPos,
        voxels: &ChunkVoxels<W, H, D>,
    ) -> (r: (Vec<Vertex>, Vec<u16>, u32))
        requires
            W <= CHUNK_SIZE_LIMIT,
            H <= CHUNK_SIZE_LIMIT,
            D <= CHUNK_SIZE_LIMIT,
            voxels.face_count() <= FACE_LIMIT,
        ensures
            Self::is_mesh_of(*voxels, chunk_pos, r.0@, r.1@, r.2),
    {
        let colors = voxels.pick_colors();
        voxels.build_colored_model(&colors, chunk_pos)
    }

    /// The chunk's voxels.
    pub fn voxels(&self) -> (voxels: &WorldVoxels)
        ensures
            *voxels == self.grid(),
    {
        &self.voxels
    }

    /// The vertices of the chunk's mesh.
    pub fn vertices(&self) -> (vertices: &Vec<Vertex>)
        ensures
            vertices@ == self.mesh_vertices(),
    {
        &self.vertex_buffer
    }

    /// The indices of the chunk's mesh, three for each triangle.
    pub fn indices(&self) -> (indices: &Vec<u16>)
        ensures
            indices@ == self.mesh_indices(),
    {
        &self.index_buffer
    }

    /// The indices of the chunk's mesh as the bytes of an index buffer: two
    /// bytes for each index, in the byte order of the machine.
    pub fn index_bytes(&self) -> (bytes: &[u8])
        ensures
            bytes@ == index_bytes_of(self.mesh_indices(), true) || bytes@ == index_bytes_of(
                self.mesh_indices(),
                false,
            ),
            bytes@.len() == 2 * self.mesh_indices().len(),
    {
        cast_indices(self.index_buffer.as_slice())
    }

    /// The number of indices to draw.
    pub fn index_count(&self) -> (count: u32)
        ensures
            count == self.mesh_index_count(),
    {
        self.index_count
    }
}

/// Adds the face `side` to `model` if `draw` says so.
fn add_side(model: &mut Model, draw: bool, side: Side, color: Color, Ghost(sides): Ghost<Seq<Side>>)
    requires
        old(model)@ == side_meshes(sides, color),
    ensures
        final(model)@ == side_meshes(
            if draw {
                sides.push(side)
            } else {
                sides
            },
            color,
        ),
{
    if draw {
        model.add_mesh(Voxel::get_side(side, color));
        assert(model@ =~= side_meshes(sides.push(side), color));
    }
}

/// The corners of the cube around the origin are one lattice unit from it
/// along every axis.
pub proof fn lemma_side_corners(side: Side, color: Color)
    ensures
        Voxel::side_mesh(side, color).is_quad(),
        forall|i: int, k: int|
            0 <= i < 4 && 0 <= k < 3 ==> -1 <= #[trigger] Voxel::side_mesh(side, color).vertices[i].pos[k] <= 1,
{
    let mesh = Voxel::side_mesh(side, color);
    assert forall|i: int, k: int| 0 <= i < 4 && 0 <= k < 3 implies -1 <= #[trigger] mesh.vertices[i].pos[k]
        <= 1 by {
        assert(mesh.vertices[i].pos == Voxel::side_corners(side)[i]);
    }
}

proof fn lemma_sides_can_move(sides: Seq<Side>, color: Color, offset: Position)
    requires
        forall|k: int| 0 <= k < 3 ==> 0 <= #[trigger] offset[k] <= 1000,
    ensures
        all_can_move(side_meshes(sides, color), offset),
{
    let meshes = side_meshes(sides, color);
    assert forall|i: int| 0 <= i < meshes.len() implies (#[trigger] meshes[i]).can_move(offset) by {
        lemma_side_corners(sides[i], color);
        assert forall|j: int| 0 <= j < meshes[i].vertices.len() implies (#[trigger] meshes[i].vertices[j]).can_move(
            offset,
        ) by {
            assert forall|k: int| 0 <= k < 3 implies i64::MIN <= #[trigger] meshes[i].vertices[j].pos[k]
                + offset[k] <= i64::MAX by {
                assert(-1 <= Voxel::side_mesh(sides[i], color).vertices[j].pos[k] <= 1);
            }
        }
    }
}

/// Whether the cell `(a, b, c)` comes before the cell `(x, y, z)` when the
/// cells are gone through with x outermost and z innermost.
pub open spec fn comes_before(a: int, b: int, c: int, x: int, y: int, z: int) -> bool {
    a < x || (a == x && (b < y || (b == y && c < z)))
}

/// Whether `mesh` is a quad whose vertices have every coordinate between
/// `low` and `high`.
pub open spec fn quad_within(mesh: MeshView, low: int, high: int) -> bool {
    &&& mesh.is_quad()
    &&& forall|j: int, k: int| 0 <= j < 4 && 0 <= k < 3 ==> low <= #[trigger] mesh.vertices[j].pos[k] <= high
}

/// Whether every mesh of `meshes` is a quad within `low` and `high`.
pub open spec fn quads_within(meshes: Seq<MeshView>, low: int, high: int) -> bool {
    forall|i: int| 0 <= i < meshes.len() ==> quad_within(#[trigger] meshes[i], low, high)
}

/// A chunk's place times its size stays far from the ends of the coordinate
/// range.
proof fn lemma_product_bound(a: int, size: int)
    requires
        -0x1_0000_0000 <= a <= 0x1_0000_0000,
        0 <= size <= CHUNK_SIZE_LIMIT,
    ensures
        -0x20_0000_0000 <= a * size <= 0x20_0000_0000,
{
    assert(-0x20_0000_0000 <= a * size <= 0x20_0000_0000) by (nonlinear_arith)
        requires
            -0x1_0000_0000 <= a <= 0x1_0000_0000,
            0 <= size <= 31,
    ;
}

/// Quads that lie in a small box can be moved by any offset that is far from
/// the ends of the coordinate range.
proof fn lemma_quads_can_move(meshes: Seq<MeshView>, low: int, high: int, offset: Position)
    requires
        quads_within(meshes, low, high),
        forall|k: int| 0 <= k < 3 ==> i64::MIN - low <= #[trigger] offset[k] <= i64::MAX - high,
    ensures
        all_can_move(meshes, offset),
        forall|i: int| 0 <= i < meshes.len() ==> (#[trigger] all_moved(meshes, offset)[i]).is_quad(),
{
    assert forall|i: int| 0 <= i < meshes.len() implies (#[trigger] meshes[i]).can_move(offset) by {
        assert(quad_within(meshes[i], low, high));
        assert forall|j: int| 0 <= j < meshes[i].vertices.len() implies (#[trigger] meshes[i].vertices[j]).can_move(
            offset,
        ) by {
            assert forall|k: int| 0 <= k < 3 implies i64::MIN <= #[trigger] meshes[i].vertices[j].pos[k]
                + offset[k] <= i64::MAX by {
                assert(low <= meshes[i].vertices[j].pos[k] <= high);
            }
        }
    }
    assert forall|i: int| 0 <= i < meshes.len() implies (#[trigger] all_moved(meshes, offset)[i]).is_quad() by {
        assert(quad_within(meshes[i], low, high));
    }
}

} // verus!
