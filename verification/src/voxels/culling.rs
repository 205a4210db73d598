//! What the culling of hidden faces guarantees: how many faces a chunk's
//! mesh has, and which faces of a cell are always there.

use vstd::prelude::*;
use super::chunk::{cell_offset, neighbour, side_meshes, ChunkColors, ChunkPos, ChunkVoxels};
use super::model::MeshView;
use super::voxel::{Side, Voxel};

verus! {

impl<const W: usize, const H: usize, const D: usize> ChunkVoxels<W, H, D> {
    /// The faces that the cell `cell` adds to the cells `(x, y, 0)` up to
    /// `(x, y, n - 1)`.
    spec fn share_of_column(&self, cell: (int, int, int), x: int, y: int, n: int) -> nat {
        if cell.0 == x && cell.1 == y && 0 <= cell.2 < n {
            self.cell_sides(cell.0, cell.1, cell.2).len()
        } else {
            0
        }
    }

    /// The faces that the cell `cell` adds to the columns `(x, 0)` up to
    /// `(x, n - 1)`.
    spec fn share_of_slab(&self, cell: (int, int, int), x: int, n: int) -> nat {
        if cell.0 == x && 0 <= cell.1 < n && 0 <= cell.2 < D {
            self.cell_sides(cell.0, cell.1, cell.2).len()
        } else {
            0
        }
    }

    /// The faces that the cell `cell` adds to the slabs `0` up to `n - 1`.
    spec fn share_of_grid(&self, cell: (int, int, int), n: int) -> nat {
        if 0 <= cell.0 < n && 0 <= cell.1 < H && 0 <= cell.2 < D {
            self.cell_sides(cell.0, cell.1, cell.2).len()
        } else {
            0
        }
    }

    /// Whether no cell but `p` and `q` is occupied.
    spec fn only_occupied(&self, p: (int, int, int), q: (int, int, int)) -> bool {
        forall|x: int, y: int, z: int| #[trigger] self.occupied(x, y, z) ==> (x, y, z) == p || (x, y, z) == q
    }

    proof fn lemma_column_of_two(&self, p: (int, int, int), q: (int, int, int), x: int, y: int, n: int)
        requires
            self.only_occupied(p, q),
            p != q,
        ensures
            self.column_faces(x, y, n) == self.share_of_column(p, x, y, n) + self.share_of_column(q, x, y, n),
        decreases n,
    {
        if n > 0 {
            self.lemma_column_of_two(p, q, x, y, n - 1);
            if (x, y, n - 1) != p && (x, y, n - 1) != q {
                assert(!self.occupied(x, y, n - 1));
            }
        }
    }

    proof fn lemma_slab_of_two(&self, p: (int, int, int), q: (int, int, int), x: int, n: int)
        requires
            self.only_occupied(p, q),
            p != q,
        ensures
            self.slab_faces(x, n) == self.share_of_slab(p, x, n) + self.share_of_slab(q, x, n),
        decreases n,
    {
        if n > 0 {
            self.lemma_slab_of_two(p, q, x, n - 1);
            self.lemma_column_of_two(p, q, x, n - 1, D as int);
        }
    }

    proof fn lemma_grid_of_two(&self, p: (int, int, int), q: (int, int, int), n: int)
        requires
            self.only_occupied(p, q),
            p != q,
        ensures
            self.grid_faces(n) == self.share_of_grid(p, n) + self.share_of_grid(q, n),
        decreases n,
    {
        if n > 0 {
            self.lemma_grid_of_two(p, q, n - 1);
            self.lemma_slab_of_two(p, q, n - 1, H as int);
        }
    }

    /// A voxel with no other voxel in its chunk shows all six faces, wherever
    /// in the chunk it stands.
    pub proof fn lemma_lone_voxel_shows_six_faces(&self, x: int, y: int, z: int)
        requires
            self.occupied(x, y, z),
            forall|a: int, b: int, c: int| #[trigger] self.occupied(a, b, c) ==> (a, b, c) == (x, y, z),
        ensures
            self.face_count() == 6,
    {
        let p = (x, y, z);
        let q = (-1int, -1int, -1int);
        self.lemma_grid_of_two(p, q, W as int);
        assert(self.cell_sides(x, y, z).len() == 6) by {
            self.lemma_sides_of_cell(x, y, z);
        }
    }

    /// Two voxels next to each other along one axis, with no other voxel in
    /// their chunk, show ten faces: each hides the face that it turns to the
    /// other.
    pub proof fn lemma_pair_shows_ten_faces(&self, x: int, y: int, z: int, side: Side)
        requires
            self.occupied(x, y, z),
            ({
                let n = neighbour(x, y, z, side);
                self.occupied(n.0, n.1, n.2)
            }),
            forall|a: int, b: int, c: int| #[trigger]
                self.occupied(a, b, c) ==> (a, b, c) == (x, y, z) || (a, b, c) == neighbour(x, y, z, side),
        ensures
            self.face_count() == 10,
    {
        let p = (x, y, z);
        let q = neighbour(x, y, z, side);
        self.lemma_grid_of_two(p, q, W as int);
        self.lemma_sides_of_cell(p.0, p.1, p.2);
        self.lemma_sides_of_cell(q.0, q.1, q.2);
    }

    /// The number of faces of an occupied cell is the number of its sides
    /// that can be seen.
    proof fn lemma_sides_of_cell(&self, x: int, y: int, z: int)
        requires
            self.occupied(x, y, z),
        ensures
            self.cell_sides(x, y, z).len() == self.seen(x, y, z, Side::Left) + self.seen(x, y, z, Side::Right)
                + self.seen(x, y, z, Side::Top) + self.seen(x, y, z, Side::Bottom) + self.seen(
                x,
                y,
                z,
                Side::Front,
            ) + self.seen(x, y, z, Side::Back),
    {
    }

    /// One for a face that can be seen, nought for one that cannot.
    spec fn seen(&self, x: int, y: int, z: int, side: Side) -> nat {
        if self.visible(x, y, z, side) {
            1
        } else {
            0
        }
    }

    /// In a chunk that is one voxel thin along an axis, every occupied cell
    /// shows both of its faces along that axis, whatever stands around it.
    pub proof fn lemma_thin_chunk_shows_both_faces(&self, x: int, y: int, z: int)
        requires
            self.occupied(x, y, z),
        ensures
            W == 1 ==> self.cell_sides(x, y, z).contains(Side::Left) && self.cell_sides(x, y, z).contains(
                Side::Right,
            ),
            H == 1 ==> self.cell_sides(x, y, z).contains(Side::Top) && self.cell_sides(x, y, z).contains(
                Side::Bottom,
            ),
            D == 1 ==> self.cell_sides(x, y, z).contains(Side::Front) && self.cell_sides(x, y, z).contains(
                Side::Back,
            ),
    {
        self.lemma_cell_sides_are_the_visible(x, y, z);
    }

    /// The faces of an occupied cell are exactly its sides that can be seen.
    pub proof fn lemma_cell_sides_are_the_visible(&self, x: int, y: int, z: int)
        requires
            self.occupied(x, y, z),
        ensures
            forall|side: Side| #[trigger] self.cell_sides(x, y, z).contains(side) <==> self.visible(x, y, z, side),
    {
        let left = self.with_side(Seq::empty(), x, y, z, Side::Left);
        let right = self.with_side(left, x, y, z, Side::Right);
        let top = self.with_side(right, x, y, z, Side::Top);
        let bottom = self.with_side(top, x, y, z, Side::Bottom);
        let front = self.with_side(bottom, x, y, z, Side::Front);
        let back = self.with_side(front, x, y, z, Side::Back);
        assert forall|side: Side| #[trigger] back.contains(side) <==> self.visible(x, y, z, side) by {
            lemma_contains_after_push(Seq::empty(), Side::Left, side);
            lemma_contains_after_push(left, Side::Right, side);
            lemma_contains_after_push(right, Side::Top, side);
            lemma_contains_after_push(top, Side::Bottom, side);
            lemma_contains_after_push(bottom, Side::Front, side);
            lemma_contains_after_push(front, Side::Back, side);
        }
    }

    /// Whether `mesh` is the quad of the face `side` of the cell `(x, y, z)`,
    /// placed at the cell, and that cell is occupied and shows that face.
    pub open spec fn is_face(
        &self,
        mesh: MeshView,
        colors: ChunkColors<W, H, D>,
        x: int,
        y: int,
        z: int,
        side: Side,
    ) -> bool {
        &&& self.occupied(x, y, z)
        &&& self.visible(x, y, z, side)
        &&& mesh == Voxel::side_mesh(side, colors.at(x, y, z)).moved(cell_offset(x, y, z))
    }

    /// The model holds nothing but faces that can be seen: each of its meshes
    /// is the quad of a face of an occupied cell, and no occupied cell of the
    /// chunk covers that face. In the mesh of the chunk the quad is moved on to
    /// the chunk's place.
    pub proof fn lemma_model_holds_only_visible_faces(
        &self,
        colors: ChunkColors<W, H, D>,
        chunk_pos: ChunkPos,
        i: int,
    )
        requires
            0 <= i < self.chunk_model(colors, chunk_pos).len(),
        ensures
            exists|x: int, y: int, z: int, side: Side|
                {
                    &&& #[trigger] self.is_face(self.grid_model(colors, W as int)[i], colors, x, y, z, side)
                    &&& self.chunk_model(colors, chunk_pos)[i] == self.grid_model(colors, W as int)[i].moved(
                        Self::chunk_offset(chunk_pos),
                    )
                },
    {
        let found = self.lemma_grid_face(colors, W as int, i);
        assert(self.is_face(self.grid_model(colors, W as int)[i], colors, found.0, found.1, found.2, found.3));
    }

    /// The model holds every face that can be seen: for each side of an
    /// occupied cell that no occupied cell of the chunk covers, one of its
    /// meshes is the quad of that face, moved on to the chunk's place in the
    /// mesh of the chunk.
    pub proof fn lemma_model_holds_every_visible_face(
        &self,
        colors: ChunkColors<W, H, D>,
        chunk_pos: ChunkPos,
        x: int,
        y: int,
        z: int,
        side: Side,
    )
        requires
            self.occupied(x, y, z),
            self.visible(x, y, z, side),
        ensures
            exists|i: int|
                {
                    &&& 0 <= i < self.chunk_model(colors, chunk_pos).len()
                    &&& self.is_face(#[trigger] self.grid_model(colors, W as int)[i], colors, x, y, z, side)
                    &&& self.chunk_model(colors, chunk_pos)[i] == self.grid_model(colors, W as int)[i].moved(
                        Self::chunk_offset(chunk_pos),
                    )
                },
    {
        let i = self.lemma_grid_index(colors, W as int, x, y, z, side);
        assert(self.is_face(self.grid_model(colors, W as int)[i], colors, x, y, z, side));
    }

    /// The cell and the side of the mesh `i` of a cell's model.
    proof fn lemma_cell_face(&self, colors: ChunkColors<W, H, D>, x: int, y: int, z: int, i: int) -> (side: Side)
        requires
            0 <= i < self.cell_model(colors.at(x, y, z), x, y, z).len(),
        ensures
            self.is_face(self.cell_model(colors.at(x, y, z), x, y, z)[i], colors, x, y, z, side),
    {
        let sides = self.cell_sides(x, y, z);
        self.lemma_cell_sides_are_the_visible(x, y, z);
        assert(sides.contains(sides[i]));
        assert(side_meshes(sides, colors.at(x, y, z))[i] == Voxel::side_mesh(sides[i], colors.at(x, y, z)));
        sides[i]
    }

    /// The place of the face `side` in the model of its cell.
    proof fn lemma_cell_index(&self, colors: ChunkColors<W, H, D>, x: int, y: int, z: int, side: Side) -> (i: int)
        requires
            self.occupied(x, y, z),
            self.visible(x, y, z, side),
        ensures
            0 <= i < self.cell_model(colors.at(x, y, z), x, y, z).len(),
            self.is_face(self.cell_model(colors.at(x, y, z), x, y, z)[i], colors, x, y, z, side),
    {
        let sides = self.cell_sides(x, y, z);
        self.lemma_cell_sides_are_the_visible(x, y, z);
        assert(sides.contains(side));
        let i = choose|i: int| 0 <= i < sides.len() && sides[i] == side;
        assert(side_meshes(sides, colors.at(x, y, z))[i] == Voxel::side_mesh(sides[i], colors.at(x, y, z)));
        i
    }

    proof fn lemma_column_face(&self, colors: ChunkColors<W, H, D>, x: int, y: int, n: int, i: int) -> (found: (
        int,
        Side,
    ))
        requires
            0 <= i < self.column_model(colors, x, y, n).len(),
        ensures
            self.is_face(self.column_model(colors, x, y, n)[i], colors, x, y, found.0, found.1),
        decreases n,
    {
        let before = self.column_model(colors, x, y, n - 1);
        if i < before.len() {
            self.lemma_column_face(colors, x, y, n - 1, i)
        } else {
            (n - 1, self.lemma_cell_face(colors, x, y, n - 1, i - before.len()))
        }
    }

    proof fn lemma_column_index(&self, colors: ChunkColors<W, H, D>, n: int, x: int, y: int, z: int, side: Side) -> (i:
        int)
        requires
            self.occupied(x, y, z),
            self.visible(x, y, z, side),
            z < n,
        ensures
            0 <= i < self.column_model(colors, x, y, n).len(),
            self.is_face(self.column_model(colors, x, y, n)[i], colors, x, y, z, side),
        decreases n,
    {
        let before = self.column_model(colors, x, y, n - 1);
        if z < n - 1 {
            self.lemma_column_index(colors, n - 1, x, y, z, side)
        } else {
            before.len() + self.lemma_cell_index(colors, x, y, z, side)
        }
    }

    proof fn lemma_slab_face(&self, colors: ChunkColors<W, H, D>, x: int, n: int, i: int) -> (found: (
        int,
        int,
        Side,
    ))
        requires
            0 <= i < self.slab_model(colors, x, n).len(),
        ensures
            self.is_face(self.slab_model(colors, x, n)[i], colors, x, found.0, found.1, found.2),
        decreases n,
    {
        let before = self.slab_model(colors, x, n - 1);
        if i < before.len() {
            self.lemma_slab_face(colors, x, n - 1, i)
        } else {
            let found = self.lemma_column_face(colors, x, n - 1, D as int, i - before.len());
            (n - 1, found.0, found.1)
        }
    }

    proof fn lemma_slab_index(&self, colors: ChunkColors<W, H, D>, n: int, x: int, y: int, z: int, side: Side) -> (i:
        int)
        requires
            self.occupied(x, y, z),
            self.visible(x, y, z, side),
            y < n,
        ensures
            0 <= i < self.slab_model(colors, x, n).len(),
            self.is_face(self.slab_model(colors, x, n)[i], colors, x, y, z, side),
        decreases n,
    {
        let before = self.slab_model(colors, x, n - 1);
        if y < n - 1 {
            self.lemma_slab_index(colors, n - 1, x, y, z, side)
        } else {
            before.len() + self.lemma_column_index(colors, D as int, x, y, z, side)
        }
    }

    proof fn lemma_grid_face(&self, colors: ChunkColors<W, H, D>, n: int, i: int) -> (found: (int, int, int, Side))
        requires
            0 <= i < self.grid_model(colors, n).len(),
        ensures
            self.is_face(self.grid_model(colors, n)[i], colors, found.0, found.1, found.2, found.3),
        decreases n,
    {
        let before = self.grid_model(colors, n - 1);
        if i < before.len() {
            self.lemma_grid_face(colors, n - 1, i)
        } else {
            let found = self.lemma_slab_face(colors, n - 1, H as int, i - before.len());
            (n - 1, found.0, found.1, found.2)
        }
    }

    proof fn lemma_grid_index(&self, colors: ChunkColors<W, H, D>, n: int, x: int, y: int, z: int, side: Side) -> (i:
        int)
        requires
            self.occupied(x, y, z),
            self.visible(x, y, z, side),
            x < n,
        ensures
            0 <= i < self.grid_model(colors, n).len(),
            self.is_face(self.grid_model(colors, n)[i], colors, x, y, z, side),
        decreases n,
    {
        let before = self.grid_model(colors, n - 1);
        if x < n - 1 {
            self.lemma_grid_index(colors, n - 1, x, y, z, side)
        } else {
            before.len() + self.lemma_slab_index(colors, H as int, x, y, z, side)
        }
    }

    /// A cell never has more than six faces, so a chunk never has more than
    /// six for each of its cells.
    pub proof fn lemma_face_count_bound(&self)
        ensures
            self.face_count() <= 6 * (W * H * D),
    {
        self.lemma_grid_bound(W as int);
    }

    proof fn lemma_column_bound(&self, x: int, y: int, n: int)
        requires
            0 <= n,
        ensures
            self.column_faces(x, y, n) <= 6 * n,
        decreases n,
    {
        if n > 0 {
            self.lemma_column_bound(x, y, n - 1);
            assert(self.cell_sides(x, y, n - 1).len() <= 6);
        }
    }

    proof fn lemma_slab_bound(&self, x: int, n: int)
        requires
            0 <= n,
        ensures
            self.slab_faces(x, n) <= 6 * (n * D),
        decreases n,
    {
        if n > 0 {
            self.lemma_slab_bound(x, n - 1);
            self.lemma_column_bound(x, n - 1, D as int);
            assert(6 * ((n - 1) * D) + 6 * D == 6 * (n * D)) by (nonlinear_arith);
        }
    }

    proof fn lemma_grid_bound(&self, n: int)
        requires
            0 <= n,
        ensures
            self.grid_faces(n) <= 6 * (n * H * D),
        decreases n,
    {
        if n > 0 {
            self.lemma_grid_bound(n - 1);
            self.lemma_slab_bound(n - 1, H as int);
            assert(6 * ((n - 1) * H * D) + 6 * (H * D) == 6 * (n * H * D)) by (nonlinear_arith);
        }
    }
}

/// What a sequence holds after a push: what it held, and the new item.
proof fn lemma_contains_after_push(sides: Seq<Side>, pushed: Side, side: Side)
    ensures
        sides.push(pushed).contains(side) <==> sides.contains(side) || side == pushed,
{
    let longer = sides.push(pushed);
    if sides.contains(side) {
        let i = choose|i: int| 0 <= i < sides.len() && sides[i] == side;
        assert(longer[i] == side);
    }
    if side == pushed {
        assert(longer[sides.len() as int] == side);
    }
    if longer.contains(side) {
        let i = choose|i: int| 0 <= i < longer.len() && longer[i] == side;
        if i < sides.len() {
            assert(sides[i] == side);
        }
    }
}

} // verus!
