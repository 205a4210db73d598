//! Meshes of coloured vertices, and models that gather meshes and flatten
//! them into one vertex buffer and one index buffer.

use vstd::prelude::*;

verus! {

/// A lattice position: the x, y and z coordinate in half-voxel units.
pub type Position = [i64; 3];

/// A colour: the red, green and blue channel in thousandths of full intensity.
pub type Color = [u16; 3];

/// One corner of a face.
#[derive(Debug, Clone, Copy, PartialEq, Eq)]
pub struct Vertex {
    pub pos: Position,
    pub color: Color,
}

impl Vertex {
    /// Whether the vertex can be moved by `shift` without leaving the
    /// range of its coordinates.
    pub open spec fn can_move(self, shift: Position) -> bool {
        forall|k: int| 0 <= k < 3 ==> i64::MIN <= #[trigger] self.pos[k] + shift[k] <= i64::MAX
    }

    /// The vertex moved by `shift`; its colour stays.
    pub open spec fn moved(self, shift: Position) -> Vertex {
        Vertex {
            pos: [
                (self.pos[0] + shift[0]) as i64,
                (self.pos[1] + shift[1]) as i64,
                (self.pos[2] + shift[2]) as i64,
            ],
            color: self.color,
        }
    }
}

/// What a mesh holds: its vertices, and the indices that pick three of them
/// for each triangle.
pub struct MeshView {
    pub vertices: Seq<Vertex>,
    pub indices: Seq<u16>,
}

impl MeshView {
    /// Every index picks one of the mesh's own vertices.
    pub open spec fn well_formed(self) -> bool {
        forall|i: int| 0 <= i < self.indices.len() ==> #[trigger] self.indices[i] < self.vertices.len()
    }

    /// A mesh of one quad: four vertices and the six indices of two triangles.
    pub open spec fn is_quad(self) -> bool {
        &&& self.vertices.len() == 4
        &&& self.indices.len() == 6
        &&& self.well_formed()
    }

    /// Whether every vertex can be moved by `shift`.
    pub open spec fn can_move(self, shift: Position) -> bool {
        forall|i: int| 0 <= i < self.vertices.len() ==> (#[trigger] self.vertices[i]).can_move(shift)
    }

    /// The mesh with every vertex moved by `shift`.
    pub open spec fn moved(self, shift: Position) -> MeshView {
        MeshView {
            vertices: Seq::new(self.vertices.len(), |i: int| self.vertices[i].moved(shift)),
            indices: self.indices,
        }
    }
}

/// Whether every mesh of `meshes` can be moved by `shift`.
pub open spec fn all_can_move(meshes: Seq<MeshView>, shift: Position) -> bool {
    forall|i: int| 0 <= i < meshes.len() ==> (#[trigger] meshes[i]).can_move(shift)
}

/// Every mesh of `meshes` moved by `shift`.
pub open spec fn all_moved(meshes: Seq<MeshView>, shift: Position) -> Seq<MeshView> {
    Seq::new(meshes.len(), |i: int| meshes[i].moved(shift))
}

/// The vertices of all meshes, one mesh after the other.
pub open spec fn flat_vertices(meshes: Seq<MeshView>) -> Seq<Vertex>
    decreases meshes.len(),
{
    if meshes.len() == 0 {
        Seq::empty()
    } else {
        flat_vertices(meshes.drop_last()) + meshes.last().vertices
    }
}

/// The indices of all meshes, one mesh after the other, each raised by the
/// number of vertices of the meshes before its own.
pub open spec fn flat_indices(meshes: Seq<MeshView>) -> Seq<int>
    decreases meshes.len(),
{
    if meshes.len() == 0 {
        Seq::empty()
    } else {
        let before = meshes.drop_last();
        let last = meshes.last();
        flat_indices(before) + Seq::new(
            last.indices.len(),
            |i: int| last.indices[i] + flat_vertices(before).len(),
        )
    }
}

/// Whether every flattened index fits the sixteen bits of an index buffer.
pub open spec fn indices_fit(meshes: Seq<MeshView>) -> bool {
    forall|i: int| 0 <= i < flat_indices(meshes).len() ==> #[trigger] flat_indices(meshes)[i] <= u16::MAX
}

/// Vertices and the triangles drawn between them.
pub struct Mesh {
    pub vertices: Vec<Vertex>,
    pub indices: Vec<u16>,
}

impl View for Mesh {
    type V = MeshView;

    open spec fn view(&self) -> MeshView {
        MeshView { vertices: self.vertices@, indices: self.indices@ }
    }
}

impl Mesh {
    /// Moves every vertex by `shift`.
    pub fn move_mesh(&mut self, shift: Position)
        requires
            old(self)@.can_move(shift),
        ensures
            final(self)@ == old(self)@.moved(shift),
    {
        let n = self.vertices.len();
        let mut i: usize = 0;
        while i < n
            invariant
                i <= n,
                n == self.vertices.len(),
                self.vertices.len() == old(self).vertices.len(),
                self.indices == old(self).indices,
                old(self)@.can_move(shift),
                forall|j: int| 0 <= j < i ==> #[trigger] self.vertices[j] == old(self).vertices[j].moved(shift),
                forall|j: int| i <= j < n ==> #[trigger] self.vertices[j] == old(self).vertices[j],
            decreases n - i,
        {
            let v = self.vertices[i];
            assert(old(self)@.vertices[i as int].can_move(shift));
            assert(i64::MIN <= v.pos[0] + shift[0] <= i64::MAX);
            assert(i64::MIN <= v.pos[1] + shift[1] <= i64::MAX);
            assert(i64::MIN <= v.pos[2] + shift[2] <= i64::MAX);
            let w = Vertex {
                pos: [v.pos[0] + shift[0], v.pos[1] + shift[1], v.pos[2] + shift[2]],
                color: v.color,
            };
            assert(w.pos@ =~= v.moved(shift).pos@);
            self.vertices.set(i, w);
            i += 1;
        }
        assert(self@.vertices =~= old(self)@.moved(shift).vertices);
    }
}

/// A sequence of meshes, kept in the order in which they were added.
pub struct Model {
    pub meshes: Vec<Mesh>,
}

impl View for Model {
    type V = Seq<MeshView>;

    open spec fn view(&self) -> Seq<MeshView> {
        Seq::new(self.meshes.len() as nat, |i: int| self.meshes[i]@)
    }
}

impl Default for Model {
    fn default() -> (r: Model)
        ensures
            r@ == Seq::<MeshView>::empty(),
    {
        let r = Model { meshes: Vec::new() };
        assert(r@ =~= Seq::<MeshView>::empty());
        r
    }
}

impl Model {
    /// Moves every mesh by `shift`.
    pub fn move_model(&mut self, shift: Position)
        requires
            all_can_move(old(self)@, shift),
        ensures
            final(self)@ == all_moved(old(self)@, shift),
    {
        let n = self.meshes.len();
        let mut i: usize = 0;
        while i < n
            invariant
                i <= n,
                n == self.meshes.len(),
                self.meshes.len() == old(self).meshes.len(),
                all_can_move(old(self)@, shift),
                forall|j: int| 0 <= j < i ==> (#[trigger] self.meshes[j])@ == old(self).meshes[j]@.moved(shift),
                forall|j: int| i <= j < n ==> #[trigger] self.meshes[j] == old(self).meshes[j],
            decreases n - i,
        {
            assert(old(self)@[i as int].can_move(shift));
            self.meshes[i].move_mesh(shift);
            i += 1;
        }
        assert(self@ =~= all_moved(old(self)@, shift));
    }

    /// Appends one mesh.
    pub fn add_mesh(&mut self, mesh: Mesh)
        ensures
            final(self)@ == old(self)@.push(mesh@),
    {
        self.meshes.push(mesh);
        assert(self@ =~= old(self)@.push(mesh@));
    }

    /// Appends the meshes of `model`, in their order.
    pub fn add_model(&mut self, model: Model)
        ensures
            final(self)@ == old(self)@ + model@,
    {
        let mut model = model;
        let ghost added = model@;
        self.meshes.append(&mut model.meshes);
        assert(self@ =~= old(self)@ + added);
    }

    /// Flattens the meshes into one vertex buffer and one index buffer.
    ///
    /// The vertices are those of the meshes, one mesh after the other, and the
    /// indices are those of the meshes, each raised by the number of vertices
    /// that stand before its mesh. Where every mesh is well formed, every
    /// index of the result picks a vertex of the result.
    pub fn build_model(&mut self) -> (r: (Vec<Vertex>, Vec<u16>))
        requires
            indices_fit(old(self)@),
        ensures
            final(self)@ == old(self)@,
            r.0@ == flat_vertices(old(self)@),
            r.1.len() == flat_indices(old(self)@).len(),
            forall|i: int| 0 <= i < r.1.len() ==> #[trigger] r.1[i] == flat_indices(old(self)@)[i],
            (forall|k: int| 0 <= k < old(self)@.len() ==> (#[trigger] old(self)@[k]).well_formed())
                ==> forall|i: int| 0 <= i < r.1.len() ==> #[trigger] r.1[i] < r.0.len(),
    {
        let mut vertices: Vec<Vertex> = Vec::new();
        let mut indices: Vec<u16> = Vec::new();
        let n = self.meshes.len();
        let mut m: usize = 0;
        while m < n
            invariant
                m <= n,
                n == self.meshes.len(),
                *self == *old(self),
                indices_fit(self@),
                vertices@ == flat_vertices(self@.take(m as int)),
                indices.len() == flat_indices(self@.take(m as int)).len(),
                forall|i: int| 0 <= i < indices.len() ==> #[trigger] indices[i] == flat_indices(self@.take(m as int))[i],
            decreases n - m,
        {
            let mesh = &self.meshes[m];
            let current_index = vertices.len();
            proof {
                assert(self@.take(m as int + 1).drop_last() =~= self@.take(m as int));
                assert(self@.take(m as int + 1).last() == mesh@);
                lemma_flat_indices_prefix(self@, m as int + 1);
            }
            let vn = mesh.vertices.len();
            let mut j: usize = 0;
            while j < vn
                invariant
                    j <= vn,
                    vn == mesh.vertices.len(),
                    vertices@ == flat_vertices(self@.take(m as int)) + mesh@.vertices.take(j as int),
                decreases vn - j,
            {
                vertices.push(mesh.vertices[j]);
                assert(mesh@.vertices.take(j as int + 1) =~= mesh@.vertices.take(j as int).push(
                    mesh@.vertices[j as int],
                ));
                j += 1;
            }
            assert(mesh@.vertices.take(vn as int) =~= mesh@.vertices);
            let xn = mesh.indices.len();
            let ghost before = flat_indices(self@.take(m as int));
            let ghost after = flat_indices(self@.take(m as int + 1));
            let mut k: usize = 0;
            while k < xn
                invariant
                    k <= xn,
                    xn == mesh.indices.len(),
                    indices.len() == before.len() + k,
                    after.len() == before.len() + xn,
                    forall|i: int| 0 <= i < before.len() ==> #[trigger] after[i] == before[i],
                    forall|i: int|
                        0 <= i < xn ==> #[trigger] after[before.len() + i] == mesh@.indices[i] + current_index,
                    forall|i: int| 0 <= i < after.len() ==> #[trigger] after[i] <= u16::MAX,
                    forall|i: int| 0 <= i < indices.len() ==> #[trigger] indices[i] == after[i],
                decreases xn - k,
            {
                let index = mesh.indices[k];
                assert(after[before.len() + k] == index + current_index);
                indices.push((index as usize + current_index) as u16);
                k += 1;
            }
            m += 1;
        }
        proof {
            assert(self@.take(n as int) =~= self@);
            if forall|k: int| 0 <= k < self@.len() ==> (#[trigger] self@[k]).well_formed() {
                lemma_flat_indices_in_range(self@);
            }
        }
        (vertices, indices)
    }
}

/// The flattened indices of the first `n` meshes begin the flattened indices
/// of all of them, so they fit the index width where those do.
proof fn lemma_flat_indices_prefix(meshes: Seq<MeshView>, n: int)
    requires
        0 <= n <= meshes.len(),
        indices_fit(meshes),
    ensures
        indices_fit(meshes.take(n)),
    decreases meshes.len() - n,
{
    if n < meshes.len() {
        lemma_flat_indices_prefix(meshes, n + 1);
        assert(meshes.take(n + 1).drop_last() =~= meshes.take(n));
        let longer = flat_indices(meshes.take(n + 1));
        assert forall|i: int| 0 <= i < flat_indices(meshes.take(n)).len() implies #[trigger] flat_indices(
            meshes.take(n),
        )[i] <= u16::MAX by {
            assert(longer[i] == flat_indices(meshes.take(n))[i]);
        }
    } else {
        assert(meshes.take(n) =~= meshes);
    }
}

/// Where every mesh is well formed, every flattened index picks a position of
/// the flattened vertex sequence.
pub proof fn lemma_flat_indices_in_range(meshes: Seq<MeshView>)
    requires
        forall|k: int| 0 <= k < meshes.len() ==> (#[trigger] meshes[k]).well_formed(),
    ensures
        forall|i: int|
            0 <= i < flat_indices(meshes).len() ==> 0 <= #[trigger] flat_indices(meshes)[i] < flat_vertices(
                meshes,
            ).len(),
    decreases meshes.len(),
{
    if meshes.len() > 0 {
        let before = meshes.drop_last();
        let last = meshes.last();
        assert forall|k: int| 0 <= k < before.len() implies (#[trigger] before[k]).well_formed() by {
            assert(before[k] == meshes[k]);
        }
        lemma_flat_indices_in_range(before);
        assert(last.well_formed());
        assert forall|i: int| 0 <= i < flat_indices(meshes).len() implies 0 <= #[trigger] flat_indices(
            meshes,
        )[i] < flat_vertices(meshes).len() by {
            if i >= flat_indices(before).len() {
                let j = i - flat_indices(before).len();
                assert(flat_indices(meshes)[i] == last.indices[j] + flat_vertices(before).len());
            } else {
                assert(flat_indices(meshes)[i] == flat_indices(before)[i]);
            }
        }
    }
}

/// Flattening a model of quads: `n` meshes of four vertices and six indices
/// each give `4 * n` vertices and `6 * n` indices, and every index is below
/// `4 * n`.
pub proof fn lemma_flatten_quads(meshes: Seq<MeshView>)
    requires
        forall|k: int| 0 <= k < meshes.len() ==> (#[trigger] meshes[k]).is_quad(),
    ensures
        flat_vertices(meshes).len() == 4 * meshes.len(),
        flat_indices(meshes).len() == 6 * meshes.len(),
        forall|i: int|
            0 <= i < flat_indices(meshes).len() ==> 0 <= #[trigger] flat_indices(meshes)[i] < 4 * meshes.len(),
    decreases meshes.len(),
{
    if meshes.len() > 0 {
        let before = meshes.drop_last();
        assert forall|k: int| 0 <= k < before.len() implies (#[trigger] before[k]).is_quad() by {
            assert(before[k] == meshes[k]);
        }
        lemma_flatten_quads(before);
        assert(meshes.last().is_quad());
    }
    assert forall|k: int| 0 <= k < meshes.len() implies (#[trigger] meshes[k]).well_formed() by {
        assert(meshes[k].is_quad());
    }
    lemma_flat_indices_in_range(meshes);
}

} // verus!
