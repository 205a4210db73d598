use voxel_world::voxels::model::{Mesh, Model, Vertex};
use voxel_world::voxels::voxel::{Side, Voxel};

fn quad(color: [u16; 3]) -> Mesh {
    Voxel::get_side(Side::Top, color)
}

#[test]
fn a_new_model_is_empty() {
    let mut model = Model::default();
    assert!(model.meshes.is_empty());
    let (vertices, indices) = model.build_model();
    assert!(vertices.is_empty());
    assert!(indices.is_empty());
}

#[test]
fn move_mesh_adds_to_every_position() {
    let mut mesh = Mesh {
        vertices: vec![
            Vertex { pos: [0, 0, 0], color: [1, 2, 3] },
            Vertex { pos: [1, -1, 5], color: [4, 5, 6] },
        ],
        indices: vec![0, 1, 0],
    };
    mesh.move_mesh([10, -20, 30]);
    assert_eq!(mesh.vertices[0], Vertex { pos: [10, -20, 30], color: [1, 2, 3] });
    assert_eq!(mesh.vertices[1], Vertex { pos: [11, -21, 35], color: [4, 5, 6] });
    assert_eq!(mesh.indices, vec![0, 1, 0]);
}

#[test]
fn move_model_moves_every_mesh() {
    let mut model = Model::default();
    model.add_mesh(quad([0, 0, 0]));
    model.add_mesh(Voxel::get_side(Side::Left, [0, 0, 0]));
    model.move_model([2, 4, 6]);
    assert_eq!(model.meshes[0].vertices[0].pos, [1, 5, 5]);
    assert_eq!(model.meshes[0].vertices[2].pos, [3, 5, 7]);
    assert_eq!(model.meshes[1].vertices[1].pos, [1, 3, 5]);
    assert_eq!(model.meshes[1].indices, vec![0, 1, 2, 0, 2, 3]);
}

#[test]
fn add_mesh_appends() {
    let mut model = Model::default();
    model.add_mesh(quad([1, 1, 1]));
    model.add_mesh(quad([2, 2, 2]));
    assert_eq!(model.meshes.len(), 2);
    assert_eq!(model.meshes[0].vertices[0].color, [1, 1, 1]);
    assert_eq!(model.meshes[1].vertices[0].color, [2, 2, 2]);
}

#[test]
fn add_model_appends_in_order() {
    let mut first = Model::default();
    first.add_mesh(quad([1, 1, 1]));
    let mut second = Model::default();
    second.add_mesh(quad([2, 2, 2]));
    second.add_mesh(quad([3, 3, 3]));
    first.add_model(second);
    assert_eq!(first.meshes.len(), 3);
    assert_eq!(first.meshes[0].vertices[0].color, [1, 1, 1]);
    assert_eq!(first.meshes[1].vertices[0].color, [2, 2, 2]);
    assert_eq!(first.meshes[2].vertices[0].color, [3, 3, 3]);
    first.add_model(Model::default());
    assert_eq!(first.meshes.len(), 3);
}

#[test]
fn build_model_raises_indices_by_the_vertices_before() {
    let mut model = Model::default();
    model.add_mesh(Mesh {
        vertices: vec![
            Vertex { pos: [0, 0, 0], color: [0, 0, 0] },
            Vertex { pos: [1, 0, 0], color: [0, 0, 0] },
            Vertex { pos: [0, 1, 0], color: [0, 0, 0] },
        ],
        indices: vec![0, 1, 2],
    });
    model.add_mesh(Mesh { vertices: vec![], indices: vec![] });
    model.add_mesh(Mesh {
        vertices: vec![
            Vertex { pos: [5, 5, 5], color: [9, 9, 9] },
            Vertex { pos: [6, 5, 5], color: [9, 9, 9] },
        ],
        indices: vec![1, 0, 1, 1],
    });
    let (vertices, indices) = model.build_model();
    assert_eq!(vertices.len(), 5);
    assert_eq!(vertices[3], Vertex { pos: [5, 5, 5], color: [9, 9, 9] });
    assert_eq!(vertices[4], Vertex { pos: [6, 5, 5], color: [9, 9, 9] });
    assert_eq!(indices, vec![0, 1, 2, 4, 3, 4, 4]);
    assert_eq!(model.meshes.len(), 3);
}

#[test]
fn build_model_of_quads() {
    for n in [0usize, 1, 2, 7, 100] {
        let mut model = Model::default();
        for _ in 0..n {
            model.add_mesh(quad([5, 6, 7]));
        }
        let (vertices, indices) = model.build_model();
        assert_eq!(vertices.len(), 4 * n);
        assert_eq!(indices.len(), 6 * n);
        for index in indices.iter() {
            assert!((*index as usize) < 4 * n);
        }
        for (k, index) in indices.iter().enumerate() {
            let inside = [0u16, 1, 2, 0, 2, 3][k % 6];
            assert_eq!(*index as usize, 4 * (k / 6) + inside as usize);
        }
    }
}

#[test]
fn build_model_up_to_the_last_index() {
    let mut model = Model::default();
    for _ in 0..16384 {
        model.add_mesh(quad([0, 0, 0]));
    }
    let (vertices, indices) = model.build_model();
    assert_eq!(vertices.len(), 65536);
    assert_eq!(indices.len(), 98304);
    assert_eq!(indices[98303], 65535);
    assert_eq!(indices[98298], 65532);
}

#[test]
fn build_model_twice_gives_the_same() {
    let mut model = Model::default();
    model.add_mesh(quad([1, 2, 3]));
    model.add_mesh(Voxel::get_side(Side::Back, [4, 5, 6]));
    let first = model.build_model();
    let second = model.build_model();
    assert_eq!(first, second);
}
