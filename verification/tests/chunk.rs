use voxel_world::voxels::chunk::{Chunk, ChunkColors, ChunkPos, ChunkVoxels};
use voxel_world::voxels::chunk::{CHUNK_DEPTH, CHUNK_HEIGHT, CHUNK_SIZE_LIMIT, CHUNK_WIDTH, FACE_LIMIT};
use voxel_world::voxels::model::Vertex;
use voxel_world::voxels::voxel::{Side, Voxel};

const ORIGIN: ChunkPos = ChunkPos { x: 0, y: 0, z: 0 };

fn faces<const W: usize, const H: usize, const D: usize>(voxels: &ChunkVoxels<W, H, D>) -> usize {
    let (vertices, indices, index_count) = Chunk::build_chunk_model(ORIGIN, voxels);
    assert_eq!(voxels.count_faces() * 6, indices.len());
    assert_eq!(indices.len(), index_count as usize);
    assert_eq!(indices.len() % 6, 0);
    assert_eq!(vertices.len() * 6, indices.len() * 4);
    for index in indices.iter() {
        assert!((*index as usize) < vertices.len());
    }
    indices.len() / 6
}

#[test]
fn the_limits_fit_the_codec_and_the_index_width() {
    assert_eq!((CHUNK_WIDTH, CHUNK_HEIGHT, CHUNK_DEPTH), (10, 10, 10));
    assert_eq!(CHUNK_SIZE_LIMIT, 31);
    assert_eq!(4 * FACE_LIMIT, 65536);
}

#[test]
fn an_empty_chunk_has_no_faces() {
    let voxels = ChunkVoxels::<4, 5, 6>([[[None; 6]; 5]; 4]);
    assert_eq!(faces(&voxels), 0);
    let (vertices, indices, index_count) = Chunk::build_chunk_model(ORIGIN, &voxels);
    assert!(vertices.is_empty());
    assert!(indices.is_empty());
    assert_eq!(index_count, 0);
}

#[test]
fn a_lone_voxel_in_the_middle_shows_six_faces() {
    let mut voxels = ChunkVoxels::<3, 3, 3>([[[None; 3]; 3]; 3]);
    voxels.0[1][1][1] = Some(Voxel::Stone);
    assert_eq!(faces(&voxels), 6);
    let mut voxels = ChunkVoxels::<10, 10, 10>([[[None; 10]; 10]; 10]);
    voxels.0[5][4][6] = Some(Voxel::Grass);
    assert_eq!(faces(&voxels), 6);
    let mut voxels = ChunkVoxels::<5, 3, 7>([[[None; 7]; 3]; 5]);
    voxels.0[2][1][3] = Some(Voxel::Air);
    assert_eq!(faces(&voxels), 6);
}

#[test]
fn a_lone_voxel_at_the_border_shows_six_faces() {
    let mut voxels = ChunkVoxels::<3, 3, 3>([[[None; 3]; 3]; 3]);
    voxels.0[0][0][0] = Some(Voxel::Stone);
    assert_eq!(faces(&voxels), 6);
    let mut voxels = ChunkVoxels::<3, 3, 3>([[[None; 3]; 3]; 3]);
    voxels.0[2][1][2] = Some(Voxel::Stone);
    assert_eq!(faces(&voxels), 6);
    let voxels = ChunkVoxels::<1, 1, 1>([[[Some(Voxel::Stone); 1]; 1]; 1]);
    assert_eq!(faces(&voxels), 6);
}

#[test]
fn two_voxels_side_by_side_show_ten_faces() {
    let pairs = [
        ([1, 1, 1], [2, 1, 1]),
        ([1, 1, 1], [1, 2, 1]),
        ([1, 1, 1], [1, 1, 2]),
        ([0, 0, 0], [1, 0, 0]),
        ([3, 3, 2], [3, 3, 3]),
        ([0, 2, 3], [0, 3, 3]),
    ];
    for (first, second) in pairs {
        let mut voxels = ChunkVoxels::<4, 4, 4>([[[None; 4]; 4]; 4]);
        voxels.0[first[0]][first[1]][first[2]] = Some(Voxel::Stone);
        voxels.0[second[0]][second[1]][second[2]] = Some(Voxel::Grass);
        assert_eq!(faces(&voxels), 10);
    }
}

#[test]
fn two_voxels_apart_show_twelve_faces() {
    let mut voxels = ChunkVoxels::<4, 4, 4>([[[None; 4]; 4]; 4]);
    voxels.0[0][1][1] = Some(Voxel::Stone);
    voxels.0[2][1][1] = Some(Voxel::Stone);
    assert_eq!(faces(&voxels), 12);
    let mut voxels = ChunkVoxels::<4, 4, 4>([[[None; 4]; 4]; 4]);
    voxels.0[1][1][1] = Some(Voxel::Stone);
    voxels.0[2][2][1] = Some(Voxel::Stone);
    assert_eq!(faces(&voxels), 12);
}

#[test]
fn a_full_chunk_shows_its_border_only() {
    let voxels = ChunkVoxels::<10, 10, 10>([[[Some(Voxel::Grass); 10]; 10]; 10]);
    assert_eq!(faces(&voxels), 600);
    let voxels = ChunkVoxels::<3, 4, 5>([[[Some(Voxel::Stone); 5]; 4]; 3]);
    assert_eq!(faces(&voxels), 2 * (3 * 4 + 4 * 5 + 3 * 5));
    let voxels = ChunkVoxels::<31, 31, 31>([[[Some(Voxel::Stone); 31]; 31]; 31]);
    assert_eq!(faces(&voxels), 6 * 31 * 31);
}

#[test]
fn air_is_a_voxel_like_any_other() {
    let mut voxels = ChunkVoxels::<3, 3, 3>([[[None; 3]; 3]; 3]);
    voxels.0[1][1][1] = Some(Voxel::Stone);
    voxels.0[2][1][1] = Some(Voxel::Air);
    assert_eq!(faces(&voxels), 10);
    let (vertices, _, _) = Chunk::build_chunk_model(ORIGIN, &voxels);
    assert_eq!(vertices[0].color, [300, 300, 300]);
    assert_eq!(vertices[20].color, [1000, 1000, 1000]);
}

#[test]
fn a_chunk_one_voxel_thin_shows_both_faces_along_that_axis() {
    let voxels = ChunkVoxels::<1, 3, 3>([[[Some(Voxel::Stone); 3]; 3]; 1]);
    for y in 0..3 {
        for z in 0..3 {
            let model = voxels.voxel_model(0, y, z, [0, 0, 0]);
            assert_eq!(model.meshes[0].vertices[0].pos, [-1, 2 * y as i64 + 1, 2 * z as i64 - 1]);
            assert_eq!(model.meshes[1].vertices[0].pos, [1, 2 * y as i64 + 1, 2 * z as i64 + 1]);
        }
    }
    assert_eq!(faces(&voxels), 2 * 9 + 2 * 3 + 2 * 3);
    let voxels = ChunkVoxels::<3, 1, 3>([[[Some(Voxel::Stone); 3]; 1]; 3]);
    assert_eq!(faces(&voxels), 2 * 9 + 2 * 3 + 2 * 3);
    let model = voxels.voxel_model(1, 0, 1, [0, 0, 0]);
    assert_eq!(model.meshes.len(), 2);
    assert_eq!(model.meshes[0].vertices[0].pos, [1, 1, 1]);
    assert_eq!(model.meshes[1].vertices[0].pos, [3, -1, 1]);
    let voxels = ChunkVoxels::<3, 3, 1>([[[Some(Voxel::Stone); 1]; 3]; 3]);
    assert_eq!(faces(&voxels), 2 * 9 + 2 * 3 + 2 * 3);
    let model = voxels.voxel_model(1, 1, 0, [0, 0, 0]);
    assert_eq!(model.meshes.len(), 2);
    assert_eq!(model.meshes[0].vertices[0].pos, [1, 3, 1]);
    assert_eq!(model.meshes[1].vertices[0].pos, [3, 3, -1]);
}

#[test]
fn voxel_model_of_an_empty_cell_is_empty() {
    let voxels = ChunkVoxels::<2, 2, 2>([[[None; 2]; 2]; 2]);
    assert!(voxels.voxel_model(1, 1, 1, [1, 2, 3]).meshes.is_empty());
}

#[test]
fn voxel_model_adds_the_faces_in_order_at_the_cell() {
    let mut voxels = ChunkVoxels::<4, 4, 4>([[[None; 4]; 4]; 4]);
    voxels.0[1][2][3] = Some(Voxel::Stone);
    voxels.0[2][2][3] = Some(Voxel::Stone);
    voxels.0[1][1][3] = Some(Voxel::Stone);
    let model = voxels.voxel_model(1, 2, 3, [7, 8, 9]);
    let expected = [Side::Left, Side::Top, Side::Front, Side::Back];
    assert_eq!(model.meshes.len(), expected.len());
    for (mesh, side) in model.meshes.iter().zip(expected) {
        let face = Voxel::get_side(side, [7, 8, 9]);
        assert_eq!(mesh.indices, face.indices);
        for (vertex, corner) in mesh.vertices.iter().zip(face.vertices.iter()) {
            assert_eq!(vertex.color, [7, 8, 9]);
            assert_eq!(vertex.pos, [corner.pos[0] + 2, corner.pos[1] + 4, corner.pos[2] + 6]);
        }
    }
}

#[test]
fn the_mesh_of_one_voxel_at_a_place_in_the_world() {
    let voxels = ChunkVoxels::<1, 1, 1>([[[Some(Voxel::Stone); 1]; 1]; 1]);
    let (vertices, indices, index_count) = Chunk::build_chunk_model(ChunkPos { x: 1, y: -2, z: 3 }, &voxels);
    assert_eq!(index_count, 36);
    let grey = [300, 300, 300];
    let expected = [
        [1, -3, 5], [1, -5, 5], [1, -5, 7], [1, -3, 7],
        [3, -3, 7], [3, -5, 7], [3, -5, 5], [3, -3, 5],
        [1, -3, 5], [1, -3, 7], [3, -3, 7], [3, -3, 5],
        [3, -5, 5], [3, -5, 7], [1, -5, 7], [1, -5, 5],
        [1, -3, 7], [1, -5, 7], [3, -5, 7], [3, -3, 7],
        [3, -3, 5], [3, -5, 5], [1, -5, 5], [1, -3, 5],
    ];
    assert_eq!(vertices.len(), expected.len());
    for (vertex, pos) in vertices.iter().zip(expected) {
        assert_eq!(*vertex, Vertex { pos, color: grey });
    }
    let mut expected_indices = Vec::new();
    for face in 0..6u16 {
        for inside in [0u16, 1, 2, 0, 2, 3] {
            expected_indices.push(4 * face + inside);
        }
    }
    assert_eq!(indices, expected_indices);
}

#[test]
fn the_chunk_is_placed_by_its_size() {
    let mut voxels = ChunkVoxels::<3, 4, 5>([[[None; 5]; 4]; 3]);
    voxels.0[2][3][4] = Some(Voxel::Stone);
    let (vertices, _, _) = Chunk::build_chunk_model(ChunkPos { x: 2, y: -1, z: 10 }, &voxels);
    assert_eq!(vertices[0].pos, [-1 + 2 * 2 + 2 * 2 * 3, 1 + 2 * 3 - 2 * 4, -1 + 2 * 4 + 2 * 10 * 5]);
    let (far, _, _) = Chunk::build_chunk_model(ChunkPos { x: i32::MAX, y: i32::MIN, z: 0 }, &voxels);
    assert_eq!(far[0].pos[0], -1 + 4 + 6 * i32::MAX as i64);
    assert_eq!(far[0].pos[1], 1 + 6 + 8 * i32::MIN as i64);
}

#[test]
fn cells_are_gone_through_with_x_outermost() {
    let mut voxels = ChunkVoxels::<2, 2, 2>([[[None; 2]; 2]; 2]);
    voxels.0[1][0][0] = Some(Voxel::Stone);
    voxels.0[0][1][1] = Some(Voxel::Air);
    voxels.0[0][0][1] = Some(Voxel::Stone);
    let mut colors = ChunkColors::<2, 2, 2>([[[[0; 3]; 2]; 2]; 2]);
    colors.0[1][0][0] = [1, 1, 1];
    colors.0[0][1][1] = [2, 2, 2];
    colors.0[0][0][1] = [3, 3, 3];
    let (vertices, indices, index_count) = voxels.build_colored_model(&colors, ORIGIN);
    assert_eq!(index_count, 6 * (5 + 5 + 6));
    assert_eq!(indices.len(), index_count as usize);
    assert_eq!(vertices.len(), 4 * 16);
    for vertex in &vertices[0..20] {
        assert_eq!(vertex.color, [3, 3, 3]);
    }
    for vertex in &vertices[20..40] {
        assert_eq!(vertex.color, [2, 2, 2]);
    }
    for vertex in &vertices[40..64] {
        assert_eq!(vertex.color, [1, 1, 1]);
    }
    assert_eq!(vertices[0].pos, [-1, 1, 1]);
    assert_eq!(vertices[20].pos, [-1, 3, 1]);
    assert_eq!(vertices[40].pos, [1, 1, -1]);
}

#[test]
fn the_colours_picked_fit_the_voxels() {
    let mut voxels = ChunkVoxels::<2, 2, 2>([[[Some(Voxel::Grass); 2]; 2]; 2]);
    voxels.0[0][0][0] = None;
    voxels.0[0][0][1] = Some(Voxel::Stone);
    voxels.0[1][1][1] = Some(Voxel::Air);
    let colors = voxels.pick_colors();
    assert_eq!(colors.0[0][0][0], [0, 0, 0]);
    assert_eq!(colors.0[0][0][1], [300, 300, 300]);
    assert_eq!(colors.0[1][1][1], [1000, 1000, 1000]);
    for place in [[0, 1, 0], [0, 1, 1], [1, 0, 0], [1, 0, 1], [1, 1, 0]] {
        let color = colors.0[place[0]][place[1]][place[2]];
        assert_eq!(color[0], 0);
        assert_eq!(color[2], 0);
        assert!(300 <= color[1] && color[1] < 1000);
    }
}

#[test]
fn every_corner_of_a_voxel_has_the_voxels_colour() {
    let mut voxels = ChunkVoxels::<3, 3, 3>([[[None; 3]; 3]; 3]);
    voxels.0[1][1][1] = Some(Voxel::Grass);
    let (vertices, _, _) = Chunk::build_chunk_model(ORIGIN, &voxels);
    assert_eq!(vertices.len(), 24);
    for vertex in vertices.iter() {
        assert_eq!(vertex.color, vertices[0].color);
    }
}

#[test]
fn two_builds_differ_in_colour_only() {
    let voxels = ChunkVoxels::<4, 4, 4>([[[Some(Voxel::Grass); 4]; 4]; 4]);
    let (first, first_indices, _) = Chunk::build_chunk_model(ORIGIN, &voxels);
    let (second, second_indices, _) = Chunk::build_chunk_model(ORIGIN, &voxels);
    assert_eq!(first_indices, second_indices);
    assert_eq!(first.len(), second.len());
    for (a, b) in first.iter().zip(second.iter()) {
        assert_eq!(a.pos, b.pos);
    }
}

#[test]
fn a_new_chunk_is_full_of_grass_and_built() {
    let chunk = Chunk::new(ChunkPos { x: 1, y: 0, z: -1 });
    for x in 0..CHUNK_WIDTH {
        for y in 0..CHUNK_HEIGHT {
            for z in 0..CHUNK_DEPTH {
                assert_eq!(chunk.voxels().0[x][y][z], Some(Voxel::Grass));
            }
        }
    }
    assert_eq!(chunk.index_count(), 3600);
    assert_eq!(chunk.indices().len(), 3600);
    assert_eq!(chunk.vertices().len(), 2400);
    assert_eq!(chunk.vertices()[0].pos, [-1 + 20, 1, -1 - 20]);
    for vertex in chunk.vertices().iter() {
        assert_eq!(vertex.color[0], 0);
        assert_eq!(vertex.color[2], 0);
        assert!(300 <= vertex.color[1] && vertex.color[1] < 1000);
        assert!(19 <= vertex.pos[0] && vertex.pos[0] <= 39);
        assert!(-1 <= vertex.pos[1] && vertex.pos[1] <= 19);
        assert!(-21 <= vertex.pos[2] && vertex.pos[2] <= -1);
    }
}

#[test]
fn a_chunk_can_be_rebuilt_for_another_place() {
    let mut chunk = Chunk::new(ORIGIN);
    assert_eq!(chunk.vertices()[0].pos, [-1, 1, -1]);
    chunk.rebuild_chunk_model(ChunkPos { x: 0, y: 2, z: 0 });
    assert_eq!(chunk.vertices()[0].pos, [-1, 41, -1]);
    assert_eq!(chunk.index_count(), 3600);
    assert_eq!(chunk.vertices().len(), 2400);
    assert_eq!(chunk.voxels().0[9][9][9], Some(Voxel::Grass));
}

#[test]
fn the_faces_of_a_cell_are_counted_by_what_stands_around_it() {
    let mut voxels = ChunkVoxels::<3, 3, 3>([[[None; 3]; 3]; 3]);
    voxels.0[1][1][1] = Some(Voxel::Stone);
    assert_eq!(voxels.count_cell_faces(1, 1, 1), 6);
    assert_eq!(voxels.count_cell_faces(0, 1, 1), 0);
    voxels.0[0][1][1] = Some(Voxel::Stone);
    voxels.0[1][2][1] = Some(Voxel::Stone);
    voxels.0[1][1][0] = Some(Voxel::Stone);
    assert_eq!(voxels.count_cell_faces(1, 1, 1), 3);
    assert_eq!(voxels.count_cell_faces(0, 1, 1), 5);
    assert_eq!(voxels.count_faces(), 3 + 5 + 5 + 5);
    let full = ChunkVoxels::<3, 3, 3>([[[Some(Voxel::Grass); 3]; 3]; 3]);
    assert_eq!(full.count_cell_faces(1, 1, 1), 0);
    assert_eq!(full.count_cell_faces(0, 0, 0), 3);
    assert_eq!(full.count_cell_faces(1, 0, 2), 2);
    assert_eq!(full.count_cell_faces(1, 1, 2), 1);
    assert_eq!(full.count_faces(), 54);
}

#[test]
fn a_checkered_chunk_shows_every_face() {
    let mut voxels = ChunkVoxels::<10, 10, 10>([[[None; 10]; 10]; 10]);
    for x in 0..10 {
        for y in 0..10 {
            for z in 0..10 {
                if (x + y + z) % 2 == 0 {
                    voxels.0[x][y][z] = Some(Voxel::Stone);
                }
            }
        }
    }
    assert_eq!(voxels.count_faces(), 3000);
    assert_eq!(faces(&voxels), 3000);
}

#[test]
fn the_index_bytes_are_the_indices_in_the_machines_byte_order() {
    let chunk = Chunk::new(ORIGIN);
    let bytes = chunk.index_bytes();
    assert_eq!(bytes.len(), 2 * chunk.indices().len());
    for (pair, index) in bytes.chunks(2).zip(chunk.indices().iter()) {
        assert_eq!(u16::from_ne_bytes([pair[0], pair[1]]), *index);
    }
    let last = chunk.indices().len() - 1;
    assert_eq!(chunk.indices()[last], 2399);
    let low_first = [bytes[2 * last], bytes[2 * last + 1]] == [0x5F, 0x09];
    let high_first = [bytes[2 * last], bytes[2 * last + 1]] == [0x09, 0x5F];
    assert!(low_first || high_first);
}
