use voxel_world::voxels::model::Vertex;
use voxel_world::voxels::voxel::{Side, Voxel};
use voxel_world::voxels::voxel::{COLOR_FULL, GRASS_GREEN_HIGH, GRASS_GREEN_LOW};
use voxel_world::voxels::voxel::{VOXEL_DEPTH, VOXEL_HEIGHT, VOXEL_WIDTH};

fn corners(side: Side) -> Vec<[i64; 3]> {
    Voxel::get_side(side, [0, 0, 0]).vertices.iter().map(|v| v.pos).collect()
}

#[test]
fn corners_of_the_cube() {
    assert_eq!(Voxel::V_0, [-1, 1, -1]);
    assert_eq!(Voxel::V_1, [-1, -1, -1]);
    assert_eq!(Voxel::V_2, [1, -1, -1]);
    assert_eq!(Voxel::V_3, [1, 1, -1]);
    assert_eq!(Voxel::V_4, [-1, 1, 1]);
    assert_eq!(Voxel::V_5, [-1, -1, 1]);
    assert_eq!(Voxel::V_6, [1, -1, 1]);
    assert_eq!(Voxel::V_7, [1, 1, 1]);
    assert_eq!(Voxel::DEFAULT_INDICES, [0, 1, 2, 0, 2, 3]);
    assert_eq!((VOXEL_WIDTH, VOXEL_HEIGHT, VOXEL_DEPTH), (2, 2, 2));
}

#[test]
fn each_side_has_its_four_corners_in_order() {
    assert_eq!(corners(Side::Top), vec![Voxel::V_0, Voxel::V_4, Voxel::V_7, Voxel::V_3]);
    assert_eq!(corners(Side::Bottom), vec![Voxel::V_2, Voxel::V_6, Voxel::V_5, Voxel::V_1]);
    assert_eq!(corners(Side::Front), vec![Voxel::V_4, Voxel::V_5, Voxel::V_6, Voxel::V_7]);
    assert_eq!(corners(Side::Back), vec![Voxel::V_3, Voxel::V_2, Voxel::V_1, Voxel::V_0]);
    assert_eq!(corners(Side::Left), vec![Voxel::V_0, Voxel::V_1, Voxel::V_5, Voxel::V_4]);
    assert_eq!(corners(Side::Right), vec![Voxel::V_7, Voxel::V_6, Voxel::V_2, Voxel::V_3]);
}

#[test]
fn each_side_has_two_triangles_in_its_colour() {
    for side in [Side::Top, Side::Bottom, Side::Front, Side::Back, Side::Left, Side::Right] {
        let mesh = Voxel::get_side(side, [10, 20, 30]);
        assert_eq!(mesh.indices, vec![0, 1, 2, 0, 2, 3]);
        assert_eq!(mesh.vertices.len(), 4);
        for vertex in mesh.vertices.iter() {
            assert_eq!(vertex.color, [10, 20, 30]);
        }
    }
    let top = Voxel::get_side(Side::Top, [10, 20, 30]);
    assert_eq!(top.vertices[0], Vertex { pos: [-1, 1, -1], color: [10, 20, 30] });
}

#[test]
fn each_side_winds_against_the_clock_seen_from_outside() {
    let outward = [
        (Side::Top, [0, 4, 0]),
        (Side::Bottom, [0, -4, 0]),
        (Side::Front, [0, 0, 4]),
        (Side::Back, [0, 0, -4]),
        (Side::Left, [-4, 0, 0]),
        (Side::Right, [4, 0, 0]),
    ];
    for (side, normal) in outward {
        let mesh = Voxel::get_side(side, [0, 0, 0]);
        for triangle in mesh.indices.chunks(3) {
            let a = mesh.vertices[triangle[0] as usize].pos;
            let b = mesh.vertices[triangle[1] as usize].pos;
            let c = mesh.vertices[triangle[2] as usize].pos;
            let u = [b[0] - a[0], b[1] - a[1], b[2] - a[2]];
            let v = [c[0] - a[0], c[1] - a[1], c[2] - a[2]];
            let cross = [u[1] * v[2] - u[2] * v[1], u[2] * v[0] - u[0] * v[2], u[0] * v[1] - u[1] * v[0]];
            assert_eq!(cross, normal);
        }
    }
}

#[test]
fn air_is_white_and_stone_is_grey() {
    assert_eq!(Voxel::Air.get_color(), [COLOR_FULL, COLOR_FULL, COLOR_FULL]);
    assert_eq!(Voxel::Air.get_color(), [1000, 1000, 1000]);
    assert_eq!(Voxel::Stone.get_color(), [300, 300, 300]);
}

#[test]
fn grass_is_a_green_within_its_range() {
    for _ in 0..1000 {
        let color = Voxel::Grass.get_color();
        assert_eq!(color[0], 0);
        assert_eq!(color[2], 0);
        assert!(GRASS_GREEN_LOW <= color[1]);
        assert!(color[1] < GRASS_GREEN_HIGH);
    }
}

#[test]
fn grass_is_not_always_the_same_green() {
    let first = Voxel::Grass.get_color();
    let mut differs = false;
    for _ in 0..1000 {
        if Voxel::Grass.get_color() != first {
            differs = true;
        }
    }
    assert!(differs);
}

#[test]
fn color_with_takes_the_green_for_grass_only() {
    assert_eq!(Voxel::Grass.color_with(42), [0, 42, 0]);
    assert_eq!(Voxel::Grass.color_with(999), [0, 999, 0]);
    assert_eq!(Voxel::Air.color_with(42), [1000, 1000, 1000]);
    assert_eq!(Voxel::Stone.color_with(42), [300, 300, 300]);
}
