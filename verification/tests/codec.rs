use voxel_world::voxels::voxel::{LocalCoord, LOCAL_AXIS_MAX};

#[test]
fn encode_then_decode_gives_the_axes_back() {
    for x in 0..=31u8 {
        for y in 0..=31u8 {
            for z in 0..=31u8 {
                let raw = LocalCoord::to_raw(x, y, z);
                assert_eq!(LocalCoord::from_raw(raw).xyz(), (x, y, z));
                assert_eq!(LocalCoord::new(x, y, z).xyz(), (x, y, z));
                assert_eq!(LocalCoord::new(x, y, z).get_raw(), raw);
            }
        }
    }
}

#[test]
fn encode_packs_five_bits_per_axis() {
    assert_eq!(LocalCoord::to_raw(0, 0, 0), 0);
    assert_eq!(LocalCoord::to_raw(0, 0, 1), 1);
    assert_eq!(LocalCoord::to_raw(0, 1, 0), 32);
    assert_eq!(LocalCoord::to_raw(1, 0, 0), 1024);
    assert_eq!(LocalCoord::to_raw(1, 2, 3), 1024 + 64 + 3);
    assert_eq!(LocalCoord::to_raw(31, 31, 31), 0x7FFF);
    assert_eq!(LocalCoord::new(31, 0, 0).get_raw(), 31744);
    assert_eq!(LocalCoord::new(0, 31, 0).get_raw(), 992);
    assert_eq!(LocalCoord::new(0, 0, 31).get_raw(), 31);
}

#[test]
fn encode_clamps_each_axis_to_its_low_five_bits() {
    assert_eq!(LocalCoord::to_raw(32, 0, 0), LocalCoord::to_raw(0, 0, 0));
    assert_eq!(LocalCoord::to_raw(0, 32, 0), LocalCoord::to_raw(0, 0, 0));
    assert_eq!(LocalCoord::to_raw(0, 0, 32), LocalCoord::to_raw(0, 0, 0));
    assert_eq!(LocalCoord::to_raw(33, 64, 255), LocalCoord::to_raw(1, 0, 31));
    assert_eq!(LocalCoord::new(32, 5, 63).xyz(), (0, 5, 31));
    assert_eq!(LocalCoord::new(255, 255, 255).xyz(), (31, 31, 31));
}

#[test]
fn clamping_is_told_beforehand() {
    assert!(!LocalCoord::is_clamped(0));
    assert!(!LocalCoord::is_clamped(LOCAL_AXIS_MAX));
    assert!(LocalCoord::is_clamped(32));
    assert!(LocalCoord::is_clamped(255));
}

#[test]
fn decode_ignores_the_top_bit() {
    assert_eq!(LocalCoord::from_raw(0x8000).xyz(), (0, 0, 0));
    assert_eq!(LocalCoord::from_raw(0x8000).get_raw(), 0);
    assert_eq!(LocalCoord::from_raw(0xFFFF).xyz(), (31, 31, 31));
    assert_eq!(LocalCoord::from_raw(0xFFFF).get_raw(), 0x7FFF);
    assert_eq!(LocalCoord::from_raw(0x8000 | 1024 | 64 | 3).xyz(), (1, 2, 3));
}

#[test]
fn accessors_read_one_axis_each() {
    let coord = LocalCoord::new(7, 19, 30);
    assert_eq!(coord.x(), 7);
    assert_eq!(coord.y(), 19);
    assert_eq!(coord.z(), 30);
    assert_eq!(coord.xyz(), (7, 19, 30));
}

#[test]
fn default_is_the_origin() {
    let coord = LocalCoord::default();
    assert_eq!(coord.xyz(), (0, 0, 0));
    assert_eq!(coord.get_raw(), 0);
}

#[test]
fn setters_leave_the_other_axes() {
    let mut coord = LocalCoord::new(1, 2, 3);
    coord.set_x(31);
    assert_eq!(coord.xyz(), (31, 2, 3));
    coord.set_y(0);
    assert_eq!(coord.xyz(), (31, 0, 3));
    coord.set_z(17);
    assert_eq!(coord.xyz(), (31, 0, 17));
    coord.set_x(0);
    assert_eq!(coord.xyz(), (0, 0, 17));
    assert_eq!(coord.get_raw(), 17);
}

#[test]
fn setters_clamp() {
    let mut coord = LocalCoord::new(1, 2, 3);
    coord.set_x(32);
    assert_eq!(coord.xyz(), (0, 2, 3));
    coord.set_y(33);
    assert_eq!(coord.xyz(), (0, 1, 3));
    coord.set_z(255);
    assert_eq!(coord.xyz(), (0, 1, 31));
}

#[test]
fn adding_wraps_within_the_axis() {
    let mut coord = LocalCoord::new(30, 10, 0);
    coord.add_x(1);
    assert_eq!(coord.xyz(), (31, 10, 0));
    coord.add_x(1);
    assert_eq!(coord.xyz(), (0, 10, 0));
    coord.add_y(5);
    assert_eq!(coord.xyz(), (0, 15, 0));
    coord.add_z(224);
    assert_eq!(coord.xyz(), (0, 15, 0));
    coord.add_z(40);
    assert_eq!(coord.xyz(), (0, 15, 8));
}

#[test]
fn subtracting_takes_from_one_axis() {
    let mut coord = LocalCoord::new(30, 10, 5);
    coord.sub_x(30);
    assert_eq!(coord.xyz(), (0, 10, 5));
    coord.sub_y(3);
    assert_eq!(coord.xyz(), (0, 7, 5));
    coord.sub_z(0);
    assert_eq!(coord.xyz(), (0, 7, 5));
    coord.sub_z(5);
    assert_eq!(coord.xyz(), (0, 7, 0));
}
