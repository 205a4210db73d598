//! The kinds of voxel, their colours, and the six faces of the unit cube.

use vstd::prelude::*;
use super::model::{Color, Mesh, MeshView, Position, Vertex};

verus! {

/// A voxel's width in lattice units.
pub const VOXEL_WIDTH: i64 = 2;

/// A voxel's height in lattice units.
pub const VOXEL_HEIGHT: i64 = 2;

/// A voxel's depth in lattice units.
pub const VOXEL_DEPTH: i64 = 2;

/// Full intensity of a colour channel.
pub const COLOR_FULL: u16 = 1000;

/// Each channel of the grey of stone.
pub const STONE_GREY: u16 = 300;

/// The least green that grass can have.
pub const GRASS_GREEN_LOW: u16 = 300;

/// The bound that the green of grass stays below.
pub const GRASS_GREEN_HIGH: u16 = 1000;

/// The six faces of a voxel.
#[derive(Clone, Copy, Debug, PartialEq, Eq, Structural)]
pub enum Side {
    /// Towards greater y.
    Top,
    /// Towards lesser y.
    Bottom,
    /// Towards greater z.
    Front,
    /// Towards lesser z.
    Back,
    /// Towards lesser x.
    Left,
    /// Towards greater x.
    Right,
}

impl Side {
    /// The axis that the face is perpendicular to: 0 for x, 1 for y, 2 for z.
    pub open spec fn axis(self) -> int {
        match self {
            Side::Left | Side::Right => 0,
            Side::Top | Side::Bottom => 1,
            Side::Front | Side::Back => 2,
        }
    }

    /// The direction along `axis` in which the face looks: 1 or -1.
    pub open spec fn direction(self) -> int {
        match self {
            Side::Right | Side::Top | Side::Front => 1,
            Side::Left | Side::Bottom | Side::Back => -1,
        }
    }
}

/// The kinds of voxel.
#[derive(Clone, Copy, Debug, PartialEq, Eq, Structural)]
pub enum Voxel {
    Air,
    Grass,
    Stone,
}

/// `rand::rngs::ThreadRng`, the handle to a thread's random number
/// generator. Nothing of its inside is known here.
#[verifier::external_type_specification]
#[verifier::external_body]
pub struct ExThreadRng(rand::rngs::ThreadRng);

/// `rand::thread_rng` hands out the calling thread's generator. Nothing is
/// claimed of the generator. The call panics where the system has no seed to
/// give, which no argument can prevent.
pub assume_specification[ rand::thread_rng ]() -> (rng: rand::rngs::ThreadRng);

/// `rand::Rng::gen_range` on the half-open range from `low` to `high`: the
/// number drawn is at least `low` and below `high`. An empty range makes it
/// panic, so `low` is below `high`. Which number comes is left open.
#[verifier::external_body]
fn gen_range(rng: &mut rand::rngs::ThreadRng, low: u16, high: u16) -> (drawn: u16)
    requires
        low < high,
    ensures
        low <= drawn < high,
{
    rand::Rng::gen_range(rng, low..high)
}

impl Voxel {
    /// The corner of the cube towards lesser x, greater y and lesser z.
    pub const V_0: Position = [-1, 1, -1];

    /// The corner towards lesser x, lesser y and lesser z.
    pub const V_1: Position = [-1, -1, -1];

    /// The corner towards greater x, lesser y and lesser z.
    pub const V_2: Position = [1, -1, -1];

    /// The corner towards greater x, greater y and lesser z.
    pub const V_3: Position = [1, 1, -1];

    /// The corner towards lesser x, greater y and greater z.
    pub const V_4: Position = [-1, 1, 1];

    /// The corner towards lesser x, lesser y and greater z.
    pub const V_5: Position = [-1, -1, 1];

    /// The corner towards greater x, lesser y and greater z.
    pub const V_6: Position = [1, -1, 1];

    /// The corner towards greater x, greater y and greater z.
    pub const V_7: Position = [1, 1, 1];

    /// The two triangles of a quad, by the places of its four corners.
    pub const DEFAULT_INDICES: [u16; 6] = [0, 1, 2, 0, 2, 3];

    /// The colour of a voxel of this kind, where `green` is the green of grass:
    /// white for air, a pure green for grass, a dark grey for stone.
    pub open spec fn color_spec(self, green: u16) -> Color {
        match self {
            Voxel::Air => [COLOR_FULL, COLOR_FULL, COLOR_FULL],
            Voxel::Grass => [0, green, 0],
            Voxel::Stone => [STONE_GREY, STONE_GREY, STONE_GREY],
        }
    }

    /// Whether `color` is a colour that a voxel of this kind can have: its
    /// colour for a green of at least `GRASS_GREEN_LOW` and below
    /// `GRASS_GREEN_HIGH`.
    pub open spec fn has_color(self, color: Color) -> bool {
        exists|green: u16|
            GRASS_GREEN_LOW <= green < GRASS_GREEN_HIGH && color@ == #[trigger] self.color_spec(green)@
    }

    /// The colour of a voxel of this kind, given the green to use for grass.
    pub fn color_with(&self, green: u16) -> (color: Color)
        ensures
            color@ == self.color_spec(green)@,
    {
        match self {
            Voxel::Air => [COLOR_FULL, COLOR_FULL, COLOR_FULL],
            Voxel::Grass => [0, green, 0],
            Voxel::Stone => [STONE_GREY, STONE_GREY, STONE_GREY],
        }
    }

    /// The colour of a voxel of this kind. Air and stone have one colour each;
    /// the green of grass is drawn anew on every call.
    pub fn get_color(&self) -> (color: Color)
        ensures
            self.has_color(color),
            *self is Air ==> color@ == seq![COLOR_FULL, COLOR_FULL, COLOR_FULL],
            *self is Stone ==> color@ == seq![STONE_GREY, STONE_GREY, STONE_GREY],
            *self is Grass ==> color[0] == 0 && GRASS_GREEN_LOW <= color[1] < GRASS_GREEN_HIGH && color[2] == 0,
    {
        let mut rng = rand::thread_rng();
        let green = match self {
            Voxel::Grass => gen_range(&mut rng, GRASS_GREEN_LOW, GRASS_GREEN_HIGH),
            _ => GRASS_GREEN_LOW,
        };
        self.color_with(green)
    }

    /// The four corners of the face `dir` of the cube around the origin, in
    /// the order in which the face's mesh holds them.
    pub open spec fn side_corners(dir: Side) -> Seq<Position> {
        match dir {
            Side::Top => seq![Self::V_0, Self::V_4, Self::V_7, Self::V_3],
            Side::Bottom => seq![Self::V_2, Self::V_6, Self::V_5, Self::V_1],
            Side::Front => seq![Self::V_4, Self::V_5, Self::V_6, Self::V_7],
            Side::Back => seq![Self::V_3, Self::V_2, Self::V_1, Self::V_0],
            Side::Left => seq![Self::V_0, Self::V_1, Self::V_5, Self::V_4],
            Side::Right => seq![Self::V_7, Self::V_6, Self::V_2, Self::V_3],
        }
    }

    /// The mesh of the face `dir`: its four corners in `color`, and the two
    /// triangles `DEFAULT_INDICES`.
    pub open spec fn side_mesh(dir: Side, color: Color) -> MeshView {
        MeshView {
            vertices: Seq::new(4, |i: int| Vertex { pos: Self::side_corners(dir)[i], color }),
            indices: Self::DEFAULT_INDICES@,
        }
    }

    /// The mesh of one face of the cube around the origin.
    pub fn get_side(dir: Side, color: Color) -> (mesh: Mesh)
        ensures
            mesh@ == Self::side_mesh(dir, color),
    {
        let corners: [Position; 4] = match dir {
            Side::Top => [Self::V_0, Self::V_4, Self::V_7, Self::V_3],
            Side::Bottom => [Self::V_2, Self::V_6, Self::V_5, Self::V_1],
            Side::Front => [Self::V_4, Self::V_5, Self::V_6, Self::V_7],
            Side::Back => [Self::V_3, Self::V_2, Self::V_1, Self::V_0],
            Side::Left => [Self::V_0, Self::V_1, Self::V_5, Self::V_4],
            Side::Right => [Self::V_7, Self::V_6, Self::V_2, Self::V_3],
        };
        let mesh = Mesh {
            vertices: vec![
                Vertex { pos: corners[0], color },
                Vertex { pos: corners[1], color },
                Vertex { pos: corners[2], color },
                Vertex { pos: corners[3], color },
            ],
            indices: vec![0, 1, 2, 0, 2, 3],
        };
        assert(mesh@.vertices =~= Self::side_mesh(dir, color).vertices);
        assert(mesh@.indices =~= Self::side_mesh(dir, color).indices);
        mesh
    }
}

/// The direction in which the triangle from `a` over `b` to `c` is seen to
/// turn against the clock: the cross product of its first two edges.
pub open spec fn facing(a: Position, b: Position, c: Position) -> (int, int, int) {
    let u = (b[0] - a[0], b[1] - a[1], b[2] - a[2]);
    let v = (c[0] - a[0], c[1] - a[1], c[2] - a[2]);
    (u.1 * v.2 - u.2 * v.1, u.2 * v.0 - u.0 * v.2, u.0 * v.1 - u.1 * v.0)
}

/// The direction in which the face `dir` looks, four units long.
pub open spec fn outward(dir: Side) -> (int, int, int) {
    let length = 4 * dir.direction();
    if dir.axis() == 0 {
        (length, 0, 0)
    } else if dir.axis() == 1 {
        (0, length, 0)
    } else {
        (0, 0, length)
    }
}

/// Every face lies on the side of the cube that it is named after, and both
/// of its triangles turn against the clock for one who looks at the face from
/// outside the cube.
pub proof fn lemma_faces_wind_outward(dir: Side)
    ensures
        forall|i: int| 0 <= i < 4 ==> (#[trigger] Voxel::side_corners(dir)[i])[dir.axis()] == dir.direction(),
        facing(Voxel::side_corners(dir)[0], Voxel::side_corners(dir)[1], Voxel::side_corners(dir)[2]) == outward(
            dir,
        ),
        facing(Voxel::side_corners(dir)[0], Voxel::side_corners(dir)[2], Voxel::side_corners(dir)[3]) == outward(
            dir,
        ),
{
    let corners = Voxel::side_corners(dir);
    lemma_facing_of_edges(corners[0], corners[1], corners[2]);
    lemma_facing_of_edges(corners[0], corners[2], corners[3]);
}

/// `facing` by the six numbers of the two edges, each of which is -2, 0 or 2
/// between corners of the cube.
proof fn lemma_facing_of_edges(a: Position, b: Position, c: Position)
    requires
        forall|k: int| 0 <= k < 3 ==> -1 <= #[trigger] a[k] <= 1 && -1 <= b[k] <= 1 && -1 <= c[k] <= 1,
    ensures
        facing(a, b, c) == (
            times(b[1] - a[1], c[2] - a[2]) - times(b[2] - a[2], c[1] - a[1]),
            times(b[2] - a[2], c[0] - a[0]) - times(b[0] - a[0], c[2] - a[2]),
            times(b[0] - a[0], c[1] - a[1]) - times(b[1] - a[1], c[0] - a[0]),
        ),
{
    assert(-1 <= a[0] <= 1 && -1 <= a[1] <= 1 && -1 <= a[2] <= 1);
    lemma_times(b[1] - a[1], c[2] - a[2]);
    lemma_times(b[2] - a[2], c[1] - a[1]);
    lemma_times(b[2] - a[2], c[0] - a[0]);
    lemma_times(b[0] - a[0], c[2] - a[2]);
    lemma_times(b[0] - a[0], c[1] - a[1]);
    lemma_times(b[1] - a[1], c[0] - a[0]);
}

/// The product of two numbers between -2 and 2, told case by case.
spec fn times(u: int, v: int) -> int {
    if u == 0 || v == 0 {
        0
    } else if u == 1 {
        v
    } else if u == -1 {
        -v
    } else if u == 2 {
        v + v
    } else {
        -v - v
    }
}

proof fn lemma_times(u: int, v: int)
    requires
        -2 <= u <= 2,
    ensures
        u * v == times(u, v),
{
    assert(u * v == if u == 0 {
        0
    } else if u == 1 {
        v
    } else if u == -1 {
        -v
    } else if u == 2 {
        v + v
    } else {
        -v - v
    }) by (nonlinear_arith)
        requires
            -2 <= u <= 2,
    ;
}

/// The greatest value of an axis of a `LocalCoord`.
pub const LOCAL_AXIS_MAX: u8 = 31;

/// An axis value as a `LocalCoord` keeps it: its low five bits.
pub open spec fn clamp(value: int) -> int {
    value % 32
}

/// The word that packs the axes `x`, `y` and `z`, each between 0 and 31:
/// `z` in the lowest five bits, `y` in the five above, `x` in the next five.
pub open spec fn pack(x: int, y: int, z: int) -> int {
    x * 1024 + y * 32 + z
}

/// The word for the axes `x`, `y` and `z`, each clamped.
pub open spec fn encode(x: int, y: int, z: int) -> int {
    pack(clamp(x), clamp(y), clamp(z))
}

/// The axes that the word `raw` packs. Its top bit is not looked at.
pub open spec fn decode(raw: int) -> (int, int, int) {
    ((raw / 1024) % 32, (raw / 32) % 32, raw % 32)
}

/// Decoding gives back what was encoded: for axes between 0 and 31,
/// `decode(encode(x, y, z))` is `(x, y, z)`.
pub proof fn lemma_decode_encode(x: int, y: int, z: int)
    requires
        0 <= x <= 31,
        0 <= y <= 31,
        0 <= z <= 31,
    ensures
        decode(encode(x, y, z)) == (x, y, z),
        0 <= encode(x, y, z) < 0x8000,
{
    let a = x as u16;
    let b = y as u16;
    let c = z as u16;
    let raw = (a * 1024 + b * 32 + c) as u16;
    assert(raw < 0x8000 && (raw / 1024) % 32 == a && (raw / 32) % 32 == b && raw % 32 == c) by (bit_vector)
        requires
            a < 32,
            b < 32,
            c < 32,
            raw == (a * 1024 + b * 32 + c) as u16,
    ;
    assert(clamp(x) == x && clamp(y) == y && clamp(z) == z);
    assert(encode(x, y, z) == raw);
}

/// Encoding looks at the low five bits of each axis only: a value above 31
/// stands for its remainder by 32, so that 32 stands for 0.
pub proof fn lemma_encode_clamps(x: int, y: int, z: int)
    requires
        0 <= x,
        0 <= y,
        0 <= z,
    ensures
        encode(x, y, z) == encode(x % 32, y % 32, z % 32),
        encode(x + 32, y, z) == encode(x, y, z),
        encode(x, y + 32, z) == encode(x, y, z),
        encode(x, y, z + 32) == encode(x, y, z),
        decode(encode(x, y, z)) == (x % 32, y % 32, z % 32),
{
    lemma_clamp(x);
    lemma_clamp(y);
    lemma_clamp(z);
    lemma_decode_encode(x % 32, y % 32, z % 32);
}

/// Clamping a clamped value changes nothing, and neither does clamping a
/// value that is 32 greater.
proof fn lemma_clamp(value: int)
    requires
        0 <= value,
    ensures
        0 <= clamp(value) < 32,
        clamp(clamp(value)) == clamp(value),
        clamp(value + 32) == clamp(value),
{
}

/// Encoding gives back what was decoded, but for the top bit.
pub proof fn lemma_encode_decode(raw: int)
    requires
        0 <= raw < 0x1_0000,
    ensures
        ({
            let (x, y, z) = decode(raw);
            encode(x, y, z) == raw % 0x8000
        }),
{
    let word = raw as u16;
    let a = (word / 1024) % 32;
    let b = (word / 32) % 32;
    let c = word % 32;
    assert(a < 32 && b < 32 && c < 32 && a * 1024 + b * 32 + c == word % 0x8000) by (bit_vector)
        requires
            a == (word / 1024) % 32,
            b == (word / 32) % 32,
            c == word % 32,
    ;
    lemma_clamp(a as int);
    lemma_clamp(b as int);
    lemma_clamp(c as int);
    assert(decode(raw) == (a as int, b as int, c as int));
    assert(clamp(a as int) == a && clamp(b as int) == b && clamp(c as int) == c);
}

/// The place of a voxel in its chunk: three axes between 0 and 31, packed
/// into one word.
pub struct LocalCoord(u16);

impl View for LocalCoord {
    type V = (int, int, int);

    /// The axes x, y and z.
    closed spec fn view(&self) -> (int, int, int) {
        decode(self.0 as int)
    }
}

impl Default for LocalCoord {
    fn default() -> (coord: LocalCoord)
        ensures
            coord@ == (0int, 0int, 0int),
    {
        LocalCoord(0)
    }
}

impl LocalCoord {
    const X_BITWISE: u16 = 31744;

    const Y_BITWISE: u16 = 992;

    const Z_BITWISE: u16 = 31;

    #[verifier::type_invariant]
    spec fn top_bit_clear(self) -> bool {
        self.0 < 0x8000
    }

    /// The coordinate with the axes `x`, `y` and `z`, each clamped.
    pub fn new(x: u8, y: u8, z: u8) -> (coord: LocalCoord)
        ensures
            coord@ == (clamp(x as int), clamp(y as int), clamp(z as int)),
    {
        let x = Self::clamp_value(x);
        let y = Self::clamp_value(y);
        let z = Self::clamp_value(z);
        let raw = (x << 10) | (y << 5) | z;
        assert(raw < 0x8000 && (raw / 1024) % 32 == x && (raw / 32) % 32 == y && raw % 32 == z) by (bit_vector)
            requires
                x < 32,
                y < 32,
                z < 32,
                raw == (x << 10) | (y << 5) | z,
        ;
        LocalCoord(raw)
    }

    /// The coordinate that the word `raw` packs. Its top bit is not looked at.
    pub fn from_raw(raw: u16) -> (coord: LocalCoord)
        ensures
            coord@ == decode(raw as int),
    {
        let kept = raw & !32768;
        assert(kept < 0x8000 && (kept / 1024) % 32 == (raw / 1024) % 32 && (kept / 32) % 32 == (raw / 32) % 32
            && kept % 32 == raw % 32) by (bit_vector)
            requires
                kept == raw & !32768u16,
        ;
        LocalCoord(kept)
    }

    /// The word that packs the axes `x`, `y` and `z`, each clamped.
    pub fn to_raw(x: u8, y: u8, z: u8) -> (raw: u16)
        ensures
            raw == encode(x as int, y as int, z as int),
    {
        let x = Self::clamp_value(x) << 10;
        let y = Self::clamp_value(y) << 5;
        let z = Self::clamp_value(z);
        assert(x + y + z < 0x8000);
        x + y + z
    }

    /// The word that packs the coordinate.
    pub fn get_raw(&self) -> (raw: u16)
        ensures
            raw == pack(self@.0, self@.1, self@.2),
            raw < 0x8000,
    {
        let raw = self.0;
        proof {
            use_type_invariant(self);
            assert(raw == ((raw / 1024) % 32) * 1024 + ((raw / 32) % 32) * 32 + raw % 32) by (bit_vector)
                requires
                    raw < 0x8000,
            ;
        }
        return raw;
    }

    /// The x axis.
    pub fn x(&self) -> (x: u8)
        ensures
            x == self@.0,
            x <= LOCAL_AXIS_MAX,
    {
        let raw = self.0;
        assert((raw & 31744) >> 10 == (raw / 1024) % 32 && (raw & 31744) >> 10 < 32) by (bit_vector);
        return ((self.0 & Self::X_BITWISE) >> 10) as u8;
    }

    /// The y axis.
    pub fn y(&self) -> (y: u8)
        ensures
            y == self@.1,
            y <= LOCAL_AXIS_MAX,
    {
        let raw = self.0;
        assert((raw & 992) >> 5 == (raw / 32) % 32 && (raw & 992) >> 5 < 32) by (bit_vector);
        return ((self.0 & Self::Y_BITWISE) >> 5) as u8;
    }

    /// The z axis.
    pub fn z(&self) -> (z: u8)
        ensures
            z == self@.2,
            z <= LOCAL_AXIS_MAX,
    {
        let raw = self.0;
        assert(raw & 31 == raw % 32 && raw & 31 < 32) by (bit_vector);
        return (self.0 & Self::Z_BITWISE) as u8;
    }

    /// The three axes.
    pub fn xyz(&self) -> (axes: (u8, u8, u8))
        ensures
            (axes.0 as int, axes.1 as int, axes.2 as int) == self@,
    {
        return (self.x(), self.y(), self.z());
    }

    /// Sets the x axis to `value`, clamped. The other axes stay.
    pub fn set_x(&mut self, value: u8)
        ensures
            final(self)@ == (clamp(value as int), old(self)@.1, old(self)@.2),
    {
        proof {
            use_type_invariant(&*self);
        }
        let value = Self::clamp_value(value);
        let shifted = value << 10;
        let raw = self.0;
        let cleared = raw & !Self::X_BITWISE;
        assert(cleared + shifted < 0x8000 && ((cleared + shifted) / 1024) % 32 == value && ((cleared + shifted)
            / 32) % 32 == (raw / 32) % 32 && (cleared + shifted) % 32 == raw % 32) by (bit_vector)
            requires
                value < 32,
                raw < 0x8000,
                shifted == value << 10,
                cleared == raw & !31744u16,
        ;
        self.0 &= !Self::X_BITWISE;
        self.0 += shifted;
    }

    /// Sets the y axis to `value`, clamped. The other axes stay.
    pub fn set_y(&mut self, value: u8)
        ensures
            final(self)@ == (old(self)@.0, clamp(value as int), old(self)@.2),
    {
        proof {
            use_type_invariant(&*self);
        }
        let value = Self::clamp_value(value);
        let shifted = value << 5;
        let raw = self.0;
        let cleared = raw & !Self::Y_BITWISE;
        assert(cleared + shifted < 0x8000 && ((cleared + shifted) / 1024) % 32 == (raw / 1024) % 32 && ((cleared
            + shifted) / 32) % 32 == value && (cleared + shifted) % 32 == raw % 32) by (bit_vector)
            requires
                value < 32,
                raw < 0x8000,
                shifted == value << 5,
                cleared == raw & !992u16,
        ;
        self.0 &= !Self::Y_BITWISE;
        self.0 += shifted;
    }

    /// Sets the z axis to `value`, clamped. The other axes stay.
    pub fn set_z(&mut self, value: u8)
        ensures
            final(self)@ == (old(self)@.0, old(self)@.1, clamp(value as int)),
    {
        proof {
            use_type_invariant(&*self);
        }
        let value = Self::clamp_value(value);
        let raw = self.0;
        let cleared = raw & !Self::Z_BITWISE;
        assert(cleared + value < 0x8000 && ((cleared + value) / 1024) % 32 == (raw / 1024) % 32 && ((cleared
            + value) / 32) % 32 == (raw / 32) % 32 && (cleared + value) % 32 == value) by (bit_vector)
            requires
                value < 32,
                raw < 0x8000,
                cleared == raw & !31u16,
        ;
        self.0 &= !Self::Z_BITWISE;
        self.0 += value;
    }

    /// Adds `value` to the x axis and clamps the sum.
    pub fn add_x(&mut self, value: u8)
        requires
            value + old(self)@.0 <= u8::MAX,
        ensures
            final(self)@ == (clamp(value + old(self)@.0), old(self)@.1, old(self)@.2),
    {
        self.set_x(value + self.x());
    }

    /// Adds `value` to the y axis and clamps the sum.
    pub fn add_y(&mut self, value: u8)
        requires
            value + old(self)@.1 <= u8::MAX,
        ensures
            final(self)@ == (old(self)@.0, clamp(value + old(self)@.1), old(self)@.2),
    {
        self.set_y(value + self.y());
    }

    /// Adds `value` to the z axis and clamps the sum.
    pub fn add_z(&mut self, value: u8)
        requires
            value + old(self)@.2 <= u8::MAX,
        ensures
            final(self)@ == (old(self)@.0, old(self)@.1, clamp(value + old(self)@.2)),
    {
        self.set_z(value + self.z());
    }

    /// Takes `value` from the x axis.
    pub fn sub_x(&mut self, value: u8)
        requires
            value <= old(self)@.0,
        ensures
            final(self)@ == (old(self)@.0 - value, old(self)@.1, old(self)@.2),
    {
        self.set_x(self.x() - value);
    }

    /// Takes `value` from the y axis.
    pub fn sub_y(&mut self, value: u8)
        requires
            value <= old(self)@.1,
        ensures
            final(self)@ == (old(self)@.0, old(self)@.1 - value, old(self)@.2),
    {
        self.set_y(self.y() - value);
    }

    /// Takes `value` from the z axis.
    pub fn sub_z(&mut self, value: u8)
        requires
            value <= old(self)@.2,
        ensures
            final(self)@ == (old(self)@.0, old(self)@.1, old(self)@.2 - value),
    {
        self.set_z(self.z() - value);
    }

    /// Whether clamping `value` loses bits of it: whether it is above
    /// `LOCAL_AXIS_MAX`.
    pub fn is_clamped(value: u8) -> (lossy: bool)
        ensures
            lossy == (value > LOCAL_AXIS_MAX),
            lossy == (clamp(value as int) != value),
    {
        value > LOCAL_AXIS_MAX
    }

    /// The low five bits of `value`.
    fn clamp_value(value: u8) -> (clamped: u16)
        ensures
            clamped == clamp(value as int),
            clamped < 32,
            (clamped << 10) == clamped * 1024,
            (clamped << 5) == clamped * 32,
    {
        let wide = value as u16;
        let clamped = wide & 31;
        assert(clamped == wide % 32 && (clamped << 10) == clamped * 1024 && (clamped << 5) == clamped * 32)
            by (bit_vector)
            requires
                clamped == wide & 31,
        ;
        return clamped;
    }
}

} // verus!
