//! The six face directions of a voxel, and the rectangles of faces that the
//! mesher merges.

use crate::math::IVec3;
use vstd::prelude::*;

verus! {

/// A face direction. `Left` and `Right` look along −x and +x, `Down` and
/// `Up` along −y and +y, `Forward` and `Back` along −z and +z.
#[derive(Copy, Clone, Debug, PartialEq, Eq, Structural)]
pub enum Direction {
    Left,
    Right,
    Down,
    Up,
    Back,
    Forward,
}

impl Direction {
    /// The world position of the point `(x, y)` on the plane at height
    /// `offset` along this direction's axis. On a plane across the y axis,
    /// `x` runs along world x and `y` along world z; across the x axis, `x`
    /// runs along world z and `y` along world y; across the z axis, `x`
    /// runs along world x and `y` along world y.
    pub open spec fn spec_world_to_sample(&self, offset: i32, x: i32, y: i32) -> IVec3 {
        match self {
            Direction::Up | Direction::Down => IVec3 { x: x, y: offset, z: y },
            Direction::Left | Direction::Right => IVec3 { x: offset, y: y, z: x },
            Direction::Forward | Direction::Back => IVec3 { x: x, y: y, z: offset },
        }
    }

    /// The world position of the point `(x, y)` on the plane at height
    /// `offset` along this direction's axis.
    #[verifier::when_used_as_spec(spec_world_to_sample)]
    pub fn world_to_sample(&self, offset: i32, x: i32, y: i32) -> (v: IVec3)
        ensures
            v == self.spec_world_to_sample(offset, x, y),
    {
        match self {
            Direction::Up => IVec3::new(x, offset, y),
            Direction::Down => IVec3::new(x, offset, y),
            Direction::Left => IVec3::new(offset, y, x),
            Direction::Right => IVec3::new(offset, y, x),
            Direction::Forward => IVec3::new(x, y, offset),
            Direction::Back => IVec3::new(x, y, offset),
        }
    }

    /// The unit vector that points out of a face of this direction.
    pub open spec fn spec_normals(&self) -> IVec3 {
        match self {
            Direction::Up => IVec3 { x: 0, y: 1, z: 0 },
            Direction::Down => IVec3 { x: 0, y: -1i32, z: 0 },
            Direction::Left => IVec3 { x: -1i32, y: 0, z: 0 },
            Direction::Right => IVec3 { x: 1, y: 0, z: 0 },
            Direction::Forward => IVec3 { x: 0, y: 0, z: -1i32 },
            Direction::Back => IVec3 { x: 0, y: 0, z: 1 },
        }
    }

    /// The unit vector that points out of a face of this direction.
    #[verifier::when_used_as_spec(spec_normals)]
    pub fn normals(&self) -> (n: IVec3)
        ensures
            n == self.spec_normals(),
    {
        match self {
            Direction::Up => IVec3::new(0, 1, 0),
            Direction::Down => IVec3::new(0, -1, 0),
            Direction::Left => IVec3::new(-1, 0, 0),
            Direction::Right => IVec3::new(1, 0, 0),
            Direction::Forward => IVec3::new(0, 0, -1),
            Direction::Back => IVec3::new(0, 0, 1),
        }
    }

    /// Whether the corners of a quad of this direction are emitted in
    /// reverse, so that the quad winds counter-clockwise seen from outside.
    pub open spec fn spec_should_reverse(&self) -> bool {
        match self {
            Direction::Up => true,
            Direction::Down => false,
            Direction::Left => false,
            Direction::Right => true,
            Direction::Forward => true,
            Direction::Back => false,
        }
    }

    /// Whether the corners of a quad of this direction are emitted in
    /// reverse.
    #[verifier::when_used_as_spec(spec_should_reverse)]
    pub fn should_reverse(&self) -> (r: bool)
        ensures
            r == self.spec_should_reverse(),
    {
        match self {
            Direction::Up => true,
            Direction::Down => false,
            Direction::Left => false,
            Direction::Right => true,
            Direction::Forward => true,
            Direction::Back => false,
        }
    }

    /// How far a face of this direction lies from the low corner of its
    /// voxel along the direction's axis: one for the three directions that
    /// look along a positive axis, zero for the others.
    pub open spec fn spec_face_offset(&self) -> int {
        match self {
            Direction::Up | Direction::Right | Direction::Back => 1,
            _ => 0,
        }
    }
}

/// A rectangle of cells on a 16×16 plane: rows `x..x + w`, columns
/// `y..y + h`.
#[derive(Debug, Copy, Clone, Ord, PartialOrd, Eq, PartialEq, Structural)]
pub struct GreedyQuad {
    pub x: u32,
    pub y: u32,
    pub w: u32,
    pub h: u32,
}

impl GreedyQuad {
    /// Whether the cell at row `r`, column `c` lies in the rectangle.
    pub open spec fn covers(&self, r: int, c: int) -> bool {
        self.x <= r < self.x + self.w && self.y <= c < self.y + self.h
    }

    /// Whether the rectangle is not empty and lies on the 16×16 plane.
    pub open spec fn on_plane(&self) -> bool {
        1 <= self.w && 1 <= self.h && self.x + self.w <= 16 && self.y + self.h <= 16
    }

    /// The four corners of the quad on the plane `offset` of direction
    /// `face_dir`, in the order in which they are emitted: around the
    /// rectangle from its low corner, and in reverse from the second corner
    /// on where the direction asks for it.
    pub open spec fn corners(&self, face_dir: Direction, offset: int) -> Seq<IVec3> {
        let o = (offset + face_dir.spec_face_offset()) as i32;
        let x0 = self.x as i32;
        let x1 = (self.x + self.w) as i32;
        let y0 = self.y as i32;
        let y1 = (self.y + self.h) as i32;
        let v0 = face_dir.spec_world_to_sample(o, x0, y0);
        let v1 = face_dir.spec_world_to_sample(o, x1, y0);
        let v2 = face_dir.spec_world_to_sample(o, x1, y1);
        let v3 = face_dir.spec_world_to_sample(o, x0, y1);
        if face_dir.spec_should_reverse() {
            seq![v0, v3, v2, v1]
        } else {
            seq![v0, v1, v2, v3]
        }
    }

    /// The normals that go with the four corners: the direction's unit
    /// vector, four times.
    pub open spec fn corner_normals(face_dir: Direction) -> Seq<IVec3> {
        Seq::new(4, |i: int| face_dir.spec_normals())
    }

    /// Appends the four corners of the quad to `vertices` and the face's
    /// normal, four times, to `normals`.
    pub fn append_vertices(
        &self,
        vertices: &mut Vec<IVec3>,
        normals: &mut Vec<IVec3>,
        face_dir: Direction,
        offset: i32,
    )
        requires
            self.x + self.w <= i32::MAX,
            self.y + self.h <= i32::MAX,
            offset < i32::MAX,
        ensures
            final(vertices)@ == old(vertices)@ + self.corners(face_dir, offset as int),
            final(normals)@ == old(normals)@ + Self::corner_normals(face_dir),
    {
        let face_offset = match face_dir {
            Direction::Up | Direction::Right | Direction::Back => 1i32,
            _ => 0i32,
        };
        let offset = offset + face_offset;

        let v0 = face_dir.world_to_sample(offset, self.x as i32, self.y as i32);
        let v1 = face_dir.world_to_sample(offset, (self.x + self.w) as i32, self.y as i32);
        let v2 = face_dir.world_to_sample(
            offset,
            (self.x + self.w) as i32,
            (self.y + self.h) as i32,
        );
        let v3 = face_dir.world_to_sample(offset, self.x as i32, (self.y + self.h) as i32);

        vertices.push(v0);
        if face_dir.should_reverse() {
            vertices.push(v3);
            vertices.push(v2);
            vertices.push(v1);
        } else {
            vertices.push(v1);
            vertices.push(v2);
            vertices.push(v3);
        }

        let n = face_dir.normals();
        let mut i: usize = 0;
        while i < 4
            invariant
                i <= 4,
                n == face_dir.spec_normals(),
                normals@ == old(normals)@ + Seq::new(i as nat, |k: int| face_dir.spec_normals()),
            decreases 4 - i,
        {
            normals.push(n);
            i += 1;
        }
        assert(vertices@ =~= old(vertices)@ + self.corners(face_dir, offset - face_offset));
    }
}


/// The cross product of the edges from `a` to `b` and from `a` to `c`:
/// a vector across the triangle `a`, `b`, `c`, pointing to the side from
/// which the triangle is seen to wind counter-clockwise.
pub open spec fn triangle_normal(a: IVec3, b: IVec3, c: IVec3) -> (int, int, int) {
    let ux = b.x - a.x;
    let uy = b.y - a.y;
    let uz = b.z - a.z;
    let vx = c.x - a.x;
    let vy = c.y - a.y;
    let vz = c.z - a.z;
    (uy * vz - uz * vy, uz * vx - ux * vz, ux * vy - uy * vx)
}

/// Both triangles of a quad wind counter-clockwise seen from the side to
/// which the quad's normal points: the cross product of their edges is the
/// normal, scaled by the area of the quad. So the four corners lie in one
/// plane and go round the quad in one sense.
pub proof fn lemma_quad_winds_outward(quad: GreedyQuad, face_dir: Direction, offset: int)
    requires
        quad.on_plane(),
        0 <= offset < 16,
    ensures
        ({
            let v = quad.corners(face_dir, offset);
            let n = face_dir.spec_normals();
            let area = quad.w * quad.h;
            &&& area >= 1
            &&& triangle_normal(v[0], v[1], v[2]) == (area * n.x, area * n.y, area * n.z)
            &&& triangle_normal(v[0], v[2], v[3]) == (area * n.x, area * n.y, area * n.z)
        }),
{
    let w = quad.w as int;
    let h = quad.h as int;
    let area = w * h;
    assert(area >= 1 && area * 1 == area && area * 0 == 0 && area * (-1) == -area) by (nonlinear_arith)
        requires
            w >= 1,
            h >= 1,
            area == w * h,
    ;
    let v = quad.corners(face_dir, offset);
    match face_dir {
        Direction::Up => {
            assert(triangle_normal(v[0], v[1], v[2]) == (0int, area, 0int)) by (nonlinear_arith)
                requires
                    v[1].x - v[0].x == 0,
                    v[1].y - v[0].y == 0,
                    v[1].z - v[0].z == h,
                    v[2].x - v[0].x == w,
                    v[2].y - v[0].y == 0,
                    v[2].z - v[0].z == h,
                    area == w * h,
            ;
            assert(triangle_normal(v[0], v[2], v[3]) == (0int, area, 0int)) by (nonlinear_arith)
                requires
                    v[2].x - v[0].x == w,
                    v[2].y - v[0].y == 0,
                    v[2].z - v[0].z == h,
                    v[3].x - v[0].x == w,
                    v[3].y - v[0].y == 0,
                    v[3].z - v[0].z == 0,
                    area == w * h,
            ;
        },
        Direction::Down => {
            assert(triangle_normal(v[0], v[1], v[2]) == (0int, -area, 0int)) by (nonlinear_arith)
                requires
                    v[1].x - v[0].x == w,
                    v[1].y - v[0].y == 0,
                    v[1].z - v[0].z == 0,
                    v[2].x - v[0].x == w,
                    v[2].y - v[0].y == 0,
                    v[2].z - v[0].z == h,
                    area == w * h,
            ;
            assert(triangle_normal(v[0], v[2], v[3]) == (0int, -area, 0int)) by (nonlinear_arith)
                requires
                    v[2].x - v[0].x == w,
                    v[2].y - v[0].y == 0,
                    v[2].z - v[0].z == h,
                    v[3].x - v[0].x == 0,
                    v[3].y - v[0].y == 0,
                    v[3].z - v[0].z == h,
                    area == w * h,
            ;
        },
        Direction::Left => {
            assert(triangle_normal(v[0], v[1], v[2]) == (-area, 0int, 0int)) by (nonlinear_arith)
                requires
                    v[1].x - v[0].x == 0,
                    v[1].y - v[0].y == 0,
                    v[1].z - v[0].z == w,
                    v[2].x - v[0].x == 0,
                    v[2].y - v[0].y == h,
                    v[2].z - v[0].z == w,
                    area == w * h,
            ;
            assert(triangle_normal(v[0], v[2], v[3]) == (-area, 0int, 0int)) by (nonlinear_arith)
                requires
                    v[2].x - v[0].x == 0,
                    v[2].y - v[0].y == h,
                    v[2].z - v[0].z == w,
                    v[3].x - v[0].x == 0,
                    v[3].y - v[0].y == h,
                    v[3].z - v[0].z == 0,
                    area == w * h,
            ;
        },
        Direction::Right => {
            assert(triangle_normal(v[0], v[1], v[2]) == (area, 0int, 0int)) by (nonlinear_arith)
                requires
                    v[1].x - v[0].x == 0,
                    v[1].y - v[0].y == h,
                    v[1].z - v[0].z == 0,
                    v[2].x - v[0].x == 0,
                    v[2].y - v[0].y == h,
                    v[2].z - v[0].z == w,
                    area == w * h,
            ;
            assert(triangle_normal(v[0], v[2], v[3]) == (area, 0int, 0int)) by (nonlinear_arith)
                requires
                    v[2].x - v[0].x == 0,
                    v[2].y - v[0].y == h,
                    v[2].z - v[0].z == w,
                    v[3].x - v[0].x == 0,
                    v[3].y - v[0].y == 0,
                    v[3].z - v[0].z == w,
                    area == w * h,
            ;
        },
        Direction::Forward => {
            assert(triangle_normal(v[0], v[1], v[2]) == (0int, 0int, -area)) by (nonlinear_arith)
                requires
                    v[1].x - v[0].x == 0,
                    v[1].y - v[0].y == h,
                    v[1].z - v[0].z == 0,
                    v[2].x - v[0].x == w,
                    v[2].y - v[0].y == h,
                    v[2].z - v[0].z == 0,
                    area == w * h,
            ;
            assert(triangle_normal(v[0], v[2], v[3]) == (0int, 0int, -area)) by (nonlinear_arith)
                requires
                    v[2].x - v[0].x == w,
                    v[2].y - v[0].y == h,
                    v[2].z - v[0].z == 0,
                    v[3].x - v[0].x == w,
                    v[3].y - v[0].y == 0,
                    v[3].z - v[0].z == 0,
                    area == w * h,
            ;
        },
        Direction::Back => {
            assert(triangle_normal(v[0], v[1], v[2]) == (0int, 0int, area)) by (nonlinear_arith)
                requires
                    v[1].x - v[0].x == w,
                    v[1].y - v[0].y == 0,
                    v[1].z - v[0].z == 0,
                    v[2].x - v[0].x == w,
                    v[2].y - v[0].y == h,
                    v[2].z - v[0].z == 0,
                    area == w * h,
            ;
            assert(triangle_normal(v[0], v[2], v[3]) == (0int, 0int, area)) by (nonlinear_arith)
                requires
                    v[2].x - v[0].x == w,
                    v[2].y - v[0].y == h,
                    v[2].z - v[0].z == 0,
                    v[3].x - v[0].x == 0,
                    v[3].y - v[0].y == h,
                    v[3].z - v[0].z == 0,
                    area == w * h,
            ;
        },
    }
}

} // verus!
