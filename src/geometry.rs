use vstd::prelude::*;

verus! {

/// A 2D integer vector: a position, an extent or a velocity in world units.
#[derive(Clone, Copy, Debug, PartialEq, Eq, Structural)]
pub struct Vec2i {
    pub x: i64,
    pub y: i64,
}

impl Vec2i {
    pub fn new(x: i64, y: i64) -> (r: Vec2i)
        ensures
            r.x == x,
            r.y == y,
    {
        Vec2i { x, y }
    }

    /// The squared length, as a mathematical integer.
    pub open spec fn len_sq(self) -> int {
        self.x * self.x + self.y * self.y
    }
}

/// The face of an obstacle that a moving box struck.
#[derive(Clone, Copy, Debug, PartialEq, Eq, Structural)]
pub enum Collision {
    Left,
    Right,
    Top,
    Bottom,
    Inside,
}

/// Twice the lower edge of a box on one axis, given its center and full extent.
pub open spec fn lo2(center: int, extent: int) -> int {
    2 * center - extent
}

/// Twice the upper edge of a box on one axis, given its center and full extent.
pub open spec fn hi2(center: int, extent: int) -> int {
    2 * center + extent
}

/// The open intervals of two boxes intersect on one axis.
pub open spec fn axis_overlaps(ac: int, ae: int, bc: int, be: int) -> bool {
    lo2(ac, ae) < hi2(bc, be) && hi2(ac, ae) > lo2(bc, be)
}

/// On one axis, the moving box sticks into the obstacle across the obstacle's lower face.
pub open spec fn hits_low_face(ac: int, ae: int, bc: int, be: int) -> bool {
    lo2(ac, ae) < lo2(bc, be) && hi2(ac, ae) > lo2(bc, be) && hi2(ac, ae) < hi2(bc, be)
}

/// On one axis, the moving box sticks into the obstacle across the obstacle's upper face.
pub open spec fn hits_high_face(ac: int, ae: int, bc: int, be: int) -> bool {
    lo2(ac, ae) > lo2(bc, be) && lo2(ac, ae) < hi2(bc, be) && hi2(ac, ae) > hi2(bc, be)
}

/// Twice the penetration depth on one axis, for a face hit on that axis.
pub open spec fn face_depth2(ac: int, ae: int, bc: int, be: int) -> int {
    if hits_low_face(ac, ae, bc, be) {
        hi2(ac, ae) - lo2(bc, be)
    } else {
        hi2(bc, be) - lo2(ac, ae)
    }
}

/// The face on the x axis that a box at `a` (extent `ae`) strikes on a box at `b` (extent `be`).
pub open spec fn x_face(a: Vec2i, ae: Vec2i, b: Vec2i, be: Vec2i) -> Option<Collision> {
    if hits_low_face(a.x as int, ae.x as int, b.x as int, be.x as int) {
        Some(Collision::Left)
    } else if hits_high_face(a.x as int, ae.x as int, b.x as int, be.x as int) {
        Some(Collision::Right)
    } else {
        None
    }
}

/// The face on the y axis that a box at `a` (extent `ae`) strikes on a box at `b` (extent `be`).
pub open spec fn y_face(a: Vec2i, ae: Vec2i, b: Vec2i, be: Vec2i) -> Option<Collision> {
    if hits_low_face(a.y as int, ae.y as int, b.y as int, be.y as int) {
        Some(Collision::Bottom)
    } else if hits_high_face(a.y as int, ae.y as int, b.y as int, be.y as int) {
        Some(Collision::Top)
    } else {
        None
    }
}

/// Whether, and on which face of `b`, a box centered at `a` with full extent `ae`
/// touches a box centered at `b` with full extent `be`. Touching edges do not count.
/// Where a face is struck on both axes, the axis with the smaller penetration wins,
/// and x wins a tie; where neither axis has a face hit, the result is `Inside`.
pub open spec fn collide_spec(a: Vec2i, ae: Vec2i, b: Vec2i, be: Vec2i) -> Option<Collision> {
    if !(axis_overlaps(a.x as int, ae.x as int, b.x as int, be.x as int) && axis_overlaps(
        a.y as int,
        ae.y as int,
        b.y as int,
        be.y as int,
    )) {
        None
    } else {
        match (x_face(a, ae, b, be), y_face(a, ae, b, be)) {
            (Some(xc), Some(yc)) => if face_depth2(a.y as int, ae.y as int, b.y as int, be.y as int)
                < face_depth2(a.x as int, ae.x as int, b.x as int, be.x as int) {
                Some(yc)
            } else {
                Some(xc)
            },
            (Some(xc), None) => Some(xc),
            (None, Some(yc)) => Some(yc),
            (None, None) => Some(Collision::Inside),
        }
    }
}

/// The faces struck on one axis, computed exactly: 0 for none, 1 for the lower face,
/// 2 for the upper face, with twice the penetration depth.
fn axis_hit(ac: i64, ae: i64, bc: i64, be: i64) -> (r: (u8, i128))
    ensures
        r.0 == 1 <==> hits_low_face(ac as int, ae as int, bc as int, be as int),
        r.0 == 2 <==> hits_high_face(ac as int, ae as int, bc as int, be as int),
        r.0 <= 2,
        r.0 != 0 ==> r.1 == face_depth2(ac as int, ae as int, bc as int, be as int),
{
    let a_lo = 2 * (ac as i128) - (ae as i128);
    let a_hi = 2 * (ac as i128) + (ae as i128);
    let b_lo = 2 * (bc as i128) - (be as i128);
    let b_hi = 2 * (bc as i128) + (be as i128);
    if a_lo < b_lo && a_hi > b_lo && a_hi < b_hi {
        (1, a_hi - b_lo)
    } else if a_lo > b_lo && a_lo < b_hi && a_hi > b_hi {
        (2, b_hi - a_lo)
    } else {
        (0, 0)
    }
}

/// Tests a box centered at `a_pos` with full extent `a_size` against an obstacle
/// centered at `b_pos` with full extent `b_size`, and names the obstacle's face
/// that was struck.
pub fn collide(a_pos: Vec2i, a_size: Vec2i, b_pos: Vec2i, b_size: Vec2i) -> (r: Option<Collision>)
    ensures
        r == collide_spec(a_pos, a_size, b_pos, b_size),
{
    let a_lo_x = 2 * (a_pos.x as i128) - (a_size.x as i128);
    let a_hi_x = 2 * (a_pos.x as i128) + (a_size.x as i128);
    let b_lo_x = 2 * (b_pos.x as i128) - (b_size.x as i128);
    let b_hi_x = 2 * (b_pos.x as i128) + (b_size.x as i128);
    let a_lo_y = 2 * (a_pos.y as i128) - (a_size.y as i128);
    let a_hi_y = 2 * (a_pos.y as i128) + (a_size.y as i128);
    let b_lo_y = 2 * (b_pos.y as i128) - (b_size.y as i128);
    let b_hi_y = 2 * (b_pos.y as i128) + (b_size.y as i128);
    if !(a_lo_x < b_hi_x && a_hi_x > b_lo_x && a_lo_y < b_hi_y && a_hi_y > b_lo_y) {
        return None;
    }
    let (xk, xd) = axis_hit(a_pos.x, a_size.x, b_pos.x, b_size.x);
    let (yk, yd) = axis_hit(a_pos.y, a_size.y, b_pos.y, b_size.y);
    let xc = if xk == 1 {
        Collision::Left
    } else {
        Collision::Right
    };
    let yc = if yk == 1 {
        Collision::Bottom
    } else {
        Collision::Top
    };
    if xk != 0 && yk != 0 {
        if yd < xd {
            Some(yc)
        } else {
            Some(xc)
        }
    } else if xk != 0 {
        Some(xc)
    } else if yk != 0 {
        Some(yc)
    } else {
        Some(Collision::Inside)
    }
}

/// The velocity after striking face `c`: the component across that face is negated
/// when it points into the obstacle, and nothing else changes.
pub open spec fn reflect_spec(v: Vec2i, c: Option<Collision>) -> Vec2i {
    match c {
        Some(Collision::Left) => if v.x > 0 { Vec2i { x: -v.x as i64, ..v } } else { v },
        Some(Collision::Right) => if v.x < 0 { Vec2i { x: -v.x as i64, ..v } } else { v },
        Some(Collision::Top) => if v.y < 0 { Vec2i { y: -v.y as i64, ..v } } else { v },
        Some(Collision::Bottom) => if v.y > 0 { Vec2i { y: -v.y as i64, ..v } } else { v },
        _ => v,
    }
}

/// Velocity components that can be negated.
pub open spec fn velocity_ok(v: Vec2i) -> bool {
    v.x != i64::MIN && v.y != i64::MIN
}

/// Reflects velocity `v` off face `c`, negating only the component that points into
/// the obstacle.
pub fn reflect(v: Vec2i, c: Option<Collision>) -> (r: Vec2i)
    requires
        velocity_ok(v),
    ensures
        r == reflect_spec(v, c),
        velocity_ok(r),
{
    let mut r = v;
    match c {
        Some(Collision::Left) => if v.x > 0 {
            r.x = -v.x;
        },
        Some(Collision::Right) => if v.x < 0 {
            r.x = -v.x;
        },
        Some(Collision::Top) => if v.y < 0 {
            r.y = -v.y;
        },
        Some(Collision::Bottom) => if v.y > 0 {
            r.y = -v.y;
        },
        _ => {},
    }
    r
}

/// Reflection only changes signs: each component keeps its magnitude, so the speed
/// is unchanged.
pub proof fn lemma_reflect_keeps_speed(v: Vec2i, c: Option<Collision>)
    requires
        velocity_ok(v),
    ensures
        reflect_spec(v, c).x == v.x || reflect_spec(v, c).x == -v.x,
        reflect_spec(v, c).y == v.y || reflect_spec(v, c).y == -v.y,
        reflect_spec(v, c).len_sq() == v.len_sq(),
        velocity_ok(reflect_spec(v, c)),
{
    let r = reflect_spec(v, c);
    assert(r.x * r.x == v.x * v.x) by (nonlinear_arith)
        requires
            r.x == v.x || r.x == -v.x,
    ;
    assert(r.y * r.y == v.y * v.y) by (nonlinear_arith)
        requires
            r.y == v.y || r.y == -v.y,
    ;
}

} // verus!
