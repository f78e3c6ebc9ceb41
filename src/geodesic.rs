//! Subdivision of an icosahedron into triangular facets, each named by an
//! integer direction.
use vstd::prelude::*;

verus! {

/// An integer 3-vector.
#[derive(Clone, Copy, Debug, PartialEq, Eq, Hash, Structural)]
pub struct IVec3 {
    pub x: i64,
    pub y: i64,
    pub z: i64,
}

impl IVec3 {
    pub open spec fn to_tuple(self) -> (int, int, int) {
        (self.x as int, self.y as int, self.z as int)
    }

    pub fn new(x: i64, y: i64, z: i64) -> (r: IVec3)
        ensures
            r == (IVec3 { x, y, z }),
    {
        IVec3 { x, y, z }
    }
}

pub open spec fn dot(a: (int, int, int), b: (int, int, int)) -> int {
    a.0 * b.0 + a.1 * b.1 + a.2 * b.2
}

/// The twelve vertices of the base icosahedron, pole on +Y: the north pole,
/// an upper ring of five, a lower ring of five turned by half a step, and the
/// south pole.
pub open spec fn vertex(v: int) -> (int, int, int) {
    if v == 0 {
        (0, 5, 0)
    } else if v == 1 {
        (4, 2, 0)
    } else if v == 2 {
        (1, 2, 4)
    } else if v == 3 {
        (-3, 2, 2)
    } else if v == 4 {
        (-3, 2, -2)
    } else if v == 5 {
        (1, 2, -4)
    } else if v == 6 {
        (3, -2, 2)
    } else if v == 7 {
        (-1, -2, 4)
    } else if v == 8 {
        (-4, -2, 0)
    } else if v == 9 {
        (-1, -2, -4)
    } else if v == 10 {
        (3, -2, -2)
    } else {
        (0, -5, 0)
    }
}

/// The twenty faces, as vertex numbers counter-clockwise seen from outside:
/// the northern cap, the two halves of the middle band, the southern cap.
pub open spec fn face(f: int) -> (int, int, int) {
    if f == 0 {
        (0, 2, 1)
    } else if f == 1 {
        (0, 3, 2)
    } else if f == 2 {
        (0, 4, 3)
    } else if f == 3 {
        (0, 5, 4)
    } else if f == 4 {
        (0, 1, 5)
    } else if f == 5 {
        (1, 2, 6)
    } else if f == 6 {
        (2, 3, 7)
    } else if f == 7 {
        (3, 4, 8)
    } else if f == 8 {
        (4, 5, 9)
    } else if f == 9 {
        (5, 1, 10)
    } else if f == 10 {
        (6, 2, 7)
    } else if f == 11 {
        (7, 3, 8)
    } else if f == 12 {
        (8, 4, 9)
    } else if f == 13 {
        (9, 5, 10)
    } else if f == 14 {
        (10, 1, 6)
    } else if f == 15 {
        (11, 6, 7)
    } else if f == 16 {
        (11, 7, 8)
    } else if f == 17 {
        (11, 8, 9)
    } else if f == 18 {
        (11, 9, 10)
    } else {
        (11, 10, 6)
    }
}

/// An outward normal of each face.
pub open spec fn face_normal(f: int) -> (int, int, int) {
    if f == 0 {
        (12, 16, 9)
    } else if f == 1 {
        (-6, 14, 12)
    } else if f == 2 {
        (-12, 12, 0)
    } else if f == 3 {
        (-6, 14, -12)
    } else if f == 4 {
        (12, 16, -9)
    } else if f == 5 {
        (16, 2, 12)
    } else if f == 6 {
        (-8, 4, 16)
    } else if f == 7 {
        (-16, 4, 0)
    } else if f == 8 {
        (-8, 4, -16)
    } else if f == 9 {
        (16, 2, -12)
    } else if f == 10 {
        (8, -4, 16)
    } else if f == 11 {
        (-16, -2, 12)
    } else if f == 12 {
        (-16, -2, -12)
    } else if f == 13 {
        (8, -4, -16)
    } else if f == 14 {
        (16, -4, 0)
    } else if f == 15 {
        (6, -14, 12)
    } else if f == 16 {
        (-12, -16, 9)
    } else if f == 17 {
        (-12, -16, -9)
    } else if f == 18 {
        (6, -14, -12)
    } else {
        (12, -12, 0)
    }
}

/// The height of each face's plane along its normal.
pub open spec fn face_height(f: int) -> int {
    if f == 0 {
        80
    } else if f == 1 {
        70
    } else if f == 2 {
        60
    } else if f == 3 {
        70
    } else if f == 4 {
        80
    } else if f == 5 {
        68
    } else if f == 6 {
        64
    } else if f == 7 {
        56
    } else if f == 8 {
        64
    } else if f == 9 {
        68
    } else if f == 10 {
        64
    } else if f == 11 {
        68
    } else if f == 12 {
        68
    } else if f == 13 {
        64
    } else if f == 14 {
        56
    } else if f == 15 {
        70
    } else if f == 16 {
        80
    } else if f == 17 {
        80
    } else if f == 18 {
        70
    } else {
        60
    }
}

/// The determinant of each face's three corners.
pub open spec fn face_det(f: int) -> int {
    if f == 0 {
        80
    } else if f == 1 {
        70
    } else if f == 2 {
        60
    } else if f == 3 {
        70
    } else if f == 4 {
        80
    } else if f == 5 {
        68
    } else if f == 6 {
        64
    } else if f == 7 {
        56
    } else if f == 8 {
        64
    } else if f == 9 {
        68
    } else if f == 10 {
        64
    } else if f == 11 {
        68
    } else if f == 12 {
        68
    } else if f == 13 {
        64
    } else if f == 14 {
        56
    } else if f == 15 {
        70
    } else if f == 16 {
        80
    } else if f == 17 {
        80
    } else if f == 18 {
        70
    } else {
        60
    }
}

/// For each corner of a face, a vector orthogonal to the two other corners.
pub open spec fn face_dual(f: int, c: int) -> (int, int, int) {
    if f == 0 {
        if c == 0 {
            (-8, 16, -6)
        } else if c == 1 {
            (0, 0, 20)
        } else {
            (20, 0, -5)
        }
    } else if f == 1 {
        if c == 0 {
            (4, 14, -8)
        } else if c == 1 {
            (-20, 0, 5)
        } else {
            (10, 0, 15)
        }
    } else if f == 2 {
        if c == 0 {
            (8, 12, 0)
        } else if c == 1 {
            (-10, 0, -15)
        } else {
            (-10, 0, 15)
        }
    } else if f == 3 {
        if c == 0 {
            (4, 14, 8)
        } else if c == 1 {
            (10, 0, -15)
        } else {
            (-20, 0, -5)
        }
    } else if f == 4 {
        if c == 0 {
            (-8, 16, 6)
        } else if c == 1 {
            (20, 0, 5)
        } else {
            (0, 0, -20)
        }
    } else if f == 5 {
        if c == 0 {
            (12, 10, -8)
        } else if c == 1 {
            (-4, 8, 14)
        } else {
            (8, -16, 6)
        }
    } else if f == 6 {
        if c == 0 {
            (12, 10, 8)
        } else if c == 1 {
            (-16, 8, 0)
        } else {
            (-4, -14, 8)
        }
    } else if f == 7 {
        if c == 0 {
            (-4, 8, 14)
        } else if c == 1 {
            (-4, 8, -14)
        } else {
            (-8, -12, 0)
        }
    } else if f == 8 {
        if c == 0 {
            (-16, 8, 0)
        } else if c == 1 {
            (12, 10, -8)
        } else {
            (-4, -14, -8)
        }
    } else if f == 9 {
        if c == 0 {
            (-4, 8, -14)
        } else if c == 1 {
            (12, 10, 8)
        } else {
            (8, -16, -6)
        }
    } else if f == 10 {
        if c == 0 {
            (16, -8, 0)
        } else if c == 1 {
            (4, 14, 8)
        } else {
            (-12, -10, 8)
        }
    } else if f == 11 {
        if c == 0 {
            (4, -8, 14)
        } else if c == 1 {
            (-8, 16, 6)
        } else {
            (-12, -10, -8)
        }
    } else if f == 12 {
        if c == 0 {
            (-12, -10, 8)
        } else if c == 1 {
            (-8, 16, -6)
        } else {
            (4, -8, -14)
        }
    } else if f == 13 {
        if c == 0 {
            (-12, -10, -8)
        } else if c == 1 {
            (4, 14, -8)
        } else {
            (16, -8, 0)
        }
    } else if f == 14 {
        if c == 0 {
            (4, -8, -14)
        } else if c == 1 {
            (8, 12, 0)
        } else {
            (4, -8, 14)
        }
    } else if f == 15 {
        if c == 0 {
            (-4, -14, -8)
        } else if c == 1 {
            (20, 0, 5)
        } else {
            (-10, 0, 15)
        }
    } else if f == 16 {
        if c == 0 {
            (8, -16, -6)
        } else if c == 1 {
            (0, 0, 20)
        } else {
            (-20, 0, -5)
        }
    } else if f == 17 {
        if c == 0 {
            (8, -16, 6)
        } else if c == 1 {
            (-20, 0, 5)
        } else {
            (0, 0, -20)
        }
    } else if f == 18 {
        if c == 0 {
            (-4, -14, 8)
        } else if c == 1 {
            (-10, 0, -15)
        } else {
            (20, 0, -5)
        }
    } else {
        if c == 0 {
            (-8, -12, 0)
        } else if c == 1 {
            (10, 0, -15)
        } else {
            (10, 0, 15)
        }
    }
}

pub open spec fn on_face(v: int, f: int) -> bool {
    v == face(f).0 || v == face(f).1 || v == face(f).2
}

/// Corner `c` (0, 1 or 2) of face `f`.
pub open spec fn corner(f: int, c: int) -> (int, int, int) {
    if c == 0 {
        vertex(face(f).0)
    } else if c == 1 {
        vertex(face(f).1)
    } else {
        vertex(face(f).2)
    }
}

/// The base icosahedron is strictly convex: every vertex lies on or below
/// each face's plane, and on it only when it is a corner of that face.
pub proof fn lemma_support(f: int, v: int)
    requires
        0 <= f < 20,
        0 <= v < 12,
    ensures
        dot(face_normal(f), vertex(v)) <= face_height(f),
        dot(face_normal(f), vertex(v)) == face_height(f) <==> on_face(v, f),
{
    assert(dot(face_normal(f), vertex(v)) <= face_height(f)
        && (dot(face_normal(f), vertex(v)) == face_height(f) <==> on_face(v, f))) by (nonlinear_arith)
        requires
            0 <= f < 20,
            0 <= v < 12,
    ;
}

/// The corners of a face lie on its plane, and its dual vectors pick out
/// one corner each.
pub proof fn lemma_face_facts(f: int)
    requires
        0 <= f < 20,
    ensures
        face_height(f) > 0,
        face_det(f) > 0,
        0 <= face(f).0 < 12,
        0 <= face(f).1 < 12,
        0 <= face(f).2 < 12,
        forall|c: int| 0 <= c < 3 ==> dot(face_normal(f), #[trigger] corner(f, c)) == face_height(f),
        forall|c: int, e: int| 0 <= c < 3 && 0 <= e < 3 ==>
            dot(#[trigger] face_dual(f, c), #[trigger] corner(f, e)) == if c == e { face_det(f) } else { 0 },
{
    assert(
        face_height(f) > 0
        && face_det(f) > 0
        && 0 <= face(f).0 < 12
        && 0 <= face(f).1 < 12
        && 0 <= face(f).2 < 12
        && dot(face_normal(f), corner(f, 0)) == face_height(f)
        && dot(face_normal(f), corner(f, 1)) == face_height(f)
        && dot(face_normal(f), corner(f, 2)) == face_height(f)
        && dot(face_dual(f, 0), corner(f, 0)) == face_det(f)
        && dot(face_dual(f, 0), corner(f, 1)) == 0
        && dot(face_dual(f, 0), corner(f, 2)) == 0
        && dot(face_dual(f, 1), corner(f, 0)) == 0
        && dot(face_dual(f, 1), corner(f, 1)) == face_det(f)
        && dot(face_dual(f, 1), corner(f, 2)) == 0
        && dot(face_dual(f, 2), corner(f, 0)) == 0
        && dot(face_dual(f, 2), corner(f, 1)) == 0
        && dot(face_dual(f, 2), corner(f, 2)) == face_det(f)
    ) by (nonlinear_arith)
        requires
            0 <= f < 20,
    ;
}

/// Two different faces never share all three corners.
pub proof fn lemma_faces_differ(f: int, g: int)
    requires
        0 <= f < 20,
        0 <= g < 20,
        f != g,
    ensures
        !on_face(face(f).0, g) || !on_face(face(f).1, g) || !on_face(face(f).2, g),
{
    assert(!on_face(face(f).0, g) || !on_face(face(f).1, g) || !on_face(face(f).2, g)) by (nonlinear_arith)
        requires
            0 <= f < 20,
            0 <= g < 20,
            f != g,
    ;
}

proof fn lemma_scale_sum(i: int, j: int, k: int, a: int, b: int, c: int, n: int)
    ensures
        (i * a + j * b + k * c) * n == i * (a * n) + j * (b * n) + k * (c * n),
{
    vstd::arithmetic::mul::lemma_mul_is_distributive_add_other_way(n, i * a + j * b, k * c);
    vstd::arithmetic::mul::lemma_mul_is_distributive_add_other_way(n, i * a, j * b);
    vstd::arithmetic::mul::lemma_mul_is_associative(i, a, n);
    vstd::arithmetic::mul::lemma_mul_is_associative(j, b, n);
    vstd::arithmetic::mul::lemma_mul_is_associative(k, c, n);
}

/// Dot products distribute over a weighted sum of three vectors.
pub proof fn lemma_dot_weighted(
    nv: (int, int, int),
    a: (int, int, int),
    b: (int, int, int),
    c: (int, int, int),
    i: int,
    j: int,
    k: int,
)
    ensures
        dot(nv, weighted(a, b, c, i, j, k)) == i * dot(nv, a) + j * dot(nv, b) + k * dot(nv, c),
{
    let w = weighted(a, b, c, i, j, k);
    lemma_scale_sum(i, j, k, a.0, b.0, c.0, nv.0);
    lemma_scale_sum(i, j, k, a.1, b.1, c.1, nv.1);
    lemma_scale_sum(i, j, k, a.2, b.2, c.2, nv.2);
    vstd::arithmetic::mul::lemma_mul_is_distributive_add(i, a.0 * nv.0, a.1 * nv.1);
    vstd::arithmetic::mul::lemma_mul_is_distributive_add(i, a.0 * nv.0 + a.1 * nv.1, a.2 * nv.2);
    vstd::arithmetic::mul::lemma_mul_is_distributive_add(j, b.0 * nv.0, b.1 * nv.1);
    vstd::arithmetic::mul::lemma_mul_is_distributive_add(j, b.0 * nv.0 + b.1 * nv.1, b.2 * nv.2);
    vstd::arithmetic::mul::lemma_mul_is_distributive_add(k, c.0 * nv.0, c.1 * nv.1);
    vstd::arithmetic::mul::lemma_mul_is_distributive_add(k, c.0 * nv.0 + c.1 * nv.1, c.2 * nv.2);
    assert(dot(nv, w) == w.0 * nv.0 + w.1 * nv.1 + w.2 * nv.2) by {
        vstd::arithmetic::mul::lemma_mul_is_commutative(nv.0, w.0);
        vstd::arithmetic::mul::lemma_mul_is_commutative(nv.1, w.1);
        vstd::arithmetic::mul::lemma_mul_is_commutative(nv.2, w.2);
    }
    assert(dot(nv, a) == a.0 * nv.0 + a.1 * nv.1 + a.2 * nv.2) by {
        vstd::arithmetic::mul::lemma_mul_is_commutative(nv.0, a.0);
        vstd::arithmetic::mul::lemma_mul_is_commutative(nv.1, a.1);
        vstd::arithmetic::mul::lemma_mul_is_commutative(nv.2, a.2);
    }
    assert(dot(nv, b) == b.0 * nv.0 + b.1 * nv.1 + b.2 * nv.2) by {
        vstd::arithmetic::mul::lemma_mul_is_commutative(nv.0, b.0);
        vstd::arithmetic::mul::lemma_mul_is_commutative(nv.1, b.1);
        vstd::arithmetic::mul::lemma_mul_is_commutative(nv.2, b.2);
    }
    assert(dot(nv, c) == c.0 * nv.0 + c.1 * nv.1 + c.2 * nv.2) by {
        vstd::arithmetic::mul::lemma_mul_is_commutative(nv.0, c.0);
        vstd::arithmetic::mul::lemma_mul_is_commutative(nv.1, c.1);
        vstd::arithmetic::mul::lemma_mul_is_commutative(nv.2, c.2);
    }
}

pub open spec fn weighted(
    a: (int, int, int),
    b: (int, int, int),
    c: (int, int, int),
    i: int,
    j: int,
    k: int,
) -> (int, int, int) {
    (i * a.0 + j * b.0 + k * c.0, i * a.1 + j * b.1 + k * c.1, i * a.2 + j * b.2 + k * c.2)
}

/// The point of face `f` with barycentric weights `w` (scaled by their sum).
pub open spec fn face_point(f: int, w: (int, int, int)) -> (int, int, int) {
    weighted(corner(f, 0), corner(f, 1), corner(f, 2), w.0, w.1, w.2)
}

/// The barycentric weights, scaled by `3 * n`, of the centroid of facet
/// `p` in row `r` of a face cut into `n` rows. Even positions point away from
/// the face's first corner, odd ones towards it.
pub open spec fn facet_weights(n: int, r: int, p: int) -> (int, int, int) {
    let q = p / 2;
    if p % 2 == 0 {
        (3 * (n - 1 - r) + 1, 3 * q + 1, 3 * (r - q) + 1)
    } else {
        (3 * (n - 1 - r) + 2, 3 * q + 2, 3 * (r - 1 - q) + 2)
    }
}

/// A facet of a face cut into `n` rows: face `f`, row `r` counted from the
/// face's first corner, position `p` in that row.
pub open spec fn valid_facet(n: int, f: int, r: int, p: int) -> bool {
    0 <= f < 20 && 0 <= r < n && 0 <= p <= 2 * r
}

/// The order in which facets are emitted.
pub open spec fn facet_before(f: int, r: int, p: int, f2: int, r2: int, p2: int) -> bool {
    f < f2 || (f == f2 && (r < r2 || (r == r2 && p < p2)))
}

/// The reference axes that the icosahedron's north pole can be turned to.
#[derive(Clone, Copy, Debug, PartialEq, Eq, Hash, Structural)]
pub enum Axis {
    PosX,
    NegX,
    PosY,
    NegY,
    PosZ,
    NegZ,
}

/// The rotation that takes +Y to the given axis.
pub open spec fn rotate(axis: Axis, v: (int, int, int)) -> (int, int, int) {
    match axis {
        Axis::PosX => (v.1, -v.0, v.2),
        Axis::NegX => (-v.1, v.0, v.2),
        Axis::PosY => v,
        Axis::NegY => (v.0, -v.1, -v.2),
        Axis::PosZ => (v.0, -v.2, v.1),
        Axis::NegZ => (v.0, v.2, -v.1),
    }
}

/// The integer direction of a facet: its centroid on the flat face, scaled
/// by `3 * n`, turned so that the north pole lies on `axis`.
pub open spec fn facet(axis: Axis, n: int, f: int, r: int, p: int) -> (int, int, int) {
    rotate(axis, face_point(f, facet_weights(n, r, p)))
}

pub open spec fn pow2(level: nat) -> nat
    decreases level,
{
    if level == 0 {
        1
    } else {
        2 * pow2((level - 1) as nat)
    }
}

pub open spec fn pow4(level: nat) -> nat
    decreases level,
{
    if level == 0 {
        1
    } else {
        4 * pow4((level - 1) as nat)
    }
}

pub proof fn lemma_pow(level: nat)
    ensures
        pow2(level) >= 1,
        pow2(level) * pow2(level) == pow4(level),
    decreases level,
{
    if level > 0 {
        lemma_pow((level - 1) as nat);
        let h = pow2((level - 1) as nat);
        assert(pow2(level) == 2 * h);
        assert(pow4(level) == 4 * pow4((level - 1) as nat));
        assert((2 * h) * (2 * h) == 4 * (h * h)) by (nonlinear_arith);
        assert(pow2(level) * pow2(level) == (2 * h) * (2 * h));
        assert(h * h == pow4((level - 1) as nat));
        assert(4 * (h * h) == pow4(level));
    } else {
        assert(pow2(level) == 1 && pow4(level) == 1);
    }
}

/// Whether `s` holds the direction `t`.
pub open spec fn holds(s: Seq<IVec3>, t: (int, int, int)) -> bool {
    exists|x: int| 0 <= x < s.len() && #[trigger] s[x].to_tuple() == t
}

proof fn lemma_weights(n: int, r: int, p: int)
    requires
        0 <= r < n,
        0 <= p <= 2 * r,
    ensures
        facet_weights(n, r, p).0 >= 1,
        facet_weights(n, r, p).1 >= 1,
        facet_weights(n, r, p).2 >= 1,
        facet_weights(n, r, p).0 + facet_weights(n, r, p).1 + facet_weights(n, r, p).2 == 3 * n,
        facet_weights(n, r, p).0 <= 3 * n,
        facet_weights(n, r, p).1 <= 3 * n,
        facet_weights(n, r, p).2 <= 3 * n,
{
}

/// Largest subdivision level whose facets this library lays out.
pub const MAX_LEVEL: i32 = 10;

/// Why a subdivision was refused.
#[derive(Clone, Copy, Debug, PartialEq, Eq, Structural)]
pub enum SubdivideError {
    NegativeLevel,
}

fn vertex_at(v: usize) -> (r: IVec3)
    requires
        v < 12,
    ensures
        r.to_tuple() == vertex(v as int),
        -5 <= r.x <= 5,
        -5 <= r.y <= 5,
        -5 <= r.z <= 5,
{
    match v {
        0 => IVec3 { x: 0, y: 5, z: 0 },
        1 => IVec3 { x: 4, y: 2, z: 0 },
        2 => IVec3 { x: 1, y: 2, z: 4 },
        3 => IVec3 { x: -3, y: 2, z: 2 },
        4 => IVec3 { x: -3, y: 2, z: -2 },
        5 => IVec3 { x: 1, y: 2, z: -4 },
        6 => IVec3 { x: 3, y: -2, z: 2 },
        7 => IVec3 { x: -1, y: -2, z: 4 },
        8 => IVec3 { x: -4, y: -2, z: 0 },
        9 => IVec3 { x: -1, y: -2, z: -4 },
        10 => IVec3 { x: 3, y: -2, z: -2 },
        _ => IVec3 { x: 0, y: -5, z: 0 },
    }
}

fn face_at(f: usize) -> (r: (usize, usize, usize))
    requires
        f < 20,
    ensures
        r.0 as int == face(f as int).0,
        r.1 as int == face(f as int).1,
        r.2 as int == face(f as int).2,
        r.0 < 12,
        r.1 < 12,
        r.2 < 12,
{
    match f {
        0 => (0, 2, 1),
        1 => (0, 3, 2),
        2 => (0, 4, 3),
        3 => (0, 5, 4),
        4 => (0, 1, 5),
        5 => (1, 2, 6),
        6 => (2, 3, 7),
        7 => (3, 4, 8),
        8 => (4, 5, 9),
        9 => (5, 1, 10),
        10 => (6, 2, 7),
        11 => (7, 3, 8),
        12 => (8, 4, 9),
        13 => (9, 5, 10),
        14 => (10, 1, 6),
        15 => (11, 6, 7),
        16 => (11, 7, 8),
        17 => (11, 8, 9),
        18 => (11, 9, 10),
        _ => (11, 10, 6),
    }
}

fn weigh(w0: i64, w1: i64, w2: i64, a: i64, b: i64, c: i64) -> (r: i64)
    requires
        1 <= w0 <= 4096,
        1 <= w1 <= 4096,
        1 <= w2 <= 4096,
        -5 <= a <= 5,
        -5 <= b <= 5,
        -5 <= c <= 5,
    ensures
        r == w0 * a + w1 * b + w2 * c,
        -61440 <= r <= 61440,
{
    assert(-20480 <= w0 * a <= 20480) by (nonlinear_arith)
        requires
            1 <= w0 <= 4096,
            -5 <= a <= 5,
    ;
    assert(-20480 <= w1 * b <= 20480) by (nonlinear_arith)
        requires
            1 <= w1 <= 4096,
            -5 <= b <= 5,
    ;
    assert(-20480 <= w2 * c <= 20480) by (nonlinear_arith)
        requires
            1 <= w2 <= 4096,
            -5 <= c <= 5,
    ;
    w0 * a + w1 * b + w2 * c
}

/// Turns a vector of the base icosahedron (pole on +Y) to `axis`.
pub fn rotate_to(axis: Axis, v: IVec3) -> (r: IVec3)
    requires
        -1000000 <= v.x <= 1000000,
        -1000000 <= v.y <= 1000000,
        -1000000 <= v.z <= 1000000,
    ensures
        r.to_tuple() == rotate(axis, v.to_tuple()),
{
    match axis {
        Axis::PosX => IVec3 { x: v.y, y: -v.x, z: v.z },
        Axis::NegX => IVec3 { x: -v.y, y: v.x, z: v.z },
        Axis::PosY => v,
        Axis::NegY => IVec3 { x: v.x, y: -v.y, z: -v.z },
        Axis::PosZ => IVec3 { x: v.x, y: -v.z, z: v.y },
        Axis::NegZ => IVec3 { x: v.x, y: v.z, z: -v.y },
    }
}

/// The direction of facet `p` in row `r` of face `f`, the face cut into `n`
/// rows.
pub fn facet_at(axis: Axis, n: i64, f: usize, r: i64, p: i64) -> (c: IVec3)
    requires
        1 <= n <= 1024,
        valid_facet(n as int, f as int, r as int, p as int),
    ensures
        c.to_tuple() == facet(axis, n as int, f as int, r as int, p as int),
{
    proof {
        lemma_weights(n as int, r as int, p as int);
    }
    let q = p / 2;
    let w: (i64, i64, i64) = if p % 2 == 0 {
        (3 * (n - 1 - r) + 1, 3 * q + 1, 3 * (r - q) + 1)
    } else {
        (3 * (n - 1 - r) + 2, 3 * q + 2, 3 * (r - 1 - q) + 2)
    };
    let (ia, ib, ic) = face_at(f);
    let a = vertex_at(ia);
    let b = vertex_at(ib);
    let cc = vertex_at(ic);
    let base = IVec3 {
        x: weigh(w.0, w.1, w.2, a.x, b.x, cc.x),
        y: weigh(w.0, w.1, w.2, a.y, b.y, cc.y),
        z: weigh(w.0, w.1, w.2, a.z, b.z, cc.z),
    };
    rotate_to(axis, base)
}

/// What a prefix of the subdivision holds: the direction of each facet
/// before `(f, r, p)`, once, in order; `keys` names the facet of each entry.
pub open spec fn built_upto(
    s: Seq<IVec3>,
    keys: Seq<(int, int, int)>,
    axis: Axis,
    n: int,
    f: int,
    r: int,
    p: int,
) -> bool {
    &&& s.len() == f * n * n + r * r + p
    &&& keys.len() == s.len()
    &&& s.no_duplicates()
    &&& forall|x: int|
        0 <= x < s.len() ==> valid_facet(n, (#[trigger] keys[x]).0, keys[x].1, keys[x].2)
            && facet_before(keys[x].0, keys[x].1, keys[x].2, f, r, p) && s[x].to_tuple() == facet(
            axis,
            n,
            keys[x].0,
            keys[x].1,
            keys[x].2,
        )
    &&& forall|f2: int, r2: int, p2: int|
        valid_facet(n, f2, r2, p2) && facet_before(f2, r2, p2, f, r, p) ==> holds(
            s,
            #[trigger] facet(axis, n, f2, r2, p2),
        )
}

proof fn lemma_built_push(
    s: Seq<IVec3>,
    keys: Seq<(int, int, int)>,
    axis: Axis,
    n: int,
    f: int,
    r: int,
    p: int,
    c: IVec3,
)
    requires
        built_upto(s, keys, axis, n, f, r, p),
        valid_facet(n, f, r, p),
        c.to_tuple() == facet(axis, n, f, r, p),
    ensures
        built_upto(s.push(c), keys.push((f, r, p)), axis, n, f, r, p + 1),
{
    let t = s.push(c);
    let ks = keys.push((f, r, p));
    assert forall|x: int| 0 <= x < s.len() implies t[x] != c by {
        let k = keys[x];
        assert(facet_before(k.0, k.1, k.2, f, r, p));
        if t[x] == c {
            assert(t[x] == s[x]);
            lemma_facet_injective(axis, n, k.0, k.1, k.2, f, r, p);
        }
    }
    assert forall|x: int, y: int| 0 <= x < t.len() && 0 <= y < t.len() && x != y implies t[x] != t[y] by {
        if x < s.len() && y < s.len() {
            assert(t[x] == s[x] && t[y] == s[y]);
        }
    }
    assert forall|x: int| 0 <= x < t.len() implies valid_facet(n, (#[trigger] ks[x]).0, ks[x].1, ks[x].2)
        && facet_before(ks[x].0, ks[x].1, ks[x].2, f, r, p + 1) && t[x].to_tuple() == facet(
        axis,
        n,
        ks[x].0,
        ks[x].1,
        ks[x].2,
    ) by {
        if x < s.len() {
            assert(t[x] == s[x] && ks[x] == keys[x]);
        }
    }
    assert forall|f2: int, r2: int, p2: int|
        valid_facet(n, f2, r2, p2) && facet_before(f2, r2, p2, f, r, p + 1) implies holds(
            t,
            #[trigger] facet(axis, n, f2, r2, p2),
        ) by {
        if facet_before(f2, r2, p2, f, r, p) {
            assert(holds(s, facet(axis, n, f2, r2, p2)));
            let x = choose|x: int| 0 <= x < s.len() && #[trigger] s[x].to_tuple() == facet(axis, n, f2, r2, p2);
            assert(t[x] == s[x]);
        } else {
            assert(t[s.len() as int] == c);
        }
    }
}

proof fn lemma_built_row(s: Seq<IVec3>, keys: Seq<(int, int, int)>, axis: Axis, n: int, f: int, r: int)
    requires
        built_upto(s, keys, axis, n, f, r, 2 * r + 1),
        0 <= r,
    ensures
        built_upto(s, keys, axis, n, f, r + 1, 0),
{
    assert(r * r + 2 * r + 1 == (r + 1) * (r + 1)) by (nonlinear_arith);
    assert forall|f2: int, r2: int, p2: int|
        valid_facet(n, f2, r2, p2) && facet_before(f2, r2, p2, f, r + 1, 0) implies holds(
            s,
            #[trigger] facet(axis, n, f2, r2, p2),
        ) by {
        assert(facet_before(f2, r2, p2, f, r, 2 * r + 1));
    }
}

proof fn lemma_built_face(s: Seq<IVec3>, keys: Seq<(int, int, int)>, axis: Axis, n: int, f: int)
    requires
        built_upto(s, keys, axis, n, f, n, 0),
        0 <= f,
    ensures
        built_upto(s, keys, axis, n, f + 1, 0, 0),
{
    assert(f * n * n + n * n == (f + 1) * n * n) by (nonlinear_arith);
    assert forall|f2: int, r2: int, p2: int|
        valid_facet(n, f2, r2, p2) && facet_before(f2, r2, p2, f + 1, 0, 0) implies holds(
            s,
            #[trigger] facet(axis, n, f2, r2, p2),
        ) by {
        assert(facet_before(f2, r2, p2, f, n, 0));
    }
}

/// Whether `c` is the direction of a facet at `level` around `axis`.
pub open spec fn is_facet(axis: Axis, level: nat, c: IVec3) -> bool {
    exists|f: int, r: int, p: int|
        valid_facet(pow2(level) as int, f, r, p) && c.to_tuple() == #[trigger] facet(
            axis,
            pow2(level) as int,
            f,
            r,
            p,
        )
}

/// The facets of an icosahedron whose north pole lies on `axis`, each face
/// cut `level` times into four: `20 * 4^level` distinct directions, each
/// the direction of one facet, and every facet's direction among them. A
/// negative level is refused.
pub fn subdivide(level: i32, axis: Axis) -> (res: Result<Vec<IVec3>, SubdivideError>)
    requires
        level <= MAX_LEVEL,
    ensures
        level < 0 <==> res is Err,
        res is Err ==> res == Err::<Vec<IVec3>, SubdivideError>(SubdivideError::NegativeLevel),
        res matches Ok(v) ==> {
            &&& v@.len() == 20 * pow4(level as nat)
            &&& v@.no_duplicates()
            &&& forall|x: int| 0 <= x < v@.len() ==> is_facet(axis, level as nat, #[trigger] v@[x])
            &&& forall|f: int, r: int, p: int|
                valid_facet(pow2(level as nat) as int, f, r, p) ==> holds(
                    v@,
                    #[trigger] facet(axis, pow2(level as nat) as int, f, r, p),
                )
        },
{
    if level < 0 {
        return Err(SubdivideError::NegativeLevel);
    }
    let mut n: i64 = 1;
    let mut i: i32 = 0;
    while i < level
        invariant
            0 <= i <= level <= MAX_LEVEL,
            n == pow2(i as nat),
            1 <= n <= 1024,
            n <= pow2(i as nat),
        decreases level - i,
    {
        proof {
            assert(i + 1 <= 10);
            assert(pow2((i + 1) as nat) == 2 * pow2(i as nat));
            lemma_pow2_bound(i as nat);
        }
        n = n * 2;
        i = i + 1;
    }
    proof {
        lemma_pow(level as nat);
    }
    let ghost gn = n as int;
    let mut out: Vec<IVec3> = Vec::new();
    let ghost mut keys: Seq<(int, int, int)> = Seq::empty();
    let mut f: usize = 0;
    while f < 20
        invariant
            0 <= f <= 20,
            1 <= n <= 1024,
            gn == n,
            n == pow2(level as nat),
            built_upto(out@, keys, axis, gn, f as int, 0, 0),
        decreases 20 - f,
    {
        let mut r: i64 = 0;
        while r < n
            invariant
                0 <= f < 20,
                0 <= r <= n,
                1 <= n <= 1024,
                gn == n,
                built_upto(out@, keys, axis, gn, f as int, r as int, 0),
            decreases n - r,
        {
            let mut p: i64 = 0;
            while p <= 2 * r
                invariant
                    0 <= f < 20,
                    0 <= r < n,
                    0 <= p <= 2 * r + 1,
                    1 <= n <= 1024,
                    gn == n,
                    built_upto(out@, keys, axis, gn, f as int, r as int, p as int),
                decreases 2 * r + 1 - p,
            {
                let c = facet_at(axis, n, f, r, p);
                proof {
                    lemma_built_push(out@, keys, axis, gn, f as int, r as int, p as int, c);
                }
                out.push(c);
                proof {
                    keys = keys.push((f as int, r as int, p as int));
                }
                p = p + 1;
            }
            proof {
                lemma_built_row(out@, keys, axis, gn, f as int, r as int);
            }
            r = r + 1;
        }
        proof {
            lemma_built_face(out@, keys, axis, gn, f as int);
        }
        f = f + 1;
    }
    proof {
        let s = out@;
        assert(20 * gn * gn == 20 * (gn * gn)) by (nonlinear_arith);
        assert(s.len() == 20 * pow4(level as nat));
        assert forall|x: int| 0 <= x < s.len() implies is_facet(axis, level as nat, #[trigger] s[x]) by {
            let k = keys[x];
            assert(valid_facet(gn, k.0, k.1, k.2) && s[x].to_tuple() == facet(axis, gn, k.0, k.1, k.2));
        }
        assert forall|f2: int, r2: int, p2: int|
            valid_facet(gn, f2, r2, p2) implies holds(s, #[trigger] facet(axis, gn, f2, r2, p2)) by {
            assert(facet_before(f2, r2, p2, 20, 0, 0));
        }
    }
    Ok(out)
}

proof fn lemma_pow2_bound(i: nat)
    requires
        i < 10,
    ensures
        pow2(i) <= 512,
{
    reveal_with_fuel(pow2, 10);
    lemma_pow2_monotone(i, 9);
}

proof fn lemma_pow2_monotone(i: nat, j: nat)
    requires
        i <= j,
    ensures
        pow2(i) <= pow2(j),
    decreases j,
{
    if i < j {
        lemma_pow2_monotone(i, (j - 1) as nat);
    }
}

proof fn lemma_weights_injective(n: int, r: int, p: int, r2: int, p2: int)
    requires
        0 <= r < n,
        0 <= p <= 2 * r,
        0 <= r2 < n,
        0 <= p2 <= 2 * r2,
        facet_weights(n, r, p) == facet_weights(n, r2, p2),
    ensures
        r == r2,
        p == p2,
{
    let w = facet_weights(n, r, p);
    let w2 = facet_weights(n, r2, p2);
    assert(w.0 == w2.0 && w.1 == w2.1);
}

/// Two facets of one subdivision have the same direction only if they are
/// the same facet.
#[verifier::rlimit(40)]
pub proof fn lemma_facet_injective(
    axis: Axis,
    n: int,
    f: int,
    r: int,
    p: int,
    f2: int,
    r2: int,
    p2: int,
)
    requires
        valid_facet(n, f, r, p),
        valid_facet(n, f2, r2, p2),
        facet(axis, n, f, r, p) == facet(axis, n, f2, r2, p2),
    ensures
        f == f2,
        r == r2,
        p == p2,
{
    let w = facet_weights(n, r, p);
    let w2 = facet_weights(n, r2, p2);
    let c = face_point(f, w);
    let c2 = face_point(f2, w2);
    let rc = rotate(axis, c);
    let rc2 = rotate(axis, c2);
    assert(rc.0 == rc2.0 && rc.1 == rc2.1 && rc.2 == rc2.2);
    assert(c == c2);
    lemma_weights(n, r, p);
    lemma_weights(n, r2, p2);
    lemma_face_facts(f);
    lemma_face_facts(f2);
    if f != f2 {
        let nv = face_normal(f2);
        let h = face_height(f2);
        lemma_dot_weighted(nv, corner(f, 0), corner(f, 1), corner(f, 2), w.0, w.1, w.2);
        lemma_dot_weighted(nv, corner(f2, 0), corner(f2, 1), corner(f2, 2), w2.0, w2.1, w2.2);
        assert(dot(nv, corner(f2, 0)) == h);
        assert(dot(nv, corner(f2, 1)) == h);
        assert(dot(nv, corner(f2, 2)) == h);
        let x0 = dot(nv, corner(f, 0));
        let x1 = dot(nv, corner(f, 1));
        let x2 = dot(nv, corner(f, 2));
        lemma_support(f2, face(f).0);
        lemma_support(f2, face(f).1);
        lemma_support(f2, face(f).2);
        lemma_faces_differ(f, f2);
        assert(x0 < h || x1 < h || x2 < h);
        assert(w2.0 * h + w2.1 * h + w2.2 * h == 3 * n * h) by (nonlinear_arith)
            requires
                w2.0 + w2.1 + w2.2 == 3 * n,
        ;
        assert(w.0 * x0 + w.1 * x1 + w.2 * x2 < 3 * n * h) by (nonlinear_arith)
            requires
                w.0 >= 1,
                w.1 >= 1,
                w.2 >= 1,
                w.0 + w.1 + w.2 == 3 * n,
                x0 <= h,
                x1 <= h,
                x2 <= h,
                x0 < h || x1 < h || x2 < h,
        ;
        assert(false);
    } else {
        let d = face_det(f);
        assert forall|e: int| 0 <= e < 3 implies #[trigger] face_dual(f, e) == face_dual(f, e) && (
        if e == 0 {
            w.0
        } else if e == 1 {
            w.1
        } else {
            w.2
        }) * d == (if e == 0 {
            w2.0
        } else if e == 1 {
            w2.1
        } else {
            w2.2
        }) * d by {
            let dv = face_dual(f, e);
            lemma_dot_weighted(dv, corner(f, 0), corner(f, 1), corner(f, 2), w.0, w.1, w.2);
            lemma_dot_weighted(dv, corner(f, 0), corner(f, 1), corner(f, 2), w2.0, w2.1, w2.2);
            assert(dot(dv, corner(f, 0)) == if e == 0 { d } else { 0 });
            assert(dot(dv, corner(f, 1)) == if e == 1 { d } else { 0 });
            assert(dot(dv, corner(f, 2)) == if e == 2 { d } else { 0 });
        }
        assert(face_dual(f, 0) == face_dual(f, 0));
        assert(face_dual(f, 1) == face_dual(f, 1));
        assert(face_dual(f, 2) == face_dual(f, 2));
        assert(w.0 == w2.0) by (nonlinear_arith)
            requires
                w.0 * d == w2.0 * d,
                d > 0,
        ;
        assert(w.1 == w2.1) by (nonlinear_arith)
            requires
                w.1 * d == w2.1 * d,
                d > 0,
        ;
        assert(w.2 == w2.2) by (nonlinear_arith)
            requires
                w.2 * d == w2.2 * d,
                d > 0,
        ;
        lemma_weights_injective(n, r, p, r2, p2);
    }
}

} // verus!
