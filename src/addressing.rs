//! Dense addresses for tile directions: a chunk and an offset inside it.
use vstd::prelude::*;
use crate::geodesic::IVec3;

verus! {

/// Largest chunk edge for which an offset fits in 64 bits.
pub const MAX_CHUNK_SIZE: u32 = 1048576;

/// The storage address of a tile: the chunk that holds it and its offset in
/// that chunk.
#[derive(Clone, Copy, Debug, PartialEq, Eq, Hash, Structural)]
pub struct FlattenedTileIndex {
    pub chunk_index: IVec3,
    pub in_chunk_index: u64,
}

/// The chunk of a direction: each component divided by the chunk size,
/// rounded towards negative infinity.
pub open spec fn chunk_of(c: IVec3, s: int) -> IVec3 {
    IVec3 { x: (c.x as int / s) as i64, y: (c.y as int / s) as i64, z: (c.z as int / s) as i64 }
}

/// The offset of a direction in its chunk: its non-negative remainders, read
/// as the digits of a number in base `s`.
pub open spec fn offset_of(c: IVec3, s: int) -> int {
    c.x as int % s + s * (c.y as int % s) + s * s * (c.z as int % s)
}

pub open spec fn flatten(c: IVec3, s: int) -> FlattenedTileIndex {
    FlattenedTileIndex { chunk_index: chunk_of(c, s), in_chunk_index: offset_of(c, s) as u64 }
}

impl FlattenedTileIndex {
    /// The address of `index` in chunks of edge `chunk_size`.
    pub fn from_direct(index: IVec3, chunk_size: u32) -> (r: FlattenedTileIndex)
        requires
            0 < chunk_size <= MAX_CHUNK_SIZE,
        ensures
            r == flatten(index, chunk_size as int),
            r.in_chunk_index < chunk_size as int * chunk_size as int * chunk_size as int,
    {
        let s = chunk_size as i64;
        proof {
            lemma_div_bounds(index.x as int, s as int);
            lemma_div_bounds(index.y as int, s as int);
            lemma_div_bounds(index.z as int, s as int);
        }
        let qx = index.x.checked_div_euclid(s).unwrap();
        let qy = index.y.checked_div_euclid(s).unwrap();
        let qz = index.z.checked_div_euclid(s).unwrap();
        let rx = index.x.checked_rem_euclid(s).unwrap();
        let ry = index.y.checked_rem_euclid(s).unwrap();
        let rz = index.z.checked_rem_euclid(s).unwrap();
        let su = chunk_size as u64;
        let ux = rx as u64;
        let uy = ry as u64;
        let uz = rz as u64;
        assert(0 <= su * uy < su * su) by (nonlinear_arith)
            requires
                0 <= uy < su,
                su <= 1048576,
        ;
        assert(su * su <= 1099511627776) by (nonlinear_arith)
            requires
                0 < su <= 1048576,
        ;
        assert(0 <= su * su * uz <= su * su * (su - 1)) by (nonlinear_arith)
            requires
                0 <= uz < su,
        ;
        assert(su * su * (su - 1) + su * su == su * su * su) by (nonlinear_arith);
        assert(su * su * su <= 1152921504606846976) by (nonlinear_arith)
            requires
                0 < su <= 1048576,
                su * su <= 1099511627776,
        ;
        assert(ux + su * uy < su * su) by (nonlinear_arith)
            requires
                0 <= ux < su,
                0 <= uy < su,
        ;
        let off = ux + su * uy + su * su * uz;
        FlattenedTileIndex { chunk_index: IVec3 { x: qx, y: qy, z: qz }, in_chunk_index: off }
    }
}

proof fn lemma_div_bounds(x: int, s: int)
    requires
        s >= 1,
    ensures
        x >= 0 ==> 0 <= x / s <= x,
        x < 0 ==> x <= x / s < 0,
        0 <= x % s < s,
{
    vstd::arithmetic::div_mod::lemma_fundamental_div_mod(x, s);
    let q = x / s;
    let r = x % s;
    assert(x >= 0 ==> 0 <= q <= x) by (nonlinear_arith)
        requires
            x == s * q + r,
            0 <= r < s,
            s >= 1,
    ;
    assert(x < 0 ==> x <= q < 0) by (nonlinear_arith)
        requires
            x == s * q + r,
            0 <= r < s,
            s >= 1,
    ;
}

proof fn lemma_digits(a0: int, a1: int, a2: int, b0: int, b1: int, b2: int, s: int)
    requires
        s > 0,
        0 <= a0 < s,
        0 <= a1 < s,
        0 <= a2 < s,
        0 <= b0 < s,
        0 <= b1 < s,
        0 <= b2 < s,
        a0 + s * a1 + s * s * a2 == b0 + s * b1 + s * s * b2,
    ensures
        a0 == b0,
        a1 == b1,
        a2 == b2,
{
    let lo_a = a0 + s * a1;
    let lo_b = b0 + s * b1;
    assert(0 <= lo_a < s * s) by (nonlinear_arith)
        requires
            lo_a == a0 + s * a1,
            0 <= a0 < s,
            0 <= a1 < s,
    ;
    assert(0 <= lo_b < s * s) by (nonlinear_arith)
        requires
            lo_b == b0 + s * b1,
            0 <= b0 < s,
            0 <= b1 < s,
    ;
    assert(a2 == b2) by (nonlinear_arith)
        requires
            lo_a + s * s * a2 == lo_b + s * s * b2,
            0 <= lo_a < s * s,
            0 <= lo_b < s * s,
            s > 0,
    ;
    assert(a1 == b1) by (nonlinear_arith)
        requires
            a0 + s * a1 == b0 + s * b1,
            0 <= a0 < s,
            0 <= b0 < s,
            s > 0,
    ;
}

/// Addressing loses nothing: two different directions never share an
/// address, for any positive chunk size. In particular the directions of one
/// subdivision never collide.
pub proof fn lemma_flatten_injective(c1: IVec3, c2: IVec3, s: int)
    requires
        0 < s <= MAX_CHUNK_SIZE,
        c1 != c2,
    ensures
        flatten(c1, s) != flatten(c2, s),
{
    if flatten(c1, s) == flatten(c2, s) {
        let (x1, y1, z1) = (c1.x as int, c1.y as int, c1.z as int);
        let (x2, y2, z2) = (c2.x as int, c2.y as int, c2.z as int);
        assert(0 <= offset_of(c1, s) < s * s * s) by (nonlinear_arith)
            requires
                offset_of(c1, s) == x1 % s + s * (y1 % s) + s * s * (z1 % s),
                0 <= x1 % s < s,
                0 <= y1 % s < s,
                0 <= z1 % s < s,
                s > 0,
        ;
        assert(0 <= offset_of(c2, s) < s * s * s) by (nonlinear_arith)
            requires
                offset_of(c2, s) == x2 % s + s * (y2 % s) + s * s * (z2 % s),
                0 <= x2 % s < s,
                0 <= y2 % s < s,
                0 <= z2 % s < s,
                s > 0,
        ;
        assert(s * s * s <= 1152921504606846976) by (nonlinear_arith)
            requires
                0 < s <= 1048576,
        ;
        assert(offset_of(c1, s) == offset_of(c2, s));
        lemma_digits(x1 % s, y1 % s, z1 % s, x2 % s, y2 % s, z2 % s, s);
        lemma_div_bounds(x1, s);
        lemma_div_bounds(x2, s);
        lemma_div_bounds(y1, s);
        lemma_div_bounds(y2, s);
        lemma_div_bounds(z1, s);
        lemma_div_bounds(z2, s);
        assert(x1 / s == x2 / s);
        assert(y1 / s == y2 / s);
        assert(z1 / s == z2 / s);
        vstd::arithmetic::div_mod::lemma_fundamental_div_mod(x1, s);
        vstd::arithmetic::div_mod::lemma_fundamental_div_mod(x2, s);
        vstd::arithmetic::div_mod::lemma_fundamental_div_mod(y1, s);
        vstd::arithmetic::div_mod::lemma_fundamental_div_mod(y2, s);
        vstd::arithmetic::div_mod::lemma_fundamental_div_mod(z1, s);
        vstd::arithmetic::div_mod::lemma_fundamental_div_mod(z2, s);
        assert(c1 == c2);
    }
}

/// A tile's direction together with its address.
#[derive(Clone, Copy, Debug, PartialEq, Eq, Hash, Structural)]
pub struct TileIndex {
    pub direct: IVec3,
    pub flattened: FlattenedTileIndex,
}

impl TileIndex {
    pub fn new(direct: IVec3, chunk_size: u32) -> (r: TileIndex)
        requires
            0 < chunk_size <= MAX_CHUNK_SIZE,
        ensures
            r.direct == direct,
            r.flattened == flatten(direct, chunk_size as int),
    {
        TileIndex { direct, flattened: FlattenedTileIndex::from_direct(direct, chunk_size) }
    }

    pub fn direct(&self) -> (r: IVec3)
        ensures
            r == self.direct,
    {
        self.direct
    }

    pub fn flattened(&self) -> (r: FlattenedTileIndex)
        ensures
            r == self.flattened,
    {
        self.flattened
    }
}

} // verus!
