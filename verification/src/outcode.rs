use vstd::prelude::*;
use crate::order::{at_most, is_less, less, negate, negated};
use crate::plane::Plane;

verus! {

/// Whether an outcode records that its point lies beyond the plane.
pub open spec fn outside(code: u8, p: Plane) -> bool {
    code & p.mask() != 0
}

/// The outcome of comparing one clip-space point `(x, y, z, w)` with the six
/// frustum planes: `nx` is `x < -w`, `x` is `x > w`, `ny` is `y < -w`, `y` is
/// `y > w`, `nz` is `z < -w` and `z` is `z > w`. A coordinate that is not a
/// number lies beyond no plane.
#[derive(Clone, Copy, Debug, PartialEq, Eq, Structural)]
pub struct CvvTest {
    pub nx: bool,
    pub x: bool,
    pub ny: bool,
    pub y: bool,
    pub nz: bool,
    pub z: bool,
}

impl CvvTest {
    /// The six comparisons for the point whose four coordinates have the
    /// given single-precision bit patterns.
    pub open spec fn of(x: u32, y: u32, z: u32, w: u32) -> CvvTest {
        CvvTest {
            nx: less(x, negated(w)),
            x: less(w, x),
            ny: less(y, negated(w)),
            y: less(w, y),
            nz: less(z, negated(w)),
            z: less(w, z),
        }
    }

    /// Whether the point lies beyond the plane.
    pub open spec fn beyond(self, p: Plane) -> bool {
        match p {
            Plane::NX => self.nx,
            Plane::X => self.x,
            Plane::NY => self.ny,
            Plane::Y => self.y,
            Plane::NZ => self.nz,
            Plane::Z => self.z,
        }
    }

    /// Whether the point lies beyond no plane.
    pub open spec fn inside(self) -> bool {
        !self.nx && !self.x && !self.ny && !self.y && !self.nz && !self.z
    }

    /// The outcode of the point: one bit for each plane it lies beyond.
    pub open spec fn outcode(self) -> u8 {
        (if self.nx { 1u8 } else { 0u8 })
        | (if self.x { 2u8 } else { 0u8 })
        | (if self.ny { 4u8 } else { 0u8 })
        | (if self.y { 8u8 } else { 0u8 })
        | (if self.nz { 16u8 } else { 0u8 })
        | (if self.z { 32u8 } else { 0u8 })
    }
}

proof fn lemma_join_bits(b0: u8, b1: u8, b2: u8, b3: u8, b4: u8, b5: u8)
    by (bit_vector)
    requires
        b0 == 0 || b0 == 1,
        b1 == 0 || b1 == 2,
        b2 == 0 || b2 == 4,
        b3 == 0 || b3 == 8,
        b4 == 0 || b4 == 16,
        b5 == 0 || b5 == 32,
    ensures
        (b0 | b1 | b2 | b3 | b4 | b5) < 64,
        ((b0 | b1 | b2 | b3 | b4 | b5) & 1 != 0) == (b0 != 0),
        ((b0 | b1 | b2 | b3 | b4 | b5) & 2 != 0) == (b1 != 0),
        ((b0 | b1 | b2 | b3 | b4 | b5) & 4 != 0) == (b2 != 0),
        ((b0 | b1 | b2 | b3 | b4 | b5) & 8 != 0) == (b3 != 0),
        ((b0 | b1 | b2 | b3 | b4 | b5) & 16 != 0) == (b4 != 0),
        ((b0 | b1 | b2 | b3 | b4 | b5) & 32 != 0) == (b5 != 0),
        ((b0 | b1 | b2 | b3 | b4 | b5) == 0) == (b0 == 0 && b1 == 0 && b2 == 0 && b3 == 0 && b4
            == 0 && b5 == 0),
{
}

/// An outcode has exactly the bits of the planes that its point lies beyond,
/// and no others.
pub proof fn lemma_outcode_bits(t: CvvTest)
    ensures
        t.outcode() < 64,
        forall|p: Plane| #[trigger] outside(t.outcode(), p) == t.beyond(p),
        t.outcode() == 0 <==> t.inside(),
{
    let b0 = if t.nx { 1u8 } else { 0u8 };
    let b1 = if t.x { 2u8 } else { 0u8 };
    let b2 = if t.ny { 4u8 } else { 0u8 };
    let b3 = if t.y { 8u8 } else { 0u8 };
    let b4 = if t.nz { 16u8 } else { 0u8 };
    let b5 = if t.z { 32u8 } else { 0u8 };
    lemma_join_bits(b0, b1, b2, b3, b4, b5);
    assert forall|p: Plane| #[trigger] outside(t.outcode(), p) == t.beyond(p) by {
        match p {
            Plane::NX => {},
            Plane::X => {},
            Plane::NY => {},
            Plane::Y => {},
            Plane::NZ => {},
            Plane::Z => {},
        }
    }
}

/// Whether a clip-space point lies within the view volume: each of `x`, `y`
/// and `z` is a number between `-w` and `w`, the two included.
pub open spec fn within_volume(x: u32, y: u32, z: u32, w: u32) -> bool {
    &&& at_most(negated(w), x) && at_most(x, w)
    &&& at_most(negated(w), y) && at_most(y, w)
    &&& at_most(negated(w), z) && at_most(z, w)
}

/// A point within the view volume lies beyond no plane: its outcode is
/// empty.
pub proof fn lemma_point_within_volume(x: u32, y: u32, z: u32, w: u32)
    requires
        within_volume(x, y, z, w),
    ensures
        CvvTest::of(x, y, z, w).inside(),
        CvvTest::of(x, y, z, w).outcode() == 0,
{
    lemma_outcode_bits(CvvTest::of(x, y, z, w));
}

/// Computes the outcode of the clip-space point whose four coordinates have
/// the given single-precision bit patterns: the bit of `NX` is set if
/// `x < -w`, that of `X` if `x > w`, that of `NY` if `y < -w`, that of `Y` if
/// `y > w`, that of `NZ` if `z < -w`, and that of `Z` if `z > w`.
pub fn check_cvv(x: u32, y: u32, z: u32, w: u32) -> (c: u8)
    ensures
        c == CvvTest::of(x, y, z, w).outcode(),
        c < 64,
        forall|p: Plane| #[trigger] outside(c, p) == CvvTest::of(x, y, z, w).beyond(p),
        c == 0 <==> CvvTest::of(x, y, z, w).inside(),
{
    let minus_w: u32 = negate(w);
    let b0: u8 = if is_less(x, minus_w) { Plane::NX.bit() } else { 0u8 };
    let b1: u8 = if is_less(w, x) { Plane::X.bit() } else { 0u8 };
    let b2: u8 = if is_less(y, minus_w) { Plane::NY.bit() } else { 0u8 };
    let b3: u8 = if is_less(w, y) { Plane::Y.bit() } else { 0u8 };
    let b4: u8 = if is_less(z, minus_w) { Plane::NZ.bit() } else { 0u8 };
    let b5: u8 = if is_less(w, z) { Plane::Z.bit() } else { 0u8 };
    proof {
        lemma_outcode_bits(CvvTest::of(x, y, z, w));
    }
    b0 | b1 | b2 | b3 | b4 | b5
}

/// The first plane at or after position `s` of the clipping order that the
/// outcode records, if there is one.
pub open spec fn next_clip_plane(s: int, code: u8) -> Option<Plane>
    decreases 6 - s,
{
    if s < 0 || s >= 6 {
        None
    } else if outside(code, Plane::at(s)) {
        Some(Plane::at(s))
    } else {
        next_clip_plane(s + 1, code)
    }
}

/// `next_clip_plane` finds a recorded plane at or after `s`, passes over no
/// recorded plane on the way, and finds none only where none is recorded.
pub proof fn lemma_next_clip_plane(s: int, code: u8)
    requires
        0 <= s,
    ensures
        next_clip_plane(s, code) matches Some(p) ==> s <= p.index() && outside(code, p),
        next_clip_plane(s, code) matches Some(p) ==> forall|q: Plane|
            s <= q.index() < p.index() ==> !outside(code, q),
        next_clip_plane(s, code) is None ==> forall|q: Plane| s <= q.index() ==> !outside(code, q),
    decreases 6 - s,
{
    if s < 6 {
        lemma_next_clip_plane(s + 1, code);
        assert(forall|q: Plane| q.index() == s ==> q == Plane::at(s));
    }
}

/// Searches the outcode for the first plane at or after position `s`.
pub fn find_next_clip_plane(s: u8, code: u8) -> (r: Option<Plane>)
    ensures
        r == next_clip_plane(s as int, code),
        r matches Some(p) ==> s <= p.index() && outside(code, p),
        r matches Some(p) ==> forall|q: Plane| s <= q.index() < p.index() ==> !outside(code, q),
        r is None ==> forall|q: Plane| s <= q.index() ==> !outside(code, q),
{
    let mut b: u8 = s;
    while b < 6
        invariant
            s <= b,
            next_clip_plane(s as int, code) == next_clip_plane(b as int, code),
        decreases 6 - b,
    {
        let p = Plane::from_index(b);
        if (code & p.bit()) > 0 {
            proof {
                lemma_next_clip_plane(s as int, code);
            }
            return Some(p);
        }
        b = b + 1;
    }
    proof {
        lemma_next_clip_plane(s as int, code);
    }
    None
}

} // verus!
