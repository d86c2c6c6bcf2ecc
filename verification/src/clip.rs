use vstd::prelude::*;
use crate::outcode::{
    find_next_clip_plane, lemma_next_clip_plane, lemma_outcode_bits, lemma_point_within_volume,
    next_clip_plane, outside, within_volume, CvvTest,
};
use crate::plane::Plane;

verus! {

/// How a triangle lies with respect to the view volume.
#[derive(Clone, Copy, Debug, PartialEq, Eq, Structural)]
pub enum Visibility {
    /// All three vertices lie beyond one and the same plane: nothing of the
    /// triangle can be seen.
    Outside,
    /// Some vertex lies beyond a plane; clipping starts at the plane given.
    Straddling(Plane),
    /// No vertex lies beyond any plane: the triangle is drawn as it is.
    Inside,
}

/// One corner of a triangle that a clipping step puts out.
#[derive(Clone, Copy, Debug, PartialEq, Eq, Structural)]
pub enum Corner {
    /// The vertex with this position (0, 1 or 2) in the triangle that was
    /// clipped.
    Keep(usize),
    /// The point at which the edge that starts at vertex `from` and ends at
    /// vertex `to` meets the clipping plane. Position and attributes of the
    /// new vertex are both blended from those two vertices, with the one
    /// parameter that the plane gives for that edge.
    Cut { from: usize, to: usize },
}

/// A triangle that a clipping step puts out, corner by corner.
#[derive(Clone, Copy, Debug, PartialEq, Eq, Structural)]
pub struct Piece {
    pub a: Corner,
    pub b: Corner,
    pub c: Corner,
}

/// What is to be done with a triangle at one step of clipping.
#[derive(Clone, Copy, Debug, PartialEq, Eq)]
pub enum ClipStep {
    /// No plane is left to clip against: the triangle goes to the rasterizer.
    Draw,
    /// The triangle is cut at `plane`. `first`, and `second` where there is
    /// one, replace it; each of them is clipped on, starting at `next`.
    Clip { plane: Plane, first: Piece, second: Option<Piece>, next: Option<Plane> },
}

/// The vertex that follows vertex `i` when going round the triangle.
pub open spec fn after(i: usize) -> usize {
    if i == 0 {
        1
    } else if i == 1 {
        2
    } else {
        0
    }
}

impl Piece {
    /// What is left of a triangle of which only vertex `i` lies on the inner
    /// side of the plane: the tip at `i`, cut off along the plane.
    pub open spec fn tip(i: usize) -> Piece {
        Piece {
            a: Corner::Keep(i),
            b: Corner::Cut { from: i, to: after(i) },
            c: Corner::Cut { from: i, to: after(after(i)) },
        }
    }

    /// First half of the quadrilateral that is left of a triangle of which
    /// only vertex `o` lies beyond the plane.
    pub open spec fn quad_first(o: usize) -> Piece {
        Piece {
            a: Corner::Keep(after(after(o))),
            b: Corner::Cut { from: after(after(o)), to: o },
            c: Corner::Keep(after(o)),
        }
    }

    /// Second half of that quadrilateral. It shares the edge from vertex
    /// `after(o)` to the cut on the edge from `after(after(o))` to `o` with
    /// the first half.
    pub open spec fn quad_second(o: usize) -> Piece {
        Piece {
            a: Corner::Keep(after(o)),
            b: Corner::Cut { from: after(after(o)), to: o },
            c: Corner::Cut { from: after(o), to: o },
        }
    }
}

/// The number of vertices, of three with the given outcodes, that lie beyond
/// the plane.
pub open spec fn outside_count(cc0: u8, cc1: u8, cc2: u8, p: Plane) -> int {
    (if outside(cc0, p) { 1int } else { 0int })
    + (if outside(cc1, p) { 1int } else { 0int })
    + (if outside(cc2, p) { 1int } else { 0int })
}

/// The first of three vertices that lies on the inner side of the plane
/// (vertex 2 where none does).
pub open spec fn first_inside(cc0: u8, cc1: u8, cc2: u8, p: Plane) -> usize {
    if !outside(cc0, p) {
        0
    } else if !outside(cc1, p) {
        1
    } else {
        2
    }
}

/// The first of three vertices that lies beyond the plane (vertex 2 where
/// none does).
pub open spec fn first_outside(cc0: u8, cc1: u8, cc2: u8, p: Plane) -> usize {
    if outside(cc0, p) {
        0
    } else if outside(cc1, p) {
        1
    } else {
        2
    }
}

/// The frustum test on the outcodes of a triangle's three vertices.
pub open spec fn visibility(cc0: u8, cc1: u8, cc2: u8) -> Visibility {
    if cc0 & cc1 & cc2 != 0 {
        Visibility::Outside
    } else {
        match next_clip_plane(0, cc0 | cc1 | cc2) {
            Some(p) => Visibility::Straddling(p),
            None => Visibility::Inside,
        }
    }
}

/// The number of planes that clipping has still to go through when it has
/// come to the plane `from`.
pub open spec fn planes_left(from: Option<Plane>) -> int {
    match from {
        None => 0,
        Some(p) => 6 - p.index(),
    }
}

/// The plane at which a triangle is cut next, when clipping has come to the
/// plane `from`: the first plane at or after `from` that some vertex lies
/// beyond.
pub open spec fn cutting_plane(cc0: u8, cc1: u8, cc2: u8, from: Option<Plane>) -> Option<Plane> {
    match from {
        None => None,
        Some(start) => next_clip_plane(start.index(), cc0 | cc1 | cc2),
    }
}

/// One step of clipping a triangle whose vertices have the given outcodes,
/// when clipping has come to the plane `from`.
///
/// Where two vertices lie beyond the cutting plane, the tip at the third is
/// kept. Otherwise the vertex beyond the plane is cut off, and the
/// quadrilateral that is left is put out as two triangles. All three
/// vertices can lie beyond the plane only after a cut at an earlier plane,
/// since the frustum test drops such a triangle; the step then goes by the
/// first vertex as if it alone lay beyond the plane.
pub open spec fn clip_step(cc0: u8, cc1: u8, cc2: u8, from: Option<Plane>) -> ClipStep {
    match cutting_plane(cc0, cc1, cc2, from) {
        None => ClipStep::Draw,
        Some(p) => if outside_count(cc0, cc1, cc2, p) == 2 {
            ClipStep::Clip {
                plane: p,
                first: Piece::tip(first_inside(cc0, cc1, cc2, p)),
                second: None,
                next: p.successor(),
            }
        } else {
            ClipStep::Clip {
                plane: p,
                first: Piece::quad_first(first_outside(cc0, cc1, cc2, p)),
                second: Some(Piece::quad_second(first_outside(cc0, cc1, cc2, p))),
                next: p.successor(),
            }
        },
    }
}

proof fn lemma_mask_of_joined(a: u8, b: u8, c: u8, m: u8)
    by (bit_vector)
    ensures
        ((a | b | c) & m != 0) == (a & m != 0 || b & m != 0 || c & m != 0),
        (a | b | c) == 0 <==> a == 0 && b == 0 && c == 0,
{
}

proof fn lemma_mask_of_common(a: u8, b: u8, c: u8, m: u8)
    by (bit_vector)
    requires
        m == 1 || m == 2 || m == 4 || m == 8 || m == 16 || m == 32,
    ensures
        ((a & b & c) & m != 0) == (a & m != 0 && b & m != 0 && c & m != 0),
        ((a ^ b ^ c) & m != 0) == (((a & m != 0) != (b & m != 0)) != (c & m != 0)),
{
}

proof fn lemma_six_bits(a: u8)
    by (bit_vector)
    requires
        a < 64,
    ensures
        a != 0 <==> (a & 1 != 0 || a & 2 != 0 || a & 4 != 0 || a & 8 != 0 || a & 16 != 0 || a & 32
            != 0),
{
}

/// A vertex of a triangle lies beyond a plane exactly if the joined outcode
/// of the three vertices records the plane.
pub proof fn lemma_joined_outcode(cc0: u8, cc1: u8, cc2: u8, p: Plane)
    ensures
        outside(cc0 | cc1 | cc2, p) == (outside(cc0, p) || outside(cc1, p) || outside(cc2, p)),
        outside(cc0 | cc1 | cc2, p) == (outside_count(cc0, cc1, cc2, p) > 0),
{
    lemma_mask_of_joined(cc0, cc1, cc2, p.mask());
}

/// The outcodes of three vertices have a bit in common exactly if the three
/// lie beyond one and the same plane.
pub proof fn lemma_common_outcode(cc0: u8, cc1: u8, cc2: u8)
    requires
        cc0 < 64,
        cc1 < 64,
        cc2 < 64,
    ensures
        (cc0 & cc1 & cc2 != 0) <==> exists|p: Plane| outside_count(cc0, cc1, cc2, p) == 3,
{
    let common = cc0 & cc1 & cc2;
    assert(common < 64) by (bit_vector)
        requires
            common == cc0 & cc1 & cc2,
            cc0 < 64,
    ;
    lemma_six_bits(common);
    assert forall|p: Plane| outside(common, p) == (outside_count(cc0, cc1, cc2, p) == 3) by {
        lemma_mask_of_common(cc0, cc1, cc2, p.mask());
    }
    if common != 0 {
        let p = if common & 1 != 0 {
            Plane::NX
        } else if common & 2 != 0 {
            Plane::X
        } else if common & 4 != 0 {
            Plane::NY
        } else if common & 8 != 0 {
            Plane::Y
        } else if common & 16 != 0 {
            Plane::NZ
        } else {
            Plane::Z
        };
        assert(outside(common, p));
        assert(outside_count(cc0, cc1, cc2, p) == 3);
    } else {
        assert forall|p: Plane| outside_count(cc0, cc1, cc2, p) != 3 by {
            assert(!outside(common, p)) by {
                assert(0u8 & p.mask() == 0) by (bit_vector);
            }
        }
    }
}

/// Classifies a triangle by the outcodes of its three vertices.
///
/// The triangle is `Outside` exactly if the three outcodes have a bit in
/// common. Otherwise it is `Inside` if no outcode records a plane, and
/// `Straddling` the first plane that one of them records.
pub fn frustum_test(cc0: u8, cc1: u8, cc2: u8) -> (v: Visibility)
    ensures
        v == visibility(cc0, cc1, cc2),
        (cc0 == 0 && cc1 == 0 && cc2 == 0) ==> v == Visibility::Inside,
{
    proof {
        lemma_mask_of_joined(cc0, cc1, cc2, 0);
        assert(0u8 & 0u8 & 0u8 == 0u8) by (bit_vector);
    }
    let cc_and: u8 = cc0 & cc1 & cc2;
    if cc_and != 0 {
        return Visibility::Outside;
    }
    let cc_or: u8 = cc0 | cc1 | cc2;
    if cc_or != 0 {
        return match find_next_clip_plane(0, cc_or) {
            Some(p) => Visibility::Straddling(p),
            None => Visibility::Inside,
        };
    }
    proof {
        lemma_nothing_recorded(0);
    }
    Visibility::Inside
}

/// The empty outcode records no plane.
pub proof fn lemma_nothing_recorded(s: int)
    requires
        0 <= s,
    ensures
        next_clip_plane(s, 0) is None,
        forall|p: Plane| !outside(0, p),
{
    assert forall|p: Plane| !outside(0, p) by {
        assert(0u8 & p.mask() == 0) by (bit_vector);
    }
    lemma_next_clip_plane(s, 0);
}

/// Decides one step of clipping from the outcodes of the triangle's vertices
/// and the plane that clipping has come to.
///
/// The step is `Draw` exactly if no plane at or after `plane` is recorded in
/// any of the three outcodes. Otherwise the triangle is cut at the first
/// such plane, and what replaces it is clipped on from the plane after that
/// one.
pub fn clip_triangle(cc0: u8, cc1: u8, cc2: u8, plane: Option<Plane>) -> (step: ClipStep)
    ensures
        step == clip_step(cc0, cc1, cc2, plane),
{
    let cc_or: u8 = cc0 | cc1 | cc2;
    let start = match plane {
        None => {
            return ClipStep::Draw;
        },
        Some(start) => start,
    };
    if cc_or == 0 {
        proof {
            lemma_nothing_recorded(start.index());
        }
        return ClipStep::Draw;
    }
    let plane = match find_next_clip_plane(u8::from(start), cc_or) {
        None => {
            return ClipStep::Draw;
        },
        Some(plane) => plane,
    };
    let plane_mask: u8 = plane.bit();
    let cc_xor: u8 = (cc0 ^ cc1 ^ cc2) & plane_mask;
    let next = plane.next();
    proof {
        lemma_mask_of_common(cc0, cc1, cc2, plane_mask);
        lemma_joined_outcode(cc0, cc1, cc2, plane);
    }
    if cc_xor == 0 {
        let i: usize = if (cc0 & plane_mask) == 0 {
            0
        } else if (cc1 & plane_mask) == 0 {
            1
        } else {
            2
        };
        let j: usize = (i + 1) % 3;
        let k: usize = (i + 2) % 3;
        ClipStep::Clip {
            plane,
            first: Piece {
                a: Corner::Keep(i),
                b: Corner::Cut { from: i, to: j },
                c: Corner::Cut { from: i, to: k },
            },
            second: None,
            next,
        }
    } else {
        let o: usize = if (cc0 & plane_mask) > 0 {
            0
        } else if (cc1 & plane_mask) > 0 {
            1
        } else {
            2
        };
        let j: usize = (o + 1) % 3;
        let k: usize = (o + 2) % 3;
        ClipStep::Clip {
            plane,
            first: Piece { a: Corner::Keep(k), b: Corner::Cut { from: k, to: o }, c: Corner::Keep(j) },
            second: Some(
                Piece {
                    a: Corner::Keep(j),
                    b: Corner::Cut { from: k, to: o },
                    c: Corner::Cut { from: j, to: o },
                },
            ),
            next,
        }
    }
}

/// The outcode of vertex `i` of a triangle (that of vertex 2 for any other
/// `i`).
pub open spec fn code_at(cc0: u8, cc1: u8, cc2: u8, i: usize) -> u8 {
    if i == 0 {
        cc0
    } else if i == 1 {
        cc1
    } else {
        cc2
    }
}

impl Corner {
    /// Whether the corner lies on the inner side of the plane, as far as the
    /// outcodes tell: a vertex that is kept does not lie beyond the plane,
    /// and an edge that is cut leads from a vertex that does not lie beyond
    /// it to one that does.
    pub open spec fn respects(self, cc0: u8, cc1: u8, cc2: u8, p: Plane) -> bool {
        match self {
            Corner::Keep(i) => i < 3 && !outside(code_at(cc0, cc1, cc2, i), p),
            Corner::Cut { from, to } => {
                &&& from < 3
                &&& to < 3
                &&& !outside(code_at(cc0, cc1, cc2, from), p)
                &&& outside(code_at(cc0, cc1, cc2, to), p)
            },
        }
    }
}

impl Piece {
    /// Whether all three corners lie on the inner side of the plane.
    pub open spec fn respects(self, cc0: u8, cc1: u8, cc2: u8, p: Plane) -> bool {
        &&& self.a.respects(cc0, cc1, cc2, p)
        &&& self.b.respects(cc0, cc1, cc2, p)
        &&& self.c.respects(cc0, cc1, cc2, p)
    }
}

/// A triangle none of whose vertices lies beyond a plane is not clipped:
/// the frustum test finds it `Inside`, and a clipping step, at whatever
/// plane, hands it on unchanged.
pub proof fn lemma_inside_triangle_is_kept(
    t0: CvvTest,
    t1: CvvTest,
    t2: CvvTest,
    from: Option<Plane>,
)
    requires
        t0.inside(),
        t1.inside(),
        t2.inside(),
    ensures
        t0.outcode() | t1.outcode() | t2.outcode() == 0,
        visibility(t0.outcode(), t1.outcode(), t2.outcode()) == Visibility::Inside,
        clip_step(t0.outcode(), t1.outcode(), t2.outcode(), from) == ClipStep::Draw,
{
    lemma_outcode_bits(t0);
    lemma_outcode_bits(t1);
    lemma_outcode_bits(t2);
    assert(0u8 | 0u8 | 0u8 == 0u8) by (bit_vector);
    assert(0u8 & 0u8 & 0u8 == 0u8) by (bit_vector);
    lemma_nothing_recorded(0);
    if let Some(start) = from {
        lemma_nothing_recorded(start.index());
    }
}

/// Clipping does nothing to a triangle that lies within the view volume.
/// Where each coordinate `x`, `y` and `z` of each of the three vertices is a
/// number between `-w` and `w`, the three outcodes are empty, the frustum
/// test finds the triangle `Inside`, and a clipping step, at whatever
/// plane, hands it on unchanged. The vertices are given as the bit patterns
/// of `x`, `y`, `z` and `w`.
pub proof fn lemma_triangle_within_volume_is_kept(
    v0: (u32, u32, u32, u32),
    v1: (u32, u32, u32, u32),
    v2: (u32, u32, u32, u32),
    from: Option<Plane>,
)
    requires
        within_volume(v0.0, v0.1, v0.2, v0.3),
        within_volume(v1.0, v1.1, v1.2, v1.3),
        within_volume(v2.0, v2.1, v2.2, v2.3),
    ensures
        ({
            let cc0 = CvvTest::of(v0.0, v0.1, v0.2, v0.3).outcode();
            let cc1 = CvvTest::of(v1.0, v1.1, v1.2, v1.3).outcode();
            let cc2 = CvvTest::of(v2.0, v2.1, v2.2, v2.3).outcode();
            &&& cc0 | cc1 | cc2 == 0
            &&& visibility(cc0, cc1, cc2) == Visibility::Inside
            &&& clip_step(cc0, cc1, cc2, from) == ClipStep::Draw
        }),
{
    lemma_point_within_volume(v0.0, v0.1, v0.2, v0.3);
    lemma_point_within_volume(v1.0, v1.1, v1.2, v1.3);
    lemma_point_within_volume(v2.0, v2.1, v2.2, v2.3);
    lemma_inside_triangle_is_kept(
        CvvTest::of(v0.0, v0.1, v0.2, v0.3),
        CvvTest::of(v1.0, v1.1, v1.2, v1.3),
        CvvTest::of(v2.0, v2.1, v2.2, v2.3),
        from,
    );
}

/// For outcodes of six bits the frustum test decides by the planes alone. A
/// triangle is `Outside` exactly if its three vertices lie beyond one and
/// the same plane. Otherwise it is `Inside` exactly if no vertex lies beyond
/// any plane, and else it straddles the first plane that some vertex lies
/// beyond, at which the first clipping step then cuts it.
pub proof fn lemma_visibility(cc0: u8, cc1: u8, cc2: u8)
    requires
        cc0 < 64,
        cc1 < 64,
        cc2 < 64,
    ensures
        (match visibility(cc0, cc1, cc2) {
            Visibility::Outside => exists|p: Plane| outside_count(cc0, cc1, cc2, p) == 3,
            Visibility::Inside => cc0 == 0 && cc1 == 0 && cc2 == 0,
            Visibility::Straddling(p) => {
                &&& forall|q: Plane| outside_count(cc0, cc1, cc2, q) < 3
                &&& 0 < outside_count(cc0, cc1, cc2, p)
                &&& forall|q: Plane| q.index() < p.index() ==> outside_count(cc0, cc1, cc2, q) == 0
                &&& clip_step(cc0, cc1, cc2, Some(p)) is Clip
                &&& clip_step(cc0, cc1, cc2, Some(p))->plane == p
            },
        }),
{
    lemma_common_outcode(cc0, cc1, cc2);
    lemma_next_clip_plane(0, cc0 | cc1 | cc2);
    assert forall|q: Plane|
        outside(cc0 | cc1 | cc2, q) == (outside_count(cc0, cc1, cc2, q) > 0) by {
        lemma_joined_outcode(cc0, cc1, cc2, q);
    }
    match visibility(cc0, cc1, cc2) {
        Visibility::Outside => {},
        Visibility::Inside => {
            let joined = cc0 | cc1 | cc2;
            assert(joined < 64) by (bit_vector)
                requires
                    joined == cc0 | cc1 | cc2,
                    cc0 < 64,
                    cc1 < 64,
                    cc2 < 64,
            ;
            lemma_six_bits(joined);
            assert(!outside(joined, Plane::NX) && !outside(joined, Plane::X) && !outside(
                joined,
                Plane::NY,
            ) && !outside(joined, Plane::Y) && !outside(joined, Plane::NZ) && !outside(
                joined,
                Plane::Z,
            ));
            lemma_mask_of_joined(cc0, cc1, cc2, 0);
        },
        Visibility::Straddling(p) => {
            lemma_next_clip_plane(p.index(), cc0 | cc1 | cc2);
        },
    }
}

/// Clipping moves on through the planes: a step that cuts does so at a plane
/// at or after the one it was given, beyond which some vertex lies, and what
/// it puts out is clipped on from the plane after that one, with fewer
/// planes left to go through. So no plane is cut at twice, and a triangle
/// is cut at most six times in a row. A step that draws finds no vertex
/// beyond any plane that is left.
pub proof fn lemma_clip_step_advances(cc0: u8, cc1: u8, cc2: u8, from: Option<Plane>)
    ensures
        (match clip_step(cc0, cc1, cc2, from) {
            ClipStep::Draw => forall|q: Plane|
                from is Some && from.unwrap().index() <= q.index() ==> outside_count(
                    cc0,
                    cc1,
                    cc2,
                    q,
                ) == 0,
            ClipStep::Clip { plane, first, second, next } => {
                &&& from is Some
                &&& from.unwrap().index() <= plane.index()
                &&& outside_count(cc0, cc1, cc2, plane) > 0
                &&& forall|q: Plane|
                    from.unwrap().index() <= q.index() < plane.index() ==> outside_count(
                        cc0,
                        cc1,
                        cc2,
                        q,
                    ) == 0
                &&& next == plane.successor()
                &&& 0 <= planes_left(next) < planes_left(from) <= 6
                &&& match next {
                    Some(n) => n.index() == plane.index() + 1,
                    None => plane == Plane::Z,
                }
            },
        }),
{
    if let Some(start) = from {
        lemma_next_clip_plane(start.index(), cc0 | cc1 | cc2);
        assert forall|q: Plane|
            outside(cc0 | cc1 | cc2, q) == (outside_count(cc0, cc1, cc2, q) > 0) by {
            lemma_joined_outcode(cc0, cc1, cc2, q);
        }
    }
}

/// Unless all three vertices lie beyond the cutting plane, every corner that
/// a clipping step puts out lies on the inner side of that plane: the
/// vertices it keeps do not lie beyond it, and every edge it cuts leads from
/// a vertex that does not to one that does. Where one vertex lies beyond the
/// plane the step puts out two triangles, where two do it puts out one.
pub proof fn lemma_clip_step_respects_plane(cc0: u8, cc1: u8, cc2: u8, from: Option<Plane>)
    ensures
        (match clip_step(cc0, cc1, cc2, from) {
            ClipStep::Draw => true,
            ClipStep::Clip { plane, first, second, next } => {
                let n = outside_count(cc0, cc1, cc2, plane);
                &&& 1 <= n <= 3
                &&& n == 2 <==> second is None
                &&& n != 3 ==> first.respects(cc0, cc1, cc2, plane)
                &&& n == 1 ==> second.unwrap().respects(cc0, cc1, cc2, plane)
            },
        }),
{
    lemma_clip_step_advances(cc0, cc1, cc2, from);
}

/// A triangle of which exactly one vertex lies beyond the plane `X`, and of
/// which the two others lie within the view volume, is cut at `X` in one
/// step. The step cuts that vertex off and puts out the quadrilateral that
/// is left as two triangles, which are then clipped on from `NY`. Their
/// corners are the two vertices within the volume and the two points where
/// the edges from them to the vertex beyond `X` meet the plane, so every
/// corner lies on the inner side of `X`. Unless the vertex lies beyond `NX`
/// as well, `X` is the plane that the frustum test names.
pub proof fn lemma_vertex_beyond_x_is_cut_off(t0: CvvTest, t1: CvvTest, t2: CvvTest, o: usize)
    requires
        o < 3,
        o == 0 ==> t0.x,
        o != 0 ==> t0.inside(),
        o == 1 ==> t1.x,
        o != 1 ==> t1.inside(),
        o == 2 ==> t2.x,
        o != 2 ==> t2.inside(),
    ensures
        clip_step(t0.outcode(), t1.outcode(), t2.outcode(), Some(Plane::X)) == (ClipStep::Clip {
            plane: Plane::X,
            first: Piece {
                a: Corner::Keep(after(after(o))),
                b: Corner::Cut { from: after(after(o)), to: o },
                c: Corner::Keep(after(o)),
            },
            second: Some(
                Piece {
                    a: Corner::Keep(after(o)),
                    b: Corner::Cut { from: after(after(o)), to: o },
                    c: Corner::Cut { from: after(o), to: o },
                },
            ),
            next: Some(Plane::NY),
        }),
        Piece::quad_first(o).respects(t0.outcode(), t1.outcode(), t2.outcode(), Plane::X),
        Piece::quad_second(o).respects(t0.outcode(), t1.outcode(), t2.outcode(), Plane::X),
        !outside(code_at(t0.outcode(), t1.outcode(), t2.outcode(), o), Plane::NX) ==> visibility(
            t0.outcode(),
            t1.outcode(),
            t2.outcode(),
        ) == Visibility::Straddling(Plane::X),
{
    let (cc0, cc1, cc2) = (t0.outcode(), t1.outcode(), t2.outcode());
    lemma_outcode_bits(t0);
    lemma_outcode_bits(t1);
    lemma_outcode_bits(t2);
    lemma_joined_outcode(cc0, cc1, cc2, Plane::NX);
    lemma_joined_outcode(cc0, cc1, cc2, Plane::X);
    lemma_next_clip_plane(0, cc0 | cc1 | cc2);
    lemma_next_clip_plane(1, cc0 | cc1 | cc2);
    assert(outside_count(cc0, cc1, cc2, Plane::X) == 1);
    assert(next_clip_plane(1, cc0 | cc1 | cc2) == Some(Plane::X));
    assert(cc0 & cc1 & cc2 == 0) by {
        lemma_common_outcode(cc0, cc1, cc2);
        assert forall|p: Plane| outside_count(cc0, cc1, cc2, p) != 3 by {}
    }
}

} // verus!
