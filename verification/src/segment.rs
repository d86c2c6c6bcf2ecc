use vstd::prelude::*;
use crate::order::{is_less, key_of, less, order_key};

verus! {

/// An edge of a screen-space triangle, between two of its vertices.
///
/// `s` and `e` are the positions (0, 1 or 2) of the edge's ends in the
/// triangle; the edge runs down the screen from `s` to `e`. `length_y` is
/// the edge's extent in `y`, as a single-precision bit pattern.
#[derive(Clone, Copy, Debug, PartialEq, Eq, Structural)]
pub struct Segment {
    pub s: usize,
    pub e: usize,
    pub length_y: u32,
}

impl Segment {
    /// The edge between vertex `a` and vertex `b`, whose `y` coordinates
    /// have the bit patterns `ya` and `yb`. The edge starts at the vertex
    /// with the smaller `y`: at `a` if `ya < yb`, and else at `b`.
    pub fn new(a: usize, ya: u32, b: usize, yb: u32, length_y: u32) -> (seg: Segment)
        ensures
            seg.length_y == length_y,
            less(ya, yb) ==> seg.s == a && seg.e == b,
            !less(ya, yb) ==> seg.s == b && seg.e == a,
    {
        if is_less(ya, yb) {
            Segment { s: a, e: b, length_y }
        } else {
            Segment { s: b, e: a, length_y }
        }
    }

    /// The edge's extent in `y`, as a single-precision bit pattern.
    pub fn length_y(&self) -> (bits: u32)
        ensures
            bits == self.length_y,
    {
        self.length_y
    }

    /// The order key of the edge's extent in `y`.
    pub open spec fn extent(self) -> u32 {
        key_of(self.length_y)
    }
}

/// The place that edge `i` of three takes when they are put in order of
/// falling extent, edges of equal extent staying in the order they came in:
/// the number of edges that go before it.
pub open spec fn rank(edges: Seq<Segment>, i: int) -> int {
    goes_before(edges, 0, i) + goes_before(edges, 1, i) + goes_before(edges, 2, i)
}

/// 1 if edge `j` goes before edge `i` in that order, 0 if not.
pub open spec fn goes_before(edges: Seq<Segment>, j: int, i: int) -> int {
    if edges[j].extent() > edges[i].extent() || (edges[j].extent() == edges[i].extent() && j < i) {
        1
    } else {
        0
    }
}

/// Puts the three edges of a triangle in order of falling extent in `y`.
/// The first of the result is the major edge, the one that spans the height
/// of the triangle. Edges of equal extent stay in the order they came in.
/// An extent that is not a number counts as infinite.
pub fn sort_segments(edges: [Segment; 3]) -> (sorted: [Segment; 3])
    ensures
        forall|i: int|
            0 <= i < 3 ==> 0 <= rank(edges@, i) < 3 && sorted@[rank(edges@, i)] == edges@[i],
        sorted@[0].extent() >= sorted@[1].extent() >= sorted@[2].extent(),
{
    let mut a = edges[0];
    let mut b = edges[1];
    let mut c = edges[2];
    let mut ka: u32 = order_key(a.length_y);
    let mut kb: u32 = order_key(b.length_y);
    let kc: u32 = order_key(c.length_y);
    if kb > ka {
        let t = a;
        a = b;
        b = t;
        let k: u32 = ka;
        ka = kb;
        kb = k;
    }
    if kc > kb {
        let t = b;
        b = c;
        c = t;
        if kc > ka {
            let t = a;
            a = b;
            b = t;
        }
    }
    [a, b, c]
}

} // verus!
