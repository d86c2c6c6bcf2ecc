use vstd::prelude::*;

verus! {

/// One of the six planes that bound the view volume in clip space.
///
/// A homogeneous point `(x, y, z, w)` lies beyond `NX` when `x < -w`, beyond
/// `X` when `x > w`, and likewise for the other two axes. The variants are
/// listed in the order in which a triangle is clipped against them.
#[derive(Clone, Copy, Debug, PartialEq, Eq, Structural)]
pub enum Plane {
    NX,
    X,
    NY,
    Y,
    NZ,
    Z,
}

impl Plane {
    /// Position of the plane in the clipping order, from 0 to 5.
    pub open spec fn index(self) -> int {
        match self {
            Plane::NX => 0,
            Plane::X => 1,
            Plane::NY => 2,
            Plane::Y => 3,
            Plane::NZ => 4,
            Plane::Z => 5,
        }
    }

    /// The plane at a position of the clipping order.
    pub open spec fn at(i: int) -> Plane
        recommends
            0 <= i < 6,
    {
        if i <= 0 {
            Plane::NX
        } else if i == 1 {
            Plane::X
        } else if i == 2 {
            Plane::NY
        } else if i == 3 {
            Plane::Y
        } else if i == 4 {
            Plane::NZ
        } else {
            Plane::Z
        }
    }

    /// The single bit that stands for this plane in an outcode.
    pub open spec fn mask(self) -> u8 {
        match self {
            Plane::NX => 1u8,
            Plane::X => 2u8,
            Plane::NY => 4u8,
            Plane::Y => 8u8,
            Plane::NZ => 16u8,
            Plane::Z => 32u8,
        }
    }

    /// The plane that follows this one in the clipping order, if any.
    pub open spec fn successor(self) -> Option<Plane> {
        if self.index() < 5 {
            Some(Plane::at(self.index() + 1))
        } else {
            None
        }
    }

    /// The plane with the given position in the clipping order.
    pub fn from_index(a: u8) -> (p: Plane)
        requires
            a < 6,
        ensures
            p.index() == a,
            p == Plane::at(a as int),
    {
        if a == 0 {
            Plane::NX
        } else if a == 1 {
            Plane::X
        } else if a == 2 {
            Plane::NY
        } else if a == 3 {
            Plane::Y
        } else if a == 4 {
            Plane::NZ
        } else {
            Plane::Z
        }
    }

    /// The plane that follows this one in the clipping order; `None` after
    /// the last.
    pub fn next(self) -> (r: Option<Plane>)
        ensures
            r == self.successor(),
            r matches Some(q) ==> q.index() == self.index() + 1,
            r is None <==> self == Plane::Z,
    {
        let u: u8 = u8::from(self) + 1;
        if u >= 6 {
            None
        } else {
            Some(Plane::from_index(u))
        }
    }

    /// The outcode bit of this plane.
    pub fn bit(self) -> (m: u8)
        ensures
            m == self.mask(),
    {
        let shift: u8 = u8::from(self);
        assert(1u8 << 0u8 == 1u8 && 1u8 << 1u8 == 2u8 && 1u8 << 2u8 == 4u8 && 1u8 << 3u8 == 8u8
            && 1u8 << 4u8 == 16u8 && 1u8 << 5u8 == 32u8) by (bit_vector);
        1u8 << shift
    }
}

impl From<Plane> for u8 {
    fn from(a: Plane) -> (r: u8) {
        match a {
            Plane::NX => 0,
            Plane::X => 1,
            Plane::NY => 2,
            Plane::Y => 3,
            Plane::NZ => 4,
            Plane::Z => 5,
        }
    }
}

impl vstd::std_specs::convert::FromSpecImpl<Plane> for u8 {
    open spec fn obeys_from_spec() -> bool {
        true
    }

    open spec fn from_spec(a: Plane) -> u8 {
        a.index() as u8
    }
}

} // verus!
