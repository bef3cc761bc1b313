//! The distance to a network, as a distance-vector router counts it.

use vstd::prelude::*;
use crate::ascii::{parse_bounded, parsed_bounded, ParseIntError};

verus! {

#[derive(Hash, Eq, PartialEq, Copy, Clone, Debug, Structural)]
pub enum Distance {
    Infinite,
    Finite(u32),
}

/// The text is no number that a distance can be made of.
#[derive(Debug, Clone, Copy, PartialEq, Eq, Structural)]
pub struct ParseDistanceError(pub ParseIntError);

impl Distance {
    /// The number that stands for an unreachable network on the wire.
    pub const INFINITY_ENCODING: u32 = u32::MAX;

    /// The largest distance that still counts as reachable.
    pub const MAX_DISTANCE: u32 = 100;

    /// The distance that a number stands for.
    pub open spec fn of(dist: u32) -> Distance {
        if dist <= Self::MAX_DISTANCE {
            Distance::Finite(dist)
        } else {
            Distance::Infinite
        }
    }

    /// The number that stands for the distance on the wire.
    pub open spec fn encoding(self) -> u32 {
        match self {
            Distance::Infinite => Self::INFINITY_ENCODING,
            Distance::Finite(dist) => dist,
        }
    }

    /// Whether `self` is no farther than `other`: finite distances go by
    /// their number, and nothing is farther than unreachable.
    pub open spec fn no_farther_than(self, other: Distance) -> bool {
        match (self, other) {
            (Distance::Finite(lhs), Distance::Finite(rhs)) => lhs <= rhs,
            (Distance::Finite(_), Distance::Infinite) => true,
            (Distance::Infinite, Distance::Finite(_)) => false,
            (Distance::Infinite, Distance::Infinite) => true,
        }
    }

    pub fn new(dist: u32) -> (distance: Self)
        ensures
            distance == Self::of(dist),
    {
        if dist <= Self::MAX_DISTANCE {
            Self::Finite(dist)
        } else {
            Self::Infinite
        }
    }

    /// Reads a distance from its decimal text.
    pub fn try_from(value: &str) -> (r: Result<Self, ParseDistanceError>)
        ensures
            r == match parsed_bounded(vstd::utf8::encode_utf8(value@), u32::MAX as usize) {
                Ok(dist) => Ok::<Distance, ParseDistanceError>(Self::of(dist as u32)),
                Err(e) => Err::<Distance, ParseDistanceError>(ParseDistanceError(e)),
            },
    {
        match parse_bounded(value.as_bytes(), u32::MAX as usize) {
            Ok(dist) => Ok(Self::new(dist as u32)),
            Err(e) => Err(ParseDistanceError(e)),
        }
    }

    pub fn to_u32(self) -> (encoded: u32)
        ensures
            encoded == self.encoding(),
    {
        match self {
            Distance::Infinite => Self::INFINITY_ENCODING,
            Distance::Finite(dist) => dist,
        }
    }

    pub fn le(&self, other: &Self) -> (r: bool)
        ensures
            r == self.no_farther_than(*other),
    {
        match (self, other) {
            (Distance::Finite(lhs), Distance::Finite(rhs)) => *lhs <= *rhs,
            (Distance::Finite(_), Distance::Infinite) => true,
            (Distance::Infinite, Distance::Finite(_)) => false,
            (Distance::Infinite, Distance::Infinite) => true,
        }
    }
}

/// Every reachable distance survives the wire: encoding it and reading
/// the number back gives the same distance, and so does unreachable.
pub proof fn lemma_distance_round_trip(distance: Distance)
    requires
        distance matches Distance::Finite(dist) ==> dist <= Distance::MAX_DISTANCE,
    ensures
        Distance::of(distance.encoding()) == distance,
{
}

/// Being no farther is a total preorder on distances.
pub proof fn lemma_no_farther_than_total(a: Distance, b: Distance, c: Distance)
    ensures
        a.no_farther_than(a),
        a.no_farther_than(b) || b.no_farther_than(a),
        a.no_farther_than(b) && b.no_farther_than(c) ==> a.no_farther_than(c),
        a.no_farther_than(b) && b.no_farther_than(a) ==> a == b,
{
}

} // verus!
