//! A route as it travels between routers: nine bytes, of which the last
//! four hold the distance, most significant byte first.

use vstd::prelude::*;
use crate::distance::Distance;

verus! {

#[derive(Hash, Eq, PartialEq, Copy, Clone)]
pub struct RouteUdpPacket([u8; 9]);

/// The number that four bytes hold, most significant byte first.
pub open spec fn be_u32(b0: u8, b1: u8, b2: u8, b3: u8) -> u32 {
    (b0 * 16777216 + b1 * 65536 + b2 * 256 + b3) as u32
}

impl RouteUdpPacket {
    pub closed spec fn bytes(self) -> Seq<u8> {
        self.0@
    }

    pub fn from_bytes(buffer: [u8; 9]) -> (packet: Self)
        ensures
            packet.bytes() == buffer@,
    {
        Self(buffer)
    }

    /// The distance that the packet carries.
    pub fn distance(&self) -> (distance: Distance)
        ensures
            self.bytes().len() == 9,
            distance == Distance::of(
                be_u32(self.bytes()[5], self.bytes()[6], self.bytes()[7], self.bytes()[8]),
            ),
    {
        let b0: u32 = self.0[5] as u32;
        let b1: u32 = self.0[6] as u32;
        let b2: u32 = self.0[7] as u32;
        let b3: u32 = self.0[8] as u32;
        Distance::new(b0 * 16777216 + b1 * 65536 + b2 * 256 + b3)
    }
}

} // verus!
