//! The length of a network prefix, from 0 to 32 bits.

use vstd::prelude::*;
use vstd::arithmetic::power2::pow2;
use crate::ascii::{parse_bounded, parsed_bounded, ParseIntError};

verus! {

#[derive(Hash, Eq, PartialEq, Copy, Clone, Debug, Structural)]
pub struct SubNetMask(u8);

#[derive(Debug, Clone, Copy, PartialEq, Eq, Structural)]
pub enum ParseSubNetMaskError {
    /// The text is no number of one byte.
    EncodingErr(ParseIntError),
    /// The number is above 32.
    ValueOutOfRange(u8),
}

impl SubNetMask {
    pub closed spec fn spec_value(self) -> u8 {
        self.0
    }

    /// A mask of `mask` bits, or `None` where `mask` is above 32.
    pub fn new(mask: u8) -> (r: Option<Self>)
        ensures
            mask <= 32 ==> r is Some && r->0.spec_value() == mask,
            mask > 32 ==> r is None,
    {
        if mask <= 32 {
            Some(Self(mask))
        } else {
            None
        }
    }

    /// A mask of `mask` bits where `mask` is at most 32, else of `mask`
    /// modulo 32 bits.
    pub fn with_truncation(mask: u8) -> (r: Self)
        ensures
            r.spec_value() == if mask == 32 {
                32
            } else {
                mask as int % 32
            },
            r.spec_value() <= 32,
    {
        if mask == 32 {
            Self(32)
        } else {
            Self(mask % 32)
        }
    }

    pub fn value(&self) -> (mask: u8)
        ensures
            mask == self.spec_value(),
    {
        self.0
    }

    /// Two to the power of the mask's value.
    pub fn address_range(&self) -> (range: u32)
        requires
            self.spec_value() < 32,
        ensures
            range == pow2(self.spec_value() as nat),
    {
        let bits: u32 = self.0 as u32;
        proof {
            vstd::bits::lemma_u32_pow2_no_overflow(bits as nat);
            vstd::bits::lemma_u32_shl_is_mul(1u32, bits);
        }
        1u32 << bits
    }

    /// Reads a mask from its decimal text.
    pub fn try_from(data: &str) -> (r: Result<Self, ParseSubNetMaskError>)
        ensures
            match parsed_bounded(vstd::utf8::encode_utf8(data@), 255) {
                Ok(val) => if val <= 32 {
                    r is Ok && r->Ok_0.spec_value() == val
                } else {
                    r == Err::<SubNetMask, ParseSubNetMaskError>(
                        ParseSubNetMaskError::ValueOutOfRange(val as u8),
                    )
                },
                Err(e) => r == Err::<SubNetMask, ParseSubNetMaskError>(
                    ParseSubNetMaskError::EncodingErr(e),
                ),
            },
    {
        match parse_bounded(data.as_bytes(), 255) {
            Ok(val) => {
                let val: u8 = val as u8;
                match SubNetMask::new(val) {
                    Some(subnet_mask) => Ok(subnet_mask),
                    None => Err(ParseSubNetMaskError::ValueOutOfRange(val)),
                }
            },
            Err(parse_err) => Err(ParseSubNetMaskError::EncodingErr(parse_err)),
        }
    }
}

} // verus!
