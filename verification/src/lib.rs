//! Packing tagged-union values into a single unsigned 64-bit word.
//!
//! A tagged-union type is described by an ordered list of variant
//! declarations ([`schema::Var`]). The schema analyzer turns such a list
//! into an [`schema::EncodingLayout`]: every variant without an explicit
//! constant value receives a sequential tag, and the layout records how
//! many low-order bits (`mask_width`) are reserved for those tags. The
//! codec then packs a variant (and, for payload-carrying variants, the
//! payload's own encoding) into one `u64`, and unpacks such a word back
//! into the variant it came from.
//!
//! Payload values carried by a variant are themselves numbers produced by
//! the payload type's own encoder; the [`ENum`] trait is the capability
//! interface a payload type exposes for that, with raw unsigned integers
//! as the terminal case.
//!
//! Note that a payload is shifted left by `mask_width` bits to make room
//! for the tag, so the topmost `mask_width` bits of a payload encoding are
//! lost if they are set; this truncation is deliberate and undetected.
use vstd::prelude::*;

pub mod codec;
pub mod laws;
pub mod schema;

verus! {

/// Capability interface for types whose values can be stored as a single
/// unsigned 64-bit number and recovered from it.
///
/// Implementations for the raw unsigned integer types are the terminal
/// case: their encoding is the value itself, widened to 64 bits, and
/// decoding truncates back to the implementing type's width.
pub trait ENum: Sized {
    /// The number that `to_num` returns for this value.
    spec fn spec_to_num(&self) -> u64;

    /// The outcome that `try_from_num` produces for `num`.
    spec fn spec_try_from_num(num: u64) -> Option<Self>;

    /// Convert self to a serializable number.
    fn to_num(&self) -> (r: u64)
        ensures
            r == self.spec_to_num(),
    ;

    /// The error-handling counterpart of `from_num`: parse a number into
    /// the type, reporting failure as an empty result.
    fn try_from_num(num: u64) -> (r: Option<Self>)
        ensures
            r == Self::spec_try_from_num(num),
    ;

    /// Parse a number into the type. Callable only on numbers the type
    /// can parse, such as the output of an earlier `to_num` call.
    fn from_num(num: u64) -> (r: Self)
        requires
            Self::spec_try_from_num(num) is Some,
        ensures
            Some(r) == Self::spec_try_from_num(num),
    {
        Self::try_from_num(num).unwrap()
    }
}

impl ENum for u64 {
    open spec fn spec_to_num(&self) -> u64 {
        *self
    }

    open spec fn spec_try_from_num(num: u64) -> Option<u64> {
        Some(num)
    }

    fn to_num(&self) -> u64 {
        *self
    }

    fn try_from_num(num: u64) -> Option<u64> {
        Some(num)
    }

    fn from_num(num: u64) -> u64 {
        num
    }
}

impl ENum for u32 {
    open spec fn spec_to_num(&self) -> u64 {
        *self as u64
    }

    open spec fn spec_try_from_num(num: u64) -> Option<u32> {
        Some(num as u32)
    }

    fn to_num(&self) -> u64 {
        *self as u64
    }

    fn try_from_num(num: u64) -> Option<u32> {
        Some(num as u32)
    }

    fn from_num(num: u64) -> u32 {
        num as u32
    }
}

impl ENum for u16 {
    open spec fn spec_to_num(&self) -> u64 {
        *self as u64
    }

    open spec fn spec_try_from_num(num: u64) -> Option<u16> {
        Some(num as u16)
    }

    fn to_num(&self) -> u64 {
        *self as u64
    }

    fn try_from_num(num: u64) -> Option<u16> {
        Some(num as u16)
    }

    fn from_num(num: u64) -> u16 {
        num as u16
    }
}

impl ENum for usize {
    open spec fn spec_to_num(&self) -> u64 {
        *self as u64
    }

    open spec fn spec_try_from_num(num: u64) -> Option<usize> {
        Some(num as usize)
    }

    fn to_num(&self) -> u64 {
        *self as u64
    }

    fn try_from_num(num: u64) -> Option<usize> {
        Some(num as usize)
    }

    fn from_num(num: u64) -> usize {
        num as usize
    }
}

} // verus!
