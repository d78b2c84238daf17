//! The encoder and the decoder for a computed layout.
//!
//! A value of the tagged-union type is represented against its layout as a
//! [`TaggedValue`]: the index of the entry it instantiates, together with
//! the payload's own 64-bit encoding when the entry carries a payload.
//!
//! Encoding is total. Decoding evaluates the entries' checks in a fixed
//! priority order — all auto-numbered entries first, then all constant
//! entries, each group in its layout order — and that order is
//! load-bearing: a constant whose value's low bits coincide with an
//! auto-numbered tag loses to the auto-numbered variant.
use crate::schema::{layout_wf, EncodingLayout, VariantStyle};
use vstd::arithmetic::power2::{lemma2_to64, lemma2_to64_rest, pow2};
use vstd::bits::{lemma_u64_pow2_no_overflow, lemma_u64_shl_is_mul};
use vstd::prelude::*;

verus! {

/// A value of a tagged-union type, relative to a layout: which entry it
/// instantiates, and the payload's own encoding if that entry carries a
/// payload.
#[derive(Clone, Copy, Debug, PartialEq, Eq)]
pub struct TaggedValue {
    pub index: usize,
    pub payload: Option<u64>,
}

/// The mask selecting the low `w` bits of a word.
pub open spec fn low_mask(w: u8) -> u64
    recommends
        w <= 63,
{
    (pow2(w as nat) - 1) as u64
}

/// A value fits a layout when its entry index is in range and it carries
/// a payload exactly when that entry's variant does.
pub open spec fn valid_value(l: EncodingLayout, v: TaggedValue) -> bool {
    &&& v.index < l.entries@.len()
    &&& (v.payload is Some <==> l.entries@[v.index as int].variant.style is Field)
}

/// The word that encoding produces: a constant entry's declared value
/// unchanged; a unit entry's tag; for a payload-carrying entry, the
/// payload encoding shifted left past the mask, with the tag in the low
/// bits. High payload bits that the shift pushes out of the word are
/// dropped.
pub open spec fn spec_encode(l: EncodingLayout, v: TaggedValue) -> u64
    recommends
        valid_value(l, v),
{
    let e = l.entries@[v.index as int];
    match e.variant.style {
        VariantStyle::Constant(_) => e.tag,
        VariantStyle::Unit => e.tag,
        VariantStyle::Field => (v.payload.unwrap() << (l.mask_width as u64)) | e.tag,
    }
}

/// Whether the check of entry `i` accepts the word `num`: masked low-bit
/// equality for auto-numbered entries, full-width equality for constant
/// entries.
pub open spec fn entry_matches(l: EncodingLayout, i: int, num: u64) -> bool {
    let e = l.entries@[i];
    match e.variant.style {
        VariantStyle::Constant(_) => num == e.tag,
        _ => num & low_mask(l.mask_width) == e.tag,
    }
}

/// The value that a match at entry `i` produces from the word `num`.
pub open spec fn decoded_at(l: EncodingLayout, i: int, num: u64) -> TaggedValue {
    let e = l.entries@[i];
    TaggedValue {
        index: i as usize,
        payload: if e.variant.style is Field {
            Some(num >> (l.mask_width as u64))
        } else {
            None
        },
    }
}

/// The first entry from position `i` on whose check accepts `num`, and
/// the value it produces; an empty result when none does.
pub open spec fn spec_decode_from(l: EncodingLayout, num: u64, i: int) -> Option<TaggedValue>
    decreases l.entries@.len() - i,
{
    if i < 0 || i >= l.entries@.len() {
        None
    } else if entry_matches(l, i, num) {
        Some(decoded_at(l, i, num))
    } else {
        spec_decode_from(l, num, i + 1)
    }
}

/// What decoding returns for the word `num`: the outcome of the fixed
/// priority scan over all entries.
pub open spec fn spec_try_decode(l: EncodingLayout, num: u64) -> Option<TaggedValue> {
    spec_decode_from(l, num, 0)
}

/// `low_mask(w)` equals the low-bit mask written with a shift.
pub proof fn lemma_low_mask_shl(w: u8)
    requires
        w <= 63,
    ensures
        low_mask(w) == (1u64 << (w as u64)) - 1,
        low_mask(w) == pow2(w as nat) - 1,
        pow2(w as nat) <= 0x8000_0000_0000_0000u64,
{
    lemma_u64_pow2_no_overflow(w as nat);
    lemma_u64_shl_is_mul(1u64, w as u64);
    lemma2_to64();
    lemma2_to64_rest();
    if w < 63 {
        vstd::arithmetic::power2::lemma_pow2_strictly_increases(w as nat, 63);
    }
}

/// Encode a value against its layout. Total: every valid value of the
/// declared type has an encoding.
pub fn encode(l: &EncodingLayout, v: &TaggedValue) -> (r: u64)
    requires
        layout_wf(*l),
        valid_value(*l, *v),
    ensures
        r == spec_encode(*l, *v),
{
    let e = &l.entries[v.index];
    match e.variant.style {
        VariantStyle::Constant(_) => e.tag,
        VariantStyle::Unit => e.tag,
        VariantStyle::Field => {
            let inner = v.payload.unwrap();
            (inner << (l.mask_width as u64)) | e.tag
        },
    }
}

/// Decode a word against its layout, reporting an unmatched word as an
/// empty result.
///
/// The checks run in a fixed priority order: every auto-numbered entry
/// first, then every constant entry, each group in layout order. The
/// first check that accepts the word decides the outcome.
pub fn try_decode(l: &EncodingLayout, num: u64) -> (r: Option<TaggedValue>)
    requires
        layout_wf(*l),
    ensures
        r == spec_try_decode(*l, num),
{
    let w = l.mask_width;
    proof {
        lemma_low_mask_shl(w);
    }
    let mask = (1u64 << (w as u64)) - 1;
    let n = l.entries.len();
    let mut i: usize = 0;
    while i < n
        invariant
            layout_wf(*l),
            n == l.entries@.len(),
            i <= n,
            w == l.mask_width,
            mask == low_mask(w),
            spec_try_decode(*l, num) == spec_decode_from(*l, num, i as int),
        decreases n - i,
    {
        let e = &l.entries[i];
        match e.variant.style {
            VariantStyle::Constant(_) => {
                if num == e.tag {
                    return Some(TaggedValue { index: i, payload: None });
                }
            },
            VariantStyle::Unit => {
                if num & mask == e.tag {
                    return Some(TaggedValue { index: i, payload: None });
                }
            },
            VariantStyle::Field => {
                if num & mask == e.tag {
                    return Some(TaggedValue { index: i, payload: Some(num >> (w as u64)) });
                }
            },
        }
        i += 1;
    }
    None
}

/// Decode a word against its layout. Callable only on words that decode,
/// such as the output of an earlier `encode` call on the same layout.
pub fn decode(l: &EncodingLayout, num: u64) -> (r: TaggedValue)
    requires
        layout_wf(*l),
        spec_try_decode(*l, num) is Some,
    ensures
        Some(r) == spec_try_decode(*l, num),
{
    try_decode(l, num).unwrap()
}

} // verus!
