//! Proved laws relating the schema analyzer, the encoder and the decoder.
use crate::codec::{
    decoded_at, entry_matches, low_mask, spec_decode_from, spec_encode, spec_try_decode,
    valid_value, TaggedValue,
};
use crate::schema::{entry_is_constant, layout_wf, EncodingLayout, VariantStyle};
use crate::ENum;
use vstd::arithmetic::power2::pow2;
use vstd::prelude::*;

verus! {

/// A scan that has rejected every entry before `i` continues at `i`.
proof fn lemma_scan(l: EncodingLayout, num: u64, i: int)
    requires
        0 <= i <= l.entries@.len(),
        forall|j: int| 0 <= j < i ==> !entry_matches(l, j, num),
    ensures
        spec_try_decode(l, num) == spec_decode_from(l, num, i),
    decreases i,
{
    if i > 0 {
        lemma_scan(l, num, i - 1);
    }
}

/// Round-trip law: a value of an auto-numbered variant whose payload
/// encoding (if any) fits in the bits above the mask decodes back from
/// its encoding unchanged.
///
/// A payload encoding with bits above `u64::MAX >> mask_width` is
/// truncated by the shift in `encode`, so such values are left out here:
/// their round trip genuinely loses those bits.
pub proof fn lemma_round_trip(l: EncodingLayout, v: TaggedValue)
    requires
        layout_wf(l),
        valid_value(l, v),
        !entry_is_constant(l.entries@[v.index as int]),
        v.payload is Some ==> v.payload.unwrap() <= u64::MAX >> (l.mask_width as u64),
    ensures
        spec_try_decode(l, spec_encode(l, v)) == Some(v),
{
    let i = v.index as int;
    let e = l.entries@[i];
    let wu = l.mask_width as u64;
    let mask = low_mask(l.mask_width);
    let tag = e.tag;
    let num = spec_encode(l, v);
    crate::codec::lemma_low_mask_shl(l.mask_width);
    assert(tag < pow2(l.mask_width as nat));
    assert(tag <= mask);
    match e.variant.style {
        VariantStyle::Constant(_) => {
            assert(false);
        },
        VariantStyle::Unit => {
            assert(num == tag);
            assert(tag & mask == tag) by (bit_vector)
                requires
                    wu <= 63,
                    mask == (1u64 << wu) - 1,
                    tag <= mask,
            ;
        },
        VariantStyle::Field => {
            let inner = v.payload.unwrap();
            assert(num == (inner << wu) | tag);
            assert(((inner << wu) | tag) & mask == tag && ((inner << wu) | tag) >> wu
                == inner) by (bit_vector)
                requires
                    wu <= 63,
                    mask == (1u64 << wu) - 1,
                    tag <= mask,
                    inner <= u64::MAX >> wu,
            ;
        },
    }
    assert(num & mask == tag);
    assert forall|j: int| 0 <= j < i implies !entry_matches(l, j, num) by {
        if entry_is_constant(l.entries@[j]) {
            assert(entry_is_constant(l.entries@[i]));
        } else {
            assert(l.entries@[j].tag != tag);
        }
    }
    lemma_scan(l, num, i);
    assert(entry_matches(l, i, num));
    assert(decoded_at(l, i, num) == v);
}

/// Round trips compose through nesting: when an outer value's payload is
/// itself the encoding of an inner value, decoding the outer word
/// recovers the outer value, and decoding its payload recovers the inner
/// value. Deeper nesting repeats the same step.
pub proof fn lemma_round_trip_nested(
    lo: EncodingLayout,
    li: EncodingLayout,
    vo: TaggedValue,
    vi: TaggedValue,
)
    requires
        layout_wf(lo),
        layout_wf(li),
        valid_value(lo, vo),
        valid_value(li, vi),
        !entry_is_constant(lo.entries@[vo.index as int]),
        !entry_is_constant(li.entries@[vi.index as int]),
        vo.payload == Some(spec_encode(li, vi)),
        spec_encode(li, vi) <= u64::MAX >> (lo.mask_width as u64),
        vi.payload is Some ==> vi.payload.unwrap() <= u64::MAX >> (li.mask_width as u64),
    ensures
        spec_try_decode(lo, spec_encode(lo, vo)) == Some(vo),
        spec_try_decode(li, vo.payload.unwrap()) == Some(vi),
{
    lemma_round_trip(lo, vo);
    lemma_round_trip(li, vi);
}

/// The terminal case of the nested round trip: every raw unsigned
/// integer decodes back from its own widened encoding unchanged.
pub proof fn lemma_primitive_round_trip()
    ensures
        forall|x: u64| #[trigger] <u64 as ENum>::spec_try_from_num(x.spec_to_num()) == Some(x),
        forall|x: u32| #[trigger] <u32 as ENum>::spec_try_from_num(x.spec_to_num()) == Some(x),
        forall|x: u16| #[trigger] <u16 as ENum>::spec_try_from_num(x.spec_to_num()) == Some(x),
        forall|x: usize| #[trigger] <usize as ENum>::spec_try_from_num(x.spec_to_num()) == Some(
            x,
        ),
{
}

/// Constant fidelity: a constant variant encodes to exactly its declared
/// value, and that value decodes back to the constant variant, provided
/// its low bits coincide with no auto-numbered tag and no earlier
/// constant entry carries the same value.
///
/// A constant whose low bits equal an auto-numbered tag instead decodes
/// to that auto-numbered variant (see `lemma_ambiguity_precedence`), and
/// a constant repeating an earlier constant's value decodes to the
/// earlier entry; both are left out here.
pub proof fn lemma_constant_fidelity(l: EncodingLayout, i: int)
    requires
        layout_wf(l),
        0 <= i < l.entries@.len(),
        entry_is_constant(l.entries@[i]),
        forall|j: int|
            0 <= j < l.entries@.len() && !entry_is_constant(#[trigger] l.entries@[j])
                ==> l.entries@[j].tag != l.entries@[i].tag & low_mask(l.mask_width),
        forall|j: int|
            0 <= j < i && entry_is_constant(#[trigger] l.entries@[j]) ==> l.entries@[j].tag
                != l.entries@[i].tag,
    ensures
        spec_encode(l, (TaggedValue { index: i as usize, payload: None })) == l.entries@[i].tag,
        spec_try_decode(l, l.entries@[i].tag) == Some(
            TaggedValue { index: i as usize, payload: None },
        ),
{
    let num = l.entries@[i].tag;
    vstd::std_specs::vec::axiom_spec_len(&l.entries);
    assert forall|j: int| 0 <= j < i implies !entry_matches(l, j, num) by {
        if !entry_is_constant(l.entries@[j]) {
            assert(l.entries@[j].tag != num & low_mask(l.mask_width));
        }
    }
    lemma_scan(l, num, i);
    assert(entry_matches(l, i, num));
}

/// Ambiguity precedence: when a constant entry's value has low bits equal
/// to some auto-numbered entry's tag, decoding that value resolves to the
/// auto-numbered entry, because auto-numbered checks run first.
pub proof fn lemma_ambiguity_precedence(l: EncodingLayout, i: int, j: int)
    requires
        layout_wf(l),
        0 <= i < l.entries@.len(),
        entry_is_constant(l.entries@[i]),
        0 <= j < l.entries@.len(),
        !entry_is_constant(l.entries@[j]),
        l.entries@[j].tag == l.entries@[i].tag & low_mask(l.mask_width),
    ensures
        spec_try_decode(l, l.entries@[i].tag) == Some(decoded_at(l, j, l.entries@[i].tag)),
        spec_try_decode(l, l.entries@[i].tag).unwrap().index == j as usize,
{
    let num = l.entries@[i].tag;
    assert(j < i) by {
        if i < j {
            assert(entry_is_constant(l.entries@[j]));
        }
    }
    assert forall|m: int| 0 <= m < j implies !entry_matches(l, m, num) by {
        if entry_is_constant(l.entries@[m]) {
            assert(entry_is_constant(l.entries@[j]));
        } else {
            assert(l.entries@[m].tag != l.entries@[j].tag);
        }
    }
    lemma_scan(l, num, j);
    assert(entry_matches(l, j, num));
}

/// Exhaustion: a word whose masked low bits equal no auto-numbered tag
/// and which equals no constant value decodes to nothing.
pub proof fn lemma_no_matching_variant(l: EncodingLayout, num: u64)
    requires
        layout_wf(l),
        forall|j: int|
            0 <= j < l.entries@.len() && !entry_is_constant(#[trigger] l.entries@[j])
                ==> l.entries@[j].tag != num & low_mask(l.mask_width),
        forall|j: int|
            0 <= j < l.entries@.len() && entry_is_constant(#[trigger] l.entries@[j])
                ==> l.entries@[j].tag != num,
    ensures
        spec_try_decode(l, num) == None::<TaggedValue>,
{
    let n = l.entries@.len() as int;
    assert forall|j: int| 0 <= j < n implies !entry_matches(l, j, num) by {
        if !entry_is_constant(l.entries@[j]) {
            assert(l.entries@[j].tag != num & low_mask(l.mask_width));
        }
    }
    lemma_scan(l, num, n);
}

/// Every auto-numbered tag, the largest included, decodes, and to its own
/// entry.
pub proof fn lemma_tag_decodes(l: EncodingLayout, i: int)
    requires
        layout_wf(l),
        0 <= i < l.entries@.len(),
        !entry_is_constant(l.entries@[i]),
    ensures
        spec_try_decode(l, l.entries@[i].tag) == Some(decoded_at(l, i, l.entries@[i].tag)),
{
    let wu = l.mask_width as u64;
    let mask = low_mask(l.mask_width);
    let tag = l.entries@[i].tag;
    crate::codec::lemma_low_mask_shl(l.mask_width);
    assert(tag < pow2(l.mask_width as nat));
    assert(tag <= mask);
    assert(tag & mask == tag) by (bit_vector)
        requires
            wu <= 63,
            mask == (1u64 << wu) - 1,
            tag <= mask,
    ;
    assert forall|j: int| 0 <= j < i implies !entry_matches(l, j, tag) by {
        if entry_is_constant(l.entries@[j]) {
            assert(entry_is_constant(l.entries@[i]));
        } else {
            assert(l.entries@[j].tag != tag);
        }
    }
    lemma_scan(l, tag, i);
    assert(entry_matches(l, i, tag));
}

} // verus!
