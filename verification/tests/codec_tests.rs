use e_num::codec::{decode, encode, try_decode, TaggedValue};
use e_num::schema::{analyze, EncodingLayout, FieldShape, Var};
use e_num::ENum;

fn unit(name: &str) -> Var {
    Var { name: String::from(name), fields: FieldShape::Unit, constant: None }
}

fn field(name: &str) -> Var {
    Var { name: String::from(name), fields: FieldShape::Tuple(1), constant: None }
}

fn constant(name: &str, k: u64) -> Var {
    Var { name: String::from(name), fields: FieldShape::Unit, constant: Some(k) }
}

fn index_of(l: &EncodingLayout, name: &str) -> usize {
    l.entries.iter().position(|e| e.variant.name == name).unwrap()
}

fn unit_value(l: &EncodingLayout, name: &str) -> TaggedValue {
    TaggedValue { index: index_of(l, name), payload: None }
}

fn field_value(l: &EncodingLayout, name: &str, inner: u64) -> TaggedValue {
    TaggedValue { index: index_of(l, name), payload: Some(inner) }
}

fn test1_layout() -> EncodingLayout {
    analyze(vec![unit("A"), field("B"), unit("C")], 0).unwrap()
}

#[test]
fn basic() {
    let layout = test1_layout();
    assert!(match decode(&layout, 0) {
        TaggedValue { index: 0, payload: None } => true,
        _ => false,
    });
}

#[test]
fn value_from_enum() {
    let layout = test1_layout();
    assert!(match decode(&layout, 0b10101) {
        TaggedValue { index: 1, payload: Some(v) } => <usize as ENum>::from_num(v) == 0b101,
        _ => false,
    });
}

#[test]
fn constant_variant() {
    let layout = analyze(vec![constant("A", 9), unit("B")], 0).unwrap();
    assert!(encode(&layout, &unit_value(&layout, "A")) == 9);
}

#[test]
fn scenario_three_variants() {
    let layout = test1_layout();
    assert_eq!(layout.mask_width, 2);
    assert_eq!(encode(&layout, &unit_value(&layout, "A")), 0);
    assert_eq!(encode(&layout, &unit_value(&layout, "C")), 2);
    assert_eq!(encode(&layout, &field_value(&layout, "B", 5)), (5 << 2) | 1);
    assert_eq!(decode(&layout, 21), field_value(&layout, "B", 5));
    assert_eq!(decode(&layout, 0), unit_value(&layout, "A"));
    assert_eq!(decode(&layout, 2), unit_value(&layout, "C"));
}

#[test]
fn scenario_constant_beside_auto() {
    let layout = analyze(vec![constant("A", 9), unit("B"), unit("C"), unit("D")], 0).unwrap();
    assert_eq!(layout.mask_width, 2);
    assert_eq!(encode(&layout, &unit_value(&layout, "B")), 0);
    assert_eq!(encode(&layout, &unit_value(&layout, "C")), 1);
    assert_eq!(encode(&layout, &unit_value(&layout, "D")), 2);
    assert_eq!(encode(&layout, &unit_value(&layout, "A")), 9);
    // the low two bits of 9 equal C's auto tag, and auto-numbered checks
    // run first, so the constant loses its own literal value to C
    assert_eq!(decode(&layout, 9), unit_value(&layout, "C"));
    // 3 is no auto tag and equals no constant
    assert_eq!(try_decode(&layout, 3), None);
}

#[test]
fn scenario_unmatched_word_fails() {
    let layout = test1_layout();
    assert_eq!(try_decode(&layout, 3), None);
}

#[test]
fn largest_auto_tag_decodes() {
    let layout = test1_layout();
    assert_eq!(decode(&layout, 2), unit_value(&layout, "C"));
}

#[test]
fn ambiguity_prefers_auto_numbered() {
    // the constant 1 collides with C's auto tag below a one-bit mask
    let layout = analyze(vec![constant("A", 1), unit("B"), unit("C")], 0).unwrap();
    assert_eq!(layout.mask_width, 1);
    assert_eq!(decode(&layout, 1), unit_value(&layout, "C"));
}

#[test]
fn unit_variants_match_on_masked_bits_only() {
    let layout = analyze(vec![constant("A", 9), unit("B"), unit("C"), unit("D")], 0).unwrap();
    // the low two bits of 4 are 0, B's tag; the high bits are ignored
    assert_eq!(decode(&layout, 4), unit_value(&layout, "B"));
}

#[test]
fn round_trip_all_auto_variants() {
    let layout = test1_layout();
    for v in [
        unit_value(&layout, "A"),
        unit_value(&layout, "C"),
        field_value(&layout, "B", 0),
        field_value(&layout, "B", 85),
        field_value(&layout, "B", u64::MAX >> 2),
    ] {
        assert_eq!(try_decode(&layout, encode(&layout, &v)), Some(v));
    }
}

#[test]
fn round_trip_nested_payload() {
    // an inner tagged union encoded as the payload of an outer one
    let inner = analyze(vec![unit("A"), field("B")], 0).unwrap();
    let outer = analyze(vec![field("X"), unit("Y")], 0).unwrap();
    let inner_num = encode(&inner, &field_value(&inner, "B", <u64 as ENum>::to_num(&7)));
    let wire = encode(&outer, &field_value(&outer, "X", inner_num));
    let outer_back = decode(&outer, wire);
    assert_eq!(outer_back.index, index_of(&outer, "X"));
    let inner_back = decode(&inner, outer_back.payload.unwrap());
    assert_eq!(inner_back.index, index_of(&inner, "B"));
    assert_eq!(<u64 as ENum>::from_num(inner_back.payload.unwrap()), 7);
}

#[test]
fn nested_failure_does_not_fall_through() {
    // an inner type that accepts only its two constant words
    let inner = analyze(vec![constant("A", 0), constant("B", 1)], 0).unwrap();
    let outer = analyze(vec![field("X"), constant("K", 5)], 0).unwrap();
    // one auto variant with no offset leaves a zero-bit mask, so the
    // scan commits to X for any word, 5 included
    assert_eq!(outer.mask_width, 0);
    let hit = try_decode(&outer, 5).unwrap();
    assert_eq!(hit.index, index_of(&outer, "X"));
    // the payload fails to decode, and that failure is final: the
    // constant K, though equal to the word, is never tried
    assert_eq!(try_decode(&inner, hit.payload.unwrap()), None);
}

#[test]
fn payload_high_bits_are_dropped() {
    // a payload too wide for the bits above the mask wraps by design
    let layout = test1_layout();
    let too_wide = (u64::MAX >> 2) + 1;
    let wire = encode(&layout, &field_value(&layout, "B", too_wide));
    assert_eq!(decode(&layout, wire), field_value(&layout, "B", 0));
}

#[test]
fn primitive_adapter_widens() {
    assert_eq!(<u16 as ENum>::to_num(&0xFFFF), 0xFFFF);
    assert_eq!(<u32 as ENum>::to_num(&7), 7);
    assert_eq!(<usize as ENum>::to_num(&21), 21);
    assert_eq!(<u64 as ENum>::to_num(&u64::MAX), u64::MAX);
}

#[test]
fn primitive_adapter_truncates() {
    assert_eq!(<u32 as ENum>::try_from_num(0x1_0000_0005), Some(5));
    assert_eq!(<u16 as ENum>::from_num(0x5_FFFF), 0xFFFF);
    assert_eq!(<u64 as ENum>::try_from_num(u64::MAX), Some(u64::MAX));
}
