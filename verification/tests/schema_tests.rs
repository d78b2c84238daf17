use e_num::schema::{
    analyze, round_up, EncodingLayout, FieldShape, SchemaError, Var, Variant, VariantStyle,
};

fn unit(name: &str) -> Var {
    Var { name: String::from(name), fields: FieldShape::Unit, constant: None }
}

fn field(name: &str) -> Var {
    Var { name: String::from(name), fields: FieldShape::Tuple(1), constant: None }
}

fn constant(name: &str, k: u64) -> Var {
    Var { name: String::from(name), fields: FieldShape::Unit, constant: Some(k) }
}

fn tags(l: &EncodingLayout) -> Vec<(String, u64)> {
    l.entries.iter().map(|e| (e.variant.name.clone(), e.tag)).collect()
}

#[test]
fn round_up_values() {
    assert_eq!(round_up(1), 1);
    assert_eq!(round_up(2), 2);
    assert_eq!(round_up(3), 4);
    assert_eq!(round_up(4), 4);
    assert_eq!(round_up(5), 8);
    assert_eq!(round_up(63), 64);
    assert_eq!(round_up(64), 64);
    assert_eq!(round_up(65), 128);
    assert_eq!(round_up(0x8000_0000_0000_0000), 0x8000_0000_0000_0000);
}

#[test]
fn from_var_classification() {
    assert_eq!(
        Variant::from_var(unit("A")),
        Ok(Variant { name: String::from("A"), style: VariantStyle::Unit })
    );
    assert_eq!(
        Variant::from_var(field("B")),
        Ok(Variant { name: String::from("B"), style: VariantStyle::Field })
    );
    assert_eq!(
        Variant::from_var(constant("C", 9)),
        Ok(Variant { name: String::from("C"), style: VariantStyle::Constant(9) })
    );
    // an explicit constant takes precedence over the field shape
    let odd = Var { name: String::from("D"), fields: FieldShape::Struct, constant: Some(3) };
    assert_eq!(
        Variant::from_var(odd),
        Ok(Variant { name: String::from("D"), style: VariantStyle::Constant(3) })
    );
}

#[test]
fn from_var_rejections() {
    let zero = Var { name: String::from("A"), fields: FieldShape::Tuple(0), constant: None };
    assert_eq!(Variant::from_var(zero), Err(SchemaError::InvalidFields));
    let two = Var { name: String::from("B"), fields: FieldShape::Tuple(2), constant: None };
    assert_eq!(Variant::from_var(two), Err(SchemaError::InvalidFields));
    let named = Var { name: String::from("C"), fields: FieldShape::Struct, constant: None };
    assert_eq!(Variant::from_var(named), Err(SchemaError::StructVariant));
}

#[test]
fn analyze_empty_list() {
    assert_eq!(analyze(vec![], 0), Err(SchemaError::EmptyVariantList));
}

#[test]
fn analyze_first_error_wins() {
    let vars = vec![
        unit("A"),
        Var { name: String::from("B"), fields: FieldShape::Struct, constant: None },
        Var { name: String::from("C"), fields: FieldShape::Tuple(2), constant: None },
    ];
    assert_eq!(analyze(vars, 0), Err(SchemaError::StructVariant));
}

#[test]
fn sequential_auto_numbering_skips_constants() {
    // constants interleaved in the declaration do not consume tag values
    let vars = vec![unit("A"), constant("K", 40), field("B"), constant("L", 50), unit("C")];
    let layout = analyze(vars, 7).unwrap();
    assert_eq!(
        tags(&layout),
        vec![
            (String::from("A"), 7),
            (String::from("B"), 8),
            (String::from("C"), 9),
            (String::from("K"), 40),
            (String::from("L"), 50),
        ]
    );
}

#[test]
fn start_at_offsets() {
    // the documented example: constants are pulled out, the rest count
    // from the chosen offset
    let vars = vec![constant("B", 2), unit("C"), unit("D"), unit("E")];
    let layout = analyze(vars, 9).unwrap();
    assert_eq!(
        tags(&layout),
        vec![
            (String::from("C"), 9),
            (String::from("D"), 10),
            (String::from("E"), 11),
            (String::from("B"), 2),
        ]
    );
    // start_at + 3 auto variants == 12, rounded up to 16: four mask bits
    assert_eq!(layout.mask_width, 4);
}

#[test]
fn mask_width_degenerate_single_variant() {
    let layout = analyze(vec![unit("A")], 0).unwrap();
    assert_eq!(layout.mask_width, 0);
    let one_constant = analyze(vec![constant("A", 5)], 0).unwrap();
    assert_eq!(one_constant.mask_width, 0);
}

#[test]
fn mask_width_counts_only_auto_variants() {
    // three constants and one auto variant: the mask covers one tag
    let vars = vec![constant("A", 9), constant("B", 7), unit("C"), constant("D", 8)];
    let layout = analyze(vars, 0).unwrap();
    assert_eq!(layout.mask_width, 0);
    assert_eq!(tags(&layout)[0], (String::from("C"), 0));
}
