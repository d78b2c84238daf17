//! Schema analysis: from an ordered list of variant declarations to an
//! [`EncodingLayout`].
//!
//! Variants without an explicit constant value are auto-numbered with
//! sequential tags starting at a caller-chosen offset; variants with an
//! explicit constant keep that value verbatim. The layout orders all
//! auto-numbered variants before all constant variants (each group keeping
//! its declaration order), because decoding checks auto-numbered variants
//! first.
use vstd::arithmetic::power2::{
    lemma2_to64, lemma2_to64_rest, lemma_pow2_adds, lemma_pow2_pos, lemma_pow2_strictly_increases,
    pow2,
};
use vstd::prelude::*;
use vstd::seq_lib::{group_filter_ensures, group_seq_properties};

verus! {

/// Shape of one declared variant's fields: no fields, a tuple of fields
/// (carrying how many), or named fields.
#[derive(Clone, Copy, Debug, PartialEq, Eq)]
pub enum FieldShape {
    Unit,
    Tuple(usize),
    Struct,
}

/// Style of a classified variant: carrying one recursively encoded
/// payload, carrying nothing, or pinned to an explicit constant value.
#[derive(Clone, Copy, Debug, PartialEq, Eq)]
pub enum VariantStyle {
    Field,
    Unit,
    Constant(u64),
}

/// One declared case of a tagged union, as the declaration presents it:
/// a name, the shape of its fields, and an optional explicit constant
/// value standing in for its tag.
#[derive(Debug, PartialEq, Eq)]
pub struct Var {
    pub name: String,
    pub fields: FieldShape,
    pub constant: Option<u64>,
}

/// A classified variant: its name and its style.
#[derive(Debug, PartialEq, Eq)]
pub struct Variant {
    pub name: String,
    pub style: VariantStyle,
}

/// A fatal registration-time error: the variant declarations cannot be
/// given a layout.
#[derive(Clone, Copy, Debug, PartialEq, Eq)]
pub enum SchemaError {
    /// A tuple variant with zero fields or more than one field.
    InvalidFields,
    /// A variant with named fields.
    StructVariant,
    /// An empty variant list, for which no mask width is defined.
    EmptyVariantList,
}

/// One entry of a layout: a classified variant and its resolved tag.
#[derive(Debug, PartialEq, Eq)]
pub struct LayoutEntry {
    pub variant: Variant,
    pub tag: u64,
}

/// The derived, immutable encoding artifact for one tagged-union type:
/// the classified variants in decode priority order (auto-numbered
/// variants first, then constant variants, each group in declaration
/// order), each with its resolved tag, plus the number of low-order bits
/// reserved for auto-numbered tags.
#[derive(Debug, PartialEq, Eq)]
pub struct EncodingLayout {
    pub entries: Vec<LayoutEntry>,
    pub mask_width: u8,
}

/// A declaration is a constant variant when it carries an explicit value.
pub open spec fn is_constant_var(v: Var) -> bool {
    v.constant is Some
}

/// A declaration is acceptable when it is a constant variant, a unit
/// variant, or a tuple variant with exactly one field.
pub open spec fn spec_well_shaped(v: Var) -> bool {
    ||| v.constant is Some
    ||| match v.fields {
        FieldShape::Unit => true,
        FieldShape::Tuple(n) => n == 1,
        FieldShape::Struct => false,
    }
}

/// The error reported for a declaration that is not acceptable.
pub open spec fn spec_shape_error(v: Var) -> SchemaError {
    match v.fields {
        FieldShape::Struct => SchemaError::StructVariant,
        _ => SchemaError::InvalidFields,
    }
}

/// The style a well-shaped declaration classifies to. An explicit
/// constant value takes precedence over the field shape.
pub open spec fn spec_style(v: Var) -> VariantStyle {
    match v.constant {
        Some(k) => VariantStyle::Constant(k),
        None => match v.fields {
            FieldShape::Tuple(_) => VariantStyle::Field,
            _ => VariantStyle::Unit,
        },
    }
}

/// What classification produces for one declaration.
pub open spec fn spec_from_var(v: Var) -> Result<Variant, SchemaError> {
    if spec_well_shaped(v) {
        Ok(Variant { name: v.name, style: spec_style(v) })
    } else {
        Err(spec_shape_error(v))
    }
}

/// The classified variant of a well-shaped declaration.
pub open spec fn spec_variant_of(v: Var) -> Variant {
    Variant { name: v.name, style: spec_style(v) }
}

impl Variant {
    /// Classify one declaration, rejecting tuple variants whose field
    /// count is not exactly one and variants with named fields.
    pub fn from_var(var: Var) -> (r: Result<Variant, SchemaError>)
        ensures
            r == spec_from_var(var),
    {
        match var.constant {
            Some(k) => Ok(Variant { name: var.name, style: VariantStyle::Constant(k) }),
            None => match var.fields {
                FieldShape::Tuple(n) => {
                    if n == 1 {
                        Ok(Variant { name: var.name, style: VariantStyle::Field })
                    } else {
                        Err(SchemaError::InvalidFields)
                    }
                },
                FieldShape::Unit => Ok(Variant { name: var.name, style: VariantStyle::Unit }),
                FieldShape::Struct => Err(SchemaError::StructVariant),
            },
        }
    }
}

/// The number of low-order bits needed to address every value below the
/// smallest power of two that is at least `m`: the smallest `w` with
/// `m <= pow2(w)`.
pub open spec fn spec_mask_width(m: nat) -> nat
    decreases m,
{
    if m <= 1 {
        0
    } else {
        1 + spec_mask_width((m + 1) / 2)
    }
}

/// `pow2(spec_mask_width(m))` is the smallest power of two that is at
/// least `m`: it reaches `m`, and its half falls short of `m`.
pub proof fn lemma_mask_width(m: nat)
    ensures
        m <= pow2(spec_mask_width(m)),
        m >= 1 ==> pow2(spec_mask_width(m)) < 2 * m,
    decreases m,
{
    lemma2_to64();
    if m <= 1 {
    } else {
        let h = ((m + 1) / 2) as nat;
        lemma_mask_width(h);
        let wh = spec_mask_width(h);
        lemma_pow2_adds(wh, 1);
        assert(pow2(spec_mask_width(m)) == 2 * pow2(wh));
        assert(2 * h >= m);
        if m % 2 == 1 {
            // pow2(wh) < 2 * h == m + 1, and pow2(wh) cannot equal the odd m
            if pow2(wh) == m {
                if wh == 0 {
                    assert(false);
                } else {
                    lemma_pow2_adds((wh - 1) as nat, 1);
                    assert(pow2(wh) == 2 * pow2((wh - 1) as nat));
                    assert(false);
                }
            }
            assert(pow2(wh) < m);
        } else {
            assert(2 * h == m);
            assert(pow2(wh) < m);
        }
    }
}

/// A power of two lying in `[m, 2 * m)` is necessarily
/// `pow2(spec_mask_width(m))`.
pub proof fn lemma_mask_width_unique(m: nat, w: nat)
    requires
        m >= 1,
        m <= pow2(w),
        pow2(w) < 2 * m,
    ensures
        w == spec_mask_width(m),
{
    let wm = spec_mask_width(m);
    lemma_mask_width(m);
    if w < wm {
        lemma_pow2_adds(w, (wm - w) as nat);
        lemma_pow2_pos(w);
        lemma_pow2_strictly_increases(0, (wm - w) as nat);
        lemma2_to64();
        assert(pow2(wm) == pow2(w) * pow2((wm - w) as nat));
        assert(pow2(wm) >= pow2(w) * 2) by (nonlinear_arith)
            requires
                pow2(wm) == pow2(w) * pow2((wm - w) as nat),
                pow2((wm - w) as nat) >= 2,
                pow2(w) >= 1,
        ;
        assert(false);
    } else if wm < w {
        lemma_pow2_adds(wm, (w - wm) as nat);
        lemma_pow2_pos(wm);
        lemma_pow2_strictly_increases(0, (w - wm) as nat);
        lemma2_to64();
        assert(pow2(w) == pow2(wm) * pow2((w - wm) as nat));
        assert(pow2(w) >= pow2(wm) * 2) by (nonlinear_arith)
            requires
                pow2(w) == pow2(wm) * pow2((w - wm) as nat),
                pow2((w - wm) as nat) >= 2,
                pow2(wm) >= 1,
        ;
        assert(false);
    }
}

/// The declarations without an explicit constant value, in declaration
/// order.
pub open spec fn non_constants(vs: Seq<Var>) -> Seq<Var> {
    vs.filter(|v: Var| !is_constant_var(v))
}

/// The declarations with an explicit constant value, in declaration
/// order.
pub open spec fn constants(vs: Seq<Var>) -> Seq<Var> {
    vs.filter(|v: Var| is_constant_var(v))
}

/// The error of the first declaration that is not acceptable, if any.
pub open spec fn spec_decl_error(vs: Seq<Var>) -> Option<SchemaError>
    decreases vs.len(),
{
    if vs.len() == 0 {
        None
    } else if !spec_well_shaped(vs[0]) {
        Some(spec_shape_error(vs[0]))
    } else {
        spec_decl_error(vs.drop_first())
    }
}

proof fn lemma_decl_error_none(vs: Seq<Var>)
    requires
        forall|j: int| 0 <= j < vs.len() ==> spec_well_shaped(#[trigger] vs[j]),
    ensures
        spec_decl_error(vs) is None,
    decreases vs.len(),
{
    if vs.len() > 0 {
        lemma_decl_error_none(vs.drop_first());
    }
}

proof fn lemma_decl_error_first(vs: Seq<Var>, i: int)
    requires
        0 <= i < vs.len(),
        forall|j: int| 0 <= j < i ==> spec_well_shaped(#[trigger] vs[j]),
        !spec_well_shaped(vs[i]),
    ensures
        spec_decl_error(vs) == Some(spec_shape_error(vs[i])),
    decreases i,
{
    if i > 0 {
        lemma_decl_error_first(vs.drop_first(), i - 1);
    }
}

/// A layout entry stands for a constant variant.
pub open spec fn entry_is_constant(e: LayoutEntry) -> bool {
    e.variant.style is Constant
}

/// What every layout handed out by the analyzer satisfies, and what the
/// encoder and the decoder count on: at least one entry; a mask narrow
/// enough to leave payload bits; all auto-numbered entries before all
/// constant entries; every auto-numbered tag below `pow2(mask_width)` and
/// distinct from every other auto-numbered tag; every constant entry's
/// tag equal to its declared constant value.
pub open spec fn layout_wf(l: EncodingLayout) -> bool {
    &&& 1 <= l.entries@.len()
    &&& l.mask_width <= 63
    &&& forall|i: int, j: int|
        0 <= i < j < l.entries@.len() && entry_is_constant(#[trigger] l.entries@[i])
            ==> entry_is_constant(#[trigger] l.entries@[j])
    &&& forall|i: int|
        0 <= i < l.entries@.len() && !entry_is_constant(#[trigger] l.entries@[i])
            ==> l.entries@[i].tag < pow2(l.mask_width as nat)
    &&& forall|i: int, j: int|
        0 <= i < j < l.entries@.len() && !entry_is_constant(#[trigger] l.entries@[i])
            && !entry_is_constant(#[trigger] l.entries@[j]) ==> l.entries@[i].tag
            != l.entries@[j].tag
    &&& forall|i: int|
        0 <= i < l.entries@.len() ==> ((#[trigger] l.entries@[i]).variant.style matches
        VariantStyle::Constant(k) ==> l.entries@[i].tag == k)
}

/// How a layout's entries relate to the declarations they came from:
/// the auto-numbered declarations come first, in declaration order, with
/// tags `start_at`, `start_at + 1`, and so on; the constant declarations
/// follow, in declaration order, each tagged with its declared value.
pub open spec fn spec_entries_ok(l: EncodingLayout, vs: Seq<Var>, start_at: u64) -> bool {
    let nc = non_constants(vs);
    let cs = constants(vs);
    &&& l.entries@.len() == vs.len()
    &&& nc.len() + cs.len() == vs.len()
    &&& forall|i: int|
        0 <= i < nc.len() ==> #[trigger] l.entries@[i].variant == spec_variant_of(nc[i])
            && l.entries@[i].tag == start_at + i
    &&& forall|i: int|
        nc.len() <= i < vs.len() ==> #[trigger] l.entries@[i].variant == spec_variant_of(
            cs[i - nc.len()],
        ) && l.entries@[i].tag == cs[i - nc.len()].constant.unwrap()
}

/// Compute the layout for an ordered list of variant declarations.
///
/// Auto-numbered (non-constant) variants receive the tags `start_at`,
/// `start_at + 1`, ... in declaration order; constant variants keep their
/// declared value as their tag and are placed after all auto-numbered
/// variants. The mask width is the number of low-order bits needed to
/// address every value below the smallest power of two reaching
/// `start_at` plus the number of auto-numbered variants.
///
/// Fails on an empty declaration list and on the first malformed
/// declaration, and on nothing else. Callers keep `start_at` plus the
/// declaration count within half the 64-bit range, so that no tag
/// computation can overflow the word.
pub fn analyze(variants: Vec<Var>, start_at: u64) -> (r: Result<EncodingLayout, SchemaError>)
    requires
        start_at + variants@.len() <= 0x8000_0000_0000_0000u64,
    ensures
        variants@.len() == 0 ==> r == Err::<EncodingLayout, SchemaError>(
            SchemaError::EmptyVariantList,
        ),
        variants@.len() > 0 && spec_decl_error(variants@) is Some ==> r == Err::<
            EncodingLayout,
            SchemaError,
        >(spec_decl_error(variants@).unwrap()),
        variants@.len() > 0 && spec_decl_error(variants@) is None ==> r is Ok && {
            let l = r->Ok_0;
            &&& spec_entries_ok(l, variants@, start_at)
            &&& l.mask_width == spec_mask_width((start_at + non_constants(variants@).len()) as nat)
            &&& layout_wf(l)
        },
{
    broadcast use group_seq_properties;

    let n = variants.len();
    if n == 0 {
        return Err(SchemaError::EmptyVariantList);
    }
    let mut nc_entries: Vec<LayoutEntry> = Vec::new();
    let mut cs_entries: Vec<LayoutEntry> = Vec::new();
    let mut idx: usize = 0;
    while idx < n
        invariant
            n == variants@.len(),
            start_at + n <= 0x8000_0000_0000_0000u64,
            idx <= n,
            forall|j: int| 0 <= j < idx ==> spec_well_shaped(#[trigger] variants@[j]),
            nc_entries@.len() == non_constants(variants@.take(idx as int)).len(),
            cs_entries@.len() == constants(variants@.take(idx as int)).len(),
            nc_entries@.len() + cs_entries@.len() == idx,
            forall|i: int|
                0 <= i < nc_entries@.len() ==> #[trigger] nc_entries@[i].variant
                    == spec_variant_of(non_constants(variants@.take(idx as int))[i])
                    && nc_entries@[i].tag == start_at + i,
            forall|i: int|
                0 <= i < cs_entries@.len() ==> #[trigger] cs_entries@[i].variant
                    == spec_variant_of(constants(variants@.take(idx as int))[i])
                    && cs_entries@[i].tag == constants(variants@.take(idx as int))[
                    i].constant.unwrap(),
        decreases n - idx,
    {
        let v = Var {
            name: variants[idx].name.clone(),
            fields: variants[idx].fields,
            constant: variants[idx].constant,
        };
        proof {
            assert(v == variants@[idx as int]);
            assert(variants@.take(idx as int + 1) =~= variants@.take(idx as int).push(
                variants@[idx as int],
            ));
            Seq::lemma_filter_push(
                variants@.take(idx as int),
                variants@[idx as int],
                |x: Var| !is_constant_var(x),
            );
            Seq::lemma_filter_push(
                variants@.take(idx as int),
                variants@[idx as int],
                |x: Var| is_constant_var(x),
            );
        }
        match Variant::from_var(v) {
            Err(e) => {
                proof {
                    lemma_decl_error_first(variants@, idx as int);
                }
                return Err(e);
            },
            Ok(variant) => {
                match variant.style {
                    VariantStyle::Constant(k) => {
                        cs_entries.push(LayoutEntry { variant, tag: k });
                    },
                    _ => {
                        let tag = start_at + (nc_entries.len() as u64);
                        nc_entries.push(LayoutEntry { variant, tag });
                    },
                }
                idx += 1;
            },
        }
    }
    proof {
        lemma_decl_error_none(variants@);
        assert(variants@.take(n as int) =~= variants@);
    }
    let nc_count = nc_entries.len() as u64;
    let m = start_at + nc_count;
    let p = round_up(if m == 0 { 1 } else { m });
    proof {
        lemma2_to64();
        if m == 0 {
            assert(spec_mask_width(m as nat) == spec_mask_width(1nat));
        }
    }
    let ghost target: nat = spec_mask_width(if m == 0 { 1nat } else { m as nat });
    let mut w: u8 = 0;
    let mut p2: u64 = 1;
    while p2 < p
        invariant
            p2 == pow2(w as nat),
            p2 <= p,
            p == pow2(target),
            target <= 63,
            p <= 0x8000_0000_0000_0000u64,
        decreases p - p2,
    {
        proof {
            if w as nat >= target {
                if w as nat > target {
                    lemma_pow2_strictly_increases(target, w as nat);
                }
                assert(false);
            }
            lemma_pow2_adds(w as nat, 1);
            lemma2_to64();
            lemma_pow2_strictly_increases(w as nat + 1, 64);
            lemma2_to64_rest();
        }
        p2 = p2 * 2;
        w = w + 1;
    }
    proof {
        if (w as nat) < target {
            lemma_pow2_strictly_increases(w as nat, target);
        }
        if (w as nat) > target {
            lemma_pow2_strictly_increases(target, w as nat);
        }
        assert(w as nat == target);
    }
    let mut entries = nc_entries;
    entries.append(&mut cs_entries);
    let layout = EncodingLayout { entries, mask_width: w };
    proof {
        broadcast use group_filter_ensures;

        let vs = variants@;
        let nc = non_constants(vs);
        let cs = constants(vs);
        let es = layout.entries@;
        if m > 0 {
            lemma_mask_width(m as nat);
        }
        assert forall|i: int| 0 <= i < nc.len() implies !entry_is_constant(#[trigger] es[i])
            && es[i].tag < pow2(w as nat) by {
            assert(!is_constant_var(nc[i]));
        }
        assert forall|i: int| nc.len() <= i < es.len() implies entry_is_constant(
            #[trigger] es[i],
        ) && (es[i].variant.style matches VariantStyle::Constant(k) ==> es[i].tag == k) by {
            assert(is_constant_var(cs[i - nc.len()]));
        }
    }
    Ok(layout)
}

/// Round a positive number up to the smallest power of two that reaches
/// it.
pub fn round_up(num_to_round: u64) -> (r: u64)
    requires
        1 <= num_to_round,
        num_to_round <= 0x8000_0000_0000_0000u64,
    ensures
        r == pow2(spec_mask_width(num_to_round as nat)),
        num_to_round <= r,
        r <= 0x8000_0000_0000_0000u64,
        spec_mask_width(num_to_round as nat) <= 63,
{
    proof {
        lemma2_to64();
        lemma2_to64_rest();
    }
    let mut v: u64 = 1;
    let ghost mut k: nat = 0;
    while v < num_to_round
        invariant
            1 <= v,
            v == pow2(k),
            k == 0 || pow2((k - 1) as nat) < num_to_round,
            num_to_round <= 0x8000_0000_0000_0000u64,
            v < 2 * num_to_round,
        decreases 2 * num_to_round - v,
    {
        proof {
            lemma_pow2_adds(k, 1);
            lemma2_to64();
            k = k + 1;
        }
        v = v * 2;
    }
    proof {
        if k == 0 {
            assert(num_to_round == 1);
        } else {
            lemma_pow2_adds((k - 1) as nat, 1);
        }
        lemma_mask_width_unique(num_to_round as nat, k);
        if k >= 64 {
            lemma_pow2_adds(64, (k - 64) as nat);
            lemma_pow2_pos((k - 64) as nat);
            assert(pow2(k) >= pow2(64)) by (nonlinear_arith)
                requires
                    pow2(k) == pow2(64) * pow2((k - 64) as nat),
                    pow2((k - 64) as nat) >= 1,
            ;
            assert(false);
        }
        if k < 63 {
            lemma_pow2_strictly_increases(k, 63);
        }
    }
    v
}

} // verus!
