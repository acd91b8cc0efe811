//! Field classification: the declaration-time pass over a record type.
//!
//! Each field of a declared record is classified exactly once, when the
//! record's shape is processed: a field without a pattern attribute is
//! plain and keeps the host's ordinary single-field binding; a field with
//! a pattern attribute becomes a selective map collector target. A
//! malformed declaration — a pattern on a field whose container type is
//! not a two-parameter generic, or a pattern that does not compile — is
//! rejected here, before any data is processed, never at decode time.
//!
//! The declared shapes are reduced to what this pass reads of them: the
//! container type's generic arguments, the lifetimes they carry, and the
//! per-field attribute.

use vstd::prelude::*;

use crate::pattern::Matcher;
use crate::pattern::PatternError;
use crate::pattern::regex_valid;

verus! {

/// One generic argument of a declared container type, reduced to what
/// classification reads of it. Lifetimes are identified by number.
#[derive(Debug, Clone, Copy, PartialEq, Eq, Structural)]
pub enum ArgShape {
    /// A lifetime argument.
    Lifetime(u64),
    /// A type argument that is not a reference with a named lifetime.
    Owned,
    /// A reference type argument with a named lifetime.
    Borrowed(u64),
}

/// A field's declared container type, as far as classification looks at
/// it.
#[derive(Debug, Clone, PartialEq)]
pub enum ContainerType {
    /// A path type whose last segment carries angle-bracketed arguments.
    Generic(Vec<ArgShape>),
    /// A path type without angle-bracketed arguments.
    Bare,
    /// Not a path type at all.
    NonPath,
}

/// One field of a record declaration: its name, its declared container
/// type, and the optional attribute data — a pattern string and a named
/// custom key-projection function.
#[derive(Debug, Clone, PartialEq)]
pub struct FieldDecl {
    pub name: String,
    pub ty: ContainerType,
    pub pattern: Option<String>,
    pub key_access: Option<String>,
}

/// How the generated decode routine must tie the input buffer's lifetime
/// to the key and value types: not at all, to one lifetime, or to two
/// distinct ones.
#[derive(Debug, Clone, Copy, PartialEq, Eq, Structural)]
pub enum LifetimePlan {
    NoBorrow,
    Single(u64),
    Pair { key: u64, value: u64 },
}

/// Why a declaration was rejected. All of these are declaration-time
/// errors: the declaring type cannot be used until fixed.
#[derive(Debug, Clone, PartialEq)]
pub enum DeclError {
    /// The declared item is neither a struct nor an enum.
    UnsupportedItem,
    /// The container type is not a path type.
    NotPath,
    /// The container's path carries no angle-bracketed argument list.
    NotGeneric,
    /// The argument list does not hold exactly a key type and a value
    /// type.
    WrongArity,
    /// The pattern string does not compile; the payload carries the
    /// matching engine's message.
    BadPattern(PatternError),
}

/// What extracting the key and value types from a container type yields:
/// the container must be a path type with exactly two angle-bracketed
/// arguments.
pub open spec fn inner_spec(ty: ContainerType) -> Result<(ArgShape, ArgShape), DeclError> {
    match ty {
        ContainerType::Generic(args) => if args@.len() == 2 {
            Ok((args@[0], args@[1]))
        } else {
            Err(DeclError::WrongArity)
        },
        ContainerType::Bare => Err(DeclError::NotGeneric),
        ContainerType::NonPath => Err(DeclError::NotPath),
    }
}

/// Extract the key and value types from a field's declared container
/// type, or reject the container's shape.
pub fn inner(ty: &ContainerType) -> (r: Result<(ArgShape, ArgShape), DeclError>)
    ensures
        r == inner_spec(*ty),
{
    match ty {
        ContainerType::Generic(args) => {
            if args.len() == 2 {
                Ok((args[0], args[1]))
            } else {
                Err(DeclError::WrongArity)
            }
        },
        ContainerType::Bare => Err(DeclError::NotGeneric),
        ContainerType::NonPath => Err(DeclError::NotPath),
    }
}

/// The named lifetime of a reference type argument, if it has one.
pub open spec fn lifetime_spec(arg: ArgShape) -> Option<u64> {
    match arg {
        ArgShape::Borrowed(lt) => Some(lt),
        _ => None,
    }
}

/// The named lifetime of a reference type argument, if it has one.
pub fn lifetime(arg: &ArgShape) -> (r: Option<u64>)
    ensures
        r == lifetime_spec(*arg),
{
    match arg {
        ArgShape::Borrowed(lt) => Some(*lt),
        _ => None,
    }
}

/// How the key and value lifetimes combine: none, one shared bound, or
/// two distinct bounds.
pub open spec fn lifetime_plan_spec(key: Option<u64>, value: Option<u64>) -> LifetimePlan {
    match (key, value) {
        (None, None) => LifetimePlan::NoBorrow,
        (None, Some(v)) => LifetimePlan::Single(v),
        (Some(k), None) => LifetimePlan::Single(k),
        (Some(k), Some(v)) => if k == v {
            LifetimePlan::Single(k)
        } else {
            LifetimePlan::Pair { key: k, value: v }
        },
    }
}

/// Combine the key and value lifetimes into the plan for the generated
/// decode routine.
pub fn lifetime_plan(key: Option<u64>, value: Option<u64>) -> (r: LifetimePlan)
    ensures
        r == lifetime_plan_spec(key, value),
{
    match (key, value) {
        (None, None) => LifetimePlan::NoBorrow,
        (None, Some(v)) => LifetimePlan::Single(v),
        (Some(k), None) => LifetimePlan::Single(k),
        (Some(k), Some(v)) => if k == v {
            LifetimePlan::Single(k)
        } else {
            LifetimePlan::Pair { key: k, value: v }
        },
    }
}

/// The decode plan for one selective field: its compiled pattern,
/// whether a custom key projection was named, and the lifetime bounds of
/// its generated routine.
pub struct SelectivePlan {
    pub matcher: Matcher,
    pub custom_key_access: bool,
    pub lifetimes: LifetimePlan,
}

/// The decode plan for one field.
pub enum FieldPlan {
    /// No pattern attribute: the field keeps the host's ordinary
    /// single-field binding.
    Plain,
    /// A pattern attribute is present: the field is decoded by the
    /// selective map collector.
    Selective(SelectivePlan),
}

/// Whether processing this field succeeds: a plain field always does; a
/// selective field needs a compilable pattern and a two-parameter
/// container.
pub open spec fn field_ok(field: FieldDecl) -> bool {
    match field.pattern {
        None => true,
        Some(p) => regex_valid(p@) && inner_spec(field.ty) is Ok,
    }
}

/// The error a faulty field reports: the pattern is compiled first, so a
/// compile failure is reported before a bad container shape.
pub open spec fn field_err_matches(field: FieldDecl, e: DeclError) -> bool {
    match field.pattern {
        None => false,
        Some(p) => if !regex_valid(p@) {
            e is BadPattern
        } else {
            inner_spec(field.ty) matches Err(e2) && e == e2
        },
    }
}

/// What a successful plan for this field must hold.
pub open spec fn plan_matches_field(field: FieldDecl, plan: FieldPlan) -> bool {
    match field.pattern {
        None => plan is Plain,
        Some(p) => {
            &&& plan matches FieldPlan::Selective(sp)
            &&& sp.matcher@ == p@
            &&& sp.custom_key_access == (field.key_access is Some)
            &&& inner_spec(field.ty) matches Ok((k, v)) && sp.lifetimes == lifetime_plan_spec(
                lifetime_spec(k),
                lifetime_spec(v),
            )
        },
    }
}

/// Classify one field: leave it plain when it carries no pattern
/// attribute, otherwise compile its pattern eagerly, check its container
/// type, and build its selective decode plan.
pub fn replace_attr(field: &FieldDecl) -> (r: Result<FieldPlan, DeclError>)
    ensures
        r matches Ok(plan) ==> field_ok(*field) && plan_matches_field(*field, plan),
        r matches Err(e) ==> !field_ok(*field) && field_err_matches(*field, e),
{
    match &field.pattern {
        None => Ok(FieldPlan::Plain),
        Some(p) => match Matcher::compile(p.as_str()) {
            Err(pe) => Err(DeclError::BadPattern(pe)),
            Ok(m) => match inner(&field.ty) {
                Err(e) => Err(e),
                Ok((k, v)) => {
                    let key_lt = lifetime(&k);
                    let value_lt = lifetime(&v);
                    Ok(
                        FieldPlan::Selective(
                            SelectivePlan {
                                matcher: m,
                                custom_key_access: field.key_access.is_some(),
                                lifetimes: lifetime_plan(key_lt, value_lt),
                            },
                        ),
                    )
                },
            },
        },
    }
}

/// A declared item: a struct, an enum, or something else (which is
/// rejected).
pub enum ItemDecl {
    Struct(Vec<FieldDecl>),
    Enum(Vec<VariantDecl>),
    Other,
}

/// One variant of a declared enum.
pub struct VariantDecl {
    pub name: String,
    pub fields: VariantFields,
}

/// The fields of an enum variant. Only a variant with named fields is
/// rewritten; a tuple or unit variant is left exactly as declared.
pub enum VariantFields {
    Named(Vec<FieldDecl>),
    Other,
}

/// The declaration-time plan for a whole item.
pub enum ItemPlan {
    Struct(Vec<FieldPlan>),
    Enum(Vec<VariantPlan>),
}

/// The plan for one enum variant.
pub enum VariantPlan {
    Named(Vec<FieldPlan>),
    Untouched,
}

/// The first field, in declaration order, whose classification fails.
pub open spec fn first_bad_field(fields: Seq<FieldDecl>) -> Option<int>
    decreases fields.len(),
{
    if fields.len() == 0 {
        None
    } else {
        match first_bad_field(fields.drop_last()) {
            Some(j) => Some(j),
            None => if field_ok(fields.last()) {
                None
            } else {
                Some(fields.len() - 1)
            },
        }
    }
}

/// Whether a plan list classifies a field list, field by field.
pub open spec fn plans_match_fields(fields: Seq<FieldDecl>, plans: Seq<FieldPlan>) -> bool {
    &&& plans.len() == fields.len()
    &&& forall|i: int|
        0 <= i < fields.len() ==> plan_matches_field(fields[i], #[trigger] plans[i])
}

/// The fields this pass walks in a variant: the named ones, or none.
pub open spec fn variant_fields_of(v: VariantDecl) -> Seq<FieldDecl> {
    match v.fields {
        VariantFields::Named(fs) => fs@,
        VariantFields::Other => Seq::empty(),
    }
}

/// The first variant, in declaration order, holding a field whose
/// classification fails.
pub open spec fn first_bad_variant(variants: Seq<VariantDecl>) -> Option<int>
    decreases variants.len(),
{
    if variants.len() == 0 {
        None
    } else {
        match first_bad_variant(variants.drop_last()) {
            Some(j) => Some(j),
            None => if first_bad_field(variant_fields_of(variants.last())) is None {
                None
            } else {
                Some(variants.len() - 1)
            },
        }
    }
}

/// Whether a variant's plan classifies it.
pub open spec fn plan_matches_variant(v: VariantDecl, p: VariantPlan) -> bool {
    match v.fields {
        VariantFields::Named(fs) => p matches VariantPlan::Named(ps) && plans_match_fields(
            fs@,
            ps@,
        ),
        VariantFields::Other => p is Untouched,
    }
}

/// Whether a plan list classifies a variant list, variant by variant.
pub open spec fn plans_match_variants(vs: Seq<VariantDecl>, ps: Seq<VariantPlan>) -> bool {
    &&& ps.len() == vs.len()
    &&& forall|i: int| 0 <= i < vs.len() ==> plan_matches_variant(vs[i], #[trigger] ps[i])
}

/// A fault in a prefix of the field list is the fault of the whole
/// list: classification stops at the earliest faulty field.
proof fn lemma_first_bad_field_persists(fields: Seq<FieldDecl>, i: int)
    requires
        0 <= i <= fields.len(),
        first_bad_field(fields.take(i)) is Some,
    ensures
        first_bad_field(fields) == first_bad_field(fields.take(i)),
    decreases fields.len() - i,
{
    if i < fields.len() {
        assert(fields.take(i + 1).drop_last() =~= fields.take(i));
        lemma_first_bad_field_persists(fields, i + 1);
    } else {
        assert(fields.take(i) =~= fields);
    }
}

/// A fault in a prefix of the variant list is the fault of the whole
/// list.
proof fn lemma_first_bad_variant_persists(variants: Seq<VariantDecl>, i: int)
    requires
        0 <= i <= variants.len(),
        first_bad_variant(variants.take(i)) is Some,
    ensures
        first_bad_variant(variants) == first_bad_variant(variants.take(i)),
    decreases variants.len() - i,
{
    if i < variants.len() {
        assert(variants.take(i + 1).drop_last() =~= variants.take(i));
        lemma_first_bad_variant_persists(variants, i + 1);
    } else {
        assert(variants.take(i) =~= variants);
    }
}

/// Classify a list of fields, in declaration order, stopping at the
/// first faulty one.
#[verifier::loop_isolation(false)]
pub fn plan_fields(fields: &Vec<FieldDecl>) -> (r: Result<Vec<FieldPlan>, DeclError>)
    ensures
        r matches Ok(plans) ==> first_bad_field(fields@) is None && plans_match_fields(
            fields@,
            plans@,
        ),
        r matches Err(e) ==> (first_bad_field(fields@) matches Some(j) && field_err_matches(
            fields@[j],
            e,
        )),
{
    let mut plans: Vec<FieldPlan> = Vec::new();
    let mut i: usize = 0;
    proof {
        assert(fields@.take(0) =~= Seq::<FieldDecl>::empty());
    }
    while i < fields.len()
        invariant
            i <= fields.len(),
            first_bad_field(fields@.take(i as int)) is None,
            plans_match_fields(fields@.take(i as int), plans@),
        decreases fields.len() - i,
    {
        proof {
            assert(fields@.take(i + 1).drop_last() =~= fields@.take(i as int));
            assert(fields@.take(i + 1).last() == fields@[i as int]);
        }
        match replace_attr(&fields[i]) {
            Ok(p) => {
                plans.push(p);
                proof {
                    assert forall|j: int| 0 <= j < i + 1 implies plan_matches_field(
                        fields@.take(i + 1)[j],
                        #[trigger] plans@[j],
                    ) by {
                        if j < i {
                            assert(plan_matches_field(fields@.take(i as int)[j], plans@[j]));
                        }
                    }
                }
            },
            Err(e) => {
                proof {
                    assert(first_bad_field(fields@.take(i + 1)) == Some(i as int));
                    lemma_first_bad_field_persists(fields@, i + 1);
                }
                return Err(e);
            },
        }
        i = i + 1;
    }
    proof {
        assert(fields@.take(fields@.len() as int) =~= fields@);
    }
    Ok(plans)
}

/// The declaration-time pass over a whole item: classify every field of
/// a struct, and every named field of every enum variant, leaving any
/// other shape untouched; reject any other kind of item. A faulty
/// declaration rejects the whole item — the earliest faulty field wins.
#[verifier::loop_isolation(false)]
pub fn flat_regex(item: &ItemDecl) -> (r: Result<ItemPlan, DeclError>)
    ensures
        item is Other ==> r == Err::<ItemPlan, DeclError>(DeclError::UnsupportedItem),
        item matches ItemDecl::Struct(fields) ==> (match r {
            Ok(plan) => plan matches ItemPlan::Struct(plans) && first_bad_field(fields@) is None
                && plans_match_fields(fields@, plans@),
            Err(e) => first_bad_field(fields@) matches Some(j) && field_err_matches(
                fields@[j],
                e,
            ),
        }),
        item matches ItemDecl::Enum(variants) ==> (match r {
            Ok(plan) => plan matches ItemPlan::Enum(vplans) && first_bad_variant(variants@)
                is None && plans_match_variants(variants@, vplans@),
            Err(e) => first_bad_variant(variants@) matches Some(j) && (first_bad_field(
                variant_fields_of(variants@[j]),
            ) matches Some(k) && field_err_matches(variant_fields_of(variants@[j])[k], e)),
        }),
{
    match item {
        ItemDecl::Other => Err(DeclError::UnsupportedItem),
        ItemDecl::Struct(fields) => match plan_fields(fields) {
            Ok(plans) => Ok(ItemPlan::Struct(plans)),
            Err(e) => Err(e),
        },
        ItemDecl::Enum(variants) => {
            let mut vplans: Vec<VariantPlan> = Vec::new();
            let mut i: usize = 0;
            proof {
                assert(variants@.take(0) =~= Seq::<VariantDecl>::empty());
            }
            while i < variants.len()
                invariant
                    i <= variants.len(),
                    first_bad_variant(variants@.take(i as int)) is None,
                    plans_match_variants(variants@.take(i as int), vplans@),
                decreases variants.len() - i,
            {
                proof {
                    assert(variants@.take(i + 1).drop_last() =~= variants@.take(i as int));
                    assert(variants@.take(i + 1).last() == variants@[i as int]);
                }
                match &variants[i].fields {
                    VariantFields::Named(fs) => match plan_fields(fs) {
                        Ok(ps) => {
                            vplans.push(VariantPlan::Named(ps));
                        },
                        Err(e) => {
                            proof {
                                assert(first_bad_variant(variants@.take(i + 1)) == Some(
                                    i as int,
                                ));
                                lemma_first_bad_variant_persists(variants@, i + 1);
                            }
                            return Err(e);
                        },
                    },
                    VariantFields::Other => {
                        vplans.push(VariantPlan::Untouched);
                    },
                }
                proof {
                    assert forall|j: int| 0 <= j < i + 1 implies plan_matches_variant(
                        variants@.take(i + 1)[j],
                        #[trigger] vplans@[j],
                    ) by {
                        if j < i {
                            assert(plan_matches_variant(variants@.take(i as int)[j], vplans@[j]));
                        }
                    }
                }
                i = i + 1;
            }
            proof {
                assert(variants@.take(variants@.len() as int) =~= variants@);
            }
            Ok(ItemPlan::Enum(vplans))
        },
    }
}

} // verus!
