//! The laws of emission: determinism, the invisibility of skipped fields,
//! and the shape changes that are guaranteed to change the emitted
//! sequence.
//!
//! Collision avoidance below the call sequence is the accumulator's
//! concern; these laws speak of the sequences themselves.

use vstd::prelude::*;

use crate::descriptor::{DescV, FieldV, VariantV};
use crate::emit::{
    discr_calls, discr_ty, field_calls, fields_calls, lemma_fields_calls_concat,
    lemma_fields_calls_singleton, lemma_variants_calls_concat, lemma_variants_calls_singleton,
    lookup_calls, name_calls, repr_calls, spec_cast, spec_emit, variant_calls, variants_calls,
    width_modulus, BindingV, CallV,
};
use crate::plan::TreatmentV;
use crate::repr::ReprInt;

verus! {

/// Emission is a pure function of the descriptor and the environment:
/// shape-identical definitions emit byte-identical call sequences, and
/// deriving twice from one descriptor cannot differ.
pub proof fn lemma_emit_deterministic(
    d1: DescV,
    d2: DescV,
    env1: Seq<BindingV>,
    env2: Seq<BindingV>,
)
    requires
        d1 == d2,
        env1 == env2,
    ensures
        spec_emit(d1, env1) == spec_emit(d2, env2),
{
}

/// The sequence emitted before a given variant's own contribution.
pub open spec fn emit_before_variant(d: DescV, env: Seq<BindingV>, vi: int) -> Seq<CallV> {
    seq![CallV::Write(d.name)] + repr_calls(d.repr) + variants_calls(
        d.variants.take(vi),
        discr_ty(d.repr),
        env,
    )
}

/// The emitted sequence splits around any one variant's contribution.
pub proof fn lemma_emit_split_variant(d: DescV, env: Seq<BindingV>, vi: int)
    requires
        0 <= vi < d.variants.len(),
    ensures
        spec_emit(d, env) == emit_before_variant(d, env, vi) + variant_calls(
            d.variants[vi],
            discr_ty(d.repr),
            env,
        ) + variants_calls(d.variants.skip(vi + 1), discr_ty(d.repr), env),
{
    let t = discr_ty(d.repr);
    let a = d.variants.take(vi);
    let b = seq![d.variants[vi]];
    let c = d.variants.skip(vi + 1);
    assert(d.variants =~= (a + b) + c);
    lemma_variants_calls_concat(a + b, c, t, env);
    lemma_variants_calls_concat(a, b, t, env);
    lemma_variants_calls_singleton(d.variants[vi], t, env);
    assert(spec_emit(d, env) =~= emit_before_variant(d, env, vi) + variant_calls(
        d.variants[vi],
        t,
        env,
    ) + variants_calls(c, t, env));
}

/// The sequence emitted before a given field's own contribution.
pub open spec fn emit_before_field(d: DescV, env: Seq<BindingV>, vi: int, fj: int) -> Seq<
    CallV,
> {
    emit_before_variant(d, env, vi) + discr_calls(d.variants[vi].discriminant, discr_ty(d.repr))
        + fields_calls(d.variants[vi].fields.take(fj), env)
}

/// The sequence emitted from a given field position on: the remaining
/// fields of its variant, then the remaining variants.
pub open spec fn emit_from_field(d: DescV, env: Seq<BindingV>, vi: int, fj: int) -> Seq<CallV> {
    fields_calls(d.variants[vi].fields.skip(fj), env) + variants_calls(
        d.variants.skip(vi + 1),
        discr_ty(d.repr),
        env,
    )
}

/// The emitted sequence splits at any field position of any variant.
pub proof fn lemma_emit_split_field(d: DescV, env: Seq<BindingV>, vi: int, fj: int)
    requires
        0 <= vi < d.variants.len(),
        0 <= fj <= d.variants[vi].fields.len(),
    ensures
        spec_emit(d, env) == emit_before_field(d, env, vi, fj) + emit_from_field(d, env, vi, fj),
{
    let t = discr_ty(d.repr);
    let fs = d.variants[vi].fields;
    lemma_emit_split_variant(d, env, vi);
    assert(fs =~= fs.take(fj) + fs.skip(fj));
    lemma_fields_calls_concat(fs.take(fj), fs.skip(fj), env);
    assert(spec_emit(d, env) =~= emit_before_field(d, env, vi, fj) + emit_from_field(
        d,
        env,
        vi,
        fj,
    ));
}

/// Two sequences that agree on a prefix and then carry different calls
/// are different, whatever follows.
proof fn lemma_differs_after_prefix(
    p: Seq<CallV>,
    x: CallV,
    y: CallV,
    s1: Seq<CallV>,
    s2: Seq<CallV>,
    t1: Seq<CallV>,
    t2: Seq<CallV>,
)
    requires
        s1 == p + seq![x] + t1,
        s2 == p + seq![y] + t2,
        x != y,
    ensures
        s1 != s2,
{
    assert(s1[p.len() as int] == x);
    assert(s2[p.len() as int] == y);
}

/// A skipped field is invisible: removing it from the shape leaves the
/// emitted sequence unchanged.
pub proof fn lemma_skip_field_invisible(
    d1: DescV,
    d2: DescV,
    env: Seq<BindingV>,
    vi: int,
    fj: int,
)
    requires
        0 <= vi < d1.variants.len(),
        d2.variants.len() == d1.variants.len(),
        d2.name == d1.name,
        d2.repr == d1.repr,
        forall|k: int|
            0 <= k < d1.variants.len() && k != vi ==> d2.variants[k] == d1.variants[k],
        d2.variants[vi].discriminant == d1.variants[vi].discriminant,
        0 <= fj < d1.variants[vi].fields.len(),
        d1.variants[vi].fields[fj].treatment is Skip,
        d2.variants[vi].fields == d1.variants[vi].fields.remove(fj),
    ensures
        spec_emit(d1, env) == spec_emit(d2, env),
{
    let t = discr_ty(d1.repr);
    let f1s = d1.variants[vi].fields;
    let f2s = d2.variants[vi].fields;
    assert(f2s =~= f1s.take(fj) + f1s.skip(fj + 1));
    assert(f1s =~= (f1s.take(fj) + seq![f1s[fj]]) + f1s.skip(fj + 1));
    lemma_fields_calls_concat(f1s.take(fj) + seq![f1s[fj]], f1s.skip(fj + 1), env);
    lemma_fields_calls_concat(f1s.take(fj), seq![f1s[fj]], env);
    lemma_fields_calls_singleton(f1s[fj], env);
    assert(field_calls(f1s[fj], env) =~= Seq::<CallV>::empty());
    lemma_fields_calls_concat(f1s.take(fj), f1s.skip(fj + 1), env);
    assert(fields_calls(f1s, env) =~= fields_calls(f2s, env));
    assert(variant_calls(d1.variants[vi], t, env) == variant_calls(d2.variants[vi], t, env));
    lemma_emit_split_variant(d1, env, vi);
    lemma_emit_split_variant(d2, env, vi);
    assert(d2.variants.take(vi) =~= d1.variants.take(vi));
    assert(d2.variants.skip(vi + 1) =~= d1.variants.skip(vi + 1));
}

/// Two foreign-opaque fields whose declared types are spelled differently
/// make the shapes emit different sequences, even though neither type is
/// recursed into.
pub proof fn lemma_foreign_type_distinguishes(
    d1: DescV,
    d2: DescV,
    env: Seq<BindingV>,
    vi: int,
    fj: int,
)
    requires
        d2.name == d1.name,
        d2.repr == d1.repr,
        0 <= vi < d1.variants.len(),
        vi < d2.variants.len(),
        forall|k: int| 0 <= k < vi ==> d2.variants[k] == d1.variants[k],
        d2.variants[vi].discriminant == d1.variants[vi].discriminant,
        0 <= fj < d1.variants[vi].fields.len(),
        fj < d2.variants[vi].fields.len(),
        d2.variants[vi].fields.take(fj) == d1.variants[vi].fields.take(fj),
        d1.variants[vi].fields[fj].treatment is ForeignOpaque,
        d2.variants[vi].fields[fj].treatment is ForeignOpaque,
        d2.variants[vi].fields[fj].name == d1.variants[vi].fields[fj].name,
        d2.variants[vi].fields[fj].ty != d1.variants[vi].fields[fj].ty,
    ensures
        spec_emit(d1, env) != spec_emit(d2, env),
{
    let f1 = d1.variants[vi].fields[fj];
    let f2 = d2.variants[vi].fields[fj];
    lemma_emit_split_field(d1, env, vi, fj);
    lemma_emit_split_field(d2, env, vi, fj);
    assert(d2.variants.take(vi) =~= d1.variants.take(vi));
    let p = emit_before_field(d1, env, vi, fj) + name_calls(f1.name);
    assert(emit_before_field(d2, env, vi, fj) == emit_before_field(d1, env, vi, fj));
    // the contribution of each variant's remaining fields starts with the
    // foreign field's: its name write, then its type spelling's write
    let r1 = d1.variants[vi].fields.skip(fj);
    let r2 = d2.variants[vi].fields.skip(fj);
    assert(r1[0] == f1);
    assert(r2[0] == f2);
    assert(fields_calls(r1, env) == field_calls(f1, env) + fields_calls(r1.drop_first(), env));
    assert(fields_calls(r2, env) == field_calls(f2, env) + fields_calls(r2.drop_first(), env));
    assert(field_calls(f1, env) == name_calls(f1.name) + seq![CallV::Write(f1.ty)]);
    assert(field_calls(f2, env) == name_calls(f2.name) + seq![CallV::Write(f2.ty)]);
    let s1 = spec_emit(d1, env);
    let s2 = spec_emit(d2, env);
    let t1 = fields_calls(r1.drop_first(), env) + variants_calls(
        d1.variants.skip(vi + 1),
        discr_ty(d1.repr),
        env,
    );
    let t2 = fields_calls(r2.drop_first(), env) + variants_calls(
        d2.variants.skip(vi + 1),
        discr_ty(d2.repr),
        env,
    );
    assert(s1 =~= p + seq![CallV::Write(f1.ty)] + t1);
    assert(s2 =~= p + seq![CallV::Write(f2.ty)] + t2);
    lemma_differs_after_prefix(
        p,
        CallV::Write(f1.ty),
        CallV::Write(f2.ty),
        s1,
        s2,
        t1,
        t2,
    );
}

/// Field order is load-bearing: when the first differing field position
/// holds named, unskipped fields whose names differ, the emitted sequences
/// differ.  Exchanging two differently named fields is the special case.
#[verifier::rlimit(100)]
pub proof fn lemma_field_order_distinguishes(
    d1: DescV,
    d2: DescV,
    env: Seq<BindingV>,
    vi: int,
    fj: int,
)
    requires
        d2.name == d1.name,
        d2.repr == d1.repr,
        0 <= vi < d1.variants.len(),
        vi < d2.variants.len(),
        forall|k: int| 0 <= k < vi ==> d2.variants[k] == d1.variants[k],
        d2.variants[vi].discriminant == d1.variants[vi].discriminant,
        0 <= fj < d1.variants[vi].fields.len(),
        fj < d2.variants[vi].fields.len(),
        d2.variants[vi].fields.take(fj) == d1.variants[vi].fields.take(fj),
        !(d1.variants[vi].fields[fj].treatment is Skip),
        !(d2.variants[vi].fields[fj].treatment is Skip),
        d1.variants[vi].fields[fj].name is Some,
        d2.variants[vi].fields[fj].name is Some,
        d2.variants[vi].fields[fj].name != d1.variants[vi].fields[fj].name,
    ensures
        spec_emit(d1, env) != spec_emit(d2, env),
{
    let f1 = d1.variants[vi].fields[fj];
    let f2 = d2.variants[vi].fields[fj];
    let n1 = f1.name->Some_0;
    let n2 = f2.name->Some_0;
    lemma_emit_split_field(d1, env, vi, fj);
    lemma_emit_split_field(d2, env, vi, fj);
    assert(d2.variants.take(vi) =~= d1.variants.take(vi));
    let p = emit_before_field(d1, env, vi, fj);
    assert(emit_before_field(d2, env, vi, fj) == p);
    let r1 = d1.variants[vi].fields.skip(fj);
    let r2 = d2.variants[vi].fields.skip(fj);
    assert(r1[0] == f1);
    assert(r2[0] == f2);
    assert(fields_calls(r1, env) == field_calls(f1, env) + fields_calls(r1.drop_first(), env));
    assert(fields_calls(r2, env) == field_calls(f2, env) + fields_calls(r2.drop_first(), env));
    // every treatment but skip opens a named field with its name's write
    let u1 = match f1.treatment {
        TreatmentV::Default => lookup_calls(env, f1.ty),
        TreatmentV::ForeignOpaque => seq![CallV::Write(f1.ty)],
        TreatmentV::OverrideType(t) => lookup_calls(env, t),
        TreatmentV::Skip => seq![],
    };
    let u2 = match f2.treatment {
        TreatmentV::Default => lookup_calls(env, f2.ty),
        TreatmentV::ForeignOpaque => seq![CallV::Write(f2.ty)],
        TreatmentV::OverrideType(t) => lookup_calls(env, t),
        TreatmentV::Skip => seq![],
    };
    assert(field_calls(f1, env) == seq![CallV::Write(n1)] + u1);
    assert(field_calls(f2, env) == seq![CallV::Write(n2)] + u2);
    let s1 = spec_emit(d1, env);
    let s2 = spec_emit(d2, env);
    let t1 = u1 + fields_calls(r1.drop_first(), env) + variants_calls(
        d1.variants.skip(vi + 1),
        discr_ty(d1.repr),
        env,
    );
    let t2 = u2 + fields_calls(r2.drop_first(), env) + variants_calls(
        d2.variants.skip(vi + 1),
        discr_ty(d2.repr),
        env,
    );
    assert(s1 =~= p + seq![CallV::Write(n1)] + t1);
    assert(s2 =~= p + seq![CallV::Write(n2)] + t2);
    lemma_differs_after_prefix(p, CallV::Write(n1), CallV::Write(n2), s1, s2, t1, t2);
}

/// An explicit discriminant is load-bearing: two shapes equal up to one
/// variant's discriminant emit different sequences whenever the two
/// values' bit patterns at the discriminant width differ.
pub proof fn lemma_discriminant_distinguishes(d1: DescV, d2: DescV, env: Seq<BindingV>, vi: int)
    requires
        d2.name == d1.name,
        d2.repr == d1.repr,
        0 <= vi < d1.variants.len(),
        vi < d2.variants.len(),
        forall|k: int| 0 <= k < vi ==> d2.variants[k] == d1.variants[k],
        d1.variants[vi].discriminant is Some,
        d2.variants[vi].discriminant is Some,
        spec_cast(d1.variants[vi].discriminant->Some_0, discr_ty(d1.repr)) != spec_cast(
            d2.variants[vi].discriminant->Some_0,
            discr_ty(d1.repr),
        ),
    ensures
        spec_emit(d1, env) != spec_emit(d2, env),
{
    let t = discr_ty(d1.repr);
    let x1 = d1.variants[vi].discriminant->Some_0;
    let x2 = d2.variants[vi].discriminant->Some_0;
    lemma_emit_split_variant(d1, env, vi);
    lemma_emit_split_variant(d2, env, vi);
    assert(d2.variants.take(vi) =~= d1.variants.take(vi));
    let p = emit_before_variant(d1, env, vi);
    assert(emit_before_variant(d2, env, vi) == p);
    proof_cast_in_range(x1, t);
    proof_cast_in_range(x2, t);
    let c1 = CallV::HashInt(t, spec_cast(x1, t) as u64);
    let c2 = CallV::HashInt(t, spec_cast(x2, t) as u64);
    assert(spec_cast(x1, t) as u64 != spec_cast(x2, t) as u64);
    let s1 = spec_emit(d1, env);
    let s2 = spec_emit(d2, env);
    let t1 = fields_calls(d1.variants[vi].fields, env) + variants_calls(
        d1.variants.skip(vi + 1),
        t,
        env,
    );
    let t2 = fields_calls(d2.variants[vi].fields, env) + variants_calls(
        d2.variants.skip(vi + 1),
        t,
        env,
    );
    assert(s1 =~= p + seq![c1] + t1);
    assert(s2 =~= p + seq![c2] + t2);
    lemma_differs_after_prefix(p, c1, c2, s1, s2, t1, t2);
}

/// Field lists whose fields contribute equally under two environments
/// contribute equally as wholes.
proof fn lemma_fields_calls_congruent(
    fs: Seq<FieldV>,
    env1: Seq<BindingV>,
    env2: Seq<BindingV>,
)
    requires
        forall|j: int|
            0 <= j < fs.len() ==> field_calls(#[trigger] fs[j], env1) == field_calls(fs[j], env2),
    ensures
        fields_calls(fs, env1) == fields_calls(fs, env2),
    decreases fs.len(),
{
    if fs.len() > 0 {
        assert forall|j: int|
            0 <= j < fs.drop_first().len() implies field_calls(
            #[trigger] fs.drop_first()[j],
            env1,
        ) == field_calls(fs.drop_first()[j], env2) by {
            assert(fs.drop_first()[j] == fs[j + 1]);
        }
        lemma_fields_calls_congruent(fs.drop_first(), env1, env2);
    }
}

/// Variant lists whose fields contribute equally under two environments
/// contribute equally as wholes; discriminants never read the
/// environment.
proof fn lemma_variants_calls_congruent(
    vs: Seq<VariantV>,
    t: ReprInt,
    env1: Seq<BindingV>,
    env2: Seq<BindingV>,
)
    requires
        forall|i: int, j: int|
            0 <= i < vs.len() && 0 <= j < vs[i].fields.len() ==> field_calls(
                #[trigger] vs[i].fields[j],
                env1,
            ) == field_calls(vs[i].fields[j], env2),
    ensures
        variants_calls(vs, t, env1) == variants_calls(vs, t, env2),
    decreases vs.len(),
{
    if vs.len() > 0 {
        assert forall|j: int|
            0 <= j < vs[0].fields.len() implies field_calls(
            #[trigger] vs[0].fields[j],
            env1,
        ) == field_calls(vs[0].fields[j], env2) by {}
        lemma_fields_calls_congruent(vs[0].fields, env1, env2);
        assert forall|i: int, j: int|
            0 <= i < vs.drop_first().len() && 0 <= j < vs.drop_first()[i].fields.len()
                implies field_calls(#[trigger] vs.drop_first()[i].fields[j], env1) == field_calls(
            vs.drop_first()[i].fields[j],
            env2,
        ) by {
            assert(vs.drop_first()[i] == vs[i + 1]);
        }
        lemma_variants_calls_congruent(vs.drop_first(), t, env1, env2);
    }
}

/// Two sequences that agree before and after a middle part differ as
/// wholes whenever their middle parts differ.
proof fn lemma_mid_difference(p: Seq<CallV>, u1: Seq<CallV>, u2: Seq<CallV>, t: Seq<CallV>)
    requires
        u1 != u2,
    ensures
        p + u1 + t != p + u2 + t,
{
    if p + u1 + t == p + u2 + t {
        assert((p + u1 + t).len() == p.len() + u1.len() + t.len());
        assert((p + u2 + t).len() == p.len() + u2.len() + t.len());
        assert(u1.len() == u2.len());
        assert forall|k: int| 0 <= k < u1.len() implies u1[k] == u2[k] by {
            assert((p + u1 + t)[p.len() + k] == u1[k]);
            assert((p + u2 + t)[p.len() + k] == u2[k]);
        }
        assert(u1 =~= u2);
    }
}

/// Fingerprinting is structural, not nominal: with every other field's
/// contribution unchanged between two environments, a single field whose
/// own contribution differs — say one whose declared type is a free
/// parameter bound to two different concrete types — changes the whole
/// emitted sequence.
pub proof fn lemma_nested_sequence_distinguishes(
    d: DescV,
    env1: Seq<BindingV>,
    env2: Seq<BindingV>,
    vi: int,
    fj: int,
)
    requires
        0 <= vi < d.variants.len(),
        0 <= fj < d.variants[vi].fields.len(),
        forall|i: int, j: int|
            0 <= i < d.variants.len() && 0 <= j < d.variants[i].fields.len() && !(i == vi && j
                == fj) ==> field_calls(#[trigger] d.variants[i].fields[j], env1) == field_calls(
                d.variants[i].fields[j],
                env2,
            ),
        field_calls(d.variants[vi].fields[fj], env1) != field_calls(
            d.variants[vi].fields[fj],
            env2,
        ),
    ensures
        spec_emit(d, env1) != spec_emit(d, env2),
{
    let t = discr_ty(d.repr);
    let f = d.variants[vi].fields[fj];
    let fs = d.variants[vi].fields;
    lemma_emit_split_field(d, env1, vi, fj);
    lemma_emit_split_field(d, env2, vi, fj);
    // everything before the field contributes alike under both
    // environments
    assert forall|i: int, j: int|
        0 <= i < d.variants.take(vi).len() && 0 <= j < d.variants.take(vi)[i].fields.len()
            implies field_calls(#[trigger] d.variants.take(vi)[i].fields[j], env1) == field_calls(
        d.variants.take(vi)[i].fields[j],
        env2,
    ) by {
        assert(d.variants.take(vi)[i] == d.variants[i]);
    }
    lemma_variants_calls_congruent(d.variants.take(vi), t, env1, env2);
    assert forall|j: int|
        0 <= j < fs.take(fj).len() implies field_calls(#[trigger] fs.take(fj)[j], env1)
            == field_calls(fs.take(fj)[j], env2) by {
        assert(fs.take(fj)[j] == fs[j]);
    }
    lemma_fields_calls_congruent(fs.take(fj), env1, env2);
    let p = emit_before_field(d, env1, vi, fj);
    assert(emit_before_field(d, env2, vi, fj) == p);
    // everything after it does too
    assert forall|j: int|
        0 <= j < fs.skip(fj + 1).len() implies field_calls(#[trigger] fs.skip(fj + 1)[j], env1)
            == field_calls(fs.skip(fj + 1)[j], env2) by {
        assert(fs.skip(fj + 1)[j] == fs[j + fj + 1]);
    }
    lemma_fields_calls_congruent(fs.skip(fj + 1), env1, env2);
    assert forall|i: int, j: int|
        0 <= i < d.variants.skip(vi + 1).len() && 0 <= j < d.variants.skip(
            vi + 1,
        )[i].fields.len() implies field_calls(
        #[trigger] d.variants.skip(vi + 1)[i].fields[j],
        env1,
    ) == field_calls(d.variants.skip(vi + 1)[i].fields[j], env2) by {
        assert(d.variants.skip(vi + 1)[i] == d.variants[i + vi + 1]);
    }
    lemma_variants_calls_congruent(d.variants.skip(vi + 1), t, env1, env2);
    let tail = fields_calls(fs.skip(fj + 1), env1) + variants_calls(
        d.variants.skip(vi + 1),
        t,
        env1,
    );
    // peel the field off the remainder of its variant
    let r = fs.skip(fj);
    assert(r[0] == f);
    assert(r.drop_first() =~= fs.skip(fj + 1));
    assert(fields_calls(r, env1) == field_calls(f, env1) + fields_calls(fs.skip(fj + 1), env1));
    assert(fields_calls(r, env2) == field_calls(f, env2) + fields_calls(fs.skip(fj + 1), env2));
    let s1 = spec_emit(d, env1);
    let s2 = spec_emit(d, env2);
    assert(s1 =~= p + field_calls(f, env1) + tail);
    assert(s2 =~= p + field_calls(f, env2) + tail);
    lemma_mid_difference(p, field_calls(f, env1), field_calls(f, env2), tail);
}

/// A cast discriminant lies within its width's bit patterns.
proof fn proof_cast_in_range(d: int, t: ReprInt)
    ensures
        0 <= spec_cast(d, t) < 0x1_0000_0000_0000_0000,
{
    vstd::arithmetic::div_mod::lemma_mod_bound(d, width_modulus(t));
}

/// The layout hint is load-bearing: a C-compatible shape and a native
/// shape emit different sequences, whatever else they hold, as long as
/// neither carries alignment or discriminant-width directives.
pub proof fn lemma_layout_distinguishes(
    d1: DescV,
    d2: DescV,
    env1: Seq<BindingV>,
    env2: Seq<BindingV>,
)
    requires
        d1.repr.layout is C,
        d2.repr.layout is Native,
        d1.repr.align is None,
        d1.repr.int_type is None,
        d2.repr.align is None,
        d2.repr.int_type is None,
    ensures
        spec_emit(d1, env1) != spec_emit(d2, env2),
{
    let s1 = spec_emit(d1, env1);
    let s2 = spec_emit(d2, env2);
    assert(repr_calls(d1.repr) =~= seq![
        CallV::HashBool(d1.repr.packed),
        CallV::HashBool(d1.repr.transparent),
        CallV::HashBool(true),
    ]);
    assert(repr_calls(d2.repr) =~= seq![
        CallV::HashBool(d2.repr.packed),
        CallV::HashBool(d2.repr.transparent),
        CallV::HashBool(false),
    ]);
    assert(s1[3] == CallV::HashBool(true));
    assert(s2[3] == CallV::HashBool(false));
}

} // verus!
