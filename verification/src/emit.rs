//! The hash emitter: walks a shape descriptor and produces the
//! deterministic sequence of accumulator calls whose digest is the type's
//! fingerprint.
//!
//! The abstract accumulator has two primitives: writing a byte sequence
//! (here carried as text, whose encoding is the accumulator's concern) and
//! hashing a small discrete value.  The emitted sequence is a pure
//! function of the descriptor and of the environment binding referenced
//! type names — among them the free type parameters — to their own call
//! sequences; nested shapes compose by splicing those sequences in.

use vstd::prelude::*;

use crate::descriptor::{DescV, Field, FieldV, Layout, ReprInfo, ShapeDescriptor, Variant, VariantV};
use crate::plan::{Treatment, TreatmentV};
use crate::repr::ReprInt;

verus! {

/// One call against the abstract hash accumulator.
#[derive(Debug, PartialEq, Eq)]
pub enum HashCall {
    /// Feed the accumulator a byte sequence, given as its text.
    Write(String),
    /// Feed the accumulator a boolean.
    HashBool(bool),
    /// Feed the accumulator an unsigned size.
    HashUsize(usize),
    /// Feed the accumulator an integer of the given width, reduced to that
    /// width's bit pattern.
    HashInt(ReprInt, u64),
}

/// The mathematical value of a [`HashCall`].
pub enum CallV {
    Write(Seq<char>),
    HashBool(bool),
    HashUsize(usize),
    HashInt(ReprInt, u64),
}

impl View for HashCall {
    type V = CallV;

    open spec fn view(&self) -> CallV {
        match self {
            HashCall::Write(s) => CallV::Write(s@),
            HashCall::HashBool(b) => CallV::HashBool(*b),
            HashCall::HashUsize(u) => CallV::HashUsize(*u),
            HashCall::HashInt(t, v) => CallV::HashInt(*t, *v),
        }
    }
}

impl DeepView for HashCall {
    type V = CallV;

    open spec fn deep_view(&self) -> CallV {
        self.view()
    }
}

impl Clone for HashCall {
    fn clone(&self) -> (r: Self)
        ensures
            r@ == self@,
    {
        match self {
            HashCall::Write(s) => HashCall::Write(s.clone()),
            HashCall::HashBool(b) => HashCall::HashBool(*b),
            HashCall::HashUsize(u) => HashCall::HashUsize(*u),
            HashCall::HashInt(t, v) => HashCall::HashInt(*t, *v),
        }
    }
}

/// One binding of the environment: a type name and the call sequence that
/// hashing the named type emits.
#[derive(Debug)]
pub struct TypeBinding {
    pub name: String,
    pub calls: Vec<HashCall>,
}

/// The mathematical value of a [`TypeBinding`].
pub struct BindingV {
    pub name: Seq<char>,
    pub calls: Seq<CallV>,
}

impl View for TypeBinding {
    type V = BindingV;

    open spec fn view(&self) -> BindingV {
        BindingV { name: self.name@, calls: self.calls.deep_view() }
    }
}

impl DeepView for TypeBinding {
    type V = BindingV;

    open spec fn deep_view(&self) -> BindingV {
        self.view()
    }
}

/// The read-only environment of one derivation: it maps each referenced
/// type name — among them the concrete types bound to free type
/// parameters — to that type's own call sequence.
#[derive(Debug)]
pub struct TypeEnv {
    pub entries: Vec<TypeBinding>,
}

impl View for TypeEnv {
    type V = Seq<BindingV>;

    open spec fn view(&self) -> Seq<BindingV> {
        self.entries.deep_view()
    }
}

/// The call sequence bound to a name: the first binding of that name
/// decides.
pub open spec fn spec_lookup(env: Seq<BindingV>, name: Seq<char>) -> Option<Seq<CallV>>
    decreases env.len(),
{
    if env.len() == 0 {
        None
    } else if env[0].name == name {
        Some(env[0].calls)
    } else {
        spec_lookup(env.drop_first(), name)
    }
}

impl TypeEnv {
    /// An environment with no bindings.
    pub fn new() -> (r: TypeEnv)
        ensures
            r@ == Seq::<BindingV>::empty(),
    {
        TypeEnv { entries: Vec::new() }
    }

    /// Adds a binding from a type name to its call sequence.
    pub fn bind(&mut self, name: String, calls: Vec<HashCall>)
        ensures
            final(self)@ == old(self)@.push(
                BindingV { name: name@, calls: calls.deep_view() },
            ),
    {
        let ghost prev = self@;
        let ghost b = BindingV { name: name@, calls: calls.deep_view() };
        self.entries.push(TypeBinding { name, calls });
        proof {
            assert(self@ =~= prev.push(b));
        }
    }

    /// The call sequence bound to a name, if one is.
    pub fn lookup(&self, name: &String) -> (r: Option<&Vec<HashCall>>)
        ensures
            match r {
                Some(calls) => spec_lookup(self@, name@) == Some(calls.deep_view()),
                None => spec_lookup(self@, name@) is None,
            },
    {
        let mut i: usize = 0;
        proof {
            assert(self@.skip(0) =~= self@);
        }
        while i < self.entries.len()
            invariant
                i <= self@.len(),
                spec_lookup(self@, name@) == spec_lookup(self@.skip(i as int), name@),
            decreases self@.len() - i,
        {
            proof {
                assert(self@.skip(i as int)[0] == self@[i as int]);
                assert(self@.skip(i as int).drop_first() =~= self@.skip(i as int + 1));
            }
            if self.entries[i].name == *name {
                return Some(&self.entries[i].calls);
            }
            i = i + 1;
        }
        None
    }
}

/// The modulus of an integer width: values are reduced to this many bit
/// patterns.  The pointer-sized widths are taken as 64 bits.
pub open spec fn width_modulus(t: ReprInt) -> int {
    match t {
        ReprInt::I8 => 0x100,
        ReprInt::U8 => 0x100,
        ReprInt::I16 => 0x10000,
        ReprInt::U16 => 0x10000,
        ReprInt::I32 => 0x1_0000_0000,
        ReprInt::U32 => 0x1_0000_0000,
        ReprInt::I64 => 0x1_0000_0000_0000_0000,
        ReprInt::U64 => 0x1_0000_0000_0000_0000,
        ReprInt::ISize => 0x1_0000_0000_0000_0000,
        ReprInt::USize => 0x1_0000_0000_0000_0000,
    }
}

/// A discriminant reduced to the bit pattern of the given width, as a
/// cast to that width leaves it.
pub open spec fn spec_cast(d: int, t: ReprInt) -> int {
    d % width_modulus(t)
}

/// Reduces a discriminant to the bit pattern of the given width.
pub fn cast_discr(d: i128, t: ReprInt) -> (r: u64)
    ensures
        r as int == spec_cast(d as int, t),
{
    let m: i128 = match t {
        ReprInt::I8 | ReprInt::U8 => 0x100,
        ReprInt::I16 | ReprInt::U16 => 0x10000,
        ReprInt::I32 | ReprInt::U32 => 0x1_0000_0000,
        _ => 0x1_0000_0000_0000_0000,
    };
    let rem: i128 = d % m;
    let r: i128 = if rem < 0 {
        rem + m
    } else {
        rem
    };
    r as u64
}

/// The discriminant width of a descriptor: its explicit directive, or a
/// pointer-sized signed integer.
pub open spec fn discr_ty(r: ReprInfo) -> ReprInt {
    match r.int_type {
        Some(t) => t,
        None => ReprInt::ISize,
    }
}

/// What a field's name contributes: named fields write their name first,
/// unnamed fields contribute nothing for it.
pub open spec fn name_calls(n: Option<Seq<char>>) -> Seq<CallV> {
    match n {
        Some(s) => seq![CallV::Write(s)],
        None => seq![],
    }
}

/// The sequence bound to a name, or nothing where the environment does
/// not cover it; emission is only promised over covering environments.
pub open spec fn lookup_calls(env: Seq<BindingV>, name: Seq<char>) -> Seq<CallV> {
    match spec_lookup(env, name) {
        Some(calls) => calls,
        None => seq![],
    }
}

/// What one field contributes, per its resolved treatment.
pub open spec fn field_calls(f: FieldV, env: Seq<BindingV>) -> Seq<CallV> {
    match f.treatment {
        TreatmentV::Skip => seq![],
        TreatmentV::Default => name_calls(f.name) + lookup_calls(env, f.ty),
        TreatmentV::ForeignOpaque => name_calls(f.name) + seq![CallV::Write(f.ty)],
        TreatmentV::OverrideType(t) => name_calls(f.name) + lookup_calls(env, t),
    }
}

/// What a field list contributes, in declaration order.
pub open spec fn fields_calls(fs: Seq<FieldV>, env: Seq<BindingV>) -> Seq<CallV>
    decreases fs.len(),
{
    if fs.len() == 0 {
        seq![]
    } else {
        field_calls(fs[0], env) + fields_calls(fs.drop_first(), env)
    }
}

/// What an explicit discriminant contributes: its value as the
/// descriptor's discriminant width.
pub open spec fn discr_calls(d: Option<int>, t: ReprInt) -> Seq<CallV> {
    match d {
        Some(v) => seq![CallV::HashInt(t, spec_cast(v, t) as u64)],
        None => seq![],
    }
}

/// What one variant contributes: its discriminant, if declared, then its
/// fields.
pub open spec fn variant_calls(
    v: VariantV,
    t: ReprInt,
    env: Seq<BindingV>,
) -> Seq<CallV> {
    discr_calls(v.discriminant, t) + fields_calls(v.fields, env)
}

/// What a variant list contributes, in declaration order.
pub open spec fn variants_calls(
    vs: Seq<VariantV>,
    t: ReprInt,
    env: Seq<BindingV>,
) -> Seq<CallV>
    decreases vs.len(),
{
    if vs.len() == 0 {
        seq![]
    } else {
        variant_calls(vs[0], t, env) + variants_calls(vs.drop_first(), t, env)
    }
}

/// What the layout contributes: packed and transparent flags, the
/// discriminant width's spelling if directed, the alignment if directed,
/// and whether the layout is C-compatible.
pub open spec fn repr_calls(r: ReprInfo) -> Seq<CallV> {
    seq![CallV::HashBool(r.packed), CallV::HashBool(r.transparent)] + (match r.int_type {
        Some(t) => seq![CallV::Write(t.spec_str())],
        None => seq![],
    }) + (match r.align {
        Some(a) => seq![CallV::HashUsize(a)],
        None => seq![],
    }) + seq![CallV::HashBool(r.layout is C)]
}

/// The whole emitted sequence of a descriptor: the type's name, its
/// layout, then every variant in declaration order.
pub open spec fn spec_emit(d: DescV, env: Seq<BindingV>) -> Seq<CallV> {
    seq![CallV::Write(d.name)] + repr_calls(d.repr) + variants_calls(
        d.variants,
        discr_ty(d.repr),
        env,
    )
}

/// Whether the environment covers one field: the names the field's
/// treatment recurses into are bound.
pub open spec fn field_covered(f: FieldV, env: Seq<BindingV>) -> bool {
    match f.treatment {
        TreatmentV::Default => spec_lookup(env, f.ty) is Some,
        TreatmentV::OverrideType(t) => spec_lookup(env, t) is Some,
        _ => true,
    }
}

/// Whether the environment covers every field the descriptor recurses
/// into.  The host language's derivation guarantees this by requiring
/// each referenced type to support hashing itself.
pub open spec fn spec_covers(env: Seq<BindingV>, d: DescV) -> bool {
    forall|i: int, j: int|
        0 <= i < d.variants.len() && 0 <= j < d.variants[i].fields.len() ==> field_covered(
            #[trigger] d.variants[i].fields[j],
            env,
        )
}

/// Concatenated field lists contribute their concatenated sequences.
pub proof fn lemma_fields_calls_concat(
    a: Seq<FieldV>,
    b: Seq<FieldV>,
    env: Seq<BindingV>,
)
    ensures
        fields_calls(a + b, env) == fields_calls(a, env) + fields_calls(b, env),
    decreases a.len(),
{
    if a.len() == 0 {
        assert(a + b =~= b);
        assert(fields_calls(a, env) + fields_calls(b, env) =~= fields_calls(b, env));
    } else {
        lemma_fields_calls_concat(a.drop_first(), b, env);
        assert((a + b).drop_first() =~= a.drop_first() + b);
        assert((a + b)[0] == a[0]);
        assert(field_calls(a[0], env) + (fields_calls(a.drop_first(), env) + fields_calls(b, env))
            =~= (field_calls(a[0], env) + fields_calls(a.drop_first(), env)) + fields_calls(
            b,
            env,
        ));
    }
}

/// A one-field list contributes just that field's sequence.
pub proof fn lemma_fields_calls_singleton(f: FieldV, env: Seq<BindingV>)
    ensures
        fields_calls(seq![f], env) == field_calls(f, env),
{
    assert(seq![f].drop_first() =~= Seq::<FieldV>::empty());
    assert(fields_calls(seq![f].drop_first(), env) == Seq::<CallV>::empty());
    assert(field_calls(f, env) + Seq::<CallV>::empty() =~= field_calls(f, env));
}

/// Concatenated variant lists contribute their concatenated sequences.
pub proof fn lemma_variants_calls_concat(
    a: Seq<VariantV>,
    b: Seq<VariantV>,
    t: ReprInt,
    env: Seq<BindingV>,
)
    ensures
        variants_calls(a + b, t, env) == variants_calls(a, t, env) + variants_calls(b, t, env),
    decreases a.len(),
{
    if a.len() == 0 {
        assert(a + b =~= b);
        assert(variants_calls(a, t, env) + variants_calls(b, t, env) =~= variants_calls(
            b,
            t,
            env,
        ));
    } else {
        lemma_variants_calls_concat(a.drop_first(), b, t, env);
        assert((a + b).drop_first() =~= a.drop_first() + b);
        assert((a + b)[0] == a[0]);
        assert(variant_calls(a[0], t, env) + (variants_calls(a.drop_first(), t, env)
            + variants_calls(b, t, env)) =~= (variant_calls(a[0], t, env) + variants_calls(
            a.drop_first(),
            t,
            env,
        )) + variants_calls(b, t, env));
    }
}

/// A one-variant list contributes just that variant's sequence.
pub proof fn lemma_variants_calls_singleton(
    v: VariantV,
    t: ReprInt,
    env: Seq<BindingV>,
)
    ensures
        variants_calls(seq![v], t, env) == variant_calls(v, t, env),
{
    assert(seq![v].drop_first() =~= Seq::<VariantV>::empty());
    assert(variants_calls(seq![v].drop_first(), t, env) == Seq::<CallV>::empty());
    assert(variant_calls(v, t, env) + Seq::<CallV>::empty() =~= variant_calls(v, t, env));
}

/// Appends a copy of a call sequence.
fn append_calls(dst: &mut Vec<HashCall>, src: &Vec<HashCall>)
    ensures
        final(dst).deep_view() == old(dst).deep_view() + src.deep_view(),
{
    let mut i: usize = 0;
    while i < src.len()
        invariant
            i <= src@.len(),
            dst.deep_view() == old(dst).deep_view() + src.deep_view().take(i as int),
        decreases src@.len() - i,
    {
        let c = src[i].clone();
        proof {
            assert(c@ == src@[i as int]@);
        }
        let ghost prev = dst.deep_view();
        dst.push(c);
        proof {
            assert(dst.deep_view() =~= prev + seq![c@]);
            assert(src.deep_view()[i as int] == src@[i as int]@);
            assert(src.deep_view().take(i as int + 1) =~= src.deep_view().take(i as int) + seq![
                src.deep_view()[i as int],
            ]);
            assert((old(dst).deep_view() + src.deep_view().take(i as int)) + seq![c@]
                =~= old(dst).deep_view() + (src.deep_view().take(i as int) + seq![c@]));
        }
        i = i + 1;
    }
    proof {
        assert(src.deep_view().take(src@.len() as int) =~= src.deep_view());
    }
}

/// Emits one field's contribution.
fn emit_field(out: &mut Vec<HashCall>, f: &Field, env: &TypeEnv)
    requires
        field_covered(f@, env@),
    ensures
        final(out).deep_view() == old(out).deep_view() + field_calls(f@, env@),
{
    let ghost fpre = out.deep_view();
    match &f.treatment {
        Treatment::Skip => {},
        Treatment::Default => {
            if let Some(n) = &f.name {
                out.push(HashCall::Write(n.clone()));
            }
            match env.lookup(&f.ty) {
                Some(calls) => {
                    append_calls(out, calls);
                },
                None => {
                    proof {
                        assert(false);
                    }
                },
            }
        },
        Treatment::ForeignOpaque => {
            if let Some(n) = &f.name {
                out.push(HashCall::Write(n.clone()));
            }
            out.push(HashCall::Write(f.ty.clone()));
        },
        Treatment::OverrideType(t) => {
            if let Some(n) = &f.name {
                out.push(HashCall::Write(n.clone()));
            }
            match env.lookup(t) {
                Some(calls) => {
                    append_calls(out, calls);
                },
                None => {
                    proof {
                        assert(false);
                    }
                },
            }
        },
    }
    proof {
        assert(out.deep_view() =~= fpre + field_calls(f@, env@));
    }
}

/// Emits one variant's contribution: its discriminant, if declared, then
/// its fields in declaration order.
fn emit_variant(out: &mut Vec<HashCall>, v: &Variant, ity: ReprInt, env: &TypeEnv)
    requires
        forall|j: int| 0 <= j < v@.fields.len() ==> field_covered(#[trigger] v@.fields[j], env@),
    ensures
        final(out).deep_view() == old(out).deep_view() + variant_calls(v@, ity, env@),
{
    let ghost vpre = out.deep_view();
    if let Some(disc) = v.discriminant {
        let bits = cast_discr(disc, ity);
        out.push(HashCall::HashInt(ity, bits));
    }
    proof {
        assert(out.deep_view() =~= vpre + discr_calls(v@.discriminant, ity));
    }
    let mut fj: usize = 0;
    while fj < v.fields.len()
        invariant
            fj <= v@.fields.len(),
            forall|j: int| 0 <= j < v@.fields.len() ==> field_covered(#[trigger] v@.fields[j], env@),
            out.deep_view() == vpre + discr_calls(v@.discriminant, ity) + fields_calls(
                v@.fields.take(fj as int),
                env@,
            ),
        decreases v@.fields.len() - fj,
    {
        proof {
            assert(v.fields@[fj as int]@ == v@.fields[fj as int]);
        }
        let ghost mid = out.deep_view();
        emit_field(out, &v.fields[fj], env);
        proof {
            assert(v@.fields.take(fj as int + 1) =~= v@.fields.take(fj as int) + seq![
                v@.fields[fj as int],
            ]);
            lemma_fields_calls_concat(v@.fields.take(fj as int), seq![v@.fields[fj as int]], env@);
            lemma_fields_calls_singleton(v@.fields[fj as int], env@);
            assert(out.deep_view() =~= vpre + discr_calls(v@.discriminant, ity) + fields_calls(
                v@.fields.take(fj as int + 1),
                env@,
            ));
        }
        fj = fj + 1;
    }
    proof {
        assert(v@.fields.take(v@.fields.len() as int) =~= v@.fields);
    }
}

/// Emits the accumulator call sequence of a descriptor over a covering
/// environment.  The sequence is exactly `spec_emit`: deterministic in the
/// descriptor and environment alone.
pub fn emit(d: &ShapeDescriptor, env: &TypeEnv) -> (r: Vec<HashCall>)
    requires
        spec_covers(env@, d@),
    ensures
        r.deep_view() == spec_emit(d@, env@),
{
    let mut out: Vec<HashCall> = Vec::new();
    out.push(HashCall::Write(d.name.clone()));
    out.push(HashCall::HashBool(d.repr.packed));
    out.push(HashCall::HashBool(d.repr.transparent));
    if let Some(t) = d.repr.int_type {
        out.push(HashCall::Write(t.as_str().to_owned()));
    }
    if let Some(a) = d.repr.align {
        out.push(HashCall::HashUsize(a));
    }
    let is_c = match d.repr.layout {
        Layout::C => true,
        Layout::Native => false,
    };
    out.push(HashCall::HashBool(is_c));
    let ghost header = seq![CallV::Write(d@.name)] + repr_calls(d@.repr);
    proof {
        assert(out.deep_view() =~= header);
    }
    let ity = match d.repr.int_type {
        Some(t) => t,
        None => ReprInt::ISize,
    };
    let mut vi: usize = 0;
    while vi < d.variants.len()
        invariant
            vi <= d@.variants.len(),
            ity == discr_ty(d@.repr),
            spec_covers(env@, d@),
            out.deep_view() == header + variants_calls(d@.variants.take(vi as int), ity, env@),
        decreases d@.variants.len() - vi,
    {
        let v = &d.variants[vi];
        proof {
            assert(v@ == d@.variants[vi as int]);
            assert forall|j: int| 0 <= j < v@.fields.len() implies field_covered(
                #[trigger] v@.fields[j],
                env@,
            ) by {
                assert(field_covered(d@.variants[vi as int].fields[j], env@));
            }
        }
        emit_variant(&mut out, v, ity, env);
        proof {
            assert(d@.variants.take(vi as int + 1) =~= d@.variants.take(vi as int) + seq![
                d@.variants[vi as int],
            ]);
            lemma_variants_calls_concat(
                d@.variants.take(vi as int),
                seq![d@.variants[vi as int]],
                ity,
                env@,
            );
            lemma_variants_calls_singleton(d@.variants[vi as int], ity, env@);
            assert(out.deep_view() =~= header + variants_calls(
                d@.variants.take(vi as int + 1),
                ity,
                env@,
            ));
        }
        vi = vi + 1;
    }
    proof {
        assert(d@.variants.take(d@.variants.len() as int) =~= d@.variants);
        assert(out.deep_view() =~= spec_emit(d@, env@));
    }
    out
}

/// Emits the call sequence of a descriptor if the environment covers it,
/// and reports the gap otherwise.
pub fn emit_checked(d: &ShapeDescriptor, env: &TypeEnv) -> (r: Option<Vec<HashCall>>)
    ensures
        match r {
            Some(calls) => spec_covers(env@, d@) && calls.deep_view() == spec_emit(d@, env@),
            None => !spec_covers(env@, d@),
        },
{
    let mut vi: usize = 0;
    while vi < d.variants.len()
        invariant
            vi <= d@.variants.len(),
            forall|i: int, j: int|
                0 <= i < vi && 0 <= j < d@.variants[i].fields.len() ==> field_covered(
                    #[trigger] d@.variants[i].fields[j],
                    env@,
                ),
        decreases d@.variants.len() - vi,
    {
        let v = &d.variants[vi];
        proof {
            assert(v@ == d@.variants[vi as int]);
        }
        let mut fj: usize = 0;
        while fj < v.fields.len()
            invariant
                fj <= v@.fields.len(),
                v@ == d@.variants[vi as int],
                vi < d@.variants.len(),
                forall|i: int, j: int|
                    0 <= i < vi && 0 <= j < d@.variants[i].fields.len() ==> field_covered(
                        #[trigger] d@.variants[i].fields[j],
                        env@,
                    ),
                forall|j: int|
                    0 <= j < fj ==> field_covered(#[trigger] d@.variants[vi as int].fields[j], env@),
            decreases v@.fields.len() - fj,
        {
            let f = &v.fields[fj];
            proof {
                assert(f@ == v@.fields[fj as int]);
            }
            match &f.treatment {
                Treatment::Default => {
                    if env.lookup(&f.ty).is_none() {
                        proof {
                            assert(!field_covered(d@.variants[vi as int].fields[fj as int], env@));
                        }
                        return None;
                    }
                },
                Treatment::OverrideType(t) => {
                    if env.lookup(t).is_none() {
                        proof {
                            assert(!field_covered(d@.variants[vi as int].fields[fj as int], env@));
                        }
                        return None;
                    }
                },
                _ => {},
            }
            fj = fj + 1;
        }
        vi = vi + 1;
    }
    Some(emit(d, env))
}

} // verus!
