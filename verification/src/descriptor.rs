//! The shape descriptor: the canonical, immutable model of a type's shape.
//!
//! A descriptor is built once from a declaration — kind, name, free type
//! parameters, directives, and fields or variants with their annotations —
//! and is then consumed by the emitter.  All validation happens here:
//! union-kind declarations are rejected outright, malformed layout hints
//! and field annotations stop the build.  Once a descriptor exists,
//! emission cannot fail.

use vstd::prelude::*;

use crate::plan::{
    resolve_field_plan, spec_field_plan, FieldAnnotation, FieldPlanError, Treatment, TreatmentV,
};
use crate::repr::{
    spec_any_packed, spec_any_transparent, spec_attr_repr, spec_first_align, spec_first_c,
    spec_first_int, RawAttr, Repr, ReprError, ReprInt, Reprs,
};

verus! {

/// The kind of shape a descriptor captures.  A union kind never reaches a
/// descriptor: it is rejected while building.
#[derive(Clone, Copy, PartialEq, Eq, Structural, Debug)]
pub enum ShapeKind {
    Struct,
    Enum,
}

/// How the type's memory is laid out.
#[derive(Clone, Copy, PartialEq, Eq, Structural, Debug)]
pub enum Layout {
    /// The language's own layout.
    Native,
    /// C-compatible layout.
    C,
}

/// The canonical layout of a descriptor, folded from all of a
/// declaration's layout hints.  Alignment and discriminant-width
/// directives apply only to the native layout.
#[derive(Clone, Copy, PartialEq, Eq, Structural, Debug)]
pub struct ReprInfo {
    pub layout: Layout,
    pub packed: bool,
    pub transparent: bool,
    pub align: Option<usize>,
    pub int_type: Option<ReprInt>,
}

/// One field of a variant, with its resolved treatment.
#[derive(Debug, PartialEq, Eq)]
pub struct Field {
    /// The field's name; tuple-like fields have none.
    pub name: Option<String>,
    /// The textual spelling of the field's declared type.
    pub ty: String,
    /// How the field enters the fingerprint.
    pub treatment: Treatment,
}

/// One variant of an enum shape, or the single implicit variant of a
/// struct shape.
#[derive(Debug, PartialEq, Eq)]
pub struct Variant {
    pub name: String,
    /// The already-reduced integer discriminant, if one is declared.
    pub discriminant: Option<i128>,
    pub fields: Vec<Field>,
}

/// The canonical, immutable model of a type's shape.
#[derive(Debug, PartialEq, Eq)]
pub struct ShapeDescriptor {
    pub kind: ShapeKind,
    /// The string identity of the type.
    pub name: String,
    /// The type's free type-parameter names, in declaration order.
    pub generics: Vec<String>,
    pub repr: ReprInfo,
    /// A struct shape holds exactly one variant; an enum shape holds its
    /// variants in declaration order.
    pub variants: Vec<Variant>,
}

/// The mathematical value of a [`Field`].
pub struct FieldV {
    pub name: Option<Seq<char>>,
    pub ty: Seq<char>,
    pub treatment: TreatmentV,
}

/// The mathematical value of a [`Variant`].
pub struct VariantV {
    pub name: Seq<char>,
    pub discriminant: Option<int>,
    pub fields: Seq<FieldV>,
}

/// The mathematical value of a [`ShapeDescriptor`].
pub struct DescV {
    pub kind: ShapeKind,
    pub name: Seq<char>,
    pub generics: Seq<Seq<char>>,
    pub repr: ReprInfo,
    pub variants: Seq<VariantV>,
}

impl View for Field {
    type V = FieldV;

    open spec fn view(&self) -> FieldV {
        FieldV {
            name: match self.name {
                Some(n) => Some(n@),
                None => None,
            },
            ty: self.ty@,
            treatment: self.treatment@,
        }
    }
}

impl DeepView for Field {
    type V = FieldV;

    open spec fn deep_view(&self) -> FieldV {
        self.view()
    }
}

impl View for Variant {
    type V = VariantV;

    open spec fn view(&self) -> VariantV {
        VariantV {
            name: self.name@,
            discriminant: match self.discriminant {
                Some(d) => Some(d as int),
                None => None,
            },
            fields: self.fields.deep_view(),
        }
    }
}

impl DeepView for Variant {
    type V = VariantV;

    open spec fn deep_view(&self) -> VariantV {
        self.view()
    }
}

impl View for ShapeDescriptor {
    type V = DescV;

    open spec fn view(&self) -> DescV {
        DescV {
            kind: self.kind,
            name: self.name@,
            generics: self.generics.deep_view(),
            repr: self.repr,
            variants: self.variants.deep_view(),
        }
    }
}

impl DescV {
    /// What holds of every built descriptor: a struct shape has exactly one
    /// variant and no discriminant, unnamed fields always carry the default
    /// treatment, and a C layout carries neither alignment nor
    /// discriminant-width directives.
    pub open spec fn wf(self) -> bool {
        &&& self.kind is Struct ==> self.variants.len() == 1 && self.variants[0].discriminant
            is None
        &&& forall|i: int, j: int|
            0 <= i < self.variants.len() && 0 <= j < self.variants[i].fields.len() && (
            #[trigger] self.variants[i].fields[j]).name is None
                ==> self.variants[i].fields[j].treatment is Default
        &&& self.repr.layout is C ==> self.repr.align is None && self.repr.int_type is None
    }
}

/// One field of a declaration, before its annotations are resolved.
#[derive(Debug)]
pub struct RawField {
    /// The field's name; tuple-like fields have none.
    pub name: Option<String>,
    /// The textual spelling of the field's declared type.
    pub ty: String,
    /// The annotations attached to the field.  Only named fields can carry
    /// one; on unnamed fields they are ignored.
    pub annotations: Vec<FieldAnnotation>,
}

/// One variant of an enum declaration.
#[derive(Debug)]
pub struct RawVariant {
    pub name: String,
    /// The already-reduced integer discriminant, if one is declared.
    pub discriminant: Option<i128>,
    pub fields: Vec<RawField>,
}

/// The body of a declaration.
#[derive(Debug)]
pub enum TypeDeclData {
    Struct(Vec<RawField>),
    Enum(Vec<RawVariant>),
    Union,
}

/// A type declaration, as the host language's metadata facility hands it
/// over: name, free type parameters, directives, and the body.
#[derive(Debug)]
pub struct TypeDecl {
    pub name: String,
    pub generics: Vec<String>,
    pub attrs: Vec<RawAttr>,
    pub data: TypeDeclData,
}

/// Why building a descriptor failed.
#[derive(Clone, Copy, PartialEq, Eq, Structural, Debug)]
pub enum BuildError {
    /// The declaration is of union kind, which is never supported.
    UnsupportedKind,
    /// A layout hint was malformed.
    Repr(ReprError),
    /// A field annotation was malformed or conflicting.
    FieldPlan(FieldPlanError),
}

/// Reads a declaration's directives strictly: directives that are no
/// layout hint at all are passed over, but a malformed one stops the
/// build with its error.
pub open spec fn spec_scan_attrs(atts: Seq<RawAttr>) -> Result<Seq<Repr>, ReprError>
    decreases atts.len(),
{
    if atts.len() == 0 {
        Ok(Seq::empty())
    } else {
        match spec_attr_repr(atts[0]) {
            Ok(r) => match spec_scan_attrs(atts.drop_first()) {
                Ok(rest) => Ok(seq![r] + rest),
                Err(e) => Err(e),
            },
            Err(ReprError::NotARepr) => spec_scan_attrs(atts.drop_first()),
            Err(e) => Err(e),
        }
    }
}

/// Folds gathered layouts into the canonical layout: a C layout wins and
/// drops alignment and discriminant-width directives; otherwise the first
/// of each directive stands.
pub open spec fn spec_repr_info(rs: Seq<Repr>) -> ReprInfo {
    if spec_first_c(rs) is Some {
        ReprInfo {
            layout: Layout::C,
            packed: spec_any_packed(rs),
            transparent: spec_any_transparent(rs),
            align: None,
            int_type: None,
        }
    } else {
        ReprInfo {
            layout: Layout::Native,
            packed: spec_any_packed(rs),
            transparent: spec_any_transparent(rs),
            align: spec_first_align(rs),
            int_type: spec_first_int(rs),
        }
    }
}

/// What one declared field builds to: a named field resolves its
/// annotations; an unnamed field always carries the default treatment.
pub open spec fn spec_field(f: RawField) -> Result<FieldV, FieldPlanError> {
    match f.name {
        Some(n) => match spec_field_plan(f.annotations@) {
            Ok(t) => Ok(FieldV { name: Some(n@), ty: f.ty@, treatment: t }),
            Err(e) => Err(e),
        },
        None => Ok(FieldV { name: None, ty: f.ty@, treatment: TreatmentV::Default }),
    }
}

/// Builds a field list, stopping at the first field whose annotations are
/// in error.
pub open spec fn spec_fields(fs: Seq<RawField>) -> Result<Seq<FieldV>, FieldPlanError>
    decreases fs.len(),
{
    if fs.len() == 0 {
        Ok(Seq::empty())
    } else {
        match spec_field(fs[0]) {
            Ok(fv) => match spec_fields(fs.drop_first()) {
                Ok(rest) => Ok(seq![fv] + rest),
                Err(e) => Err(e),
            },
            Err(e) => Err(e),
        }
    }
}

/// What one declared variant builds to.
pub open spec fn spec_variant(v: RawVariant) -> Result<VariantV, FieldPlanError> {
    match spec_fields(v.fields@) {
        Ok(fs) => Ok(
            VariantV {
                name: v.name@,
                discriminant: match v.discriminant {
                    Some(d) => Some(d as int),
                    None => None,
                },
                fields: fs,
            },
        ),
        Err(e) => Err(e),
    }
}

/// Builds a variant list, stopping at the first variant in error.
pub open spec fn spec_variants(vs: Seq<RawVariant>) -> Result<Seq<VariantV>, FieldPlanError>
    decreases vs.len(),
{
    if vs.len() == 0 {
        Ok(Seq::empty())
    } else {
        match spec_variant(vs[0]) {
            Ok(vv) => match spec_variants(vs.drop_first()) {
                Ok(rest) => Ok(seq![vv] + rest),
                Err(e) => Err(e),
            },
            Err(e) => Err(e),
        }
    }
}

/// What building a descriptor from a declaration yields: the canonical
/// descriptor, or the first error found.  Union-kind declarations always
/// fail; layout hints are read before field annotations.
pub open spec fn spec_build(decl: TypeDecl) -> Result<DescV, BuildError> {
    match decl.data {
        TypeDeclData::Union => Err(BuildError::UnsupportedKind),
        TypeDeclData::Struct(fs) => match spec_scan_attrs(decl.attrs@) {
            Err(e) => Err(BuildError::Repr(e)),
            Ok(rs) => match spec_fields(fs@) {
                Err(e) => Err(BuildError::FieldPlan(e)),
                Ok(fvs) => Ok(
                    DescV {
                        kind: ShapeKind::Struct,
                        name: decl.name@,
                        generics: decl.generics.deep_view(),
                        repr: spec_repr_info(rs),
                        variants: seq![
                            VariantV { name: decl.name@, discriminant: None, fields: fvs },
                        ],
                    },
                ),
            },
        },
        TypeDeclData::Enum(vs) => match spec_scan_attrs(decl.attrs@) {
            Err(e) => Err(BuildError::Repr(e)),
            Ok(rs) => match spec_variants(vs@) {
                Err(e) => Err(BuildError::FieldPlan(e)),
                Ok(vvs) => Ok(
                    DescV {
                        kind: ShapeKind::Enum,
                        name: decl.name@,
                        generics: decl.generics.deep_view(),
                        repr: spec_repr_info(rs),
                        variants: vvs,
                    },
                ),
            },
        },
    }
}

/// Fields built from a declaration leave unnamed fields with the default
/// treatment.
proof fn lemma_fields_wf(fs: Seq<RawField>)
    requires
        spec_fields(fs) is Ok,
    ensures
        forall|j: int|
            0 <= j < spec_fields(fs)->Ok_0.len() && (#[trigger] spec_fields(fs)->Ok_0[j]).name
                is None ==> spec_fields(fs)->Ok_0[j].treatment is Default,
    decreases fs.len(),
{
    if fs.len() > 0 {
        lemma_fields_wf(fs.drop_first());
        let fv = spec_field(fs[0])->Ok_0;
        let rest = spec_fields(fs.drop_first())->Ok_0;
        assert(spec_fields(fs)->Ok_0 == seq![fv] + rest);
        assert forall|j: int|
            0 <= j < spec_fields(fs)->Ok_0.len() && (#[trigger] spec_fields(fs)->Ok_0[j]).name
                is None implies spec_fields(fs)->Ok_0[j].treatment is Default by {
            if j == 0 {
                assert(spec_fields(fs)->Ok_0[0] == fv);
            } else {
                assert(spec_fields(fs)->Ok_0[j] == rest[j - 1]);
            }
        }
    }
}

/// Variants built from a declaration leave unnamed fields with the
/// default treatment.
proof fn lemma_variants_wf(vs: Seq<RawVariant>)
    requires
        spec_variants(vs) is Ok,
    ensures
        forall|i: int, j: int|
            0 <= i < spec_variants(vs)->Ok_0.len() && 0 <= j < spec_variants(
                vs,
            )->Ok_0[i].fields.len() && (#[trigger] spec_variants(vs)->Ok_0[i].fields[j]).name
                is None ==> spec_variants(vs)->Ok_0[i].fields[j].treatment is Default,
    decreases vs.len(),
{
    if vs.len() > 0 {
        lemma_variants_wf(vs.drop_first());
        lemma_fields_wf(vs[0].fields@);
        let vv = spec_variant(vs[0])->Ok_0;
        let rest = spec_variants(vs.drop_first())->Ok_0;
        assert(spec_variants(vs)->Ok_0 == seq![vv] + rest);
        assert forall|i: int, j: int|
            0 <= i < spec_variants(vs)->Ok_0.len() && 0 <= j < spec_variants(
                vs,
            )->Ok_0[i].fields.len() && (#[trigger] spec_variants(vs)->Ok_0[i].fields[j]).name
                is None implies spec_variants(vs)->Ok_0[i].fields[j].treatment is Default by {
            if i == 0 {
                assert(spec_variants(vs)->Ok_0[0] == vv);
            } else {
                assert(spec_variants(vs)->Ok_0[i] == rest[i - 1]);
            }
        }
    }
}

/// Clones a list of strings.
fn clone_strings(v: &Vec<String>) -> (r: Vec<String>)
    ensures
        r.deep_view() == v.deep_view(),
{
    let mut out: Vec<String> = Vec::new();
    let mut i: usize = 0;
    while i < v.len()
        invariant
            i <= v@.len(),
            out.deep_view() == v.deep_view().take(i as int),
        decreases v@.len() - i,
    {
        let c = v[i].clone();
        proof {
            assert(c == v@[i as int]);
        }
        let ghost prev = out.deep_view();
        out.push(c);
        proof {
            assert(out.deep_view() =~= prev + seq![c@]);
            assert(v.deep_view()[i as int] == v@[i as int].deep_view());
            assert(v.deep_view().take(i as int + 1) =~= v.deep_view().take(i as int) + seq![
                v.deep_view()[i as int],
            ]);
        }
        i = i + 1;
    }
    proof {
        assert(v.deep_view().take(v@.len() as int) =~~= v.deep_view());
    }
    out
}

/// Gathers a declaration's layout hints strictly, stopping at the first
/// malformed one.
fn scan_attrs(attrs: &Vec<RawAttr>) -> (r: Result<Reprs, ReprError>)
    ensures
        match r {
            Ok(rs) => spec_scan_attrs(attrs@) == Ok::<Seq<Repr>, ReprError>(rs@),
            Err(e) => spec_scan_attrs(attrs@) == Err::<Seq<Repr>, ReprError>(e),
        },
{
    let mut gathered: Vec<Repr> = Vec::new();
    let mut i: usize = 0;
    proof {
        assert(attrs@.skip(0) =~= attrs@);
    }
    while i < attrs.len()
        invariant
            i <= attrs@.len(),
            spec_scan_attrs(attrs@) == (match spec_scan_attrs(attrs@.skip(i as int)) {
                Ok(rest) => Ok::<Seq<Repr>, ReprError>(gathered@ + rest),
                Err(e) => Err::<Seq<Repr>, ReprError>(e),
            }),
        decreases attrs@.len() - i,
    {
        proof {
            assert(attrs@.skip(i as int)[0] == attrs@[i as int]);
            assert(attrs@.skip(i as int).drop_first() =~= attrs@.skip(i as int + 1));
        }
        let ghost prev = gathered@;
        match Repr::try_from(&attrs[i]) {
            Ok(r) => {
                gathered.push(r);
                proof {
                    assert(gathered@ =~= prev + seq![r]);
                    match spec_scan_attrs(attrs@.skip(i as int + 1)) {
                        Ok(rest) => {
                            assert((prev + seq![r]) + rest =~= prev + (seq![r] + rest));
                        },
                        Err(_) => {},
                    }
                }
            },
            Err(ReprError::NotARepr) => {},
            Err(e) => {
                return Err(e);
            },
        }
        i = i + 1;
    }
    proof {
        assert(attrs@.skip(i as int) =~= Seq::<RawAttr>::empty());
        assert(gathered@ + Seq::<Repr>::empty() =~= gathered@);
    }
    Ok(Reprs { reprs: gathered })
}

/// Folds gathered layouts into the canonical layout.
fn repr_info_of(reprs: &Reprs) -> (r: ReprInfo)
    ensures
        r == spec_repr_info(reprs@),
{
    let packed = reprs.packed();
    let transparent = reprs.transparent();
    match reprs.c() {
        Some(_) => ReprInfo { layout: Layout::C, packed, transparent, align: None, int_type: None },
        None => ReprInfo {
            layout: Layout::Native,
            packed,
            transparent,
            align: reprs.align(),
            int_type: reprs.int_type(),
        },
    }
}

/// Builds the fields of one variant, resolving each named field's
/// annotations and giving unnamed fields the default treatment.
fn build_fields(fs: &Vec<RawField>) -> (r: Result<Vec<Field>, FieldPlanError>)
    ensures
        match r {
            Ok(out) => spec_fields(fs@) == Ok::<Seq<FieldV>, FieldPlanError>(out.deep_view()),
            Err(e) => spec_fields(fs@) == Err::<Seq<FieldV>, FieldPlanError>(e),
        },
{
    let mut out: Vec<Field> = Vec::new();
    let mut i: usize = 0;
    proof {
        assert(fs@.skip(0) =~= fs@);
    }
    while i < fs.len()
        invariant
            i <= fs@.len(),
            spec_fields(fs@) == (match spec_fields(fs@.skip(i as int)) {
                Ok(rest) => Ok::<Seq<FieldV>, FieldPlanError>(out.deep_view() + rest),
                Err(e) => Err::<Seq<FieldV>, FieldPlanError>(e),
            }),
        decreases fs@.len() - i,
    {
        proof {
            assert(fs@.skip(i as int)[0] == fs@[i as int]);
            assert(fs@.skip(i as int).drop_first() =~= fs@.skip(i as int + 1));
        }
        let f = &fs[i];
        let built: Field = match &f.name {
            Some(n) => {
                match resolve_field_plan(&f.annotations) {
                    Ok(t) => Field { name: Some(n.clone()), ty: f.ty.clone(), treatment: t },
                    Err(e) => {
                        return Err(e);
                    },
                }
            },
            None => Field { name: None, ty: f.ty.clone(), treatment: Treatment::Default },
        };
        let ghost prev = out.deep_view();
        out.push(built);
        proof {
            assert(out.deep_view() =~= prev + seq![built@]);
            assert(built@ == spec_field(fs@[i as int])->Ok_0);
            match spec_fields(fs@.skip(i as int + 1)) {
                Ok(rest) => {
                    assert((prev + seq![built@]) + rest =~= prev + (seq![built@] + rest));
                },
                Err(_) => {},
            }
        }
        i = i + 1;
    }
    proof {
        assert(fs@.skip(i as int) =~= Seq::<RawField>::empty());
        assert(out.deep_view() + Seq::<FieldV>::empty() =~= out.deep_view());
    }
    Ok(out)
}

/// Builds the variant list of an enum declaration.
fn build_variants(vs: &Vec<RawVariant>) -> (r: Result<Vec<Variant>, FieldPlanError>)
    ensures
        match r {
            Ok(out) => spec_variants(vs@) == Ok::<Seq<VariantV>, FieldPlanError>(out.deep_view()),
            Err(e) => spec_variants(vs@) == Err::<Seq<VariantV>, FieldPlanError>(e),
        },
{
    let mut out: Vec<Variant> = Vec::new();
    let mut i: usize = 0;
    proof {
        assert(vs@.skip(0) =~= vs@);
    }
    while i < vs.len()
        invariant
            i <= vs@.len(),
            spec_variants(vs@) == (match spec_variants(vs@.skip(i as int)) {
                Ok(rest) => Ok::<Seq<VariantV>, FieldPlanError>(out.deep_view() + rest),
                Err(e) => Err::<Seq<VariantV>, FieldPlanError>(e),
            }),
        decreases vs@.len() - i,
    {
        proof {
            assert(vs@.skip(i as int)[0] == vs@[i as int]);
            assert(vs@.skip(i as int).drop_first() =~= vs@.skip(i as int + 1));
        }
        let v = &vs[i];
        let fields = match build_fields(&v.fields) {
            Ok(fields) => fields,
            Err(e) => {
                return Err(e);
            },
        };
        let built = Variant { name: v.name.clone(), discriminant: v.discriminant, fields };
        let ghost prev = out.deep_view();
        out.push(built);
        proof {
            assert(out.deep_view() =~= prev + seq![built@]);
            assert(built@ == spec_variant(vs@[i as int])->Ok_0);
            match spec_variants(vs@.skip(i as int + 1)) {
                Ok(rest) => {
                    assert((prev + seq![built@]) + rest =~= prev + (seq![built@] + rest));
                },
                Err(_) => {},
            }
        }
        i = i + 1;
    }
    proof {
        assert(vs@.skip(i as int) =~= Seq::<RawVariant>::empty());
        assert(out.deep_view() + Seq::<VariantV>::empty() =~= out.deep_view());
    }
    Ok(out)
}

/// Builds the canonical descriptor of a declaration, or reports the first
/// error found.  A union-kind declaration always fails, and is the only
/// way this fails with `UnsupportedKind`; once a descriptor is returned,
/// emission over it is total.
pub fn build_descriptor(decl: &TypeDecl) -> (r: Result<ShapeDescriptor, BuildError>)
    ensures
        match r {
            Ok(d) => spec_build(*decl) == Ok::<DescV, BuildError>(d@) && d@.wf(),
            Err(e) => spec_build(*decl) == Err::<DescV, BuildError>(e),
        },
        decl.data is Union <==> r == Err::<ShapeDescriptor, BuildError>(BuildError::UnsupportedKind),
{
    match &decl.data {
        TypeDeclData::Union => Err(BuildError::UnsupportedKind),
        TypeDeclData::Struct(fs) => {
            let reprs = match scan_attrs(&decl.attrs) {
                Ok(rs) => rs,
                Err(e) => {
                    return Err(BuildError::Repr(e));
                },
            };
            let repr = repr_info_of(&reprs);
            let fields = match build_fields(fs) {
                Ok(fields) => fields,
                Err(e) => {
                    return Err(BuildError::FieldPlan(e));
                },
            };
            let variant = Variant { name: decl.name.clone(), discriminant: None, fields };
            let d = ShapeDescriptor {
                kind: ShapeKind::Struct,
                name: decl.name.clone(),
                generics: clone_strings(&decl.generics),
                repr,
                variants: vec![variant],
            };
            proof {
                lemma_fields_wf(fs@);
                assert(d@.variants =~= seq![
                    VariantV {
                        name: decl.name@,
                        discriminant: None,
                        fields: spec_fields(fs@)->Ok_0,
                    },
                ]);
                assert(spec_build(*decl) == Ok::<DescV, BuildError>(d@));
                assert(d@.wf());
            }
            Ok(d)
        },
        TypeDeclData::Enum(vs) => {
            let reprs = match scan_attrs(&decl.attrs) {
                Ok(rs) => rs,
                Err(e) => {
                    return Err(BuildError::Repr(e));
                },
            };
            let repr = repr_info_of(&reprs);
            let variants = match build_variants(vs) {
                Ok(variants) => variants,
                Err(e) => {
                    return Err(BuildError::FieldPlan(e));
                },
            };
            let d = ShapeDescriptor {
                kind: ShapeKind::Enum,
                name: decl.name.clone(),
                generics: clone_strings(&decl.generics),
                repr,
                variants,
            };
            proof {
                lemma_variants_wf(vs@);
                assert(spec_build(*decl) == Ok::<DescV, BuildError>(d@));
                assert(d@.wf());
            }
            Ok(d)
        },
    }
}

} // verus!
