use type_hash_core::descriptor::{
    build_descriptor, BuildError, Layout, RawField, RawVariant, ShapeKind, TypeDecl, TypeDeclData,
};
use type_hash_core::plan::{resolve_field_plan, FieldAnnotation, FieldPlanError, Treatment};
use type_hash_core::repr::{Delim, RawAttr, ReprError, ReprInt, ReprToken};

fn dt_field(name: Option<&str>, ty: &str, anns: Vec<FieldAnnotation>) -> RawField {
    RawField {
        name: name.map(|s| s.to_string()),
        ty: ty.to_string(),
        annotations: anns,
    }
}

fn dt_repr_attr(tokens: Vec<ReprToken>) -> RawAttr {
    RawAttr { inner: false, path: vec!["repr".to_string()], tokens }
}

fn dt_struct(name: &str, attrs: Vec<RawAttr>, fields: Vec<RawField>) -> TypeDecl {
    TypeDecl {
        name: name.to_string(),
        generics: Vec::new(),
        attrs,
        data: TypeDeclData::Struct(fields),
    }
}

fn dt_flag(w: &str) -> FieldAnnotation {
    FieldAnnotation::Flag(w.to_string())
}

fn dt_kv(k: &str, v: &str) -> FieldAnnotation {
    FieldAnnotation::KeyValue(k.to_string(), v.to_string())
}

#[test]
fn union_kind_always_fails_with_unsupported_kind() {
    let decl = TypeDecl {
        name: "U".to_string(),
        generics: Vec::new(),
        attrs: Vec::new(),
        data: TypeDeclData::Union,
    };
    assert_eq!(build_descriptor(&decl), Err(BuildError::UnsupportedKind));
}

#[test]
fn struct_shape_holds_one_variant() {
    let decl = dt_struct("Point", Vec::new(), vec![
        dt_field(Some("x"), "i32", Vec::new()),
        dt_field(Some("y"), "i32", Vec::new()),
    ]);
    let d = build_descriptor(&decl).unwrap();
    assert_eq!(d.kind, ShapeKind::Struct);
    assert_eq!(d.name, "Point");
    assert_eq!(d.variants.len(), 1);
    assert_eq!(d.variants[0].discriminant, None);
    assert_eq!(d.variants[0].fields.len(), 2);
    assert_eq!(d.variants[0].fields[0].treatment, Treatment::Default);
    assert_eq!(d.repr.layout, Layout::Native);
}

#[test]
fn skip_annotation_resolves_to_skip() {
    let decl = dt_struct("A", Vec::new(), vec![
        dt_field(Some("a"), "bool", vec![dt_flag("skip")]),
    ]);
    let d = build_descriptor(&decl).unwrap();
    assert_eq!(d.variants[0].fields[0].treatment, Treatment::Skip);
}

#[test]
fn foreign_type_annotation_resolves_to_foreign_opaque() {
    let decl = dt_struct("A", Vec::new(), vec![
        dt_field(Some("f"), "ForeignType", vec![dt_flag("foreign_type")]),
    ]);
    let d = build_descriptor(&decl).unwrap();
    assert_eq!(d.variants[0].fields[0].treatment, Treatment::ForeignOpaque);
}

#[test]
fn override_type_must_parse_as_a_type() {
    let good = resolve_field_plan(&vec![dt_kv("as", "Vec<u8>")]);
    assert_eq!(good, Ok(Treatment::OverrideType("Vec<u8>".to_string())));
    let bad = resolve_field_plan(&vec![dt_kv("as", "not a type @@")]);
    assert_eq!(bad, Err(FieldPlanError::InvalidOverrideType));
}

#[test]
fn unrecognized_annotation_forms_are_hard_errors() {
    assert_eq!(
        resolve_field_plan(&vec![dt_flag("frobnicate")]),
        Err(FieldPlanError::UnsupportedMetadata)
    );
    assert_eq!(
        resolve_field_plan(&vec![dt_kv("with", "something")]),
        Err(FieldPlanError::UnsupportedMetadata)
    );
    assert_eq!(
        resolve_field_plan(&vec![FieldAnnotation::OtherForm]),
        Err(FieldPlanError::UnsupportedMetadata)
    );
}

#[test]
fn no_annotation_resolves_to_default() {
    assert_eq!(resolve_field_plan(&Vec::new()), Ok(Treatment::Default));
}

#[test]
fn second_annotation_is_a_conflict() {
    let decl = dt_struct("A", Vec::new(), vec![
        dt_field(Some("a"), "bool", vec![dt_flag("skip"), dt_flag("skip")]),
    ]);
    assert_eq!(
        build_descriptor(&decl),
        Err(BuildError::FieldPlan(FieldPlanError::ConflictingAnnotation))
    );
}

#[test]
fn annotation_errors_name_the_failing_field_first() {
    // the first erroneous annotation in field order decides the error
    let decl = dt_struct("A", Vec::new(), vec![
        dt_field(Some("a"), "bool", vec![dt_kv("as", "@@")]),
        dt_field(Some("b"), "u8", vec![dt_flag("nonsense")]),
    ]);
    assert_eq!(
        build_descriptor(&decl),
        Err(BuildError::FieldPlan(FieldPlanError::InvalidOverrideType))
    );
}

#[test]
fn unnamed_fields_ignore_annotations() {
    let decl = TypeDecl {
        name: "W".to_string(),
        generics: Vec::new(),
        attrs: Vec::new(),
        data: TypeDeclData::Struct(vec![dt_field(None, "u32", vec![dt_flag("nonsense")])]),
    };
    let d = build_descriptor(&decl).unwrap();
    assert_eq!(d.variants[0].fields[0].treatment, Treatment::Default);
    assert_eq!(d.variants[0].fields[0].name, None);
}

#[test]
fn malformed_layout_hint_stops_the_build() {
    let inner = RawAttr {
        inner: true,
        path: vec!["repr".to_string()],
        tokens: vec![ReprToken::Ident("c".to_string())],
    };
    let decl = dt_struct("A", vec![inner], vec![dt_field(Some("a"), "u8", Vec::new())]);
    assert_eq!(build_descriptor(&decl), Err(BuildError::Repr(ReprError::MustBeOuter)));

    let garbled = dt_repr_attr(vec![ReprToken::Group(Delim::Brace, Vec::new())]);
    let decl2 = dt_struct("A", vec![garbled], vec![]);
    assert_eq!(build_descriptor(&decl2), Err(BuildError::Repr(ReprError::SyntaxError)));
}

#[test]
fn directives_that_are_no_layout_hint_are_passed_over() {
    let derive_attr = RawAttr {
        inner: false,
        path: vec!["derive".to_string()],
        tokens: vec![ReprToken::Ident("Clone".to_string())],
    };
    let decl = dt_struct("A", vec![derive_attr], vec![dt_field(Some("a"), "u8", Vec::new())]);
    let d = build_descriptor(&decl).unwrap();
    assert_eq!(d.repr.layout, Layout::Native);
    assert_eq!(d.repr.align, None);
}

#[test]
fn c_layout_drops_alignment_and_width_directives() {
    let attrs = vec![
        dt_repr_attr(vec![ReprToken::Ident("c".to_string())]),
        dt_repr_attr(vec![
            ReprToken::Ident("align".to_string()),
            ReprToken::Group(Delim::Paren, vec![ReprToken::Literal("8".to_string())]),
        ]),
        dt_repr_attr(vec![ReprToken::Ident("u8".to_string())]),
    ];
    let decl = dt_struct("A", attrs, vec![]);
    let d = build_descriptor(&decl).unwrap();
    assert_eq!(d.repr.layout, Layout::C);
    assert_eq!(d.repr.align, None);
    assert_eq!(d.repr.int_type, None);
}

#[test]
fn native_layout_keeps_first_directives() {
    let attrs = vec![
        dt_repr_attr(vec![
            ReprToken::Ident("packed".to_string()),
            ReprToken::Punct(','),
            ReprToken::Ident("align".to_string()),
            ReprToken::Group(Delim::Paren, vec![ReprToken::Literal("4".to_string())]),
        ]),
        dt_repr_attr(vec![ReprToken::Ident("i16".to_string())]),
    ];
    let decl = dt_struct("A", attrs, vec![]);
    let d = build_descriptor(&decl).unwrap();
    assert_eq!(d.repr.layout, Layout::Native);
    assert!(d.repr.packed);
    assert_eq!(d.repr.align, Some(4));
    assert_eq!(d.repr.int_type, Some(ReprInt::I16));
}

#[test]
fn enum_shape_keeps_variants_in_order() {
    let decl = TypeDecl {
        name: "E".to_string(),
        generics: Vec::new(),
        attrs: Vec::new(),
        data: TypeDeclData::Enum(vec![
            RawVariant {
                name: "X".to_string(),
                discriminant: Some(1),
                fields: Vec::new(),
            },
            RawVariant {
                name: "Y".to_string(),
                discriminant: None,
                fields: vec![dt_field(None, "u8", Vec::new())],
            },
        ]),
    };
    let d = build_descriptor(&decl).unwrap();
    assert_eq!(d.kind, ShapeKind::Enum);
    assert_eq!(d.variants.len(), 2);
    assert_eq!(d.variants[0].name, "X");
    assert_eq!(d.variants[0].discriminant, Some(1));
    assert_eq!(d.variants[1].discriminant, None);
}
