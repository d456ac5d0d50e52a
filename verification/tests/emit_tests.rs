use type_hash_core::descriptor::{
    build_descriptor, RawField, RawVariant, ShapeDescriptor, TypeDecl, TypeDeclData,
};
use type_hash_core::emit::{emit, emit_checked, HashCall, TypeEnv};
use type_hash_core::plan::FieldAnnotation;
use type_hash_core::repr::{Delim, RawAttr, ReprInt, ReprToken};

fn et_field(name: Option<&str>, ty: &str, anns: Vec<FieldAnnotation>) -> RawField {
    RawField {
        name: name.map(|s| s.to_string()),
        ty: ty.to_string(),
        annotations: anns,
    }
}

fn et_struct_decl(name: &str, attrs: Vec<RawAttr>, fields: Vec<RawField>) -> TypeDecl {
    TypeDecl {
        name: name.to_string(),
        generics: Vec::new(),
        attrs,
        data: TypeDeclData::Struct(fields),
    }
}

fn et_build(decl: &TypeDecl) -> ShapeDescriptor {
    build_descriptor(decl).unwrap()
}

fn et_repr_attr(tokens: Vec<ReprToken>) -> RawAttr {
    RawAttr { inner: false, path: vec!["repr".to_string()], tokens }
}

/// An environment binding the primitive type names a test refers to, each
/// to the sequence its own shape would emit: here simply its name's write.
fn et_env(names: &[&str]) -> TypeEnv {
    let mut env = TypeEnv::new();
    for n in names {
        env.bind(n.to_string(), vec![HashCall::Write(n.to_string())]);
    }
    env
}

fn et_flag(w: &str) -> FieldAnnotation {
    FieldAnnotation::Flag(w.to_string())
}

#[test]
fn foreign_type_hashes_different_for_different_foreign_types() {
    let v1 = et_build(&et_struct_decl(
        "MyStruct",
        Vec::new(),
        vec![et_field(Some("foreign"), "ForeignType", vec![et_flag("foreign_type")])],
    ));
    let v2 = et_build(&et_struct_decl(
        "MyStruct",
        Vec::new(),
        vec![et_field(Some("foreign"), "DifferentForeignType", vec![et_flag("foreign_type")])],
    ));
    let env = TypeEnv::new();
    assert_ne!(emit(&v1, &env), emit(&v2, &env));
}

#[test]
fn type_hashes_same_for_skipped_field_as_type_without_field() {
    let v1 = et_build(&et_struct_decl(
        "MyStruct",
        Vec::new(),
        vec![
            et_field(Some("a"), "bool", vec![et_flag("skip")]),
            et_field(Some("b"), "u32", Vec::new()),
        ],
    ));
    let v2 = et_build(&et_struct_decl(
        "MyStruct",
        Vec::new(),
        vec![et_field(Some("b"), "u32", Vec::new())],
    ));
    let env = et_env(&["u32"]);
    assert_eq!(emit(&v1, &env), emit(&v2, &env));
}

#[test]
fn shape_identical_definitions_emit_equal_sequences() {
    let mk = || {
        et_build(&et_struct_decl(
            "Pair",
            vec![et_repr_attr(vec![ReprToken::Ident("c".to_string())])],
            vec![
                et_field(Some("a"), "u8", Vec::new()),
                et_field(Some("b"), "u16", Vec::new()),
            ],
        ))
    };
    let d1 = mk();
    let d2 = mk();
    let env = et_env(&["u8", "u16"]);
    assert_eq!(emit(&d1, &env), emit(&d2, &env));
}

#[test]
fn emitting_twice_from_one_descriptor_is_identical() {
    let d = et_build(&et_struct_decl(
        "Once",
        Vec::new(),
        vec![et_field(Some("x"), "u64", Vec::new())],
    ));
    let env = et_env(&["u64"]);
    assert_eq!(emit(&d, &env), emit(&d, &env));
}

#[test]
fn field_order_changes_the_sequence() {
    let d1 = et_build(&et_struct_decl(
        "A",
        Vec::new(),
        vec![
            et_field(Some("a"), "u8", Vec::new()),
            et_field(Some("b"), "u16", Vec::new()),
        ],
    ));
    let d2 = et_build(&et_struct_decl(
        "A",
        Vec::new(),
        vec![
            et_field(Some("b"), "u16", Vec::new()),
            et_field(Some("a"), "u8", Vec::new()),
        ],
    ));
    let env = et_env(&["u8", "u16"]);
    assert_ne!(emit(&d1, &env), emit(&d2, &env));
}

fn et_enum_xy(discr_x: i128) -> TypeDecl {
    TypeDecl {
        name: "E".to_string(),
        generics: Vec::new(),
        attrs: Vec::new(),
        data: TypeDeclData::Enum(vec![
            RawVariant { name: "X".to_string(), discriminant: Some(discr_x), fields: Vec::new() },
            RawVariant { name: "Y".to_string(), discriminant: None, fields: Vec::new() },
        ]),
    }
}

#[test]
fn discriminant_value_changes_the_sequence() {
    let d1 = et_build(&et_enum_xy(1));
    let d2 = et_build(&et_enum_xy(2));
    let env = TypeEnv::new();
    assert_ne!(emit(&d1, &env), emit(&d2, &env));
}

#[test]
fn c_layout_changes_the_sequence() {
    let fields = || vec![et_field(Some("a"), "u8", Vec::new())];
    let with_c = et_build(&et_struct_decl(
        "A",
        vec![et_repr_attr(vec![ReprToken::Ident("c".to_string())])],
        fields(),
    ));
    let without = et_build(&et_struct_decl("A", Vec::new(), fields()));
    let env = et_env(&["u8"]);
    assert_ne!(emit(&with_c, &env), emit(&without, &env));
}

#[test]
fn emitted_sequence_is_exactly_the_documented_one() {
    // an enum with an explicit eight-bit discriminant width: the name,
    // the layout flags with the width's spelling, then the discriminant
    // reduced to eight bits: 300 leaves the bit pattern 44
    let decl = TypeDecl {
        name: "E2".to_string(),
        generics: Vec::new(),
        attrs: vec![et_repr_attr(vec![ReprToken::Ident("u8".to_string())])],
        data: TypeDeclData::Enum(vec![RawVariant {
            name: "A".to_string(),
            discriminant: Some(300),
            fields: Vec::new(),
        }]),
    };
    let d = et_build(&decl);
    let env = TypeEnv::new();
    assert_eq!(
        emit(&d, &env),
        vec![
            HashCall::Write("E2".to_string()),
            HashCall::HashBool(false),
            HashCall::HashBool(false),
            HashCall::Write("u8".to_string()),
            HashCall::HashBool(false),
            HashCall::HashInt(ReprInt::U8, 44),
        ]
    );
}

#[test]
fn negative_discriminants_wrap_at_their_width() {
    let decl = TypeDecl {
        name: "E3".to_string(),
        generics: Vec::new(),
        attrs: vec![et_repr_attr(vec![ReprToken::Ident("u8".to_string())])],
        data: TypeDeclData::Enum(vec![RawVariant {
            name: "A".to_string(),
            discriminant: Some(-1),
            fields: Vec::new(),
        }]),
    };
    let d = et_build(&decl);
    let calls = emit(&d, &TypeEnv::new());
    assert_eq!(calls[5], HashCall::HashInt(ReprInt::U8, 255));

    // without a width directive, the pointer-sized signed default applies
    let decl2 = TypeDecl {
        name: "E4".to_string(),
        generics: Vec::new(),
        attrs: Vec::new(),
        data: TypeDeclData::Enum(vec![RawVariant {
            name: "A".to_string(),
            discriminant: Some(-1),
            fields: Vec::new(),
        }]),
    };
    let d2 = et_build(&decl2);
    let calls2 = emit(&d2, &TypeEnv::new());
    assert_eq!(calls2[4], HashCall::HashInt(ReprInt::ISize, u64::MAX));
}

#[test]
fn alignment_directive_enters_the_sequence() {
    let decl = et_struct_decl(
        "Aligned",
        vec![et_repr_attr(vec![
            ReprToken::Ident("align".to_string()),
            ReprToken::Group(Delim::Paren, vec![ReprToken::Literal("4".to_string())]),
        ])],
        Vec::new(),
    );
    let d = et_build(&decl);
    assert_eq!(
        emit(&d, &TypeEnv::new()),
        vec![
            HashCall::Write("Aligned".to_string()),
            HashCall::HashBool(false),
            HashCall::HashBool(false),
            HashCall::HashUsize(4),
            HashCall::HashBool(false),
        ]
    );
}

#[test]
fn unnamed_fields_write_no_name() {
    let d = et_build(&et_struct_decl(
        "Wrapper",
        Vec::new(),
        vec![et_field(None, "u32", Vec::new())],
    ));
    let env = et_env(&["u32"]);
    assert_eq!(
        emit(&d, &env),
        vec![
            HashCall::Write("Wrapper".to_string()),
            HashCall::HashBool(false),
            HashCall::HashBool(false),
            HashCall::HashBool(false),
            HashCall::Write("u32".to_string()),
        ]
    );
}

#[test]
fn override_type_hashes_the_named_type_instead() {
    let d = et_build(&et_struct_decl(
        "Caching",
        Vec::new(),
        vec![et_field(
            Some("inner"),
            "SecretCache",
            vec![FieldAnnotation::KeyValue("as".to_string(), "u64".to_string())],
        )],
    ));
    let env = et_env(&["u64"]);
    assert_eq!(
        emit(&d, &env),
        vec![
            HashCall::Write("Caching".to_string()),
            HashCall::HashBool(false),
            HashCall::HashBool(false),
            HashCall::HashBool(false),
            HashCall::Write("inner".to_string()),
            HashCall::Write("u64".to_string()),
        ]
    );
}

#[test]
fn missing_binding_is_reported_before_emission() {
    let d = et_build(&et_struct_decl(
        "Needs",
        Vec::new(),
        vec![et_field(Some("x"), "Elsewhere", Vec::new())],
    ));
    assert_eq!(emit_checked(&d, &TypeEnv::new()), None);
    let env = et_env(&["Elsewhere"]);
    assert!(emit_checked(&d, &env).is_some());
}

#[test]
fn first_binding_of_a_name_wins() {
    let d = et_build(&et_struct_decl(
        "Holder",
        Vec::new(),
        vec![et_field(Some("v"), "T", Vec::new())],
    ));
    let mut env = TypeEnv::new();
    env.bind("T".to_string(), vec![HashCall::Write("first".to_string())]);
    env.bind("T".to_string(), vec![HashCall::Write("second".to_string())]);
    let calls = emit(&d, &env);
    assert_eq!(calls[5], HashCall::Write("first".to_string()));
}

#[test]
fn generic_parameter_binding_changes_the_sequence() {
    // a container's own layout is unchanged; what its parameter is bound
    // to still changes the emitted sequence
    let decl = TypeDecl {
        name: "Holder2".to_string(),
        generics: vec!["T".to_string()],
        attrs: Vec::new(),
        data: TypeDeclData::Struct(vec![et_field(Some("v"), "T", Vec::new())]),
    };
    let d = et_build(&decl);
    let mut env_u8 = TypeEnv::new();
    env_u8.bind("T".to_string(), vec![HashCall::Write("u8".to_string())]);
    let mut env_u16 = TypeEnv::new();
    env_u16.bind("T".to_string(), vec![HashCall::Write("u16".to_string())]);
    assert_ne!(emit(&d, &env_u8), emit(&d, &env_u16));
}
