use quote::ToTokens;
use type_hash_core::repr::{
    parse_repr, CRepr, Delim, RawAttr, Repr, ReprError, ReprInt, ReprToken, Reprs, RustRepr,
};

fn rt_ident(s: &str) -> ReprToken {
    ReprToken::Ident(s.to_string())
}

fn rt_comma() -> ReprToken {
    ReprToken::Punct(',')
}

fn rt_lit(s: &str) -> ReprToken {
    ReprToken::Literal(s.to_string())
}

fn rt_paren(ts: Vec<ReprToken>) -> ReprToken {
    ReprToken::Group(Delim::Paren, ts)
}

fn rt_attr(inner: bool, path: &[&str], tokens: Vec<ReprToken>) -> RawAttr {
    RawAttr {
        inner,
        path: path.iter().map(|s| s.to_string()).collect(),
        tokens,
    }
}

fn rt_native(transparent: bool, packed: bool, align: Option<usize>, int_type: Option<ReprInt>) -> Repr {
    Repr::Rust(RustRepr { transparent, packed, align, int_type })
}

#[test]
fn parse_c_keeps_only_transparent_and_packed() {
    let tokens = vec![
        rt_ident("c"),
        rt_comma(),
        rt_ident("packed"),
        rt_comma(),
        rt_ident("align"),
        rt_paren(vec![rt_lit("4")]),
    ];
    assert_eq!(
        parse_repr(&tokens),
        Ok(Repr::C(CRepr { transparent: false, packed: true }))
    );
}

#[test]
fn parse_transparent_native() {
    let tokens = vec![rt_ident("transparent")];
    assert_eq!(parse_repr(&tokens), Ok(rt_native(true, false, None, None)));
}

#[test]
fn parse_discriminant_width_directive() {
    let tokens = vec![rt_ident("u8")];
    assert_eq!(
        parse_repr(&tokens),
        Ok(rt_native(false, false, None, Some(ReprInt::U8)))
    );
}

#[test]
fn parse_align_reads_parenthesized_literal() {
    let tokens = vec![rt_ident("align"), rt_paren(vec![rt_lit("8")])];
    assert_eq!(parse_repr(&tokens), Ok(rt_native(false, false, Some(8), None)));
}

#[test]
fn parse_last_align_wins() {
    let tokens = vec![
        rt_ident("align"),
        rt_paren(vec![rt_lit("4")]),
        rt_comma(),
        rt_ident("align"),
        rt_paren(vec![rt_lit("16")]),
    ];
    assert_eq!(parse_repr(&tokens), Ok(rt_native(false, false, Some(16), None)));
}

#[test]
fn parse_unknown_identifiers_are_ignored() {
    let tokens = vec![rt_ident("simd"), rt_comma(), rt_ident("packed")];
    assert_eq!(parse_repr(&tokens), Ok(rt_native(false, true, None, None)));
}

#[test]
fn parse_only_unknown_identifiers_is_not_a_repr() {
    let tokens = vec![rt_ident("simd")];
    assert_eq!(parse_repr(&tokens), Err(ReprError::NotARepr));
    assert_eq!(parse_repr(&Vec::new()), Err(ReprError::NotARepr));
}

#[test]
fn parse_top_level_group_is_a_syntax_error() {
    let tokens = vec![rt_paren(vec![rt_ident("c")])];
    assert_eq!(parse_repr(&tokens), Err(ReprError::SyntaxError));
}

#[test]
fn parse_top_level_literal_is_a_syntax_error() {
    let tokens = vec![rt_lit("4")];
    assert_eq!(parse_repr(&tokens), Err(ReprError::SyntaxError));
}

#[test]
fn parse_align_consumes_the_following_token() {
    // `align` takes the next token as its argument, even an identifier
    // that would otherwise be a directive of its own
    let tokens = vec![rt_ident("align"), rt_ident("packed")];
    assert_eq!(parse_repr(&tokens), Err(ReprError::NotARepr));
}

#[test]
fn parse_align_with_trailing_nothing_is_forgiven() {
    let tokens = vec![rt_ident("packed"), rt_comma(), rt_ident("align")];
    assert_eq!(parse_repr(&tokens), Ok(rt_native(false, true, None, None)));
}

#[test]
fn parse_align_overflowing_literal_is_ignored() {
    let tokens = vec![
        rt_ident("align"),
        rt_paren(vec![rt_lit("99999999999999999999999999")]),
    ];
    assert_eq!(parse_repr(&tokens), Err(ReprError::NotARepr));
}

#[test]
fn parse_align_accepts_a_plus_prefixed_literal() {
    let tokens = vec![rt_ident("align"), rt_paren(vec![rt_lit("+8")])];
    assert_eq!(parse_repr(&tokens), Ok(rt_native(false, false, Some(8), None)));
}

#[test]
fn parse_align_with_nonliteral_argument_is_forgiven() {
    let tokens = vec![
        rt_ident("align"),
        rt_paren(vec![rt_ident("eight")]),
        rt_comma(),
        rt_ident("packed"),
    ];
    assert_eq!(parse_repr(&tokens), Ok(rt_native(false, true, None, None)));
}

#[test]
fn repr_int_from_str_reads_all_ten_spellings() {
    let all = [
        ReprInt::I8,
        ReprInt::I16,
        ReprInt::I32,
        ReprInt::I64,
        ReprInt::ISize,
        ReprInt::U8,
        ReprInt::U16,
        ReprInt::U32,
        ReprInt::U64,
        ReprInt::USize,
    ];
    for t in all {
        assert_eq!(ReprInt::from_str(t.as_str()), Ok(t));
    }
}

#[test]
fn repr_int_from_str_rejects_other_spellings() {
    assert_eq!(ReprInt::from_str("f32"), Err(ReprError::InvalidType));
    assert_eq!(ReprInt::from_str(""), Err(ReprError::InvalidType));
    assert_eq!(ReprInt::from_str("U8"), Err(ReprError::InvalidType));
}

#[test]
fn repr_int_default_is_pointer_sized_signed() {
    assert_eq!(ReprInt::default(), ReprInt::ISize);
}

#[test]
fn repr_int_ty_builds_the_named_type() {
    let t = ReprInt::U16.ty(None);
    assert_eq!(t.to_token_stream().to_string(), "u16");
}

#[test]
fn attr_inner_style_must_be_outer() {
    let att = rt_attr(true, &["repr"], vec![rt_ident("c")]);
    assert_eq!(Repr::try_from(&att), Err(ReprError::MustBeOuter));
    // the style is checked before the path
    let other = rt_attr(true, &["derive"], vec![]);
    assert_eq!(Repr::try_from(&other), Err(ReprError::MustBeOuter));
}

#[test]
fn attr_with_another_path_is_not_a_repr() {
    let att = rt_attr(false, &["derive"], vec![rt_ident("c")]);
    assert_eq!(Repr::try_from(&att), Err(ReprError::NotARepr));
    let qualified = rt_attr(false, &["core", "repr"], vec![rt_ident("c")]);
    assert_eq!(Repr::try_from(&qualified), Err(ReprError::NotARepr));
}

#[test]
fn reprs_gathers_hints_and_passes_over_the_rest() {
    let attrs = vec![
        rt_attr(false, &["repr"], vec![rt_ident("c")]),
        rt_attr(false, &["derive"], vec![rt_ident("Clone")]),
        rt_attr(true, &["repr"], vec![rt_ident("transparent")]),
        rt_attr(false, &["repr"], vec![rt_ident("packed")]),
        rt_attr(false, &["repr"], vec![rt_ident("u8")]),
    ];
    let reprs = Reprs::try_from(&attrs).unwrap();
    assert!(reprs.packed());
    assert!(!reprs.transparent());
    assert!(reprs.c().is_some());
    assert_eq!(reprs.int_type(), Some(ReprInt::U8));
    assert_eq!(reprs.align(), None);
}

#[test]
fn reprs_default_holds_nothing() {
    let reprs = Reprs::default();
    assert!(!reprs.packed());
    assert!(!reprs.transparent());
    assert!(reprs.c().is_none());
    assert_eq!(reprs.int_type(), None);
    assert_eq!(reprs.align(), None);
}
