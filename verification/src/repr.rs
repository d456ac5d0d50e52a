//! Parsing of layout-hint tokens into a canonical representation.
//!
//! A layout hint is a comma-separated token list such as `c, packed,
//! align(4)`, `u8`, or `transparent`.  The tokens arrive already tokenized,
//! as [`ReprToken`] values; scanning them yields either a C-compatible
//! layout ([`CRepr`]) or a native layout ([`RustRepr`]), or a classified
//! [`ReprError`].  Unrecognized identifiers are ignored on purpose, so that
//! hints this library does not know about never break parsing.

use vstd::prelude::*;

use crate::text::{parse_usize, spec_parse_usize, str_eq};

verus! {

/// The ten primitive integer spellings a layout hint may use as an explicit
/// discriminant-width directive.
#[derive(Clone, Copy, PartialEq, Eq, Structural, Debug)]
pub enum ReprInt {
    I8,
    I16,
    I32,
    I64,
    ISize,
    U8,
    U16,
    U32,
    U64,
    USize,
}

/// The integer type named by a spelling, if it names one.
pub open spec fn spec_int_of_name(s: Seq<char>) -> Option<ReprInt> {
    if s == "u8"@ {
        Some(ReprInt::U8)
    } else if s == "i8"@ {
        Some(ReprInt::I8)
    } else if s == "u16"@ {
        Some(ReprInt::U16)
    } else if s == "i16"@ {
        Some(ReprInt::I16)
    } else if s == "u32"@ {
        Some(ReprInt::U32)
    } else if s == "i32"@ {
        Some(ReprInt::I32)
    } else if s == "u64"@ {
        Some(ReprInt::U64)
    } else if s == "i64"@ {
        Some(ReprInt::I64)
    } else if s == "usize"@ {
        Some(ReprInt::USize)
    } else if s == "isize"@ {
        Some(ReprInt::ISize)
    } else {
        None
    }
}

impl ReprInt {
    /// The canonical spelling of the integer type, as a character sequence.
    pub open spec fn spec_str(self) -> Seq<char> {
        match self {
            ReprInt::I8 => "i8"@,
            ReprInt::I16 => "i16"@,
            ReprInt::I32 => "i32"@,
            ReprInt::I64 => "i64"@,
            ReprInt::ISize => "isize"@,
            ReprInt::U8 => "u8"@,
            ReprInt::U16 => "u16"@,
            ReprInt::U32 => "u32"@,
            ReprInt::U64 => "u64"@,
            ReprInt::USize => "usize"@,
        }
    }

    /// The canonical spelling of the integer type.
    pub fn as_str(&self) -> (r: &'static str)
        ensures
            r@ == self.spec_str(),
    {
        match self {
            ReprInt::I8 => "i8",
            ReprInt::I16 => "i16",
            ReprInt::I32 => "i32",
            ReprInt::I64 => "i64",
            ReprInt::ISize => "isize",
            ReprInt::U8 => "u8",
            ReprInt::U16 => "u16",
            ReprInt::U32 => "u32",
            ReprInt::U64 => "u64",
            ReprInt::USize => "usize",
        }
    }

    /// Reads an integer type from its spelling, as the ten primitive
    /// spellings go; anything else is an invalid integer-type directive.
    pub fn from_str(input: &str) -> (r: Result<ReprInt, ReprError>)
        ensures
            match r {
                Ok(t) => spec_int_of_name(input@) == Some(t),
                Err(e) => spec_int_of_name(input@) is None && e == ReprError::InvalidType,
            },
    {
        if str_eq(input, "u8") {
            Ok(ReprInt::U8)
        } else if str_eq(input, "i8") {
            Ok(ReprInt::I8)
        } else if str_eq(input, "u16") {
            Ok(ReprInt::U16)
        } else if str_eq(input, "i16") {
            Ok(ReprInt::I16)
        } else if str_eq(input, "u32") {
            Ok(ReprInt::U32)
        } else if str_eq(input, "i32") {
            Ok(ReprInt::I32)
        } else if str_eq(input, "u64") {
            Ok(ReprInt::U64)
        } else if str_eq(input, "i64") {
            Ok(ReprInt::I64)
        } else if str_eq(input, "usize") {
            Ok(ReprInt::USize)
        } else if str_eq(input, "isize") {
            Ok(ReprInt::ISize)
        } else {
            Err(ReprError::InvalidType)
        }
    }
}

impl Default for ReprInt {
    /// The width used for discriminants when no directive names one:
    /// a pointer-sized signed integer.
    fn default() -> (r: Self)
        ensures
            r == ReprInt::ISize,
    {
        ReprInt::ISize
    }
}

#[verifier::external_type_specification]
#[verifier::external_body]
pub struct ExSynType(syn::Type);

#[verifier::external_type_specification]
#[verifier::external_body]
pub struct ExSpan(proc_macro2::Span);

impl ReprInt {
    /// Relies on `syn::Ident::new` and syn's path types: builds the syn
    /// type named by this spelling, located at the given span or at the
    /// call site.  Nothing about the built value is claimed.
    #[verifier::external_body]
    pub fn ty(&self, span: Option<proc_macro2::Span>) -> syn::Type {
        let mut segments = syn::punctuated::Punctuated::new();
        segments.push_value(
            syn::Ident::new(self.as_str(), span.unwrap_or_else(proc_macro2::Span::call_site))
                .into(),
        );
        syn::Type::Path(syn::TypePath {
            qself: None,
            path: syn::Path { leading_colon: None, segments },
        })
    }
}

/// The delimiter of a token group.
#[derive(Clone, Copy, PartialEq, Eq, Structural, Debug)]
pub enum Delim {
    Paren,
    Brace,
    Bracket,
    /// An implicit grouping with no written delimiter.
    Bare,
}

/// One token of a layout hint's token list.
#[derive(Debug)]
pub enum ReprToken {
    /// A punctuation character, such as the separating comma.
    Punct(char),
    /// An identifier, by its spelling.
    Ident(String),
    /// A delimited group of tokens, such as the argument of `align(4)`.
    Group(Delim, Vec<ReprToken>),
    /// A literal, by its spelling.
    Literal(String),
}

/// A directive attached to a type declaration, reduced to what layout-hint
/// parsing reads: its style, its path, and the tokens it carries.
#[derive(Debug)]
pub struct RawAttr {
    /// True for an inner-style directive; layout hints must be outer.
    pub inner: bool,
    /// The segments of the path the directive addresses.
    pub path: Vec<String>,
    /// The comma-separated token list the directive carries.
    pub tokens: Vec<ReprToken>,
}

/// Why a directive failed to yield a layout.
#[derive(Clone, Copy, PartialEq, Eq, Structural, Debug)]
pub enum ReprError {
    /// The directive carries no recognized layout token at all; callers
    /// substitute the all-default layout rather than reporting an error.
    NotARepr,
    /// The directive is attached as an inner rather than an outer one.
    MustBeOuter,
    /// A spelling where an integer type was expected names none.
    InvalidType,
    /// The token list is malformed: something other than identifiers,
    /// punctuation, or a parenthesized literal after `align`.
    SyntaxError,
}

/// A C-compatible layout: alignment and discriminant-width directives do
/// not apply to it and are dropped even if textually present.
#[derive(Clone, Copy, PartialEq, Eq, Structural, Debug)]
pub struct CRepr {
    pub transparent: bool,
    pub packed: bool,
}

/// A native layout, carrying whichever directives were present.
#[derive(Clone, Copy, PartialEq, Eq, Structural, Debug)]
pub struct RustRepr {
    pub transparent: bool,
    pub packed: bool,
    pub align: Option<usize>,
    pub int_type: Option<ReprInt>,
}

/// A parsed layout hint: native or C-compatible.
#[derive(Clone, Copy, PartialEq, Eq, Structural, Debug)]
pub enum Repr {
    Rust(RustRepr),
    C(CRepr),
}

impl Repr {
    /// Whether the layout is packed.
    pub open spec fn spec_packed(self) -> bool {
        match self {
            Repr::Rust(r) => r.packed,
            Repr::C(c) => c.packed,
        }
    }

    /// Whether the layout is transparent.
    pub open spec fn spec_transparent(self) -> bool {
        match self {
            Repr::Rust(r) => r.transparent,
            Repr::C(c) => c.transparent,
        }
    }

    pub fn packed(&self) -> (r: bool)
        ensures
            r == self.spec_packed(),
    {
        match self {
            Repr::Rust(rr) => rr.packed,
            Repr::C(c) => c.packed,
        }
    }

    pub fn transparent(&self) -> (r: bool)
        ensures
            r == self.spec_transparent(),
    {
        match self {
            Repr::Rust(rr) => rr.transparent,
            Repr::C(c) => c.transparent,
        }
    }

    /// Reads one directive: inner directives are rejected, a single-segment
    /// `repr` path has its token list parsed, and anything else is not a
    /// layout hint.
    pub fn try_from(att: &RawAttr) -> (r: Result<Repr, ReprError>)
        ensures
            r == spec_attr_repr(*att),
    {
        if att.inner {
            return Err(ReprError::MustBeOuter);
        }
        if att.path.len() == 1 && str_eq(att.path[0].as_str(), "repr") {
            return parse_repr(&att.tokens);
        }
        Err(ReprError::NotARepr)
    }
}

/// The directives a scan of the token list has seen so far.
pub struct ReprScan {
    pub is_c: bool,
    pub transparent: bool,
    pub packed: bool,
    pub align: Option<usize>,
    pub int_type: Option<ReprInt>,
}

/// A scan before any token has been read.
pub open spec fn init_scan() -> ReprScan {
    ReprScan { is_c: false, transparent: false, packed: false, align: None, int_type: None }
}

/// The alignment carried by the token following `align`: a parenthesized
/// group whose first token is a literal denoting an unsigned integer.
/// Anything else carries none, and is forgiven.
pub open spec fn align_of_token(t: ReprToken) -> Option<usize> {
    match t {
        ReprToken::Group(Delim::Paren, inner) => {
            if inner@.len() > 0 {
                match inner@[0] {
                    ReprToken::Literal(lit) => spec_parse_usize(lit@),
                    _ => None,
                }
            } else {
                None
            }
        },
        _ => None,
    }
}

/// What one identifier token (other than `align`) contributes to the scan.
/// Unrecognized identifiers contribute nothing.
pub open spec fn scan_ident(name: Seq<char>, st: ReprScan) -> ReprScan {
    if name == "c"@ {
        ReprScan { is_c: true, transparent: st.transparent, packed: st.packed, align: st.align, int_type: st.int_type }
    } else if name == "transparent"@ {
        ReprScan { is_c: st.is_c, transparent: true, packed: st.packed, align: st.align, int_type: st.int_type }
    } else if name == "packed"@ {
        ReprScan { is_c: st.is_c, transparent: st.transparent, packed: true, align: st.align, int_type: st.int_type }
    } else {
        match spec_int_of_name(name) {
            Some(t) => ReprScan { is_c: st.is_c, transparent: st.transparent, packed: st.packed, align: st.align, int_type: Some(t) },
            None => st,
        }
    }
}

/// Scans a token list left to right.  Punctuation separates and is
/// otherwise ignored; `align` consumes the following token as its argument;
/// a group or literal anywhere else is a syntax error.
pub open spec fn spec_scan(toks: Seq<ReprToken>, st: ReprScan) -> Result<ReprScan, ReprError>
    decreases toks.len(),
{
    if toks.len() == 0 {
        Ok(st)
    } else {
        match toks[0] {
            ReprToken::Punct(_) => spec_scan(toks.drop_first(), st),
            ReprToken::Ident(name) => {
                if name@ == "align"@ {
                    if toks.len() == 1 {
                        Ok(st)
                    } else {
                        let st2 = match align_of_token(toks[1]) {
                            Some(a) => ReprScan { is_c: st.is_c, transparent: st.transparent, packed: st.packed, align: Some(a), int_type: st.int_type },
                            None => st,
                        };
                        spec_scan(toks.skip(2), st2)
                    }
                } else {
                    spec_scan(toks.drop_first(), scan_ident(name@, st))
                }
            },
            _ => Err(ReprError::SyntaxError),
        }
    }
}

/// Classifies a finished scan: `c` wins and keeps only `transparent` and
/// `packed`; otherwise any directive at all makes a native layout; and a
/// scan that saw nothing is no layout hint.
pub open spec fn classify_scan(st: ReprScan) -> Result<Repr, ReprError> {
    if st.is_c {
        Ok(Repr::C(CRepr { transparent: st.transparent, packed: st.packed }))
    } else if st.transparent || st.packed || st.align is Some || st.int_type is Some {
        Ok(Repr::Rust(RustRepr { transparent: st.transparent, packed: st.packed, align: st.align, int_type: st.int_type }))
    } else {
        Err(ReprError::NotARepr)
    }
}

/// What parsing a layout-hint token list yields.
pub open spec fn spec_parse_repr(toks: Seq<ReprToken>) -> Result<Repr, ReprError> {
    match spec_scan(toks, init_scan()) {
        Ok(st) => classify_scan(st),
        Err(e) => Err(e),
    }
}

/// What reading one directive yields.
pub open spec fn spec_attr_repr(att: RawAttr) -> Result<Repr, ReprError> {
    if att.inner {
        Err(ReprError::MustBeOuter)
    } else if att.path@.len() == 1 && att.path@[0]@ == "repr"@ {
        spec_parse_repr(att.tokens@)
    } else {
        Err(ReprError::NotARepr)
    }
}

/// Parses a layout-hint token list, such as the tokens of `c, packed,
/// align(4)`.
pub fn parse_repr(tokens: &Vec<ReprToken>) -> (r: Result<Repr, ReprError>)
    ensures
        r == spec_parse_repr(tokens@),
{
    let mut is_c = false;
    let mut transparent = false;
    let mut packed = false;
    let mut align: Option<usize> = None;
    let mut int_type: Option<ReprInt> = None;
    let mut i: usize = 0;
    proof {
        assert(tokens@.skip(0) =~= tokens@);
    }
    while i < tokens.len()
        invariant
            i <= tokens@.len(),
            spec_scan(tokens@, init_scan()) == spec_scan(
                tokens@.skip(i as int),
                (ReprScan { is_c, transparent, packed, align, int_type }),
            ),
        decreases tokens@.len() - i,
    {
        let ghost toks = tokens@.skip(i as int);
        proof {
            assert(toks[0] == tokens@[i as int]);
            assert(toks.drop_first() =~= tokens@.skip(i as int + 1));
        }
        match &tokens[i] {
            ReprToken::Punct(_) => {
                i = i + 1;
            },
            ReprToken::Ident(name) => {
                if str_eq(name.as_str(), "align") {
                    if i + 1 == tokens.len() {
                        i = i + 1;
                    } else {
                        proof {
                            assert(toks[1] == tokens@[i as int + 1]);
                            assert(toks.skip(2) =~= tokens@.skip(i as int + 2));
                        }
                        let mut seen: Option<usize> = None;
                        match &tokens[i + 1] {
                            ReprToken::Group(Delim::Paren, inner) => {
                                if inner.len() > 0 {
                                    match &inner[0] {
                                        ReprToken::Literal(lit) => {
                                            seen = parse_usize(lit.as_str());
                                        },
                                        _ => {},
                                    }
                                }
                            },
                            _ => {},
                        }
                        proof {
                            assert(seen == align_of_token(tokens@[i as int + 1]));
                        }
                        if let Some(a) = seen {
                            align = Some(a);
                        }
                        i = i + 2;
                    }
                } else if str_eq(name.as_str(), "c") {
                    is_c = true;
                    i = i + 1;
                } else if str_eq(name.as_str(), "transparent") {
                    transparent = true;
                    i = i + 1;
                } else if str_eq(name.as_str(), "packed") {
                    packed = true;
                    i = i + 1;
                } else {
                    match ReprInt::from_str(name.as_str()) {
                        Ok(t) => {
                            int_type = Some(t);
                        },
                        Err(_) => {},
                    }
                    i = i + 1;
                }
            },
            _ => {
                return Err(ReprError::SyntaxError);
            },
        }
    }
    if is_c {
        Ok(Repr::C(CRepr { transparent, packed }))
    } else if transparent || packed || align.is_some() || int_type.is_some() {
        Ok(Repr::Rust(RustRepr { transparent, packed, align, int_type }))
    } else {
        Err(ReprError::NotARepr)
    }
}

/// The layout hints gathered from a declaration's directives: directives
/// that fail to read as layout hints are passed over.
pub struct Reprs {
    pub reprs: Vec<Repr>,
}

impl View for Reprs {
    type V = Seq<Repr>;

    open spec fn view(&self) -> Seq<Repr> {
        self.reprs@
    }
}

/// The layouts of the directives that read as layout hints, in order,
/// errors passed over.
pub open spec fn spec_collect_reprs(atts: Seq<RawAttr>) -> Seq<Repr>
    decreases atts.len(),
{
    if atts.len() == 0 {
        Seq::empty()
    } else {
        match spec_attr_repr(atts[0]) {
            Ok(r) => seq![r] + spec_collect_reprs(atts.drop_first()),
            Err(_) => spec_collect_reprs(atts.drop_first()),
        }
    }
}

/// Whether any gathered layout is packed.
pub open spec fn spec_any_packed(rs: Seq<Repr>) -> bool {
    exists|i: int| 0 <= i < rs.len() && (#[trigger] rs[i]).spec_packed()
}

/// Whether any gathered layout is transparent.
pub open spec fn spec_any_transparent(rs: Seq<Repr>) -> bool {
    exists|i: int| 0 <= i < rs.len() && (#[trigger] rs[i]).spec_transparent()
}

/// The first explicit discriminant-width directive among the gathered
/// layouts.
pub open spec fn spec_first_int(rs: Seq<Repr>) -> Option<ReprInt>
    decreases rs.len(),
{
    if rs.len() == 0 {
        None
    } else {
        match rs[0] {
            Repr::Rust(rr) => match rr.int_type {
                Some(t) => Some(t),
                None => spec_first_int(rs.drop_first()),
            },
            Repr::C(_) => spec_first_int(rs.drop_first()),
        }
    }
}

/// The first alignment directive among the gathered layouts.
pub open spec fn spec_first_align(rs: Seq<Repr>) -> Option<usize>
    decreases rs.len(),
{
    if rs.len() == 0 {
        None
    } else {
        match rs[0] {
            Repr::Rust(rr) => match rr.align {
                Some(a) => Some(a),
                None => spec_first_align(rs.drop_first()),
            },
            Repr::C(_) => spec_first_align(rs.drop_first()),
        }
    }
}

/// The first C-compatible layout among the gathered layouts.
pub open spec fn spec_first_c(rs: Seq<Repr>) -> Option<CRepr>
    decreases rs.len(),
{
    if rs.len() == 0 {
        None
    } else {
        match rs[0] {
            Repr::C(c) => Some(c),
            Repr::Rust(_) => spec_first_c(rs.drop_first()),
        }
    }
}

impl Reprs {
    /// Gathers the layout hints of a declaration's directives, passing over
    /// directives that fail to read as layout hints.
    pub fn try_from(attrs: &Vec<RawAttr>) -> (r: Result<Reprs, ReprError>)
        ensures
            r matches Ok(rs) && rs@ == spec_collect_reprs(attrs@),
    {
        let mut gathered: Vec<Repr> = Vec::new();
        let mut i: usize = 0;
        proof {
            assert(attrs@.skip(0) =~= attrs@);
            assert(gathered@ + spec_collect_reprs(attrs@) =~= spec_collect_reprs(attrs@));
        }
        while i < attrs.len()
            invariant
                i <= attrs@.len(),
                spec_collect_reprs(attrs@) == gathered@ + spec_collect_reprs(attrs@.skip(i as int)),
            decreases attrs@.len() - i,
        {
            proof {
                assert(attrs@.skip(i as int)[0] == attrs@[i as int]);
                assert(attrs@.skip(i as int).drop_first() =~= attrs@.skip(i as int + 1));
            }
            match Repr::try_from(&attrs[i]) {
                Ok(r) => {
                    gathered.push(r);
                    proof {
                        assert(gathered@ =~= gathered@.take(gathered@.len() - 1) + seq![r]);
                    }
                },
                Err(_) => {},
            }
            proof {
                assert(spec_collect_reprs(attrs@) == gathered@ + spec_collect_reprs(
                    attrs@.skip(i as int + 1),
                ));
            }
            i = i + 1;
        }
        proof {
            assert(attrs@.skip(i as int) =~= Seq::<RawAttr>::empty());
            assert(spec_collect_reprs(attrs@) =~= gathered@);
        }
        Ok(Reprs { reprs: gathered })
    }

    /// Whether any gathered layout is packed.
    pub fn packed(&self) -> (r: bool)
        ensures
            r == spec_any_packed(self@),
    {
        let mut i: usize = 0;
        while i < self.reprs.len()
            invariant
                i <= self@.len(),
                forall|j: int| 0 <= j < i ==> !(#[trigger] self@[j]).spec_packed(),
            decreases self@.len() - i,
        {
            if self.reprs[i].packed() {
                return true;
            }
            i = i + 1;
        }
        false
    }

    /// Whether any gathered layout is transparent.
    pub fn transparent(&self) -> (r: bool)
        ensures
            r == spec_any_transparent(self@),
    {
        let mut i: usize = 0;
        while i < self.reprs.len()
            invariant
                i <= self@.len(),
                forall|j: int| 0 <= j < i ==> !(#[trigger] self@[j]).spec_transparent(),
            decreases self@.len() - i,
        {
            if self.reprs[i].transparent() {
                return true;
            }
            i = i + 1;
        }
        false
    }

    /// The first explicit discriminant-width directive, if any.
    pub fn int_type(&self) -> (r: Option<ReprInt>)
        ensures
            r == spec_first_int(self@),
    {
        let mut i: usize = 0;
        proof {
            assert(self@.skip(0) =~= self@);
        }
        while i < self.reprs.len()
            invariant
                i <= self@.len(),
                spec_first_int(self@) == spec_first_int(self@.skip(i as int)),
            decreases self@.len() - i,
        {
            proof {
                assert(self@.skip(i as int)[0] == self@[i as int]);
                assert(self@.skip(i as int).drop_first() =~= self@.skip(i as int + 1));
            }
            match &self.reprs[i] {
                Repr::Rust(rr) => {
                    if let Some(t) = rr.int_type {
                        return Some(t);
                    }
                },
                Repr::C(_) => {},
            }
            i = i + 1;
        }
        None
    }

    /// The first alignment directive, if any.
    pub fn align(&self) -> (r: Option<usize>)
        ensures
            r == spec_first_align(self@),
    {
        let mut i: usize = 0;
        proof {
            assert(self@.skip(0) =~= self@);
        }
        while i < self.reprs.len()
            invariant
                i <= self@.len(),
                spec_first_align(self@) == spec_first_align(self@.skip(i as int)),
            decreases self@.len() - i,
        {
            proof {
                assert(self@.skip(i as int)[0] == self@[i as int]);
                assert(self@.skip(i as int).drop_first() =~= self@.skip(i as int + 1));
            }
            match &self.reprs[i] {
                Repr::Rust(rr) => {
                    if let Some(a) = rr.align {
                        return Some(a);
                    }
                },
                Repr::C(_) => {},
            }
            i = i + 1;
        }
        None
    }

    /// The first C-compatible layout, if any.
    pub fn c(&self) -> (r: Option<&CRepr>)
        ensures
            match r {
                Some(c) => spec_first_c(self@) == Some(*c),
                None => spec_first_c(self@) is None,
            },
    {
        let mut i: usize = 0;
        proof {
            assert(self@.skip(0) =~= self@);
        }
        while i < self.reprs.len()
            invariant
                i <= self@.len(),
                spec_first_c(self@) == spec_first_c(self@.skip(i as int)),
            decreases self@.len() - i,
        {
            proof {
                assert(self@.skip(i as int)[0] == self@[i as int]);
                assert(self@.skip(i as int).drop_first() =~= self@.skip(i as int + 1));
            }
            match &self.reprs[i] {
                Repr::C(c) => {
                    return Some(c);
                },
                Repr::Rust(_) => {},
            }
            i = i + 1;
        }
        None
    }
}

impl Default for Reprs {
    /// No layout hints at all.
    fn default() -> (r: Self)
        ensures
            r@ == Seq::<Repr>::empty(),
    {
        Reprs { reprs: Vec::new() }
    }
}

} // verus!
