//! Resolution of per-field annotations into field plans.
//!
//! A named field may carry at most one annotation steering how it enters
//! its parent's fingerprint: `skip` leaves it out, `foreign_type` hashes
//! the textual spelling of its declared type instead of recursing into it,
//! and `as = "T"` hashes the stable type `T` in place of the declared one.
//! Annotation resolution is strict: unrecognized forms are hard errors,
//! an override type must parse as a type reference, and a second
//! treatment-altering annotation on one field is a conflict.

use vstd::prelude::*;

use crate::text::str_eq;

verus! {

/// One annotation attached to a field, reduced to the forms resolution
/// distinguishes.
#[derive(Debug)]
pub enum FieldAnnotation {
    /// A bare word, such as `skip` or `foreign_type`.
    Flag(String),
    /// A word assigned a string value, such as `as = "u32"`.
    KeyValue(String, String),
    /// Any other form the annotation syntax allows; never recognized.
    OtherForm,
}

/// How a field enters its parent's fingerprint.
#[derive(Debug, PartialEq, Eq)]
pub enum Treatment {
    /// Hash the field's name, if named, then recurse into its declared type.
    Default,
    /// Contribute nothing.
    Skip,
    /// Hash the field's name and the textual spelling of its declared type.
    ForeignOpaque,
    /// Hash the field's name, then recurse into the named type instead of
    /// the declared one.
    OverrideType(String),
}

/// The mathematical value of a [`Treatment`].
pub enum TreatmentV {
    Default,
    Skip,
    ForeignOpaque,
    OverrideType(Seq<char>),
}

impl View for Treatment {
    type V = TreatmentV;

    open spec fn view(&self) -> TreatmentV {
        match self {
            Treatment::Default => TreatmentV::Default,
            Treatment::Skip => TreatmentV::Skip,
            Treatment::ForeignOpaque => TreatmentV::ForeignOpaque,
            Treatment::OverrideType(s) => TreatmentV::OverrideType(s@),
        }
    }
}

impl DeepView for Treatment {
    type V = TreatmentV;

    open spec fn deep_view(&self) -> TreatmentV {
        self.view()
    }
}

/// Why resolving a field's annotations failed.
#[derive(Clone, Copy, PartialEq, Eq, Structural, Debug)]
pub enum FieldPlanError {
    /// An annotation form resolution does not recognize.
    UnsupportedMetadata,
    /// An override type that does not parse as a type reference.
    InvalidOverrideType,
    /// More than one treatment-altering annotation on one field.
    ConflictingAnnotation,
}

/// Whether a string parses as a Rust type reference.
pub uninterp spec fn type_str_parses(s: Seq<char>) -> bool;

/// Relies on `syn::parse_str::<syn::Type>`: whether a string parses as a
/// type reference depends on the string alone.
#[verifier::external_body]
fn parses_as_type(s: &str) -> (r: bool)
    ensures
        r == type_str_parses(s@),
{
    syn::parse_str::<syn::Type>(s).is_ok()
}

/// What one annotation resolves to, taken alone.
pub open spec fn spec_resolve_one(a: FieldAnnotation) -> Result<TreatmentV, FieldPlanError> {
    match a {
        FieldAnnotation::Flag(w) => {
            if w@ == "skip"@ {
                Ok(TreatmentV::Skip)
            } else if w@ == "foreign_type"@ {
                Ok(TreatmentV::ForeignOpaque)
            } else {
                Err(FieldPlanError::UnsupportedMetadata)
            }
        },
        FieldAnnotation::KeyValue(k, v) => {
            if k@ == "as"@ {
                if type_str_parses(v@) {
                    Ok(TreatmentV::OverrideType(v@))
                } else {
                    Err(FieldPlanError::InvalidOverrideType)
                }
            } else {
                Err(FieldPlanError::UnsupportedMetadata)
            }
        },
        FieldAnnotation::OtherForm => Err(FieldPlanError::UnsupportedMetadata),
    }
}

/// Resolves annotations in order: a malformed one is an error where it
/// stands, and a second treatment-altering one is a conflict.
pub open spec fn spec_resolve_list(
    anns: Seq<FieldAnnotation>,
    chosen: Option<TreatmentV>,
) -> Result<TreatmentV, FieldPlanError>
    decreases anns.len(),
{
    if anns.len() == 0 {
        Ok(
            match chosen {
                Some(t) => t,
                None => TreatmentV::Default,
            },
        )
    } else {
        match spec_resolve_one(anns[0]) {
            Err(e) => Err(e),
            Ok(t) => {
                if chosen is Some {
                    Err(FieldPlanError::ConflictingAnnotation)
                } else {
                    spec_resolve_list(anns.drop_first(), Some(t))
                }
            },
        }
    }
}

/// What a named field's annotations resolve to: its treatment, or the
/// first error among them.
pub open spec fn spec_field_plan(anns: Seq<FieldAnnotation>) -> Result<TreatmentV, FieldPlanError> {
    spec_resolve_list(anns, None)
}

/// The mathematical value of a chosen treatment, if one was chosen.
pub open spec fn chosen_view(c: Option<Treatment>) -> Option<TreatmentV> {
    match c {
        Some(t) => Some(t@),
        None => None,
    }
}

/// Resolves a named field's annotations into its treatment.  A field with
/// no annotation at all gets the default treatment.
pub fn resolve_field_plan(anns: &Vec<FieldAnnotation>) -> (r: Result<Treatment, FieldPlanError>)
    ensures
        match r {
            Ok(t) => spec_field_plan(anns@) == Ok::<TreatmentV, FieldPlanError>(t@),
            Err(e) => spec_field_plan(anns@) == Err::<TreatmentV, FieldPlanError>(e),
        },
{
    let mut chosen: Option<Treatment> = None;
    let mut i: usize = 0;
    proof {
        assert(anns@.skip(0) =~= anns@);
    }
    while i < anns.len()
        invariant
            i <= anns@.len(),
            spec_field_plan(anns@) == spec_resolve_list(anns@.skip(i as int), chosen_view(chosen)),
        decreases anns@.len() - i,
    {
        proof {
            assert(anns@.skip(i as int)[0] == anns@[i as int]);
            assert(anns@.skip(i as int).drop_first() =~= anns@.skip(i as int + 1));
        }
        let resolved: Treatment = match &anns[i] {
            FieldAnnotation::Flag(w) => {
                if str_eq(w.as_str(), "skip") {
                    Treatment::Skip
                } else if str_eq(w.as_str(), "foreign_type") {
                    Treatment::ForeignOpaque
                } else {
                    return Err(FieldPlanError::UnsupportedMetadata);
                }
            },
            FieldAnnotation::KeyValue(k, v) => {
                if str_eq(k.as_str(), "as") {
                    if parses_as_type(v.as_str()) {
                        Treatment::OverrideType(v.clone())
                    } else {
                        return Err(FieldPlanError::InvalidOverrideType);
                    }
                } else {
                    return Err(FieldPlanError::UnsupportedMetadata);
                }
            },
            FieldAnnotation::OtherForm => {
                return Err(FieldPlanError::UnsupportedMetadata);
            },
        };
        if chosen.is_some() {
            return Err(FieldPlanError::ConflictingAnnotation);
        }
        chosen = Some(resolved);
        i = i + 1;
    }
    match chosen {
        Some(t) => Ok(t),
        None => Ok(Treatment::Default),
    }
}

} // verus!
