use vstd::prelude::*;
use crate::entry::ValueKind;

verus! {

/// An assessment control as an applet offers it.
pub struct AssessmentControlRegistrationInput {
    pub applet_id: String,
    pub control_key: String,
    pub name: String,
    pub range_kind: ValueKind,
    pub kind: String,
}

/// A registered assessment control.
pub struct AssessmentControlRegistration {
    pub applet_id: String,
    pub control_key: String,
    pub name: String,
    pub range_kind: ValueKind,
    pub kind: String,
}

impl AssessmentControlRegistration {
    /// The registration of an offered control: the same fields.
    pub fn from_input(value: AssessmentControlRegistrationInput) -> (r: AssessmentControlRegistration)
        ensures
            r.applet_id == value.applet_id,
            r.control_key == value.control_key,
            r.name == value.name,
            r.range_kind == value.range_kind,
            r.kind == value.kind,
    {
        AssessmentControlRegistration {
            applet_id: value.applet_id,
            control_key: value.control_key,
            name: value.name,
            range_kind: value.range_kind,
            kind: value.kind,
        }
    }
}

} // verus!
