//! What can be selected in.

use vstd::prelude::*;

verus! {

#[derive(Clone, Copy, Debug, Eq)]
pub enum AppSelectionSurface {
    Conversation,
}

impl PartialEq for AppSelectionSurface {
    fn eq(&self, other: &AppSelectionSurface) -> (same: bool) {
        match (*self, *other) {
            (AppSelectionSurface::Conversation, AppSelectionSurface::Conversation) => true,
        }
    }
}

impl vstd::std_specs::cmp::PartialEqSpecImpl for AppSelectionSurface {
    open spec fn obeys_eq_spec() -> bool {
        true
    }

    open spec fn eq_spec(&self, other: &AppSelectionSurface) -> bool {
        *self == *other
    }
}

pub proof fn lemma_surface_eq()
    ensures
        vstd::laws_eq::obeys_concrete_eq::<AppSelectionSurface>(),
{
    reveal(vstd::laws_eq::obeys_concrete_eq);
}

} // verus!
