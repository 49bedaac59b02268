//! Places in the source text.
//!
//! A place is a `proc_macro2::Span`. The checks never look inside one: they
//! take it from the tree and hand it on in a diagnostic.

use vstd::prelude::*;

verus! {

/// `proc_macro2::Span`, declared as an opaque type: nothing is assumed of its
/// contents.
#[verifier::external_type_specification]
#[verifier::external_body]
pub struct ExSpan(proc_macro2::Span);

/// Calls `proc_macro2::Span::call_site`, which gives the place of the macro
/// invocation itself. It takes no argument and does not fail; which place
/// comes back depends on where the code runs, so nothing is claimed of it.
#[verifier::external_body]
pub(crate) fn call_site() -> (site: proc_macro2::Span) {
    proc_macro2::Span::call_site()
}

} // verus!
