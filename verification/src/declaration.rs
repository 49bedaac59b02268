//! The rule on an enum declaration: its variants are declared in ascending
//! order of their names.

use vstd::prelude::*;
use crate::diagnostic::{diagnostic_views, usage_error, Diagnostic, DiagnosticView};
use crate::order::{
    first_offence, first_out_of_order, lemma_first_offence_exists, lemma_first_offence_unique,
    lemma_weakly_iff_stepwise, name_views, stepwise_increasing, weakly_increasing,
};
use crate::tree::{EnumDecl, EnumDeclView, Item, ItemView};

verus! {

impl EnumDeclView {
    /// What is reported of the variant at `i` sorting before the variant at
    /// `j`: the diagnostic points at the variant at `i`.
    pub open spec fn offence(self, i: int, j: int) -> DiagnosticView {
        DiagnosticView::out_of_order(
            self.variants[i].name,
            self.variants[j].name,
            self.variants[i].span,
        )
    }

    /// The one diagnostic that the declaration gives rise to, if any: that of
    /// the first variant that sorts before an earlier one.
    pub open spec fn verdict(self) -> Option<DiagnosticView> {
        if weakly_increasing(self.names()) {
            None
        } else {
            let (i, j) = choose|i: int, j: int| first_offence(self.names(), i, j);
            Some(self.offence(i, j))
        }
    }

    /// The diagnostics of the declaration: its one diagnostic, or none.
    pub open spec fn diagnostics(self) -> Seq<DiagnosticView> {
        match self.verdict() {
            Some(d) => seq![d],
            None => Seq::empty(),
        }
    }
}

impl ItemView {
    /// `reported` is what the declaration check gives of this item: the
    /// diagnostics of an enum, the usage error of any other item.
    pub open spec fn declaration_outcome(self, reported: Seq<DiagnosticView>) -> bool {
        match self {
            ItemView::Enum(decl) => reported == decl.diagnostics(),
            _ => usage_error(reported),
        }
    }
}

/// Borrows the names of the variants.
fn names_of<'a>(decl: &'a EnumDecl) -> (names: Vec<&'a str>)
    ensures
        name_views(names@) == decl@.names(),
{
    let mut names: Vec<&'a str> = Vec::new();
    let mut k: usize = 0;
    while k < decl.variants.len()
        invariant
            k <= decl.variants.len(),
            names.len() == k,
            forall|p: int| 0 <= p < k ==> (#[trigger] names[p])@ == decl.variants[p].name@,
        decreases decl.variants.len() - k,
    {
        names.push(decl.variants[k].name.as_str());
        k = k + 1;
    }
    assert(name_views(names@) =~= decl@.names());
    names
}

/// Checks that the item is an enum whose variants are declared in ascending
/// order. `Ok` exactly for such an enum; for another enum the diagnostic of
/// its first violation; for any other item the usage error.
pub fn validate_enum(item: &Item) -> (r: Result<(), Diagnostic>)
    ensures
        match item@ {
            ItemView::Enum(decl) => match r {
                Ok(()) => decl.verdict() is None,
                Err(d) => decl.verdict() == Some(d@),
            },
            _ => r matches Err(d) && d@ == DiagnosticView::usage(d@.span),
        },
{
    match item {
        Item::Enum(decl) => {
            let names: Vec<&str> = names_of(decl);
            match first_out_of_order(&names) {
                Some((i, j)) => {
                    assert(names[i as int]@ == decl@.names()[i as int]);
                    assert(names[j as int]@ == decl@.names()[j as int]);
                    Err(Diagnostic::out_of_order(names[i], names[j], decl.variants[i].span))
                },
                None => Ok(()),
            }
        },
        _ => Err(Diagnostic::usage()),
    }
}

/// The declaration check: the diagnostics of an item, none for an enum whose
/// variants are in order. The item itself is left as it is.
pub fn sorted(item: &Item) -> (diagnostics: Vec<Diagnostic>)
    ensures
        item@.declaration_outcome(diagnostic_views(diagnostics@)),
{
    let mut diagnostics: Vec<Diagnostic> = Vec::new();
    if let Err(e) = validate_enum(item) {
        diagnostics.push(e);
    }
    proof {
        let reported = diagnostic_views(diagnostics@);
        match item@ {
            ItemView::Enum(decl) => {
                assert(reported =~= decl.diagnostics());
            },
            _ => {
                assert(reported[0] == diagnostics@[0]@);
            },
        }
    }
    diagnostics
}

/// An enum gives no diagnostic exactly when the names of its variants are
/// weakly increasing: no variant sorts before an earlier one, or, which is
/// the same, none sorts before the one just before it.
pub proof fn law_enum_in_order(decl: EnumDeclView)
    ensures
        decl.verdict() is None <==> weakly_increasing(decl.names()),
        decl.verdict() is None <==> stepwise_increasing(decl.names()),
{
    lemma_weakly_iff_stepwise(decl.names());
}

/// An enum whose variants are not in order gives the diagnostic of its first
/// violation: of the earliest variant that sorts before an earlier one,
/// against the earliest variant that it sorts before, anchored at the
/// offender.
pub proof fn law_enum_first_offence(decl: EnumDeclView, i: int, j: int)
    requires
        first_offence(decl.names(), i, j),
    ensures
        decl.verdict() == Some(decl.offence(i, j)),
        decl.offence(i, j).message == decl.names()[i] + " should sort before "@ + decl.names()[j],
        decl.offence(i, j).span == decl.variants[i].span,
{
    let (p, q) = choose|p: int, q: int| first_offence(decl.names(), p, q);
    lemma_first_offence_unique(decl.names(), i, j, p, q);
}

/// An enum whose variants are not in order has a first violation, and that
/// is the one reported.
pub proof fn law_enum_out_of_order(decl: EnumDeclView) -> (pair: (int, int))
    requires
        !weakly_increasing(decl.names()),
    ensures
        first_offence(decl.names(), pair.0, pair.1),
        decl.verdict() == Some(decl.offence(pair.0, pair.1)),
{
    let pair = lemma_first_offence_exists(decl.names());
    law_enum_first_offence(decl, pair.0, pair.1);
    pair
}

} // verus!
