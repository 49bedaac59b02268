//! Comparison keys: the name under which a pattern is ordered, and the place
//! that a diagnostic about this name points at.

use vstd::prelude::*;
use vstd::string::StringExecFns;
use proc_macro2::Span;
use crate::tree::{IdentView, Path, PathView, Pattern, PatternView};

verus! {

/// The names of the segments, joined by `::`.
pub open spec fn joined(segments: Seq<IdentView>) -> Seq<char>
    decreases segments.len(),
{
    if segments.len() == 0 {
        Seq::empty()
    } else if segments.len() == 1 {
        segments[0].name
    } else {
        joined(segments.drop_last()) + "::"@ + segments.last().name
    }
}

impl PathView {
    /// The comparison key of a path: all of its segments, joined. A path
    /// without segments has none.
    pub open spec fn key(self) -> Option<Seq<char>> {
        if self.segments.len() == 0 {
            None
        } else {
            Some(joined(self.segments))
        }
    }

    /// The place of the name of a path that has a key: the identifier itself
    /// where the path is a single segment, the whole path otherwise.
    pub open spec fn name_span(self) -> Option<Span> {
        if self.segments.len() == 0 {
            None
        } else if self.segments.len() == 1 {
            Some(self.segments[0].span)
        } else {
            Some(self.span)
        }
    }
}

impl PatternView {
    /// The path of a pattern that is written with one, with or without
    /// payload.
    pub open spec fn path(self) -> Option<PathView> {
        match self {
            PatternView::Path(path) => Some(path),
            PatternView::PathWithTuplePayload(path) => Some(path),
            PatternView::PathWithFieldPayload(path) => Some(path),
            _ => None,
        }
    }

    /// The comparison key of a pattern: the name of an identifier, the key
    /// of a path. The wildcard, unsupported shapes and paths without segments
    /// have none.
    pub open spec fn key(self) -> Option<Seq<char>> {
        match self {
            PatternView::Identifier(ident) => Some(ident.name),
            PatternView::Path(path) => path.key(),
            PatternView::PathWithTuplePayload(path) => path.key(),
            PatternView::PathWithFieldPayload(path) => path.key(),
            PatternView::Wildcard => None,
            PatternView::Unsupported => None,
        }
    }

    /// The place of the name portion of a pattern that has a key.
    pub open spec fn name_span(self) -> Option<Span> {
        match self {
            PatternView::Identifier(ident) => Some(ident.span),
            PatternView::Path(path) => path.name_span(),
            PatternView::PathWithTuplePayload(path) => path.name_span(),
            PatternView::PathWithFieldPayload(path) => path.name_span(),
            PatternView::Wildcard => None,
            PatternView::Unsupported => None,
        }
    }
}

/// The key and the name's place of a path, if it has segments.
pub fn extract_variant_from_path(path: &Path) -> (r: Option<(String, Span)>)
    ensures
        match r {
            Some((key, span)) => path@.key() == Some(key@) && path@.name_span() == Some(span),
            None => path@.key() is None,
        },
{
    let count: usize = path.segments.len();
    if count == 0 {
        return None;
    }
    let ghost segments = path@.segments;
    let mut key: String = path.segments[0].name.clone();
    assert(segments.take(1) =~= seq![segments[0]]);
    let mut i: usize = 1;
    while i < count
        invariant
            1 <= i <= count,
            count == path.segments.len(),
            segments == path@.segments,
            key@ == joined(segments.take(i as int)),
        decreases count - i,
    {
        key.append("::");
        key.append(path.segments[i].name.as_str());
        proof {
            let upto = segments.take(i + 1);
            assert(upto.drop_last() =~= segments.take(i as int));
            assert(upto.last() == path.segments[i as int]@);
        }
        i = i + 1;
    }
    assert(segments.take(count as int) =~= segments);
    let span: Span = if count == 1 {
        path.segments[0].span
    } else {
        path.span
    };
    Some((key, span))
}

/// The key of a pattern and the place of its name. `None` for the wildcard,
/// for an unsupported shape and for a path without segments.
pub fn extract_variant_from_pat(pat: &Pattern) -> (r: Option<(String, Span)>)
    ensures
        match r {
            Some((key, span)) => pat@.key() == Some(key@) && pat@.name_span() == Some(span),
            None => pat@.key() is None,
        },
{
    match pat {
        Pattern::Identifier(ident) => Some((ident.name.clone(), ident.span)),
        Pattern::Path(path) => extract_variant_from_path(path),
        Pattern::PathWithTuplePayload(path) => extract_variant_from_path(path),
        Pattern::PathWithFieldPayload(path) => extract_variant_from_path(path),
        Pattern::Wildcard => None,
        Pattern::Unsupported => None,
    }
}

} // verus!
