//! The syntax tree that the checks read: enum declarations, `match`
//! expressions with their arms and patterns, and the code that surrounds them.
//!
//! Every type has a view, a value of the model, that holds a `Seq<char>`
//! where the type holds a `String` and a `Seq` where it holds a `Vec`. The
//! contracts of the crate are stated over these views.

use vstd::prelude::*;
use proc_macro2::Span;

verus! {

/// An identifier together with the place where it was written.
#[derive(Debug)]
pub struct Ident {
    pub name: String,
    pub span: Span,
}

/// An identifier as a value of the model.
pub struct IdentView {
    pub name: Seq<char>,
    pub span: Span,
}

impl View for Ident {
    type V = IdentView;

    open spec fn view(&self) -> IdentView {
        IdentView { name: self.name@, span: self.span }
    }
}

/// One variant of an enum declaration.
#[derive(Debug)]
pub struct Variant {
    pub name: String,
    pub span: Span,
}

/// A variant as a value of the model.
pub struct VariantView {
    pub name: Seq<char>,
    pub span: Span,
}

impl View for Variant {
    type V = VariantView;

    open spec fn view(&self) -> VariantView {
        VariantView { name: self.name@, span: self.span }
    }
}

/// An enum declaration: its name and its variants in declaration order.
#[derive(Debug)]
pub struct EnumDecl {
    pub name: String,
    pub variants: Vec<Variant>,
}

/// An enum declaration as a value of the model.
pub struct EnumDeclView {
    pub name: Seq<char>,
    pub variants: Seq<VariantView>,
}

impl View for EnumDecl {
    type V = EnumDeclView;

    open spec fn view(&self) -> EnumDeclView {
        EnumDeclView {
            name: self.name@,
            variants: self.variants@.map_values(|v: Variant| v@),
        }
    }
}

impl EnumDeclView {
    /// The names of the variants, in declaration order.
    pub open spec fn names(self) -> Seq<Seq<char>> {
        self.variants.map_values(|v: VariantView| v.name)
    }
}

/// A path such as `Error::Fmt`: its segments in order, and the place that
/// covers the whole path.
#[derive(Debug)]
pub struct Path {
    pub segments: Vec<Ident>,
    pub span: Span,
}

/// A path as a value of the model.
pub struct PathView {
    pub segments: Seq<IdentView>,
    pub span: Span,
}

impl View for Path {
    type V = PathView;

    open spec fn view(&self) -> PathView {
        PathView { segments: self.segments@.map_values(|s: Ident| s@), span: self.span }
    }
}

/// The shape of a pattern, as far as the ordering check tells shapes apart.
#[derive(Debug)]
pub enum Pattern {
    /// A single identifier, such as `Fmt`.
    Identifier(Ident),
    /// A path without payload, such as `Error::Fmt`.
    Path(Path),
    /// A path with a tuple payload, such as `Error::Fmt(_)`.
    PathWithTuplePayload(Path),
    /// A path with a field payload, such as `Error::Fmt { .. }`.
    PathWithFieldPayload(Path),
    /// The catch-all pattern `_`.
    Wildcard,
    /// Any other pattern.
    Unsupported,
}

/// A pattern as a value of the model.
pub enum PatternView {
    Identifier(IdentView),
    Path(PathView),
    PathWithTuplePayload(PathView),
    PathWithFieldPayload(PathView),
    Wildcard,
    Unsupported,
}

impl View for Pattern {
    type V = PatternView;

    open spec fn view(&self) -> PatternView {
        match self {
            Pattern::Identifier(ident) => PatternView::Identifier(ident@),
            Pattern::Path(path) => PatternView::Path(path@),
            Pattern::PathWithTuplePayload(path) => PatternView::PathWithTuplePayload(path@),
            Pattern::PathWithFieldPayload(path) => PatternView::PathWithFieldPayload(path@),
            Pattern::Wildcard => PatternView::Wildcard,
            Pattern::Unsupported => PatternView::Unsupported,
        }
    }
}

/// One arm of a `match`: its pattern and the place that covers the pattern.
#[derive(Debug)]
pub struct Arm {
    pub pat: Pattern,
    pub span: Span,
}

/// An arm as a value of the model.
pub struct ArmView {
    pub pat: PatternView,
    pub span: Span,
}

impl View for Arm {
    type V = ArmView;

    open spec fn view(&self) -> ArmView {
        ArmView { pat: self.pat@, span: self.span }
    }
}

/// A `match` expression: whether it carries the ordering annotation, and its
/// arms in source order.
#[derive(Debug)]
pub struct MatchExpr {
    pub annotated: bool,
    pub arms: Vec<Arm>,
}

/// A `match` expression as a value of the model.
pub struct MatchExprView {
    pub annotated: bool,
    pub arms: Seq<ArmView>,
}

impl View for MatchExpr {
    type V = MatchExprView;

    open spec fn view(&self) -> MatchExprView {
        MatchExprView { annotated: self.annotated, arms: self.arms@.map_values(|a: Arm| a@) }
    }
}

/// A piece of executable code. A `match` is kept with its arms; every other
/// construct (a block, a conditional, a loop, a closure) is kept only as the
/// list of the pieces written inside it, in source order. A construct that the
/// checks do not enter is a node without children.
#[derive(Debug)]
pub enum Node {
    Match { expr: MatchExpr, children: Vec<Node> },
    Other { children: Vec<Node> },
}

/// A piece of code as a value of the model.
pub enum NodeView {
    Match { expr: MatchExprView, children: Seq<NodeView> },
    Other { children: Seq<NodeView> },
}

impl NodeView {
    /// The pieces written directly inside this one, in source order.
    pub open spec fn children(self) -> Seq<NodeView> {
        match self {
            NodeView::Match { expr, children } => children,
            NodeView::Other { children } => children,
        }
    }
}

/// The views of a list of nodes, one by one.
pub open spec fn node_views(nodes: Vec<Node>) -> Seq<NodeView>
    decreases nodes, 0nat,
{
    Seq::new(
        nodes.len() as nat,
        |i: int|
            if 0 <= i < nodes.len() {
                nodes[i].view()
            } else {
                NodeView::Other { children: Seq::empty() }
            },
    )
}

impl View for Node {
    type V = NodeView;

    open spec fn view(&self) -> NodeView
        decreases self, 1nat,
    {
        match self {
            Node::Match { expr, children } => NodeView::Match {
                expr: expr@,
                children: node_views(*children),
            },
            Node::Other { children } => NodeView::Other { children: node_views(*children) },
        }
    }
}

/// What a check is applied to.
#[derive(Debug)]
pub enum Item {
    /// An enum declaration.
    Enum(EnumDecl),
    /// A function, given by its body.
    Function(Node),
    /// Any other item.
    Other,
}

/// An item as a value of the model.
pub enum ItemView {
    Enum(EnumDeclView),
    Function(NodeView),
    Other,
}

impl View for Item {
    type V = ItemView;

    open spec fn view(&self) -> ItemView {
        match self {
            Item::Enum(decl) => ItemView::Enum(decl@),
            Item::Function(body) => ItemView::Function(body@),
            Item::Other => ItemView::Other,
        }
    }
}

} // verus!
