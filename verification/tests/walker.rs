use proc_macro2::{Span, TokenStream};
use sorted::tree::{Arm, EnumDecl, Ident, Item, MatchExpr, Node, Pattern, Variant};
use sorted::walker::annotated_matches;
use sorted::{check, MatchVisitor};

fn places(count: usize) -> Vec<Span> {
    let text = vec!["x"; count].join(" ");
    let tokens: TokenStream = text.parse().unwrap();
    tokens.into_iter().map(|token| token.span()).collect()
}

fn show(span: Span) -> String {
    format!("{:?}", span)
}

/// A `match` whose arms are identifier patterns, wildcards (`_`) or
/// unsupported shapes (`?`), all written at `at`.
fn match_expr(annotated: bool, names: &[&str], at: Span) -> MatchExpr {
    let mut arms = Vec::new();
    for name in names.iter() {
        let pat = match *name {
            "_" => Pattern::Wildcard,
            "?" => Pattern::Unsupported,
            other => Pattern::Identifier(Ident { name: other.to_string(), span: at }),
        };
        arms.push(Arm { pat, span: at });
    }
    MatchExpr { annotated, arms }
}

fn leaf(annotated: bool, names: &[&str], at: Span) -> Node {
    Node::Match { expr: match_expr(annotated, names, at), children: vec![] }
}

fn inside(children: Vec<Node>) -> Node {
    Node::Other { children }
}

/// The shape of a tree: for each `match`, in source order, its annotation
/// and the names of its arms.
fn shape(node: &Node, out: &mut Vec<(bool, Vec<String>)>) {
    let children = match node {
        Node::Match { expr, children } => {
            let names = expr
                .arms
                .iter()
                .map(|arm| match &arm.pat {
                    Pattern::Identifier(ident) => ident.name.clone(),
                    Pattern::Wildcard => "_".to_string(),
                    _ => "?".to_string(),
                })
                .collect();
            out.push((expr.annotated, names));
            children
        },
        Node::Other { children } => {
            out.push((false, vec!["<other>".to_string()]));
            children
        },
    };
    for child in children.iter() {
        shape(child, out);
    }
}

fn shape_of(item: &Item) -> Vec<(bool, Vec<String>)> {
    let mut out = Vec::new();
    if let Item::Function(body) = item {
        shape(body, &mut out);
    }
    out
}

#[test]
fn check_finds_a_match_three_conditionals_deep() {
    let at = places(1);
    let mut item = Item::Function(inside(vec![inside(vec![inside(vec![inside(vec![leaf(
        true,
        &["B", "A"],
        at[0],
    )])])])]));
    let reported = check(&mut item);
    assert_eq!(reported.len(), 1);
    assert_eq!(reported[0].message, "A should sort before B");
    assert_eq!(show(reported[0].span), show(at[0]));
}

#[test]
fn check_reports_in_source_order_each_match_before_those_inside_it() {
    let at = places(5);
    let outer = Node::Match {
        expr: match_expr(true, &["B", "A"], at[0]),
        children: vec![
            leaf(true, &["D", "C"], at[1]),
            inside(vec![leaf(true, &["F", "E"], at[2])]),
        ],
    };
    let mut item = Item::Function(inside(vec![
        outer,
        leaf(true, &["H", "G"], at[3]),
    ]));
    let reported = check(&mut item);
    let messages: Vec<&str> = reported.iter().map(|d| d.message.as_str()).collect();
    assert_eq!(
        messages,
        vec![
            "A should sort before B",
            "C should sort before D",
            "E should sort before F",
            "G should sort before H",
        ]
    );
    let spans: Vec<String> = reported.iter().map(|d| show(d.span)).collect();
    assert_eq!(spans, vec![show(at[0]), show(at[1]), show(at[2]), show(at[3])]);
}

#[test]
fn check_skips_a_match_without_annotation() {
    let at = places(2);
    let mut item = Item::Function(inside(vec![
        leaf(false, &["B", "A"], at[0]),
        leaf(true, &["A", "B"], at[1]),
    ]));
    let before = shape_of(&item);
    let reported = check(&mut item);
    assert!(reported.is_empty());
    let mut expected = before.clone();
    expected[2].0 = false;
    assert_eq!(shape_of(&item), expected);
}

#[test]
fn check_enters_a_match_without_annotation() {
    let at = places(2);
    let mut item = Item::Function(Node::Match {
        expr: match_expr(false, &["B", "A"], at[0]),
        children: vec![leaf(true, &["D", "C"], at[1])],
    });
    let reported = check(&mut item);
    assert_eq!(reported.len(), 1);
    assert_eq!(reported[0].message, "C should sort before D");
}

#[test]
fn check_strips_every_annotation_and_nothing_else() {
    let at = places(3);
    let mut item = Item::Function(inside(vec![
        leaf(true, &["A", "B"], at[0]),
        Node::Match {
            expr: match_expr(true, &["B", "_", "A"], at[1]),
            children: vec![leaf(true, &["?"], at[2])],
        },
    ]));
    let before = shape_of(&item);
    let reported = check(&mut item);
    assert_eq!(reported.len(), 2);
    let after = shape_of(&item);
    assert_eq!(after.len(), before.len());
    for (was, is) in before.iter().zip(after.iter()) {
        assert!(!is.0);
        assert_eq!(was.1, is.1);
    }
}

#[test]
fn check_unsupported_shape_does_not_silence_a_sibling() {
    let at = places(3);
    let mut item = Item::Function(inside(vec![
        leaf(true, &["B", "?", "A"], at[0]),
        leaf(true, &["D", "C"], at[1]),
        leaf(true, &["A", "B", "_"], at[2]),
    ]));
    let reported = check(&mut item);
    let messages: Vec<&str> = reported.iter().map(|d| d.message.as_str()).collect();
    assert_eq!(messages, vec!["unsupported by sorted-check", "C should sort before D"]);
    assert_eq!(show(reported[0].span), show(at[0]));
    assert_eq!(show(reported[1].span), show(at[1]));
}

#[test]
fn check_twice_reports_nothing_more_and_changes_nothing() {
    let at = places(2);
    let mut item = Item::Function(inside(vec![
        leaf(true, &["B", "A"], at[0]),
        inside(vec![leaf(true, &["_", "A"], at[1])]),
    ]));
    assert_eq!(check(&mut item).len(), 2);
    let once = shape_of(&item);
    assert!(check(&mut item).is_empty());
    assert_eq!(shape_of(&item), once);
}

#[test]
fn check_of_an_empty_body_reports_nothing() {
    let mut item = Item::Function(inside(vec![]));
    assert!(check(&mut item).is_empty());
    assert_eq!(shape_of(&item), vec![(false, vec!["<other>".to_string()])]);
}

#[test]
fn check_rejects_an_item_that_is_no_function() {
    let at = places(2);
    let mut item = Item::Enum(EnumDecl {
        name: "Error".to_string(),
        variants: vec![
            Variant { name: "Io".to_string(), span: at[0] },
            Variant { name: "Fmt".to_string(), span: at[1] },
        ],
    });
    let reported = check(&mut item);
    assert_eq!(reported.len(), 1);
    assert_eq!(reported[0].message, "expected enum or match expression");
    match &item {
        Item::Enum(decl) => {
            assert_eq!(decl.name, "Error");
            assert_eq!(decl.variants.len(), 2);
            assert_eq!(decl.variants[0].name, "Io");
            assert_eq!(decl.variants[1].name, "Fmt");
        },
        _ => panic!("the item changed its kind"),
    }

    let mut other = Item::Other;
    let reported = check(&mut other);
    assert_eq!(reported.len(), 1);
    assert_eq!(reported[0].message, "expected enum or match expression");
    assert_eq!(show(reported[0].span), show(Span::call_site()));
    assert!(matches!(other, Item::Other));
}

#[test]
fn annotated_matches_are_located_in_source_order() {
    let at = places(4);
    let body = inside(vec![
        Node::Match {
            expr: match_expr(true, &["A"], at[0]),
            children: vec![leaf(false, &["B"], at[1]), leaf(true, &["C"], at[2])],
        },
        inside(vec![leaf(true, &["D"], at[3])]),
    ]);
    let found = annotated_matches(&body);
    let names: Vec<String> = found
        .iter()
        .map(|m| match &m.arms[0].pat {
            Pattern::Identifier(ident) => ident.name.clone(),
            _ => String::new(),
        })
        .collect();
    assert_eq!(names, vec!["A", "C", "D"]);
    assert!(found.iter().all(|m| m.annotated));
}

#[test]
fn annotated_matches_of_a_checked_body_are_none() {
    let at = places(1);
    let mut item = Item::Function(inside(vec![leaf(true, &["B", "A"], at[0])]));
    check(&mut item);
    if let Item::Function(body) = &item {
        assert!(annotated_matches(body).is_empty());
    } else {
        panic!("the item changed its kind");
    }
}

#[test]
fn visitor_checks_and_strips_one_match() {
    let at = places(1);
    let mut visitor = MatchVisitor::new();
    assert!(visitor.errors.is_empty());

    let mut unsorted = match_expr(true, &["B", "A"], at[0]);
    visitor.visit_expr_match_mut(&mut unsorted);
    assert!(!unsorted.annotated);
    assert_eq!(unsorted.arms.len(), 2);
    assert_eq!(visitor.errors.len(), 1);
    assert_eq!(visitor.errors[0].message, "A should sort before B");

    let mut in_order = match_expr(true, &["A", "B"], at[0]);
    visitor.visit_expr_match_mut(&mut in_order);
    assert!(!in_order.annotated);
    assert_eq!(visitor.errors.len(), 1);

    let mut plain = match_expr(false, &["B", "A"], at[0]);
    visitor.visit_expr_match_mut(&mut plain);
    assert!(!plain.annotated);
    assert_eq!(visitor.errors.len(), 1);
}

#[test]
fn visitor_keeps_earlier_diagnostics() {
    let at = places(2);
    let mut visitor = MatchVisitor::new();
    let mut first = inside(vec![leaf(true, &["B", "A"], at[0])]);
    let mut second = leaf(true, &["_", "_"], at[1]);
    visitor.visit_node_mut(&mut first);
    visitor.visit_node_mut(&mut second);
    let messages: Vec<&str> = visitor.errors.iter().map(|d| d.message.as_str()).collect();
    assert_eq!(
        messages,
        vec!["A should sort before B", "multiple wildcard patterns are not supported"]
    );
}
