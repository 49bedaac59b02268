use proc_macro2::{Span, TokenStream};
use sorted::arms::is_sorted_match_arms;
use sorted::tree::{Arm, Ident, MatchExpr, Path, Pattern};

fn places(count: usize) -> Vec<Span> {
    let text = vec!["x"; count].join(" ");
    let tokens: TokenStream = text.parse().unwrap();
    tokens.into_iter().map(|token| token.span()).collect()
}

fn show(span: Span) -> String {
    format!("{:?}", span)
}

/// An arm whose pattern is the identifier `name`, written at `name_at`; the
/// pattern as a whole is at `pat_at`.
fn ident_arm(name: &str, name_at: Span, pat_at: Span) -> Arm {
    Arm { pat: Pattern::Identifier(Ident { name: name.to_string(), span: name_at }), span: pat_at }
}

fn wildcard(pat_at: Span) -> Arm {
    Arm { pat: Pattern::Wildcard, span: pat_at }
}

fn unsupported(pat_at: Span) -> Arm {
    Arm { pat: Pattern::Unsupported, span: pat_at }
}

/// Arms with identifier patterns and wildcards (`_`) and unsupported shapes
/// (`?`); arm `k` has its name at place `2k` and its pattern at `2k + 1`.
fn arms(names: &[&str], at: &[Span]) -> MatchExpr {
    let mut list = Vec::new();
    for (k, name) in names.iter().enumerate() {
        list.push(match *name {
            "_" => wildcard(at[2 * k + 1]),
            "?" => unsupported(at[2 * k + 1]),
            other => ident_arm(other, at[2 * k], at[2 * k + 1]),
        });
    }
    MatchExpr { annotated: true, arms: list }
}

fn verdict(names: &[&str]) -> Option<(String, usize)> {
    let at = places(2 * names.len());
    match is_sorted_match_arms(&arms(names, &at)) {
        Ok(()) => None,
        Err(d) => {
            let index = at.iter().position(|p| show(*p) == show(d.span)).unwrap();
            Some((d.message, index))
        },
    }
}

fn name_of(k: usize) -> usize {
    2 * k
}

fn pattern_of(k: usize) -> usize {
    2 * k + 1
}

#[test]
fn arms_without_arms_pass() {
    assert_eq!(verdict(&[]), None);
}

#[test]
fn arms_in_order_pass() {
    assert_eq!(verdict(&["A"]), None);
    assert_eq!(verdict(&["A", "B", "C"]), None);
    assert_eq!(verdict(&["A", "A", "B"]), None);
}

#[test]
fn arms_with_a_last_wildcard_pass() {
    assert_eq!(verdict(&["_"]), None);
    assert_eq!(verdict(&["A", "B", "_"]), None);
}

#[test]
fn arms_out_of_order_report_the_first_pair() {
    assert_eq!(verdict(&["B", "A"]), Some(("A should sort before B".to_string(), name_of(1))));
    assert_eq!(
        verdict(&["B", "C", "A"]),
        Some(("A should sort before B".to_string(), name_of(2)))
    );
    assert_eq!(
        verdict(&["A", "C", "B", "A"]),
        Some(("B should sort before C".to_string(), name_of(2)))
    );
}

#[test]
fn arms_out_of_order_before_a_last_wildcard() {
    assert_eq!(
        verdict(&["B", "A", "_"]),
        Some(("A should sort before B".to_string(), name_of(1)))
    );
}

#[test]
fn arms_second_wildcard_is_reported_wherever_it_stands() {
    let message = "multiple wildcard patterns are not supported".to_string();
    assert_eq!(verdict(&["_", "_"]), Some((message.clone(), pattern_of(1))));
    assert_eq!(verdict(&["A", "_", "B", "_"]), Some((message.clone(), pattern_of(3))));
    assert_eq!(verdict(&["_", "B", "A", "_", "_"]), Some((message.clone(), pattern_of(3))));
    assert_eq!(verdict(&["_", "_", "?"]), Some((message, pattern_of(1))));
}

#[test]
fn arms_wildcard_not_last_is_reported_sorted_or_not() {
    let message = "the wildcard pattern `_` must be last".to_string();
    assert_eq!(verdict(&["_", "A"]), Some((message.clone(), pattern_of(0))));
    assert_eq!(verdict(&["A", "_", "B"]), Some((message.clone(), pattern_of(1))));
    assert_eq!(verdict(&["B", "_", "A"]), Some((message.clone(), pattern_of(1))));
    assert_eq!(verdict(&["C", "B", "_", "A"]), Some((message, pattern_of(2))));
}

#[test]
fn arms_unsupported_shape_is_reported_and_hides_the_order() {
    let message = "unsupported by sorted-check".to_string();
    assert_eq!(verdict(&["?"]), Some((message.clone(), pattern_of(0))));
    assert_eq!(verdict(&["B", "A", "?"]), Some((message.clone(), pattern_of(2))));
    assert_eq!(verdict(&["?", "B", "A"]), Some((message.clone(), pattern_of(0))));
    assert_eq!(verdict(&["A", "?", "?"]), Some((message.clone(), pattern_of(1))));
    assert_eq!(verdict(&["_", "?", "A"]), Some((message.clone(), pattern_of(1))));
    assert_eq!(verdict(&["?", "_", "_"]), Some((message, pattern_of(0))));
}

#[test]
fn arms_path_without_segments_is_unsupported() {
    let at = places(4);
    let m = MatchExpr {
        annotated: true,
        arms: vec![
            ident_arm("A", at[0], at[1]),
            Arm { pat: Pattern::Path(Path { segments: vec![], span: at[2] }), span: at[3] },
        ],
    };
    let error = is_sorted_match_arms(&m).unwrap_err();
    assert_eq!(error.message, "unsupported by sorted-check");
    assert_eq!(show(error.span), show(at[3]));
}

#[test]
fn arms_mixed_shapes_are_ordered_by_key() {
    let at = places(12);
    let long = |names: &[&str], from: usize| {
        let mut segments = Vec::new();
        for (k, name) in names.iter().enumerate() {
            segments.push(Ident { name: name.to_string(), span: at[from + k] });
        }
        Path { segments, span: at[from + 2] }
    };
    let m = MatchExpr {
        annotated: true,
        arms: vec![
            Arm { pat: Pattern::PathWithFieldPayload(long(&["Error", "Io"], 0)), span: at[3] },
            Arm { pat: Pattern::Path(long(&["Error", "Fmt"], 4)), span: at[7] },
            ident_arm("Utf8", at[8], at[9]),
        ],
    };
    let error = is_sorted_match_arms(&m).unwrap_err();
    assert_eq!(error.message, "Error::Fmt should sort before Error::Io");
    assert_eq!(show(error.span), show(at[6]));
}

#[test]
fn arms_single_segment_path_points_at_the_identifier() {
    let at = places(8);
    let single = |name: &str, from: usize| Path {
        segments: vec![Ident { name: name.to_string(), span: at[from] }],
        span: at[from + 1],
    };
    let m = MatchExpr {
        annotated: true,
        arms: vec![
            Arm { pat: Pattern::PathWithTuplePayload(single("Io", 0)), span: at[2] },
            Arm { pat: Pattern::PathWithTuplePayload(single("Fmt", 4)), span: at[6] },
        ],
    };
    let error = is_sorted_match_arms(&m).unwrap_err();
    assert_eq!(error.message, "Fmt should sort before Io");
    assert_eq!(show(error.span), show(at[4]));
}

#[test]
fn arms_are_checked_whether_annotated_or_not() {
    let at = places(4);
    let mut m = arms(&["B", "A"], &at);
    m.annotated = false;
    assert_eq!(is_sorted_match_arms(&m).unwrap_err().message, "A should sort before B");
}
