use interpro_filter::ast::{Node, ParseErrorKind};
use interpro_filter::expr::{Expr, ExprData};

#[test]
fn or_alias() {
    assert_eq!(
        Expr::from_string("a | b").unwrap().0,
        Expr::from_string("a , b").unwrap().0,
    );
}

#[test]
fn simple_and() {
    let expr = Expr::from_string("a & b").unwrap();
    assert_eq!(
        expr.clone().0,
        ExprData::HasNodes(Node::And {
            lhs: Box::new(Node::Name("a".to_string())),
            rhs: Box::new(Node::Name("b".to_string())),
        })
    );

    assert!(expr.matches(&["a", "b"]).unwrap());
    assert!(!expr.matches(&["a"]).unwrap());
    assert!(!expr.matches(&["c"]).unwrap());
}

#[test]
fn test_simple_count_and() {
    let expr = Expr::from_string("a$2 & b").unwrap();
    assert!(expr.matches(&["a", "a", "b"]).unwrap());
}

#[test]
fn simple_inversion() {
    let expr = Expr::from_string("!a & b").unwrap();
    assert_eq!(
        expr.clone().0,
        ExprData::HasNodes(Node::And {
            lhs: Box::new(Node::Invert(Box::new(Node::Name("a".to_string())))),
            rhs: Box::new(Node::Name("b".to_string())),
        })
    );

    assert!(expr.matches(&["b"]).unwrap());
    assert!(!expr.matches(&["a", "b"]).unwrap());
    assert!(!expr.matches(&["a"]).unwrap());
    assert!(!expr.matches(&["c"]).unwrap());
}

#[test]
fn simple_and_matching() {
    assert!(Expr::from_string("a & b & c")
        .unwrap()
        .matches(&["a", "b", "c"])
        .unwrap());
    assert!(!Expr::from_string("a & b & c")
        .unwrap()
        .matches(&["a", "c"])
        .unwrap());
    assert!(!Expr::from_string("a & b & c")
        .unwrap()
        .matches(&["a", "b"])
        .unwrap());
    assert!(!Expr::from_string("a & b & c")
        .unwrap()
        .matches(&["c", "b"])
        .unwrap());
    assert!(Expr::from_string("a & b & c")
        .unwrap()
        .matches(&["a", "b", "c", "d"])
        .unwrap());
    assert!(!Expr::from_string("a & b & c")
        .unwrap()
        .matches(&["a", "c", "d"])
        .unwrap());
    assert!(!Expr::from_string("a & b & c")
        .unwrap()
        .matches(&["a", "b", "d"])
        .unwrap());
    assert!(!Expr::from_string("a & b & c")
        .unwrap()
        .matches(&["c", "b", "d"])
        .unwrap());
}

#[test]
fn simple_or_matching() {
    assert!(Expr::from_string("a | b | c")
        .unwrap()
        .matches(&["a", "b", "c"])
        .unwrap());
    assert!(Expr::from_string("a | b | c")
        .unwrap()
        .matches(&["a", "c"])
        .unwrap());
    assert!(Expr::from_string("a | b | c")
        .unwrap()
        .matches(&["a", "b"])
        .unwrap());
    assert!(Expr::from_string("a | b | c")
        .unwrap()
        .matches(&["c", "b"])
        .unwrap());
    assert!(Expr::from_string("a | b | c")
        .unwrap()
        .matches(&["c"])
        .unwrap());
    assert!(Expr::from_string("a | b | c")
        .unwrap()
        .matches(&["b"])
        .unwrap());
    assert!(Expr::from_string("a | b | c")
        .unwrap()
        .matches(&["a"])
        .unwrap());
    assert!(Expr::from_string("a | b | c")
        .unwrap()
        .matches(&["a", "b", "c", "d"])
        .unwrap());
    assert!(Expr::from_string("a | b | c")
        .unwrap()
        .matches(&["a", "c", "d"])
        .unwrap());
    assert!(Expr::from_string("a | b | c")
        .unwrap()
        .matches(&["a", "b", "d"])
        .unwrap());
    assert!(Expr::from_string("a | b | c")
        .unwrap()
        .matches(&["c", "b", "d"])
        .unwrap());
    assert!(Expr::from_string("a | b | c")
        .unwrap()
        .matches(&["c", "d"])
        .unwrap());
    assert!(Expr::from_string("a | b | c")
        .unwrap()
        .matches(&["b", "d"])
        .unwrap());
    assert!(Expr::from_string("a | b | c")
        .unwrap()
        .matches(&["a", "d"])
        .unwrap());
    assert!(!Expr::from_string("a | b | c")
        .unwrap()
        .matches(&["ddwf"])
        .unwrap());
    assert!(!Expr::from_string("a | b | c")
        .unwrap()
        .matches(&["d"])
        .unwrap());
    assert!(!Expr::from_string("a | b | c")
        .unwrap()
        .matches(&["hdwf", "dtw"])
        .unwrap());
}

#[test]
fn lone_name() {
    assert!(Expr::from_string("a").unwrap().matches(&["a"]).unwrap());
    assert!(Expr::from_string("a")
        .unwrap()
        .matches(&["a", "b"])
        .unwrap());
    assert!(!Expr::from_string("a").unwrap().matches(&["b"]).unwrap());
}

#[test]
fn lone_inverted_name() {
    assert!(!Expr::from_string("!a").unwrap().matches(&["a"]).unwrap());
    assert!(!Expr::from_string("!a")
        .unwrap()
        .matches(&["a", "b"])
        .unwrap());
    assert!(Expr::from_string("!a").unwrap().matches(&["b"]).unwrap());
}

#[test]
fn lone_inverted_bracketed_name() {
    assert!(!Expr::from_string("!(a)").unwrap().matches(&["a"]).unwrap());
    assert!(!Expr::from_string("!(a)")
        .unwrap()
        .matches(&["a", "b"])
        .unwrap());
    assert!(Expr::from_string("!(a)").unwrap().matches(&["b"]).unwrap());
}

#[test]
fn check_expr() {
    let s = "a | b | c";
    let expr = Expr::from_string(s).unwrap();
    assert!(expr.matches(&["a"]).unwrap());
    let s = "(a | b | c) | (d & e & c)";
    let expr = Expr::from_string(s).unwrap();
    assert!(expr.matches(&["a"]).unwrap());
    assert!(expr.matches(&["d", "e", "c"]).unwrap());
    assert!(!expr.matches(&["d"]).unwrap());
}

#[test]
fn empty_expression_matches_anything() {
    let expr = Expr::from_string("").unwrap();
    assert!(expr.matches(&[]).unwrap());
    assert!(expr.matches(&["anything"]).unwrap());
    let blank = Expr::from_string("   ").unwrap();
    assert!(blank.matches(&["x", "y"]).unwrap());
}

#[test]
fn count_matches_exactly() {
    let expr = Expr::from_string("name$2").unwrap();
    assert!(expr.matches(&["name", "name"]).unwrap());
    assert!(!expr.matches(&["name"]).unwrap());
    assert!(!expr.matches(&["name", "name", "name"]).unwrap());
}

#[test]
fn count_zero_matches_absence() {
    let expr = Expr::from_string("name$0").unwrap();
    assert!(expr.matches(&["other"]).unwrap());
    assert!(!expr.matches(&["name"]).unwrap());
}

#[test]
fn bad_count_number_is_an_evaluation_error() {
    let expr = Expr::from_string("a$x").unwrap();
    let err = expr.matches(&["a"]).unwrap_err();
    assert_eq!(err.kind, ParseErrorKind::BadCountNumber);
}

#[test]
fn extra_count_separator_is_an_evaluation_error() {
    let expr = Expr::from_string("a$1$2").unwrap();
    let err = expr.matches(&["a"]).unwrap_err();
    assert_eq!(err.kind, ParseErrorKind::BadCountFormat);
}

#[test]
fn depth_guard_allows_nineteen_brackets() {
    let mut s = String::new();
    for _ in 0..19 {
        s.push('(');
    }
    s.push('a');
    for _ in 0..19 {
        s.push(')');
    }
    assert!(Expr::from_string(&s).is_ok());
}

#[test]
fn depth_guard_rejects_twentyone_brackets() {
    let mut s = String::new();
    for _ in 0..21 {
        s.push('(');
    }
    s.push('a');
    for _ in 0..21 {
        s.push(')');
    }
    let err = Expr::from_string(&s).unwrap_err();
    assert_eq!(err.kind, ParseErrorKind::ExpressionTooDeep);
}

#[test]
fn double_negation_is_rejected() {
    let err = Expr::from_string("!!a").unwrap_err();
    assert_eq!(err.kind, ParseErrorKind::DoubleNegation);
}

#[test]
fn unclosed_bracket_is_rejected() {
    let err = Expr::from_string("(a").unwrap_err();
    assert_eq!(err.kind, ParseErrorKind::ExpectedCloseBracket);
}

#[test]
fn trailing_tokens_are_rejected() {
    let err = Expr::from_string("(a) b").unwrap_err();
    assert_eq!(err.kind, ParseErrorKind::InvalidTokenAfterGroup);
}

#[test]
fn negated_group_extends_over_trailing_operator() {
    let expr = Expr::from_string("!(a) & b").unwrap();
    assert_eq!(
        expr.0,
        ExprData::HasNodes(Node::Invert(Box::new(Node::And {
            lhs: Box::new(Node::Name("a".to_string())),
            rhs: Box::new(Node::Name("b".to_string())),
        })))
    );
}

#[test]
fn canonical_text_round_trips() {
    for s in ["a", "!a", "a & b", "!a | b", "(a | b | c) | (d & e & c)", "!(a & b) | c"] {
        let e1 = Expr::from_string(s).unwrap();
        let text = e1.to_text();
        let e2 = Expr::from_string(&text).unwrap();
        assert_eq!(e1, e2);
    }
}
