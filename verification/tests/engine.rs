use lambda_calculus::parse::ParseError;
use lambda_calculus::raw_expr::{RawAppExpr, RawExpr, RawLambdaExpr};

fn expr_eq(a: &RawExpr, b: &RawExpr) -> bool {
    match (a, b) {
        (RawExpr::Var(x), RawExpr::Var(y)) => x == y,
        (RawExpr::App(p), RawExpr::App(q)) => {
            expr_eq(&p.fun, &q.fun) && expr_eq(&p.arg, &q.arg)
        }
        (RawExpr::Lambda(l), RawExpr::Lambda(m)) => {
            l.param.name == m.param.name && expr_eq(&l.body, &m.body)
        }
        _ => false,
    }
}

fn parse(s: &str) -> RawExpr {
    RawExpr::parse_str(s).unwrap()
}

#[test]
fn parse_identity_shape() {
    let e = parse("\u{03bb}a.a");
    match &e {
        RawExpr::Lambda(l) => {
            assert_eq!(l.param.name, "a");
            assert!(matches!(l.body, RawExpr::Var(0)));
        }
        _ => panic!("expected an abstraction"),
    }
}

#[test]
fn format_identity() {
    let e = parse("\u{03bb}a.a");
    assert_eq!(e.to_text(), "\u{03bb}a.a");
}

#[test]
fn backslash_is_binder_marker() {
    let e = parse("\\x.x");
    assert_eq!(e.to_text(), "\u{03bb}x.x");
}

#[test]
fn multi_name_binder_desugars() {
    let e = parse("\u{03bb} a b . a");
    assert_eq!(e.to_text(), "\u{03bb}a.\u{03bb}b.a");
    let nested = parse("\u{03bb}a.\u{03bb}b.a");
    assert!(expr_eq(&e, &nested));
}

#[test]
fn beta_identity_application() {
    // (λx.x) applied to a free subtree: one step, yields the argument.
    let mut e = RawExpr::App(Box::new(RawAppExpr {
        fun: RawExpr::Lambda(Box::new(RawLambdaExpr {
            param: lambda_calculus::raw_expr::Param { name: String::from("x") },
            body: RawExpr::Var(0),
        })),
        arg: RawExpr::Var(5),
    }));
    let mut limit: u32 = 3;
    let reduced = e.reduce(&mut limit);
    assert!(reduced);
    assert_eq!(limit, 2);
    assert!(matches!(e, RawExpr::Var(5)));
}

#[test]
fn beta_const_identity() {
    let mut e = RawExpr::App(Box::new(RawAppExpr {
        fun: parse("\u{03bb}c.\u{03bb}b.c"),
        arg: parse("\u{03bb}a.a"),
    }));
    let mut limit: u32 = 100;
    assert!(e.reduce(&mut limit));
    assert_eq!(limit, 99);
    assert_eq!(e.to_text(), "\u{03bb}b.\u{03bb}a.a");
    assert!(expr_eq(&e, &parse("\u{03bb}b.\u{03bb}a.a")));
}

#[test]
fn transpose_identity_const() {
    // (λf.λg.(g f)) id const reduces to λb.λa.a in three beta steps.
    let trsp_id = RawExpr::App(Box::new(RawAppExpr {
        fun: parse("\u{03bb}f.\u{03bb}g.(g f)"),
        arg: parse("\u{03bb}a.a"),
    }));
    let mut e = RawExpr::App(Box::new(RawAppExpr {
        fun: trsp_id,
        arg: parse("\u{03bb}c.\u{03bb}b.c"),
    }));
    let mut limit: u32 = 100;
    assert!(e.reduce(&mut limit));
    assert_eq!(limit, 97);
    assert_eq!(e.to_text(), "\u{03bb}b.\u{03bb}a.a");
}

#[test]
fn eta_reduces_wrapper() {
    // λx.(y x) under a binder for y: the inner abstraction is an eta redex.
    let mut e = parse("\u{03bb}y.\u{03bb}x.(y x)");
    let mut limit: u32 = 10;
    assert!(e.reduce(&mut limit));
    assert_eq!(limit, 9);
    assert_eq!(e.to_text(), "\u{03bb}y.y");
}

#[test]
fn eta_does_not_fire_on_self_application() {
    let mut e = parse("\u{03bb}x.(x x)");
    let mut limit: u32 = 10;
    assert!(!e.reduce(&mut limit));
    assert_eq!(limit, 10);
    assert_eq!(e.to_text(), "\u{03bb}x.(x x)");
}

#[test]
fn normal_form_reduce_is_idempotent() {
    let mut e = parse("\u{03bb}a.a");
    let mut limit: u32 = 5;
    assert!(!e.reduce(&mut limit));
    assert_eq!(limit, 5);
    let mut limit2: u32 = 7;
    assert!(!e.reduce(&mut limit2));
    assert_eq!(limit2, 7);
    assert_eq!(e.to_text(), "\u{03bb}a.a");
}

#[test]
fn omega_one_step_reproduces_itself() {
    let mut e = parse("(\u{03bb}h.(h h)) (\u{03bb}h.(h h))");
    let original = parse("(\u{03bb}h.(h h)) (\u{03bb}h.(h h))");
    let mut limit: u32 = 1;
    assert!(e.reduce(&mut limit));
    assert_eq!(limit, 0);
    assert!(expr_eq(&e, &original));
    assert_eq!(e.to_text(), "(\u{03bb}h.(h h)) (\u{03bb}h.(h h))");
}

#[test]
fn omega_zero_budget_takes_no_step() {
    let mut e = parse("(\u{03bb}h.(h h)) (\u{03bb}h.(h h))");
    let original = parse("(\u{03bb}h.(h h)) (\u{03bb}h.(h h))");
    let mut limit: u32 = 0;
    assert!(!e.reduce(&mut limit));
    assert_eq!(limit, 0);
    assert!(expr_eq(&e, &original));
}

#[test]
fn budget_never_overspent() {
    // Omega keeps reducing forever; the budget bounds the steps exactly.
    let mut e = parse("(\u{03bb}h.(h h)) (\u{03bb}h.(h h))");
    let mut limit: u32 = 37;
    assert!(e.reduce(&mut limit));
    assert_eq!(limit, 0);
}

#[test]
fn round_trip_several_expressions() {
    let cases = [
        "\u{03bb}a.a",
        "\u{03bb}c.\u{03bb}b.c",
        "\u{03bb}f.\u{03bb}g.(g f)",
        "\u{03bb}h.(h h)",
        "(\u{03bb}h.(h h)) (\u{03bb}h.(h h))",
        "\u{03bb}x.\u{03bb}x.x",
        "\u{03bb}f.\u{03bb}x.(f (f x))",
    ];
    for s in cases {
        let e = parse(s);
        let printed = e.to_text();
        let e2 = parse(&printed);
        assert!(expr_eq(&e, &e2), "round trip broke on {s}");
        assert_eq!(e2.to_text(), printed);
    }
}

#[test]
fn error_missing_binder_name() {
    assert!(matches!(
        RawExpr::parse_str("\u{03bb}.x"),
        Err(ParseError::MissingBinderName)
    ));
}

#[test]
fn error_unclosed_group() {
    assert!(matches!(
        RawExpr::parse_str("(\u{03bb}x.x"),
        Err(ParseError::UnclosedGroup)
    ));
}

#[test]
fn error_missing_dot() {
    assert!(matches!(
        RawExpr::parse_str("\u{03bb}x y"),
        Err(ParseError::MissingDot)
    ));
}

#[test]
fn error_unresolved_variable() {
    match RawExpr::parse_str("\u{03bb}x.(x y)") {
        Err(ParseError::UnresolvedVariable(name)) => assert_eq!(name, "y"),
        _ => panic!("expected an unresolved-variable error"),
    }
}

#[test]
fn error_unexpected_input_leftover() {
    match RawExpr::parse_str("\u{03bb}x.x )") {
        Err(ParseError::UnexpectedInput(rest)) => assert_eq!(rest, ")"),
        _ => panic!("expected an unexpected-input error"),
    }
}

#[test]
fn error_unexpected_input_empty() {
    assert!(matches!(
        RawExpr::parse_str(""),
        Err(ParseError::UnexpectedInput(_))
    ));
}

#[test]
fn shift_raises_free_indices() {
    let mut e = RawExpr::Var(0);
    e.shift(0, 3);
    assert!(matches!(e, RawExpr::Var(3)));
    let under = parse("\u{03bb}a.a");
    let shifted = under.shifted(0, 2);
    // The bound variable is below the start once inside the binder.
    assert!(expr_eq(&shifted, &parse("\u{03bb}a.a")));
}

#[test]
fn unshift_checks_the_forbidden_band() {
    let mut free = RawExpr::Var(5);
    assert!(free.try_unshift(0, 2));
    assert!(matches!(free, RawExpr::Var(3)));
    let mut bound = RawExpr::Var(1);
    assert!(!bound.try_unshift(1, 2));
    assert!(matches!(bound, RawExpr::Var(1)));
}

#[test]
fn shadowed_names_still_print_by_nearest_binder() {
    let e = parse("\u{03bb}x.\u{03bb}x.x");
    assert_eq!(e.to_text(), "\u{03bb}x.\u{03bb}x.x");
    match &e {
        RawExpr::Lambda(outer) => match &outer.body {
            RawExpr::Lambda(inner) => assert!(matches!(inner.body, RawExpr::Var(0))),
            _ => panic!("expected a nested abstraction"),
        },
        _ => panic!("expected an abstraction"),
    }
}
