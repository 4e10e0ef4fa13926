use purelisp::ast::Expr;
use purelisp::formatter::{pretty_format, PrettyFormatter};
use purelisp::parse::parse;

#[test]
fn test_format_atoms() {
    let formatter = PrettyFormatter::new();

    assert_eq!(formatter.format(&Expr::Nil), "nil");
    assert_eq!(formatter.format(&Expr::Bool(true)), "true");
    assert_eq!(formatter.format(&Expr::Int(42)), "42");
    assert_eq!(formatter.format(&Expr::Float("3.14".to_string())), "3.14");
    assert_eq!(
        formatter.format(&Expr::Str("hello".to_string())),
        "\"hello\""
    );
    assert_eq!(formatter.format(&Expr::Id("x".to_string())), "x");
}

#[test]
fn test_format_form() {
    let formatter = PrettyFormatter::new();

    let form = Expr::Form(vec![
        Expr::Id("add".to_string()),
        Expr::Int(1),
        Expr::Int(2),
    ]);
    assert_eq!(formatter.format(&form), "(add 1 2)");

    let nested_form = Expr::Form(vec![
        Expr::Id("add".to_string()),
        Expr::Form(vec![
            Expr::Id("mul".to_string()),
            Expr::Int(2),
            Expr::Int(3),
        ]),
        Expr::Int(4),
    ]);
    assert_eq!(formatter.format(&nested_form), "(add (mul 2 3) 4)");
}

#[test]
fn test_format_clos() {
    let closure = Expr::LetClos {
        name: "f".to_string(),
        closid: "f_tmp_0".to_string(),
        freevars: vec!["x".to_string(), "y".to_string()],
        body: Box::new(Expr::Form(vec![
            Expr::Id("+".to_string()),
            Expr::Int(1),
            Expr::Form(vec![Expr::Id("f".to_string()), Expr::Int(2)]),
        ])),
    };

    println!("{}", pretty_format(&closure));
}

#[test]
fn negative_int_and_escaped_string() {
    let formatter = PrettyFormatter::new();
    assert_eq!(formatter.format(&Expr::Int(-7)), "-7");
    assert_eq!(
        formatter.format(&Expr::Str("a\"b".to_string())),
        "\"a\\\"b\""
    );
}

#[test]
fn narrow_width_wraps_a_call() {
    let formatter = PrettyFormatter::new().with_line_width(5);
    let form = Expr::Form(vec![
        Expr::Id("add".to_string()),
        Expr::Int(1),
        Expr::Int(2),
    ]);
    assert_eq!(formatter.format(&form), "(add\n  1\n  2\n)");
}

#[test]
fn round_trip_of_surface_trees() {
    // Pretty-printing then re-parsing reproduces the tree, for trees made of
    // surface constructs.
    let sources = [
        "(add (mul 2 3) 4)",
        "(if (< 1 2) (+ 3 4) (* 5 6))",
        "(and true (or false x))",
        "(not x)",
    ];
    for src in sources {
        let tree = parse(src).unwrap();
        let printed = pretty_format(&tree);
        let reparsed = parse(printed.as_str()).unwrap();
        assert_eq!(tree, reparsed);
    }
    // A multi-line rendering re-parses to the same tree as well.
    let letsrc = "(let ((x 1) (y 2)) (+ x y))";
    let tree = parse(letsrc).unwrap();
    let printed = pretty_format(&tree);
    let reparsed = parse(printed.as_str()).unwrap();
    assert_eq!(tree, reparsed);
}
