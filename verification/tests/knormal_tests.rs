use purelisp::ast::Expr;
use purelisp::formatter::pretty_format;
use purelisp::knormal::k_normalize;
use purelisp::parse::parse;
use purelisp::util::NameGenerator;

#[test]
fn knormal_test_funcall() {
    let expr = parse("(+ (+ 1 2) (* 3 4))").unwrap();
    let kexpr = k_normalize(&expr, &mut NameGenerator::new());
    println!("original: {}", pretty_format(&expr));
    println!("k-normalized: {}", pretty_format(&kexpr));
}

#[test]
fn knormal_test_if() {
    let expr = parse("(if (> 1 2) (+ 3 4) (* 5 6))").unwrap();
    let kexpr = k_normalize(&expr, &mut NameGenerator::new());
    println!("original: {}", pretty_format(&expr));
    println!("k-normalized: {}", pretty_format(&kexpr));
}

#[test]
fn knormal_test_and() {
    let expr = parse("(and (> 1 2) (< 3 4))").unwrap();
    let kexpr = k_normalize(&expr, &mut NameGenerator::new());
    println!("original: {}", pretty_format(&expr));
    println!("k-normalized: {}", pretty_format(&kexpr));
}

#[test]
fn knormal_test_or() {
    let expr = parse("(or (> 1 2) (< 3 4))").unwrap();
    let kexpr = k_normalize(&expr, &mut NameGenerator::new());
    println!("original: {}", pretty_format(&expr));
    println!("k-normalized: {}", pretty_format(&kexpr));
}

#[test]
fn knormal_test_letfun() {
    let expr = parse("(letfun (f (x) (+ (* x x) x)) (f (+ 1 (* 2 3))))").unwrap();
    let kexpr = k_normalize(&expr, &mut NameGenerator::new());
    println!("original: {}", pretty_format(&expr));
    println!("k-normalized: {}", pretty_format(&kexpr));
}

#[test]
fn knormal_idempotent_on_own_output() {
    let expr = parse("(+ (+ 1 2) (* 3 4))").unwrap();
    let once = k_normalize(&expr, &mut NameGenerator::new());
    let twice = k_normalize(&once, &mut NameGenerator::new());
    assert_eq!(once, twice);
}

#[test]
fn knormal_and_desugars_to_if() {
    let expr = parse("(and true false)").unwrap();
    let kexpr = k_normalize(&expr, &mut NameGenerator::new());
    assert_eq!(
        kexpr,
        Expr::If {
            cond: Box::new(Expr::Bool(true)),
            thn: Box::new(Expr::Bool(false)),
            els: Box::new(Expr::Bool(false)),
        }
    );
}

#[test]
fn knormal_empty_connectives() {
    let kand = k_normalize(&parse("(and)").unwrap(), &mut NameGenerator::new());
    assert_eq!(kand, Expr::Bool(true));
    let kor = k_normalize(&parse("(or)").unwrap(), &mut NameGenerator::new());
    assert_eq!(kor, Expr::Bool(false));
}

#[test]
fn knormal_flattens_nested_call() {
    let expr = parse("(+ (* 2 3) 4)").unwrap();
    let kexpr = k_normalize(&expr, &mut NameGenerator::new());
    match &kexpr {
        Expr::Let { bindings, body } => {
            assert_eq!(bindings.len(), 1);
            assert_eq!(bindings[0].0, "t0");
            match &**body {
                Expr::Form(items) => {
                    assert_eq!(items[1], Expr::Id("t0".to_string()));
                    assert_eq!(items[2], Expr::Int(4));
                }
                other => panic!("expected a call, got {:?}", other),
            }
        }
        other => panic!("expected a let, got {:?}", other),
    }
}
