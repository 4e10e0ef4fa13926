use purelisp::anormal::a_normalize;
use purelisp::ast::Expr;
use purelisp::formatter::pretty_format;
use purelisp::knormal::k_normalize;
use purelisp::read::read_string;
use purelisp::util::NameGenerator;

fn knormalize_prog(prog: &Vec<Expr>, namer: &mut NameGenerator) -> Vec<Expr> {
    let mut out = Vec::new();
    for e in prog {
        out.push(k_normalize(e, namer));
    }
    out
}

fn print_stages(src: &str) -> Vec<Expr> {
    let prog = read_string(src).unwrap();
    let kprog = knormalize_prog(&prog, &mut NameGenerator::new());
    let aprog = a_normalize(kprog);
    println!("original: {}", pretty_format(&prog[0]));
    println!("a-normalized: {}", pretty_format(&aprog[0]));
    aprog
}

fn assert_single_lets(e: &Expr) {
    match e {
        Expr::Let { bindings, body } => {
            assert_eq!(bindings.len(), 1);
            assert_single_lets(&bindings[0].1);
            assert_single_lets(body);
        }
        Expr::Form(items) => {
            for item in items {
                assert_single_lets(item);
            }
        }
        Expr::If { cond, thn, els } => {
            assert_single_lets(cond);
            assert_single_lets(thn);
            assert_single_lets(els);
        }
        Expr::LetFun { fun_body, expr_body, .. } => {
            assert_single_lets(fun_body);
            assert_single_lets(expr_body);
        }
        Expr::Def { y, .. } => assert_single_lets(y),
        Expr::Defun { body, .. } => assert_single_lets(body),
        _ => {}
    }
}

#[test]
fn anormal_test_nested_let() {
    let aprog = print_stages("(let ((x (let ((z 1) (w 2)) (* z w))) (y 2)) (+ x y))");
    for e in &aprog {
        assert_single_lets(e);
    }
}

#[test]
fn anormal_test_if() {
    let aprog = print_stages("(if (= 1 2) nil (let ((x (let ((y 1)) y))) x))");
    for e in &aprog {
        assert_single_lets(e);
    }
}

#[test]
fn anormal_test_letfun() {
    let aprog = print_stages("(letfun (f (x) x) (f (+ 1 (* 2 3))))");
    for e in &aprog {
        assert_single_lets(e);
    }
}

#[test]
fn anormal_test_fn() {
    let aprog = print_stages("(let ((f (fn (x) (+ (* x x) x)))) (f (+ 1 (* 2 3))))");
    for e in &aprog {
        assert_single_lets(e);
    }
}

#[test]
fn anormal_preserves_evaluation_order() {
    let aprog = print_stages("(+ (f) (g))");
    // The flattened chain must bind the call to `f` before the call to `g`.
    match &aprog[0] {
        Expr::Let { bindings, body } => {
            assert_eq!(bindings[0].1, Expr::Form(vec![Expr::Id("f".to_string())]));
            match &**body {
                Expr::Let { bindings, .. } => {
                    assert_eq!(bindings[0].1, Expr::Form(vec![Expr::Id("g".to_string())]));
                }
                other => panic!("expected an inner let, got {:?}", other),
            }
        }
        other => panic!("expected a let chain, got {:?}", other),
    }
}
