use purelisp::anormal::a_normalize;
use purelisp::ast::Expr;
use purelisp::closure::closure_convert;
use purelisp::copyprop::copy_prop;
use purelisp::formatter::format_prog;
use purelisp::knormal::k_normalize;
use purelisp::read::read_string;
use purelisp::util::NameGenerator;

#[test]
fn test_copyprop() {
    let prog = read_string(
        "(defun factorial (n) (if (= n 0) 1 (* n (factorial (- n 1)))))\n(factorial 5)\n",
    )
    .unwrap();
    let mut namer = NameGenerator::new();
    let mut kprog = Vec::new();
    for e in &prog {
        kprog.push(k_normalize(e, &mut namer));
    }
    let aprog = a_normalize(kprog);
    let cprog = copy_prop(aprog);
    let lprog = closure_convert(cprog, &mut namer);
    println!("copy-propagated and closure-converted:\n{}", format_prog(&lprog));
}

#[test]
fn copy_propagation_resolves_aliases() {
    // Both aliases resolve to the literal and the dead bindings disappear.
    let prog = read_string("(let ((x 1) (y x)) (+ x y))").unwrap();
    let mut namer = NameGenerator::new();
    let mut kprog = Vec::new();
    for e in &prog {
        kprog.push(k_normalize(e, &mut namer));
    }
    let aprog = a_normalize(kprog);
    let cprog = copy_prop(aprog);
    assert_eq!(
        cprog,
        vec![Expr::Form(vec![
            Expr::Id("+".to_string()),
            Expr::Int(1),
            Expr::Int(1),
        ])]
    );
}

#[test]
fn copy_propagation_keeps_non_atomic_bindings() {
    let prog = read_string("(let ((x (f 1))) (+ x x))").unwrap();
    let mut namer = NameGenerator::new();
    let mut kprog = Vec::new();
    for e in &prog {
        kprog.push(k_normalize(e, &mut namer));
    }
    let aprog = a_normalize(kprog);
    let cprog = copy_prop(aprog);
    match &cprog[0] {
        Expr::Let { bindings, .. } => {
            assert_eq!(bindings.len(), 1);
            assert_eq!(bindings[0].0, "x");
        }
        other => panic!("expected the let to survive, got {:?}", other),
    }
}

#[test]
fn atomic_top_level_def_is_absorbed() {
    let prog = read_string("(def one 1)\n(+ one 2)\n").unwrap();
    let mut namer = NameGenerator::new();
    let mut kprog = Vec::new();
    for e in &prog {
        kprog.push(k_normalize(e, &mut namer));
    }
    let aprog = a_normalize(kprog);
    let cprog = copy_prop(aprog);
    assert_eq!(
        cprog,
        vec![Expr::Form(vec![
            Expr::Id("+".to_string()),
            Expr::Int(1),
            Expr::Int(2),
        ])]
    );
}
