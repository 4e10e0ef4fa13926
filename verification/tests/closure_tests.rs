use purelisp::anormal::a_normalize;
use purelisp::ast::Expr;
use purelisp::closure::closure_convert;
use purelisp::copyprop::copy_prop;
use purelisp::formatter::format_prog;
use purelisp::knormal::k_normalize;
use purelisp::read::read_string;
use purelisp::util::NameGenerator;

fn lower(src: &str) -> Vec<Expr> {
    let prog = read_string(src).unwrap();
    let mut namer = NameGenerator::new();
    let mut kprog = Vec::new();
    for e in &prog {
        kprog.push(k_normalize(e, &mut namer));
    }
    let aprog = a_normalize(kprog);
    let cprog = copy_prop(aprog);
    closure_convert(cprog, &mut namer)
}

#[test]
fn test_closure_convert() {
    let converted = lower(
        "(defun square (x) (* x x))\n(let ((f (fn (x) (+ (* x x) x)))) (f (+ 1 (* 2 3))))\n(let ((y 1)) (let ((f (fn (x) (+ x y)))) (f (+ 1 (* 2 3)))))\n",
    );
    println!("closure-converted:\n{}", format_prog(&converted));
}

#[test]
fn lambda_lifting_without_captures() {
    // A helper without free variables becomes a plain top-level function and
    // its call site uses the hoisted id directly: no closure is built.
    let converted = lower("(letfun (f (x) (* x x)) (f 3))");
    let has_defun = converted.iter().any(|e| matches!(e, Expr::Defun { .. }));
    let has_defclos = converted.iter().any(|e| matches!(e, Expr::DefClos { .. }));
    let has_letclos = converted.iter().any(|e| matches!(e, Expr::LetClos { .. }));
    assert!(has_defun);
    assert!(!has_defclos);
    assert!(!has_letclos);
    // The residual call goes straight to the hoisted global.
    assert_eq!(
        converted[1],
        Expr::Form(vec![Expr::Id("@f0".to_string()), Expr::Int(3)])
    );
}

#[test]
fn captured_variable_forces_closure() {
    // `y` stays free in the helper (its binding is not a compile-time atom),
    // so the template records it and a closure is bound at the use site.
    let converted = lower("(let ((y (+ 0 1))) (letfun (f (x) (+ x y)) (f 1)))");
    let mut found_template = false;
    for e in &converted {
        if let Expr::DefClos { freevars, .. } = e {
            assert_eq!(freevars, &vec!["y".to_string()]);
            found_template = true;
        }
    }
    assert!(found_template);
    fn contains_letclos(e: &Expr) -> bool {
        match e {
            Expr::LetClos { .. } => true,
            Expr::Let { bindings, body } => {
                bindings.iter().any(|b| contains_letclos(&b.1)) || contains_letclos(body)
            }
            Expr::Form(items) => items.iter().any(contains_letclos),
            Expr::If { cond, thn, els } => {
                contains_letclos(cond) || contains_letclos(thn) || contains_letclos(els)
            }
            _ => false,
        }
    }
    assert!(converted.iter().any(contains_letclos));
}

#[test]
fn free_vars_are_sorted_and_exclude_bound_names() {
    let expr = purelisp::parse::parse("(+ b a (let ((c 1)) (* c z)))").unwrap();
    let fvs = expr.free_vars(&Vec::new());
    assert_eq!(
        fvs,
        vec!["a".to_string(), "b".to_string(), "z".to_string()]
    );
}
