use purelisp::compl::{compl_to_c, compl_to_ir};
use purelisp::read::read_string;

#[test]
fn test_simple_function() {
    let prog = read_string("\n(+ 1 (* 2 3))\n").unwrap();
    let c_code = compl_to_c(prog).unwrap();
    println!("Simple function test:\n{}", c_code);
}

#[test]
fn end_to_end_square() {
    // `(defun square (x) (* x x)) (square 5)` lowers through all five
    // stages into a program whose entry block computes and prints the call.
    let prog = read_string("(defun square (x) (* x x)) (square 5)").unwrap();
    let c_code = compl_to_c(prog).unwrap();
    assert!(c_code.contains("#include \"runtime.c\""));
    assert!(c_code.contains("int main() {"));
    assert!(c_code.contains("__PLV_print"));
    assert!(c_code.contains("__PL_funcall"));
    assert!(c_code.contains("__new_INT(5)"));
    // The lifted helper becomes a plain global function.
    assert!(c_code.contains("(PLV *args)"));
    assert!(c_code.contains("PLV global_func_"));

    let prog2 = read_string("(defun square (x) (* x x)) (square 5)").unwrap();
    let ir = compl_to_ir(prog2).unwrap();
    println!("IR:\n{}", ir);
    assert!(ir.contains("(defun @f1"));
}

#[test]
fn codegen_is_deterministic() {
    let a = compl_to_c(read_string("(+ 1 (* 2 3))").unwrap()).unwrap();
    let b = compl_to_c(read_string("(+ 1 (* 2 3))").unwrap()).unwrap();
    assert_eq!(a, b);
}

#[test]
fn unresolved_identifier_is_reported() {
    let prog = read_string("(mystery 1)").unwrap();
    let r = compl_to_c(prog);
    assert!(r.is_err());
}

#[test]
fn empty_application_is_rejected() {
    let prog = read_string("()").unwrap();
    assert!(compl_to_ir(prog).is_err());
    let prog2 = read_string("()").unwrap();
    assert!(compl_to_c(prog2).is_err());
}

#[test]
fn nested_definition_is_rejected() {
    let prog = read_string("(+ 1 (def x 2))").unwrap();
    assert!(compl_to_ir(prog).is_err());
}

#[test]
fn parse_errors_are_reported() {
    assert!(purelisp::parse::parse("(").is_err());
    assert!(purelisp::parse::parse(")").is_err());
    assert!(purelisp::read::read_string("(a (b)").is_err());
    assert!(purelisp::parse::parse("\"unterminated").is_err());
    assert!(purelisp::parse::parse("99999999999999999999999").is_err());
    assert_eq!(
        purelisp::parse::parse("-9223372036854775808").unwrap(),
        purelisp::ast::Expr::Int(i64::MIN)
    );
}

#[test]
fn residual_sugar_is_rejected_by_codegen() {
    // The generator accepts only fully lowered node kinds.
    let r = purelisp::codegen::generate_c_code(vec![purelisp::ast::Expr::And(Vec::new())]);
    assert!(r.is_err());
}

#[test]
fn exact_statements_for_a_simple_call() {
    let c_code = compl_to_c(read_string("(+ 1 2)").unwrap()).unwrap();
    // Arguments are evaluated left to right into fresh temporaries, then
    // gathered into a buffer for one call.
    assert!(c_code.contains("PLV f_0 = __new_FUNCPTR(global_func_add);"));
    assert!(c_code.contains("PLV tmp_1 = __new_INT(1);"));
    assert!(c_code.contains("PLV tmp_2 = __new_INT(2);"));
    assert!(c_code.contains("args_4[0] = f_0;"));
    assert!(c_code.contains("args_4[1] = tmp_1;"));
    assert!(c_code.contains("args_4[2] = tmp_2;"));
    assert!(c_code.contains("PLV tmp_3 = __PL_funcall(args_4);"));
}

#[test]
fn fresh_names_never_repeat() {
    let mut namer = purelisp::util::NameGenerator::new();
    let a = namer.next("t");
    let b = namer.next("t");
    assert_ne!(a, b);
    assert_eq!(a, "t0");
    assert_eq!(b, "t1");
}

#[test]
fn closure_template_in_generated_code() {
    let prog =
        read_string("(let ((y (+ 0 1))) (letfun (f (x) (+ x y)) (f 1)))").unwrap();
    let c_code = compl_to_c(prog).unwrap();
    assert!(c_code.contains("__new_CLOS"));
    assert!(c_code.contains("PLV global_clos_"));
    assert!(c_code.contains("malloc(sizeof(PLV) * 1)"));
}
