//! A-normalization: thread nested complexity in let-bound expressions
//! outward into a flat chain of single-binding lets, in
//! continuation-passing style.  The continuation is defunctionalized: the
//! only continuations that ever arise are the identity and "wrap the result
//! in one `Let` around an already-normalized rest".

use vstd::prelude::*;
use crate::ast::{Expr, SpecExpr, view_expr, view_exprs, view_binds, clone_ids};

verus! {

broadcast use crate::ast::lemma_view_exprs, crate::ast::lemma_view_binds, crate::ast::lemma_push_parts;

/// A defunctionalized continuation: either return the normalized expression
/// as is, or bind it to a name whose scope is an already-normalized rest.
pub enum Cont {
    Ret,
    Bind(String, Box<Expr>),
}

/// The model of a continuation.
pub enum SpecCont {
    Ret,
    Bind(Seq<char>, Box<SpecExpr>),
}

pub open spec fn view_cont(k: Cont) -> SpecCont {
    match k {
        Cont::Ret => SpecCont::Ret,
        Cont::Bind(x, rest) => SpecCont::Bind(x@, Box::new(view_expr(*rest))),
    }
}

impl View for Cont {
    type V = SpecCont;

    open spec fn view(&self) -> SpecCont {
        view_cont(*self)
    }
}

/// Hand a normalized expression to the continuation.
pub open spec fn spec_apply(k: SpecCont, e: SpecExpr) -> SpecExpr {
    match k {
        SpecCont::Ret => e,
        SpecCont::Bind(x, rest) => SpecExpr::Let { bindings: seq![(x, e)], body: rest },
    }
}

/// Valid input for A-normalization: only single-binding lets (K-normalization
/// must have run first), and no boolean sugar or closure nodes.
pub open spec fn anorm_input_ok(e: SpecExpr) -> bool
    decreases e,
{
    match e {
        SpecExpr::Form(_) => true,
        SpecExpr::Let { bindings, body } => bindings.len() == 1 && anorm_input_ok(bindings[0].1)
            && anorm_input_ok(*body),
        SpecExpr::If { cond, thn, els } => anorm_input_ok(*cond) && anorm_input_ok(*thn)
            && anorm_input_ok(*els),
        SpecExpr::Fn { args, body } => anorm_input_ok(*body),
        SpecExpr::Def { x, y } => anorm_input_ok(*y),
        SpecExpr::Defun { name, args, body } => anorm_input_ok(*body),
        SpecExpr::LetFun { name, args, fun_body, expr_body } => anorm_input_ok(*fun_body)
            && anorm_input_ok(*expr_body),
        SpecExpr::And(_) => false,
        SpecExpr::Or(_) => false,
        SpecExpr::Not(_) => false,
        SpecExpr::DefClos { .. } => false,
        SpecExpr::LetClos { .. } => false,
        _ => true,
    }
}

/// The A-normal transformation under a continuation.
pub open spec fn spec_anorm(e: SpecExpr, k: SpecCont) -> SpecExpr
    decreases e,
{
    match e {
        SpecExpr::Let { bindings, body } => {
            if bindings.len() == 1 {
                let nb = spec_anorm(*body, k);
                spec_anorm(bindings[0].1, SpecCont::Bind(bindings[0].0, Box::new(nb)))
            } else {
                spec_apply(k, e)
            }
        },
        SpecExpr::If { cond, thn, els } => spec_apply(
            k,
            SpecExpr::If {
                cond,
                thn: Box::new(spec_anorm(*thn, SpecCont::Ret)),
                els: Box::new(spec_anorm(*els, SpecCont::Ret)),
            },
        ),
        SpecExpr::Fn { args, body } => spec_apply(
            k,
            SpecExpr::Fn { args, body: Box::new(spec_anorm(*body, SpecCont::Ret)) },
        ),
        SpecExpr::LetFun { name, args, fun_body, expr_body } => SpecExpr::LetFun {
            name,
            args,
            fun_body: Box::new(spec_anorm(*fun_body, SpecCont::Ret)),
            expr_body: Box::new(spec_anorm(*expr_body, k)),
        },
        SpecExpr::Def { x, y } => SpecExpr::Def {
            x,
            y: Box::new(spec_anorm(*y, SpecCont::Ret)),
        },
        SpecExpr::Defun { name, args, body } => SpecExpr::Defun {
            name,
            args,
            body: Box::new(spec_anorm(*body, SpecCont::Ret)),
        },
        _ => spec_apply(k, e),
    }
}

/// A-normalize one expression under an explicit continuation.
pub fn a_normal(e: &Expr, cont: Cont) -> (r: Expr)
    requires
        anorm_input_ok(e@),
    ensures
        r@ == spec_anorm(e@, cont@),
    decreases e,
{
    match e {
        Expr::Nil => apply_cont(cont, Expr::Nil),
        Expr::Bool(b) => apply_cont(cont, Expr::Bool(*b)),
        Expr::Int(i) => apply_cont(cont, Expr::Int(*i)),
        Expr::Float(s) => apply_cont(cont, Expr::Float(s.clone())),
        Expr::Str(s) => apply_cont(cont, Expr::Str(s.clone())),
        Expr::Id(s) => apply_cont(cont, Expr::Id(s.clone())),
        Expr::Form(v) => {
            let kv = clone_exprs(v);
            apply_cont(cont, Expr::Form(kv))
        },
        Expr::Let { bindings, body } => {
            proof {
                assert(view_binds(bindings@).len() == 1);
                assert(bindings@.len() == 1);
            }
            let nb = a_normal(body, cont);
            let x = bindings[0].0.clone();
            proof {
                assert(view_binds(bindings@)[0] == (bindings@[0].0@, view_expr(bindings@[0].1)));
            }
            a_normal(&bindings[0].1, Cont::Bind(x, Box::new(nb)))
        },
        Expr::If { cond, thn, els } => {
            let nt = a_normal(thn, Cont::Ret);
            let ne = a_normal(els, Cont::Ret);
            let nc = clone_expr(cond);
            let r = Expr::If { cond: Box::new(nc), thn: Box::new(nt), els: Box::new(ne) };
            apply_cont(cont, r)
        },
        Expr::Fn { args, body } => {
            let nb = a_normal(body, Cont::Ret);
            let r = Expr::Fn { args: clone_ids(args), body: Box::new(nb) };
            apply_cont(cont, r)
        },
        Expr::LetFun { name, args, fun_body, expr_body } => {
            let nf = a_normal(fun_body, Cont::Ret);
            let ne = a_normal(expr_body, cont);
            Expr::LetFun {
                name: name.clone(),
                args: clone_ids(args),
                fun_body: Box::new(nf),
                expr_body: Box::new(ne),
            }
        },
        Expr::Def { x, y } => Expr::Def {
            x: x.clone(),
            y: Box::new(a_normal(y, Cont::Ret)),
        },
        Expr::Defun { name, args, body } => Expr::Defun {
            name: name.clone(),
            args: clone_ids(args),
            body: Box::new(a_normal(body, Cont::Ret)),
        },
        Expr::And(_) => vstd::pervasive::unreached(),
        Expr::Or(_) => vstd::pervasive::unreached(),
        Expr::Not(_) => vstd::pervasive::unreached(),
        Expr::DefClos { .. } => vstd::pervasive::unreached(),
        Expr::LetClos { .. } => vstd::pervasive::unreached(),
    }
}

/// Hand a normalized expression to the continuation.
fn apply_cont(k: Cont, e: Expr) -> (r: Expr)
    ensures
        r@ == spec_apply(view_cont(k), e@),
{
    let ghost ev = e@;
    match k {
        Cont::Ret => e,
        Cont::Bind(x, rest) => {
            let ghost xv = x@;
            let ghost restv = view_expr(*rest);
            let nbs = vec![(x, e)];
            proof {
                assert(view_binds(nbs@) == view_binds(nbs@.drop_last()).push(
                    (nbs@.last().0@, view_expr(nbs@.last().1)),
                ));
                assert(nbs@.drop_last() =~= Seq::<(String, Expr)>::empty());
                assert(view_binds(Seq::<(String, Expr)>::empty()) =~= Seq::<(
                    Seq<char>,
                    SpecExpr,
                )>::empty());
                assert(view_binds(nbs@) =~= seq![(xv, ev)]);
            }
            let r = Expr::Let { bindings: nbs, body: rest };
            proof {
                assert(r@ == (SpecExpr::Let { bindings: seq![(xv, ev)], body: Box::new(restv) }));
            }
            r
        },
    }
}

/// A deep copy of an expression tree, equal to the original in the model.
pub fn clone_expr(e: &Expr) -> (r: Expr)
    ensures
        r@ == e@,
    decreases e,
{
    match e {
        Expr::Nil => Expr::Nil,
        Expr::Bool(b) => Expr::Bool(*b),
        Expr::Int(i) => Expr::Int(*i),
        Expr::Float(s) => Expr::Float(s.clone()),
        Expr::Str(s) => Expr::Str(s.clone()),
        Expr::Id(s) => Expr::Id(s.clone()),
        Expr::Form(v) => Expr::Form(clone_exprs(v)),
        Expr::Let { bindings, body } => {
            let bs = clone_binds(bindings);
            Expr::Let { bindings: bs, body: Box::new(clone_expr(body)) }
        },
        Expr::If { cond, thn, els } => Expr::If {
            cond: Box::new(clone_expr(cond)),
            thn: Box::new(clone_expr(thn)),
            els: Box::new(clone_expr(els)),
        },
        Expr::And(v) => Expr::And(clone_exprs(v)),
        Expr::Or(v) => Expr::Or(clone_exprs(v)),
        Expr::Not(b) => Expr::Not(Box::new(clone_expr(b))),
        Expr::Fn { args, body } => Expr::Fn {
            args: clone_ids(args),
            body: Box::new(clone_expr(body)),
        },
        Expr::Def { x, y } => Expr::Def { x: x.clone(), y: Box::new(clone_expr(y)) },
        Expr::Defun { name, args, body } => Expr::Defun {
            name: name.clone(),
            args: clone_ids(args),
            body: Box::new(clone_expr(body)),
        },
        Expr::LetFun { name, args, fun_body, expr_body } => Expr::LetFun {
            name: name.clone(),
            args: clone_ids(args),
            fun_body: Box::new(clone_expr(fun_body)),
            expr_body: Box::new(clone_expr(expr_body)),
        },
        Expr::DefClos { name, freevars, args, body } => Expr::DefClos {
            name: name.clone(),
            freevars: clone_ids(freevars),
            args: clone_ids(args),
            body: Box::new(clone_expr(body)),
        },
        Expr::LetClos { name, closid, freevars, body } => Expr::LetClos {
            name: name.clone(),
            closid: closid.clone(),
            freevars: clone_ids(freevars),
            body: Box::new(clone_expr(body)),
        },
    }
}


/// A deep copy of a binding list.
pub fn clone_binds(v: &Vec<(String, Expr)>) -> (r: Vec<(String, Expr)>)
    ensures
        view_binds(r@) == view_binds(v@),
        r@.len() == v@.len(),
    decreases v,
{
    let mut r: Vec<(String, Expr)> = Vec::new();
    let mut i: usize = 0;
    while i < v.len()
        invariant
            i <= v.len(),
            r@.len() == i,
            view_binds(r@) == view_binds(v@.take(i as int)),
        decreases v.len() - i,
    {
        let nm = v[i].0.clone();
        let be = clone_expr(&v[i].1);
        let pair = (nm, be);
        proof {
            assert(view_binds(r@.push(pair)) == view_binds(r@).push(
                (pair.0@, view_expr(pair.1)),
            ));
            assert(v@.take(i as int).push(v@[i as int]) =~= v@.take(i + 1));
            assert(view_binds(v@.take(i as int).push(v@[i as int])) == view_binds(
                v@.take(i as int),
            ).push((v@[i as int].0@, view_expr(v@[i as int].1))));
        }
        r.push(pair);
        i = i + 1;
    }
    proof {
        assert(v@.take(i as int) =~= v@);
    }
    r
}

/// A deep copy of a list of expressions.
pub fn clone_exprs(v: &Vec<Expr>) -> (r: Vec<Expr>)
    ensures
        view_exprs(r@) == view_exprs(v@),
        r@.len() == v@.len(),
    decreases v,
{
    let mut r: Vec<Expr> = Vec::new();
    let mut i: usize = 0;
    while i < v.len()
        invariant
            i <= v.len(),
            r@.len() == i,
            view_exprs(r@) == view_exprs(v@.take(i as int)),
        decreases v.len() - i,
    {
        let d = clone_expr(&v[i]);
        proof {
            assert(view_exprs(r@.push(d)) == view_exprs(r@).push(view_expr(d)));
            assert(v@.take(i as int).push(v@[i as int]) =~= v@.take(i + 1));
            assert(view_exprs(v@.take(i as int).push(v@[i as int])) == view_exprs(
                v@.take(i as int),
            ).push(view_expr(v@[i as int])));
        }
        r.push(d);
        i = i + 1;
    }
    proof {
        assert(v@.take(i as int) =~= v@);
    }
    r
}

/// A-normalization of a whole program, one top-level expression at a time,
/// each under the identity continuation.
pub open spec fn spec_anormalize_prog(p: Seq<SpecExpr>) -> Seq<SpecExpr>
    decreases p,
{
    if p.len() == 0 {
        Seq::empty()
    } else {
        spec_anormalize_prog(p.drop_last()).push(spec_anorm(p.last(), SpecCont::Ret))
    }
}

pub open spec fn anorm_input_ok_prog(p: Seq<SpecExpr>) -> bool
    decreases p,
{
    if p.len() == 0 {
        true
    } else {
        anorm_input_ok_prog(p.drop_last()) && anorm_input_ok(p.last())
    }
}

/// A-normalize every top-level expression of a program.
pub fn a_normalize(prog: Vec<Expr>) -> (r: Vec<Expr>)
    requires
        anorm_input_ok_prog(view_exprs(prog@)),
    ensures
        view_exprs(r@) == spec_anormalize_prog(view_exprs(prog@)),
        r@.len() == prog@.len(),
{
    let ghost pv = view_exprs(prog@);
    proof {
        lemma_anorm_prog_index(pv);
    }
    let mut r: Vec<Expr> = Vec::new();
    let mut i: usize = 0;
    while i < prog.len()
        invariant
            i <= prog.len(),
            r@.len() == i,
            view_exprs(r@) == spec_anormalize_prog(pv.take(i as int)),
            anorm_input_ok_prog(pv),
            pv == view_exprs(prog@),
            forall|j: int| 0 <= j < pv.len() ==> anorm_input_ok(#[trigger] pv[j]),
        decreases prog.len() - i,
    {
        let d = a_normal(&prog[i], Cont::Ret);
        proof {
            assert(view_exprs(r@.push(d)) == view_exprs(r@).push(view_expr(d)));
            assert(pv.take(i as int).push(pv[i as int]) =~= pv.take(i + 1));
            assert(spec_anormalize_prog(pv.take(i as int).push(pv[i as int]))
                == spec_anormalize_prog(pv.take(i as int)).push(
                spec_anorm(pv[i as int], SpecCont::Ret),
            ));
        }
        r.push(d);
        i = i + 1;
    }
    proof {
        assert(pv.take(i as int) =~= pv);
    }
    r
}

proof fn lemma_anorm_prog_index(p: Seq<SpecExpr>)
    requires
        anorm_input_ok_prog(p),
    ensures
        forall|j: int| 0 <= j < p.len() ==> anorm_input_ok(#[trigger] p[j]),
    decreases p,
{
    if p.len() > 0 {
        lemma_anorm_prog_index(p.drop_last());
        assert forall|j: int| 0 <= j < p.len() implies anorm_input_ok(#[trigger] p[j]) by {
            if j < p.len() - 1 {
                assert(p[j] == p.drop_last()[j]);
            }
        }
    }
}

/// Every `Let` in the tree binds exactly one name.
pub open spec fn single_lets(e: SpecExpr) -> bool
    decreases e,
{
    match e {
        SpecExpr::Form(v) => single_lets_seq(v),
        SpecExpr::Let { bindings, body } => bindings.len() == 1 && single_lets(bindings[0].1)
            && single_lets(*body),
        SpecExpr::If { cond, thn, els } => single_lets(*cond) && single_lets(*thn) && single_lets(
            *els,
        ),
        SpecExpr::And(v) => single_lets_seq(v),
        SpecExpr::Or(v) => single_lets_seq(v),
        SpecExpr::Not(b) => single_lets(*b),
        SpecExpr::Fn { args, body } => single_lets(*body),
        SpecExpr::Def { x, y } => single_lets(*y),
        SpecExpr::Defun { name, args, body } => single_lets(*body),
        SpecExpr::LetFun { name, args, fun_body, expr_body } => single_lets(*fun_body)
            && single_lets(*expr_body),
        SpecExpr::DefClos { name, freevars, args, body } => single_lets(*body),
        SpecExpr::LetClos { name, closid, freevars, body } => single_lets(*body),
        _ => true,
    }
}

pub open spec fn single_lets_seq(v: Seq<SpecExpr>) -> bool
    decreases v,
{
    if v.len() == 0 {
        true
    } else {
        single_lets_seq(v.drop_last()) && single_lets(v.last())
    }
}

/// What a continuation may add to the result: nothing, or one single-binding
/// `Let` whose rest already satisfies the invariant.
pub open spec fn single_lets_cont(k: SpecCont) -> bool {
    match k {
        SpecCont::Ret => true,
        SpecCont::Bind(x, rest) => single_lets(*rest),
    }
}

/// A-normalization leaves every `Let` with exactly one binding.
pub proof fn lemma_anorm_single_lets(e: SpecExpr, k: SpecCont)
    requires
        anorm_input_ok(e),
        single_lets(e),
        single_lets_cont(k),
    ensures
        single_lets(spec_anorm(e, k)),
    decreases e,
{
    reveal_with_fuel(single_lets, 3);
    match e {
        SpecExpr::Let { bindings, body } => {
            lemma_anorm_single_lets(*body, k);
            let nb = spec_anorm(*body, k);
            lemma_anorm_single_lets(
                bindings[0].1,
                SpecCont::Bind(bindings[0].0, Box::new(nb)),
            );
        },
        SpecExpr::If { cond, thn, els } => {
            lemma_anorm_single_lets(*thn, SpecCont::Ret);
            lemma_anorm_single_lets(*els, SpecCont::Ret);
            lemma_apply_single(
                k,
                SpecExpr::If {
                    cond,
                    thn: Box::new(spec_anorm(*thn, SpecCont::Ret)),
                    els: Box::new(spec_anorm(*els, SpecCont::Ret)),
                },
            );
        },
        SpecExpr::Fn { args, body } => {
            lemma_anorm_single_lets(*body, SpecCont::Ret);
            lemma_apply_single(
                k,
                SpecExpr::Fn { args, body: Box::new(spec_anorm(*body, SpecCont::Ret)) },
            );
        },
        SpecExpr::LetFun { name, args, fun_body, expr_body } => {
            lemma_anorm_single_lets(*fun_body, SpecCont::Ret);
            lemma_anorm_single_lets(*expr_body, k);
        },
        SpecExpr::Def { x, y } => {
            lemma_anorm_single_lets(*y, SpecCont::Ret);
        },
        SpecExpr::Defun { name, args, body } => {
            lemma_anorm_single_lets(*body, SpecCont::Ret);
        },
        _ => {
            lemma_apply_single(k, e);
        },
    }
}

proof fn lemma_apply_single(k: SpecCont, e: SpecExpr)
    requires
        single_lets(e),
        single_lets_cont(k),
    ensures
        single_lets(spec_apply(k, e)),
{
    match k {
        SpecCont::Ret => {},
        SpecCont::Bind(x, rest) => {
            assert(seq![(x, e)][0] == (x, e));
            assert(single_lets(SpecExpr::Let { bindings: seq![(x, e)], body: rest }));
        },
    }
}

/// Every `Let` in every top-level expression binds exactly one name.
pub open spec fn single_lets_prog(p: Seq<SpecExpr>) -> bool
    decreases p,
{
    if p.len() == 0 {
        true
    } else {
        single_lets_prog(p.drop_last()) && single_lets(p.last())
    }
}

/// The single-binding invariant over a whole program: A-normalizing any
/// program of single-binding trees leaves every `Let` in the output with
/// exactly one binding.
pub proof fn lemma_anormalize_prog_single_lets(p: Seq<SpecExpr>)
    requires
        anorm_input_ok_prog(p),
        single_lets_prog(p),
    ensures
        single_lets_prog(spec_anormalize_prog(p)),
    decreases p,
{
    broadcast use crate::ast::lemma_push_parts;

    if p.len() > 0 {
        lemma_anormalize_prog_single_lets(p.drop_last());
        lemma_anorm_single_lets(p.last(), SpecCont::Ret);
    }
}

/// What the continuation may wrap the result in, for the copy-propagation
/// shape: nothing, or one binding whose rest is already in shape.
pub open spec fn cp_cont_ok(k: SpecCont) -> bool {
    match k {
        SpecCont::Ret => true,
        SpecCont::Bind(x, rest) => crate::copyprop::cp_expr_ok(*rest),
    }
}

proof fn lemma_cp_apply_ok(k: SpecCont, e: SpecExpr)
    requires
        crate::copyprop::cp_expr_ok(e),
        cp_cont_ok(k),
    ensures
        crate::copyprop::cp_expr_ok(spec_apply(k, e)),
{
    match k {
        SpecCont::Ret => {},
        SpecCont::Bind(x, rest) => {
            assert(seq![(x, e)][0] == (x, e));
            assert(crate::copyprop::cp_expr_ok(SpecExpr::Let {
                bindings: seq![(x, e)],
                body: rest,
            }));
        },
    }
}

proof fn lemma_atoms_cp_ok_seq(v: Seq<SpecExpr>)
    requires
        crate::knormal::atoms_seq(v),
    ensures
        crate::copyprop::cp_expr_ok_seq(v),
    decreases v,
{
    if v.len() > 0 {
        assert(forall|i: int|
            0 <= i < v.len() - 1 ==> v.drop_last()[i] == #[trigger] v[i]);
        lemma_atoms_cp_ok_seq(v.drop_last());
        assert(crate::ast::spec_is_atom(v.last()));
        assert(crate::copyprop::cp_expr_ok(v.last()));
    }
}

/// A-normalizing a K-normal tree yields valid copy-propagation input.
pub proof fn lemma_anorm_cp_ok(e: SpecExpr, k: SpecCont)
    requires
        crate::knormal::knormal_form(e),
        crate::ast::no_defs(e),
        cp_cont_ok(k),
    ensures
        crate::copyprop::cp_expr_ok(spec_anorm(e, k)),
    decreases e,
{
    reveal_with_fuel(crate::copyprop::cp_expr_ok, 3);
    match e {
        SpecExpr::Form(v) => {
            lemma_atoms_cp_ok_seq(v);
            assert(crate::copyprop::cp_expr_ok(SpecExpr::Form(v)));
            lemma_cp_apply_ok(k, e);
        },
        SpecExpr::Let { bindings, body } => {
            lemma_anorm_cp_ok(*body, k);
            let nb = spec_anorm(*body, k);
            let kk = SpecCont::Bind(bindings[0].0, Box::new(nb));
            assert(cp_cont_ok(kk)) by {
                assert(kk.arrow_Bind_1() == Box::new(nb));
            }
            assert(bindings.last() == bindings[0]);
            assert(crate::ast::no_defs_binds(bindings));
            assert(crate::ast::no_defs(bindings.last().1));
            lemma_anorm_cp_ok(bindings[0].1, kk);
        },
        SpecExpr::If { cond, thn, els } => {
            lemma_anorm_cp_ok(*thn, SpecCont::Ret);
            lemma_anorm_cp_ok(*els, SpecCont::Ret);
            let r = SpecExpr::If {
                cond,
                thn: Box::new(spec_anorm(*thn, SpecCont::Ret)),
                els: Box::new(spec_anorm(*els, SpecCont::Ret)),
            };
            assert(crate::copyprop::cp_expr_ok(r));
            lemma_cp_apply_ok(k, r);
        },
        SpecExpr::LetFun { name, args, fun_body, expr_body } => {
            lemma_anorm_cp_ok(*fun_body, SpecCont::Ret);
            lemma_anorm_cp_ok(*expr_body, k);
        },
        _ => {
            assert(crate::copyprop::cp_expr_ok(e));
            lemma_cp_apply_ok(k, e);
        },
    }
}

/// A-normalizing a K-normal top-level item yields a valid copy-propagation
/// top-level item.
pub proof fn lemma_anorm_cp_top_ok(e: SpecExpr)
    requires
        crate::knormal::knormal_form(e),
        match e {
            SpecExpr::Def { x, y } => crate::ast::no_defs(*y),
            _ => crate::ast::no_defs(e),
        },
    ensures
        crate::copyprop::cp_top_ok(spec_anorm(e, SpecCont::Ret)),
{
    match e {
        SpecExpr::Def { x, y } => {
            lemma_anorm_cp_ok(*y, SpecCont::Ret);
        },
        _ => {
            lemma_anorm_cp_ok(e, SpecCont::Ret);
        },
    }
}
} // verus!
