//! Closure conversion and lambda lifting: compute the free variables of
//! every named local function, hoist it to the top level under a fresh
//! global id, and either rewrite calls to the global directly (no captured
//! state) or bind a closure that captures the free variables in
//! lexicographic order.

use vstd::prelude::*;
use crate::ast::{
    Expr, SpecExpr, view_expr, view_exprs, view_binds, view_ids, fv_ok, spec_free_vars,
    clone_ids,
};
use crate::copyprop::cp_expr_ok;
use crate::util::{NameGenerator, spec_name};

verus! {

/// The converter's running state: hoisted definitions, the global ids
/// hoisted so far (excluded from free-variable capture), and the fresh-name
/// counter.
pub struct SpecCc {
    pub defs: Seq<SpecExpr>,
    pub excl: Seq<Seq<char>>,
    pub c: nat,
}

/// The name of the `n`-th hoisted global function.
pub open spec fn fname(n: nat) -> Seq<char> {
    spec_name("@f"@, n)
}

/// Trees that identifier substitution accepts: anything the converter can
/// produce in expression position.
pub open spec fn idmap_ok(e: SpecExpr) -> bool
    decreases e,
{
    match e {
        SpecExpr::Form(v) => idmap_ok_seq(v),
        SpecExpr::Let { bindings, body } => idmap_ok_binds(bindings) && idmap_ok(*body),
        SpecExpr::If { cond, thn, els } => idmap_ok(*cond) && idmap_ok(*thn) && idmap_ok(*els),
        SpecExpr::LetFun { name, args, fun_body, expr_body } => idmap_ok(*fun_body) && idmap_ok(
            *expr_body,
        ),
        SpecExpr::LetClos { name, closid, freevars, body } => idmap_ok(*body),
        SpecExpr::And(_) => false,
        SpecExpr::Or(_) => false,
        SpecExpr::Not(_) => false,
        SpecExpr::Fn { .. } => false,
        SpecExpr::Def { .. } => false,
        SpecExpr::Defun { .. } => false,
        SpecExpr::DefClos { .. } => false,
        _ => true,
    }
}

pub open spec fn idmap_ok_seq(v: Seq<SpecExpr>) -> bool
    decreases v,
{
    if v.len() == 0 {
        true
    } else {
        idmap_ok_seq(v.drop_last()) && idmap_ok(v.last())
    }
}

pub open spec fn idmap_ok_binds(v: Seq<(Seq<char>, SpecExpr)>) -> bool
    decreases v,
{
    if v.len() == 0 {
        true
    } else {
        idmap_ok_binds(v.drop_last()) && idmap_ok(v.last().1)
    }
}

/// Replace every use of the identifier `from` by `to`; binding positions
/// (let-bound names, function names, parameters, capture lists) are left
/// alone.
pub open spec fn subst(e: SpecExpr, from: Seq<char>, to: Seq<char>) -> SpecExpr
    decreases e,
{
    match e {
        SpecExpr::Id(id) => if id == from {
            SpecExpr::Id(to)
        } else {
            e
        },
        SpecExpr::Form(v) => SpecExpr::Form(subst_seq(v, from, to)),
        SpecExpr::Let { bindings, body } => SpecExpr::Let {
            bindings: subst_binds(bindings, from, to),
            body: Box::new(subst(*body, from, to)),
        },
        SpecExpr::If { cond, thn, els } => SpecExpr::If {
            cond: Box::new(subst(*cond, from, to)),
            thn: Box::new(subst(*thn, from, to)),
            els: Box::new(subst(*els, from, to)),
        },
        SpecExpr::LetFun { name, args, fun_body, expr_body } => SpecExpr::LetFun {
            name,
            args,
            fun_body: Box::new(subst(*fun_body, from, to)),
            expr_body: Box::new(subst(*expr_body, from, to)),
        },
        SpecExpr::LetClos { name, closid, freevars, body } => SpecExpr::LetClos {
            name,
            closid,
            freevars,
            body: Box::new(subst(*body, from, to)),
        },
        _ => e,
    }
}

pub open spec fn subst_seq(v: Seq<SpecExpr>, from: Seq<char>, to: Seq<char>) -> Seq<SpecExpr>
    decreases v,
{
    if v.len() == 0 {
        Seq::empty()
    } else {
        subst_seq(v.drop_last(), from, to).push(subst(v.last(), from, to))
    }
}

pub open spec fn subst_binds(
    v: Seq<(Seq<char>, SpecExpr)>,
    from: Seq<char>,
    to: Seq<char>,
) -> Seq<(Seq<char>, SpecExpr)>
    decreases v,
{
    if v.len() == 0 {
        Seq::empty()
    } else {
        subst_binds(v.drop_last(), from, to).push(
            (v.last().0, subst(v.last().1, from, to)),
        )
    }
}

/// Closure-convert one expression, threading the converter state.
pub open spec fn spec_conv(e: SpecExpr, st: SpecCc) -> (SpecExpr, SpecCc)
    decreases e,
{
    match e {
        SpecExpr::Form(v) => {
            let (nv, st1) = spec_conv_seq(v, st);
            (SpecExpr::Form(nv), st1)
        },
        SpecExpr::If { cond, thn, els } => {
            let (nc, st1) = spec_conv(*cond, st);
            let (nt, st2) = spec_conv(*thn, st1);
            let (ne, st3) = spec_conv(*els, st2);
            (
                SpecExpr::If { cond: Box::new(nc), thn: Box::new(nt), els: Box::new(ne) },
                st3,
            )
        },
        SpecExpr::Let { bindings, body } => {
            if bindings.len() == 1 {
                let (ne, st1) = spec_conv(bindings[0].1, st);
                let (nb, st2) = spec_conv(*body, st1);
                (
                    SpecExpr::Let { bindings: seq![(bindings[0].0, ne)], body: Box::new(nb) },
                    st2,
                )
            } else {
                (e, st)
            }
        },
        SpecExpr::LetFun { name, args, fun_body, expr_body } => {
            let (nfb, st1) = spec_conv(*fun_body, st);
            let (neb, st2) = spec_conv(*expr_body, st1);
            let bounded = st2.excl + seq![name] + args;
            let fvs = spec_free_vars(nfb, bounded);
            let closid = fname(st2.c);
            let nfb2 = subst(nfb, name, closid);
            if fvs.len() == 0 {
                (
                    subst(neb, name, closid),
                    SpecCc {
                        defs: st2.defs.push(
                            SpecExpr::Defun { name: closid, args, body: Box::new(nfb2) },
                        ),
                        excl: st2.excl.push(closid),
                        c: st2.c + 1,
                    },
                )
            } else {
                (
                    SpecExpr::LetClos {
                        name,
                        closid,
                        freevars: fvs,
                        body: Box::new(neb),
                    },
                    SpecCc {
                        defs: st2.defs.push(
                            SpecExpr::DefClos {
                                name: closid,
                                freevars: fvs,
                                args,
                                body: Box::new(nfb2),
                            },
                        ),
                        excl: st2.excl.push(closid),
                        c: st2.c + 1,
                    },
                )
            }
        },
        SpecExpr::Def { x, y } => {
            let (ny, st1) = spec_conv(*y, st);
            (SpecExpr::Def { x, y: Box::new(ny) }, st1)
        },
        SpecExpr::Defun { name, args, body } => {
            let (nb, st1) = spec_conv(*body, st);
            (SpecExpr::Defun { name, args, body: Box::new(nb) }, st1)
        },
        _ => (e, st),
    }
}

pub open spec fn spec_conv_seq(v: Seq<SpecExpr>, st: SpecCc) -> (Seq<SpecExpr>, SpecCc)
    decreases v,
{
    if v.len() == 0 {
        (Seq::empty(), st)
    } else {
        let (nv, st1) = spec_conv_seq(v.drop_last(), st);
        let (ne, st2) = spec_conv(v.last(), st1);
        (nv.push(ne), st2)
    }
}

/// Closure conversion of a program: convert each top-level expression in
/// order, then prepend all hoisted definitions.
pub open spec fn spec_closure_convert(p: Seq<SpecExpr>, c: nat) -> (Seq<SpecExpr>, nat) {
    let st0 = SpecCc { defs: Seq::empty(), excl: Seq::empty(), c: c };
    let (np, st) = spec_conv_prog(p, st0);
    (st.defs + np, st.c)
}

pub open spec fn spec_conv_prog(p: Seq<SpecExpr>, st: SpecCc) -> (Seq<SpecExpr>, SpecCc)
    decreases p,
{
    if p.len() == 0 {
        (Seq::empty(), st)
    } else {
        let (np, st1) = spec_conv_prog(p.drop_last(), st);
        let (ne, st2) = spec_conv(p.last(), st1);
        (np.push(ne), st2)
    }
}

/// Valid top-level input for closure conversion: the shape copy propagation
/// leaves behind.
pub open spec fn cc_top_ok(e: SpecExpr) -> bool {
    match e {
        SpecExpr::Def { x, y } => cp_expr_ok(*y),
        SpecExpr::Defun { name, args, body } => cp_expr_ok(*body),
        _ => cp_expr_ok(e),
    }
}

pub open spec fn cc_prog_ok(p: Seq<SpecExpr>) -> bool
    decreases p,
{
    if p.len() == 0 {
        true
    } else {
        cc_prog_ok(p.drop_last()) && cc_top_ok(p.last())
    }
}

/// A valid expression is also a valid top-level item.
pub broadcast proof fn lemma_cp_ok_top_ok(e: SpecExpr)
    ensures
        cp_expr_ok(e) ==> #[trigger] cc_top_ok(e),
{
}

/// Substitution stays within the shapes it accepts.
pub proof fn lemma_subst_ok(e: SpecExpr, from: Seq<char>, to: Seq<char>)
    requires
        idmap_ok(e),
    ensures
        idmap_ok(subst(e, from, to)),
    decreases e,
{
    match e {
        SpecExpr::Form(v) => {
            lemma_subst_ok_seq(v, from, to);
        },
        SpecExpr::Let { bindings, body } => {
            lemma_subst_ok_binds(bindings, from, to);
            lemma_subst_ok(*body, from, to);
        },
        SpecExpr::If { cond, thn, els } => {
            lemma_subst_ok(*cond, from, to);
            lemma_subst_ok(*thn, from, to);
            lemma_subst_ok(*els, from, to);
        },
        SpecExpr::LetFun { name, args, fun_body, expr_body } => {
            lemma_subst_ok(*fun_body, from, to);
            lemma_subst_ok(*expr_body, from, to);
        },
        SpecExpr::LetClos { name, closid, freevars, body } => {
            lemma_subst_ok(*body, from, to);
        },
        _ => {},
    }
}

proof fn lemma_subst_ok_seq(v: Seq<SpecExpr>, from: Seq<char>, to: Seq<char>)
    requires
        idmap_ok_seq(v),
    ensures
        idmap_ok_seq(subst_seq(v, from, to)),
    decreases v,
{
    broadcast use crate::ast::lemma_push_parts;

    if v.len() > 0 {
        lemma_subst_ok_seq(v.drop_last(), from, to);
        lemma_subst_ok(v.last(), from, to);
    }
}

proof fn lemma_subst_ok_binds(v: Seq<(Seq<char>, SpecExpr)>, from: Seq<char>, to: Seq<char>)
    requires
        idmap_ok_binds(v),
    ensures
        idmap_ok_binds(subst_binds(v, from, to)),
    decreases v,
{
    broadcast use crate::ast::lemma_push_parts;

    if v.len() > 0 {
        lemma_subst_ok_binds(v.drop_last(), from, to);
        lemma_subst_ok(v.last().1, from, to);
    }
}

/// Everything copy propagation emits, substitution accepts.
pub proof fn lemma_cp_ok_idmap_ok(e: SpecExpr)
    requires
        cp_expr_ok(e),
    ensures
        idmap_ok(e),
    decreases e,
{
    match e {
        SpecExpr::Form(v) => {
            lemma_cp_ok_idmap_ok_seq(v);
        },
        SpecExpr::Let { bindings, body } => {
            lemma_cp_ok_idmap_ok(bindings[0].1);
            lemma_cp_ok_idmap_ok(*body);
            assert(bindings.drop_last() =~= Seq::<(Seq<char>, SpecExpr)>::empty());
            assert(idmap_ok_binds(Seq::<(Seq<char>, SpecExpr)>::empty()));
            assert(bindings.last() == bindings[0]);
            assert(idmap_ok_binds(bindings));
        },
        SpecExpr::If { cond, thn, els } => {
            lemma_cp_ok_idmap_ok(*cond);
            lemma_cp_ok_idmap_ok(*thn);
            lemma_cp_ok_idmap_ok(*els);
        },
        SpecExpr::LetFun { name, args, fun_body, expr_body } => {
            lemma_cp_ok_idmap_ok(*fun_body);
            lemma_cp_ok_idmap_ok(*expr_body);
        },
        _ => {},
    }
}

proof fn lemma_cp_ok_idmap_ok_seq(v: Seq<SpecExpr>)
    requires
        crate::copyprop::cp_expr_ok_seq(v),
    ensures
        idmap_ok_seq(v),
    decreases v,
{
    if v.len() > 0 {
        lemma_cp_ok_idmap_ok_seq(v.drop_last());
        lemma_cp_ok_idmap_ok(v.last());
    }
}

/// Trees that substitution accepts have a meaningful free-variable set.
pub proof fn lemma_idmap_ok_fv_ok(e: SpecExpr)
    requires
        idmap_ok(e),
    ensures
        fv_ok(e),
    decreases e,
{
    match e {
        SpecExpr::Form(v) => {
            lemma_idmap_ok_fv_ok_seq(v);
        },
        SpecExpr::Let { bindings, body } => {
            lemma_idmap_ok_fv_ok_binds(bindings);
            lemma_idmap_ok_fv_ok(*body);
        },
        SpecExpr::If { cond, thn, els } => {
            lemma_idmap_ok_fv_ok(*cond);
            lemma_idmap_ok_fv_ok(*thn);
            lemma_idmap_ok_fv_ok(*els);
        },
        SpecExpr::LetFun { name, args, fun_body, expr_body } => {
            lemma_idmap_ok_fv_ok(*fun_body);
            lemma_idmap_ok_fv_ok(*expr_body);
        },
        SpecExpr::LetClos { name, closid, freevars, body } => {
            lemma_idmap_ok_fv_ok(*body);
        },
        _ => {},
    }
}

proof fn lemma_idmap_ok_fv_ok_seq(v: Seq<SpecExpr>)
    requires
        idmap_ok_seq(v),
    ensures
        crate::ast::fv_ok_seq(v),
    decreases v,
{
    if v.len() > 0 {
        lemma_idmap_ok_fv_ok_seq(v.drop_last());
        lemma_idmap_ok_fv_ok(v.last());
    }
}

proof fn lemma_idmap_ok_fv_ok_binds(v: Seq<(Seq<char>, SpecExpr)>)
    requires
        idmap_ok_binds(v),
    ensures
        crate::ast::fv_ok_binds(v),
    decreases v,
{
    if v.len() > 0 {
        lemma_idmap_ok_fv_ok_binds(v.drop_last());
        lemma_idmap_ok_fv_ok(v.last().1);
    }
}

/// Conversion stays within the shapes substitution accepts.
pub proof fn lemma_conv_idmap_ok(e: SpecExpr, st: SpecCc)
    requires
        cp_expr_ok(e),
    ensures
        idmap_ok(spec_conv(e, st).0),
    decreases e,
{
    reveal_with_fuel(idmap_ok, 3);
    match e {
        SpecExpr::Form(v) => {
            lemma_conv_idmap_ok_seq(v, st);
        },
        SpecExpr::If { cond, thn, els } => {
            lemma_conv_idmap_ok(*cond, st);
            let st1 = spec_conv(*cond, st).1;
            lemma_conv_idmap_ok(*thn, st1);
            let st2 = spec_conv(*thn, st1).1;
            lemma_conv_idmap_ok(*els, st2);
        },
        SpecExpr::Let { bindings, body } => {
            lemma_conv_idmap_ok(bindings[0].1, st);
            let st1 = spec_conv(bindings[0].1, st).1;
            lemma_conv_idmap_ok(*body, st1);
            let ne = spec_conv(bindings[0].1, st).0;
            assert(seq![(bindings[0].0, ne)][0] == (bindings[0].0, ne));
        },
        SpecExpr::LetFun { name, args, fun_body, expr_body } => {
            lemma_conv_idmap_ok(*fun_body, st);
            let (nfb, st1) = spec_conv(*fun_body, st);
            lemma_conv_idmap_ok(*expr_body, st1);
            let (neb, st2) = spec_conv(*expr_body, st1);
            let closid = fname(st2.c);
            lemma_subst_ok(nfb, name, closid);
            lemma_subst_ok(neb, name, closid);
        },
        _ => {},
    }
}

proof fn lemma_conv_idmap_ok_seq(v: Seq<SpecExpr>, st: SpecCc)
    requires
        crate::copyprop::cp_expr_ok_seq(v),
    ensures
        idmap_ok_seq(spec_conv_seq(v, st).0),
        spec_conv_seq(v, st).0.len() == v.len(),
    decreases v,
{
    broadcast use crate::ast::lemma_push_parts;

    if v.len() > 0 {
        lemma_conv_idmap_ok_seq(v.drop_last(), st);
        let st1 = spec_conv_seq(v.drop_last(), st).1;
        lemma_conv_idmap_ok(v.last(), st1);
    }
}

/// The converter draws at most one fresh name per node.
pub proof fn lemma_conv_count(e: SpecExpr, st: SpecCc)
    ensures
        st.c <= spec_conv(e, st).1.c <= st.c + crate::knormal::spec_size(e),
    decreases e,
{
    match e {
        SpecExpr::Form(v) => {
            lemma_conv_count_seq(v, st);
        },
        SpecExpr::If { cond, thn, els } => {
            lemma_conv_count(*cond, st);
            let st1 = spec_conv(*cond, st).1;
            lemma_conv_count(*thn, st1);
            let st2 = spec_conv(*thn, st1).1;
            lemma_conv_count(*els, st2);
        },
        SpecExpr::Let { bindings, body } => {
            if bindings.len() == 1 {
                lemma_conv_count(bindings[0].1, st);
                let st1 = spec_conv(bindings[0].1, st).1;
                lemma_conv_count(*body, st1);
                crate::knormal::lemma_size_pos(bindings[0].1);
                lemma_size_binds_first(bindings);
            }
        },
        SpecExpr::LetFun { name, args, fun_body, expr_body } => {
            lemma_conv_count(*fun_body, st);
            let st1 = spec_conv(*fun_body, st).1;
            lemma_conv_count(*expr_body, st1);
        },
        SpecExpr::Def { x, y } => {
            lemma_conv_count(*y, st);
        },
        SpecExpr::Defun { name, args, body } => {
            lemma_conv_count(*body, st);
        },
        _ => {},
    }
}

pub proof fn lemma_size_binds_first_pub(bindings: Seq<(Seq<char>, SpecExpr)>)
    requires
        bindings.len() == 1,
    ensures
        crate::knormal::spec_size_binds(bindings) == crate::knormal::spec_size(bindings[0].1),
{
    lemma_size_binds_first(bindings);
}

proof fn lemma_size_binds_first(bindings: Seq<(Seq<char>, SpecExpr)>)
    requires
        bindings.len() == 1,
    ensures
        crate::knormal::spec_size_binds(bindings) == crate::knormal::spec_size(bindings[0].1),
{
    assert(bindings.drop_last() =~= Seq::<(Seq<char>, SpecExpr)>::empty());
    assert(crate::knormal::spec_size_binds(Seq::<(Seq<char>, SpecExpr)>::empty()) == 0);
    assert(bindings.last() == bindings[0]);
}

proof fn lemma_conv_count_seq(v: Seq<SpecExpr>, st: SpecCc)
    ensures
        st.c <= spec_conv_seq(v, st).1.c <= st.c + crate::knormal::spec_size_seq(v),
    decreases v,
{
    if v.len() > 0 {
        lemma_conv_count_seq(v.drop_last(), st);
        let st1 = spec_conv_seq(v.drop_last(), st).1;
        lemma_conv_count(v.last(), st1);
    }
}

/// Replace every use of the identifier `from` by `to`.
#[verifier::loop_isolation(false)]
pub fn id_map(e: &Expr, from: &String, to: &String) -> (r: Expr)
    requires
        idmap_ok(e@),
    ensures
        r@ == subst(e@, from@, to@),
    decreases e,
{
    broadcast use crate::ast::lemma_view_exprs, crate::ast::lemma_view_binds, crate::ast::lemma_push_parts;

    match e {
        Expr::Nil => Expr::Nil,
        Expr::Bool(b) => Expr::Bool(*b),
        Expr::Int(i) => Expr::Int(*i),
        Expr::Float(s) => Expr::Float(s.clone()),
        Expr::Str(s) => Expr::Str(s.clone()),
        Expr::Id(id) => {
            if *id == *from {
                Expr::Id(to.clone())
            } else {
                Expr::Id(id.clone())
            }
        },
        Expr::Form(v) => {
            let ghost sv = view_exprs(v@);
            proof {
                lemma_idmap_ok_seq_index(sv);
                assert(sv.take(0) =~= Seq::<SpecExpr>::empty());
            }
            let mut r: Vec<Expr> = Vec::new();
            let mut i: usize = 0;
            while i < v.len()
                invariant
                    i <= v.len(),
                    r@.len() == i,
                    view_exprs(r@) == subst_seq(sv.take(i as int), from@, to@),
                decreases v.len() - i,
            {
                let d = id_map(&v[i], from, to);
                proof {
                    assert(sv.take(i as int).push(sv[i as int]) =~= sv.take(i + 1));
                }
                r.push(d);
                i = i + 1;
            }
            proof {
                assert(sv.take(i as int) =~= sv);
            }
            Expr::Form(r)
        },
        Expr::Let { bindings, body } => {
            let ghost bv = view_binds(bindings@);
            proof {
                lemma_idmap_ok_binds_index(bv);
                assert(bv.take(0) =~= Seq::<(Seq<char>, SpecExpr)>::empty());
            }
            let mut bs: Vec<(String, Expr)> = Vec::new();
            let mut i: usize = 0;
            while i < bindings.len()
                invariant
                    i <= bindings.len(),
                    bs@.len() == i,
                    view_binds(bs@) == subst_binds(bv.take(i as int), from@, to@),
                decreases bindings.len() - i,
            {
                proof {
                    assert(bv[i as int] == (bindings@[i as int].0@, view_expr(
                        bindings@[i as int].1,
                    )));
                }
                let nm = bindings[i].0.clone();
                let d = id_map(&bindings[i].1, from, to);
                let pair = (nm, d);
                proof {
                    assert(bv.take(i as int).push(bv[i as int]) =~= bv.take(i + 1));
                }
                bs.push(pair);
                i = i + 1;
            }
            proof {
                assert(bv.take(i as int) =~= bv);
            }
            Expr::Let { bindings: bs, body: Box::new(id_map(body, from, to)) }
        },
        Expr::If { cond, thn, els } => Expr::If {
            cond: Box::new(id_map(cond, from, to)),
            thn: Box::new(id_map(thn, from, to)),
            els: Box::new(id_map(els, from, to)),
        },
        Expr::LetFun { name, args, fun_body, expr_body } => Expr::LetFun {
            name: name.clone(),
            args: clone_ids(args),
            fun_body: Box::new(id_map(fun_body, from, to)),
            expr_body: Box::new(id_map(expr_body, from, to)),
        },
        Expr::LetClos { name, closid, freevars, body } => Expr::LetClos {
            name: name.clone(),
            closid: closid.clone(),
            freevars: clone_ids(freevars),
            body: Box::new(id_map(body, from, to)),
        },
        Expr::And(_) => vstd::pervasive::unreached(),
        Expr::Or(_) => vstd::pervasive::unreached(),
        Expr::Not(_) => vstd::pervasive::unreached(),
        Expr::Fn { .. } => vstd::pervasive::unreached(),
        Expr::Def { .. } => vstd::pervasive::unreached(),
        Expr::Defun { .. } => vstd::pervasive::unreached(),
        Expr::DefClos { .. } => vstd::pervasive::unreached(),
    }
}

proof fn lemma_idmap_ok_seq_index(v: Seq<SpecExpr>)
    requires
        idmap_ok_seq(v),
    ensures
        forall|j: int| 0 <= j < v.len() ==> idmap_ok(#[trigger] v[j]),
    decreases v,
{
    if v.len() > 0 {
        lemma_idmap_ok_seq_index(v.drop_last());
        assert forall|j: int| 0 <= j < v.len() implies idmap_ok(#[trigger] v[j]) by {
            if j < v.len() - 1 {
                assert(v[j] == v.drop_last()[j]);
            }
        }
    }
}

proof fn lemma_idmap_ok_binds_index(v: Seq<(Seq<char>, SpecExpr)>)
    requires
        idmap_ok_binds(v),
    ensures
        forall|j: int| 0 <= j < v.len() ==> idmap_ok((#[trigger] v[j]).1),
    decreases v,
{
    if v.len() > 0 {
        lemma_idmap_ok_binds_index(v.drop_last());
        assert forall|j: int| 0 <= j < v.len() implies idmap_ok((#[trigger] v[j]).1) by {
            if j < v.len() - 1 {
                assert(v[j] == v.drop_last()[j]);
            }
        }
    }
}

proof fn lemma_cp_ok_seq_index(v: Seq<SpecExpr>)
    requires
        crate::copyprop::cp_expr_ok_seq(v),
    ensures
        forall|j: int| 0 <= j < v.len() ==> cp_expr_ok(#[trigger] v[j]),
    decreases v,
{
    if v.len() > 0 {
        lemma_cp_ok_seq_index(v.drop_last());
        assert forall|j: int| 0 <= j < v.len() implies cp_expr_ok(#[trigger] v[j]) by {
            if j < v.len() - 1 {
                assert(v[j] == v.drop_last()[j]);
            }
        }
    }
}

/// The converter's mutable state while it walks a program.
struct ClosureConverter {
    global_defs: Vec<Expr>,
    freevars_exclude: Vec<String>,
}

impl ClosureConverter {
    fn new() -> (r: ClosureConverter)
        ensures
            r.global_defs@.len() == 0,
            r.freevars_exclude@.len() == 0,
    {
        ClosureConverter { global_defs: Vec::new(), freevars_exclude: Vec::new() }
    }

    #[verifier::loop_isolation(false)]
    #[verifier::rlimit(100)]
    fn convert_helper(&mut self, e: &Expr, namer: &mut NameGenerator) -> (r: Expr)
        requires
            cc_top_ok(e@),
            old(namer).counter + crate::knormal::spec_size(e@) <= usize::MAX,
        ensures
            r@ == spec_conv(
                e@,
                SpecCc {
                    defs: view_exprs(old(self).global_defs@),
                    excl: view_ids(old(self).freevars_exclude@),
                    c: old(namer).counter as nat,
                },
            ).0,
            (SpecCc {
                defs: view_exprs(final(self).global_defs@),
                excl: view_ids(final(self).freevars_exclude@),
                c: final(namer).counter as nat,
            }) == spec_conv(
                e@,
                SpecCc {
                    defs: view_exprs(old(self).global_defs@),
                    excl: view_ids(old(self).freevars_exclude@),
                    c: old(namer).counter as nat,
                },
            ).1,
        decreases e,
    {
        broadcast use crate::ast::lemma_view_exprs, crate::ast::lemma_view_binds, crate::ast::lemma_push_parts, lemma_cp_ok_top_ok;

        let ghost st0 = SpecCc {
            defs: view_exprs(self.global_defs@),
            excl: view_ids(self.freevars_exclude@),
            c: namer.counter as nat,
        };
        match e {
            Expr::Nil => Expr::Nil,
            Expr::Bool(b) => Expr::Bool(*b),
            Expr::Int(i) => Expr::Int(*i),
            Expr::Float(s) => Expr::Float(s.clone()),
            Expr::Str(s) => Expr::Str(s.clone()),
            Expr::Id(s) => Expr::Id(s.clone()),
            Expr::Form(v) => {
                let ghost sv = view_exprs(v@);
                proof {
                    lemma_cp_ok_seq_index(sv);
                    assert(sv.take(0) =~= Seq::<SpecExpr>::empty());
                }
                let mut r: Vec<Expr> = Vec::new();
                let mut i: usize = 0;
                while i < v.len()
                    invariant
                        i <= v.len(),
                        r@.len() == i,
                        view_exprs(r@) == spec_conv_seq(sv.take(i as int), st0).0,
                        (SpecCc {
                            defs: view_exprs(self.global_defs@),
                            excl: view_ids(self.freevars_exclude@),
                            c: namer.counter as nat,
                        }) == spec_conv_seq(sv.take(i as int), st0).1,
                    decreases v.len() - i,
                {
                    proof {
                        lemma_conv_count_seq(sv.take(i as int), st0);
                        crate::knormal::lemma_size_seq_split(sv, i as int);
                    }
                    let d = self.convert_helper(&v[i], namer);
                    proof {
                        assert(sv.take(i as int).push(sv[i as int]) =~= sv.take(i + 1));
                    }
                    r.push(d);
                    i = i + 1;
                }
                proof {
                    assert(sv.take(i as int) =~= sv);
                }
                Expr::Form(r)
            },
            Expr::If { cond, thn, els } => {
                proof {
                    lemma_conv_count(cond@, st0);
                }
                let nc = self.convert_helper(cond, namer);
                let ghost st1 = spec_conv(cond@, st0).1;
                proof {
                    lemma_conv_count(thn@, st1);
                }
                let nt = self.convert_helper(thn, namer);
                let ghost st2 = spec_conv(thn@, st1).1;
                proof {
                    lemma_conv_count(els@, st2);
                }
                let ne = self.convert_helper(els, namer);
                Expr::If { cond: Box::new(nc), thn: Box::new(nt), els: Box::new(ne) }
            },
            Expr::Let { bindings, body } => {
                proof {
                    assert(view_binds(bindings@).len() == 1);
                    assert(view_binds(bindings@)[0] == (bindings@[0].0@, view_expr(
                        bindings@[0].1,
                    )));
                    lemma_size_binds_first(view_binds(bindings@));
                    lemma_conv_count(bindings@[0].1@, st0);
                }
                let x = bindings[0].0.clone();
                let ne = self.convert_helper(&bindings[0].1, namer);
                let ghost st1 = spec_conv(view_binds(bindings@)[0].1, st0).1;
                proof {
                    lemma_conv_count(body@, st1);
                }
                let nb = self.convert_helper(body, namer);
                let ghost nev = ne@;
                let ghost nbv = nb@;
                let nbs = vec![(x, ne)];
                proof {
                    assert(nbs@.drop_last() =~= Seq::<(String, Expr)>::empty());
                    assert(view_binds(Seq::<(String, Expr)>::empty()) =~= Seq::<(
                        Seq<char>,
                        SpecExpr,
                    )>::empty());
                    assert(view_binds(nbs@) =~= seq![(bindings@[0].0@, nev)]);
                }
                let r = Expr::Let { bindings: nbs, body: Box::new(nb) };
                proof {
                    assert(r@ == (SpecExpr::Let {
                        bindings: seq![(bindings@[0].0@, nev)],
                        body: Box::new(nbv),
                    }));
                }
                r
            },
            Expr::LetFun { name, args, fun_body, expr_body } => {
                proof {
                    lemma_conv_count(fun_body@, st0);
                }
                let nfb = self.convert_helper(fun_body, namer);
                let ghost st1 = spec_conv(fun_body@, st0).1;
                proof {
                    lemma_conv_count(expr_body@, st1);
                }
                let neb = self.convert_helper(expr_body, namer);
                let ghost st2 = spec_conv(expr_body@, st1).1;
                let mut bounded = clone_ids(&self.freevars_exclude);
                bounded.push(name.clone());
                let mut args_c = clone_ids(args);
                bounded.append(&mut args_c);
                proof {
                    assert(view_ids(bounded@) =~= st2.excl + seq![name@] + view_ids(args@));
                    lemma_conv_idmap_ok(fun_body@, st0);
                    lemma_conv_idmap_ok(expr_body@, st1);
                    lemma_idmap_ok_fv_ok(nfb@);
                }
                let fvs = nfb.free_vars(&bounded);
                let closid = namer.next("@f");
                self.freevars_exclude.push(closid.clone());
                proof {
                    assert(view_ids(self.freevars_exclude@) =~= st2.excl.push(closid@));
                }
                let nfb2 = id_map(&nfb, name, &closid);
                let ghost nfb2v = nfb2@;
                let ghost nebv = neb@;
                let ghost fvsv = view_ids(fvs@);
                if fvs.len() == 0 {
                    proof {
                        assert(fvsv.len() == 0);
                    }
                    let d = Expr::Defun {
                        name: closid.clone(),
                        args: clone_ids(args),
                        body: Box::new(nfb2),
                    };
                    proof {
                        assert(d@ == (SpecExpr::Defun {
                            name: closid@,
                            args: view_ids(args@),
                            body: Box::new(nfb2v),
                        }));
                    }
                    self.global_defs.push(d);
                    id_map(&neb, name, &closid)
                } else {
                    let d = Expr::DefClos {
                        name: closid.clone(),
                        freevars: clone_ids(&fvs),
                        args: clone_ids(args),
                        body: Box::new(nfb2),
                    };
                    proof {
                        assert(d@ == (SpecExpr::DefClos {
                            name: closid@,
                            freevars: fvsv,
                            args: view_ids(args@),
                            body: Box::new(nfb2v),
                        }));
                    }
                    self.global_defs.push(d);
                    let r = Expr::LetClos {
                        name: name.clone(),
                        closid,
                        freevars: fvs,
                        body: Box::new(neb),
                    };
                    proof {
                        assert(r@ == (SpecExpr::LetClos {
                            name: name@,
                            closid: fname(st2.c),
                            freevars: fvsv,
                            body: Box::new(nebv),
                        }));
                    }
                    r
                }
            },
            Expr::Def { x, y } => {
                proof {
                    lemma_conv_count(y@, st0);
                }
                Expr::Def { x: x.clone(), y: Box::new(self.convert_helper(y, namer)) }
            },
            Expr::Defun { name, args, body } => {
                proof {
                    lemma_conv_count(body@, st0);
                }
                Expr::Defun {
                    name: name.clone(),
                    args: clone_ids(args),
                    body: Box::new(self.convert_helper(body, namer)),
                }
            },
            Expr::And(_) => vstd::pervasive::unreached(),
            Expr::Or(_) => vstd::pervasive::unreached(),
            Expr::Not(_) => vstd::pervasive::unreached(),
            Expr::Fn { .. } => vstd::pervasive::unreached(),
            Expr::DefClos { .. } => vstd::pervasive::unreached(),
            Expr::LetClos { .. } => vstd::pervasive::unreached(),
        }
    }
}

proof fn lemma_cc_prog_ok_index(p: Seq<SpecExpr>)
    requires
        cc_prog_ok(p),
    ensures
        forall|j: int| 0 <= j < p.len() ==> cc_top_ok(#[trigger] p[j]),
    decreases p,
{
    if p.len() > 0 {
        lemma_cc_prog_ok_index(p.drop_last());
        assert forall|j: int| 0 <= j < p.len() implies cc_top_ok(#[trigger] p[j]) by {
            if j < p.len() - 1 {
                assert(p[j] == p.drop_last()[j]);
            }
        }
    }
}

proof fn lemma_conv_prog_count(p: Seq<SpecExpr>, st: SpecCc)
    ensures
        st.c <= spec_conv_prog(p, st).1.c <= st.c + crate::knormal::spec_size_seq(p),
    decreases p,
{
    if p.len() > 0 {
        lemma_conv_prog_count(p.drop_last(), st);
        lemma_conv_count(p.last(), spec_conv_prog(p.drop_last(), st).1);
    }
}

proof fn lemma_view_exprs_concat(a: Seq<Expr>, b: Seq<Expr>)
    ensures
        view_exprs(a + b) == view_exprs(a) + view_exprs(b),
    decreases b,
{
    broadcast use crate::ast::lemma_view_exprs, crate::ast::lemma_push_parts;

    if b.len() == 0 {
        assert(a + b =~= a);
        assert(view_exprs(a) + view_exprs(b) =~= view_exprs(a));
    } else {
        lemma_view_exprs_concat(a, b.drop_last());
        assert((a + b).drop_last() =~= a + b.drop_last());
        assert((a + b).last() == b.last());
        assert(view_exprs(a + b) == view_exprs(a + b.drop_last()).push(view_expr(b.last())));
        assert(view_exprs(a) + view_exprs(b) =~= (view_exprs(a) + view_exprs(b.drop_last())).push(
            view_expr(b.last()),
        ));
    }
}

/// Closure-convert a whole program: every named local function is hoisted to
/// the top level, and the hoisted definitions are prepended to the converted
/// top-level expressions.
#[verifier::loop_isolation(false)]
pub fn closure_convert(prog: Vec<Expr>, namer: &mut NameGenerator) -> (r: Vec<Expr>)
    requires
        cc_prog_ok(view_exprs(prog@)),
        old(namer).counter + crate::knormal::spec_size_seq(view_exprs(prog@)) <= usize::MAX,
    ensures
        view_exprs(r@) == spec_closure_convert(
            view_exprs(prog@),
            old(namer).counter as nat,
        ).0,
        final(namer).counter as nat == spec_closure_convert(
            view_exprs(prog@),
            old(namer).counter as nat,
        ).1,
{
    broadcast use crate::ast::lemma_view_exprs, crate::ast::lemma_push_parts;

    let ghost pv = view_exprs(prog@);
    let ghost st0 = SpecCc { defs: Seq::empty(), excl: Seq::empty(), c: namer.counter as nat };
    proof {
        lemma_cc_prog_ok_index(pv);
        assert(pv.take(0) =~= Seq::<SpecExpr>::empty());
    }
    let mut converter = ClosureConverter::new();
    proof {
        assert(view_exprs(converter.global_defs@) =~= Seq::<SpecExpr>::empty());
        assert(view_ids(converter.freevars_exclude@) =~= Seq::<Seq<char>>::empty());
    }
    let mut new_prog: Vec<Expr> = Vec::new();
    let mut i: usize = 0;
    while i < prog.len()
        invariant
            i <= prog.len(),
            new_prog@.len() == i,
            view_exprs(new_prog@) == spec_conv_prog(pv.take(i as int), st0).0,
            (SpecCc {
                defs: view_exprs(converter.global_defs@),
                excl: view_ids(converter.freevars_exclude@),
                c: namer.counter as nat,
            }) == spec_conv_prog(pv.take(i as int), st0).1,
        decreases prog.len() - i,
    {
        proof {
            lemma_conv_prog_count(pv.take(i as int), st0);
            crate::knormal::lemma_size_seq_split(pv, i as int);
        }
        let d = converter.convert_helper(&prog[i], namer);
        proof {
            assert(pv.take(i as int).push(pv[i as int]) =~= pv.take(i + 1));
        }
        new_prog.push(d);
        i = i + 1;
    }
    proof {
        assert(pv.take(i as int) =~= pv);
    }
    let mut result = converter.global_defs;
    let ghost defsv = result@;
    let ghost npv = new_prog@;
    result.append(&mut new_prog);
    proof {
        lemma_view_exprs_concat(defsv, npv);
    }
    result
}

/// Copy propagation of a whole program leaves valid closure-conversion
/// input and an all-atom environment.
pub proof fn lemma_cp_prog_cc_ok(p: Seq<SpecExpr>, env: Seq<(Seq<char>, SpecExpr)>)
    requires
        crate::copyprop::cp_prog_ok(p),
        crate::copyprop::env_atoms(env),
    ensures
        cc_prog_ok(crate::copyprop::spec_cp_prog(p, env).0),
        crate::copyprop::env_atoms(crate::copyprop::spec_cp_prog(p, env).1),
    decreases p,
{
    broadcast use crate::ast::lemma_push_parts;

    if p.len() == 0 {
        assert(cc_prog_ok(Seq::<SpecExpr>::empty()));
    } else {
        lemma_cp_prog_cc_ok(p.drop_last(), env);
        let (out, env1) = crate::copyprop::spec_cp_prog(p.drop_last(), env);
        lemma_cp_top_cc_ok(p.last(), out, env1);
    }
}

proof fn lemma_cp_top_cc_ok(e: SpecExpr, out: Seq<SpecExpr>, env: Seq<(Seq<char>, SpecExpr)>)
    requires
        crate::copyprop::cp_top_ok(e),
        crate::copyprop::env_atoms(env),
        cc_prog_ok(out),
    ensures
        cc_prog_ok(crate::copyprop::spec_cp_top(e, out, env).0),
        crate::copyprop::env_atoms(crate::copyprop::spec_cp_top(e, out, env).1),
{
    broadcast use crate::ast::lemma_push_parts;

    match e {
        SpecExpr::Def { x, y } => {
            crate::copyprop::lemma_cp_preserves(*y, env);
            let ny = crate::copyprop::spec_cp(*y, env);
            if crate::ast::spec_is_atom(ny) {
                if ny == SpecExpr::Id(x) {
                } else {
                    let env2 = env.push((x, ny));
                    assert(crate::copyprop::env_atoms(env2)) by {
                        assert(forall|i: int|
                            0 <= i < env.len() ==> env2[i] == #[trigger] env[i]);
                        assert(env2[env.len() as int].1 == ny);
                    }
                }
            } else {
                let d = SpecExpr::Def { x, y: Box::new(ny) };
                assert(cc_top_ok(d));
                assert(cc_prog_ok(out.push(d)));
            }
        },
        SpecExpr::Defun { name, args, body } => {
            crate::copyprop::lemma_cp_preserves(*body, env);
            let d = SpecExpr::Defun {
                name,
                args,
                body: Box::new(crate::copyprop::spec_cp(*body, env)),
            };
            assert(cc_top_ok(d));
            assert(cc_prog_ok(out.push(d)));
        },
        _ => {
            crate::copyprop::lemma_cp_preserves(e, env);
            let d = crate::copyprop::spec_cp(e, env);
            assert(cc_top_ok(d));
            assert(cc_prog_ok(out.push(d)));
        },
    }
}
} // verus!
