//! K-normalization: flatten nested applications and conditionals into chains
//! of single-binding lets, desugar the boolean connectives into `If`/`Bool`,
//! lift anonymous function literals into named local functions, and desugar
//! named top-level functions into plain definitions.

use vstd::prelude::*;
use crate::ast::{Expr, SpecExpr, spec_is_atom, view_expr, view_exprs, view_binds, view_ids};
use crate::util::{NameGenerator, spec_name};

verus! {

broadcast use crate::ast::lemma_view_exprs, crate::ast::lemma_view_binds, crate::ast::lemma_push_parts;

/// Number of nodes in a tree; the fresh-name supply advances by at most
/// twice this many steps during normalization.
pub open spec fn spec_size(e: SpecExpr) -> nat
    decreases e,
{
    match e {
        SpecExpr::Form(v) => 1 + spec_size_seq(v),
        SpecExpr::And(v) => 1 + spec_size_seq(v),
        SpecExpr::Or(v) => 1 + spec_size_seq(v),
        SpecExpr::Not(b) => 1 + spec_size(*b),
        SpecExpr::Let { bindings, body } => 1 + spec_size_binds(bindings) + spec_size(*body),
        SpecExpr::If { cond, thn, els } => 1 + spec_size(*cond) + spec_size(*thn) + spec_size(
            *els,
        ),
        SpecExpr::Fn { args, body } => 1 + spec_size(*body),
        SpecExpr::Def { x, y } => 1 + spec_size(*y),
        SpecExpr::Defun { name, args, body } => 1 + spec_size(*body),
        SpecExpr::LetFun { name, args, fun_body, expr_body } => 1 + spec_size(*fun_body)
            + spec_size(*expr_body),
        SpecExpr::DefClos { name, freevars, args, body } => 1 + spec_size(*body),
        SpecExpr::LetClos { name, closid, freevars, body } => 1 + spec_size(*body),
        _ => 1,
    }
}

pub open spec fn spec_size_seq(v: Seq<SpecExpr>) -> nat
    decreases v,
{
    if v.len() == 0 {
        0
    } else {
        spec_size_seq(v.drop_last()) + spec_size(v.last())
    }
}

pub open spec fn spec_size_binds(v: Seq<(Seq<char>, SpecExpr)>) -> nat
    decreases v,
{
    if v.len() == 0 {
        0
    } else {
        spec_size_binds(v.drop_last()) + spec_size(v.last().1)
    }
}

/// Valid input for K-normalization: closure nodes are pipeline output, never
/// input, and an application must name an operator.
pub open spec fn knorm_input_ok(e: SpecExpr) -> bool
    decreases e,
{
    match e {
        SpecExpr::Form(v) => v.len() > 0 && knorm_input_ok_seq(v),
        SpecExpr::And(v) => knorm_input_ok_seq(v),
        SpecExpr::Or(v) => knorm_input_ok_seq(v),
        SpecExpr::Not(b) => knorm_input_ok(*b),
        SpecExpr::Let { bindings, body } => knorm_input_ok_binds(bindings) && knorm_input_ok(
            *body,
        ),
        SpecExpr::If { cond, thn, els } => knorm_input_ok(*cond) && knorm_input_ok(*thn)
            && knorm_input_ok(*els),
        SpecExpr::Fn { args, body } => knorm_input_ok(*body),
        SpecExpr::Def { x, y } => knorm_input_ok(*y),
        SpecExpr::Defun { name, args, body } => knorm_input_ok(*body),
        SpecExpr::LetFun { name, args, fun_body, expr_body } => knorm_input_ok(*fun_body)
            && knorm_input_ok(*expr_body),
        SpecExpr::DefClos { .. } => false,
        SpecExpr::LetClos { .. } => false,
        _ => true,
    }
}

pub open spec fn knorm_input_ok_seq(v: Seq<SpecExpr>) -> bool
    decreases v,
{
    if v.len() == 0 {
        true
    } else {
        knorm_input_ok_seq(v.drop_last()) && knorm_input_ok(v.last())
    }
}

pub open spec fn knorm_input_ok_binds(v: Seq<(Seq<char>, SpecExpr)>) -> bool
    decreases v,
{
    if v.len() == 0 {
        true
    } else {
        knorm_input_ok_binds(v.drop_last()) && knorm_input_ok(v.last().1)
    }
}

/// `(and a b c)` short-circuits to false: `(if a (if b c false) false)`;
/// an empty `and` is true.
pub open spec fn build_and(v: Seq<SpecExpr>) -> SpecExpr
    decreases v,
{
    if v.len() == 0 {
        SpecExpr::Bool(true)
    } else if v.len() == 1 {
        v[0]
    } else {
        SpecExpr::If {
            cond: Box::new(v[0]),
            thn: Box::new(build_and(v.drop_first())),
            els: Box::new(SpecExpr::Bool(false)),
        }
    }
}

/// `(or a b c)` short-circuits to true: `(if a true (if b true c))`;
/// an empty `or` is false.
pub open spec fn build_or(v: Seq<SpecExpr>) -> SpecExpr
    decreases v,
{
    if v.len() == 0 {
        SpecExpr::Bool(false)
    } else if v.len() == 1 {
        v[0]
    } else {
        SpecExpr::If {
            cond: Box::new(v[0]),
            thn: Box::new(SpecExpr::Bool(true)),
            els: Box::new(build_or(v.drop_first())),
        }
    }
}

/// Eliminate `And`/`Or`/`Not` everywhere, rewriting them to `If`/`Bool`;
/// `(not a)` becomes `(if a false true)`.
pub open spec fn spec_desugar(e: SpecExpr) -> SpecExpr
    decreases e,
{
    match e {
        SpecExpr::Form(v) => SpecExpr::Form(spec_desugar_seq(v)),
        SpecExpr::And(v) => build_and(spec_desugar_seq(v)),
        SpecExpr::Or(v) => build_or(spec_desugar_seq(v)),
        SpecExpr::Not(b) => SpecExpr::If {
            cond: Box::new(spec_desugar(*b)),
            thn: Box::new(SpecExpr::Bool(false)),
            els: Box::new(SpecExpr::Bool(true)),
        },
        SpecExpr::Let { bindings, body } => SpecExpr::Let {
            bindings: spec_desugar_binds(bindings),
            body: Box::new(spec_desugar(*body)),
        },
        SpecExpr::If { cond, thn, els } => SpecExpr::If {
            cond: Box::new(spec_desugar(*cond)),
            thn: Box::new(spec_desugar(*thn)),
            els: Box::new(spec_desugar(*els)),
        },
        SpecExpr::Fn { args, body } => SpecExpr::Fn {
            args,
            body: Box::new(spec_desugar(*body)),
        },
        SpecExpr::Def { x, y } => SpecExpr::Def { x, y: Box::new(spec_desugar(*y)) },
        SpecExpr::Defun { name, args, body } => SpecExpr::Defun {
            name,
            args,
            body: Box::new(spec_desugar(*body)),
        },
        SpecExpr::LetFun { name, args, fun_body, expr_body } => SpecExpr::LetFun {
            name,
            args,
            fun_body: Box::new(spec_desugar(*fun_body)),
            expr_body: Box::new(spec_desugar(*expr_body)),
        },
        SpecExpr::DefClos { name, freevars, args, body } => SpecExpr::DefClos {
            name,
            freevars,
            args,
            body: Box::new(spec_desugar(*body)),
        },
        SpecExpr::LetClos { name, closid, freevars, body } => SpecExpr::LetClos {
            name,
            closid,
            freevars,
            body: Box::new(spec_desugar(*body)),
        },
        _ => e,
    }
}

pub open spec fn spec_desugar_seq(v: Seq<SpecExpr>) -> Seq<SpecExpr>
    decreases v,
{
    if v.len() == 0 {
        Seq::empty()
    } else {
        spec_desugar_seq(v.drop_last()).push(spec_desugar(v.last()))
    }
}

pub open spec fn spec_desugar_binds(v: Seq<(Seq<char>, SpecExpr)>) -> Seq<(Seq<char>, SpecExpr)>
    decreases v,
{
    if v.len() == 0 {
        Seq::empty()
    } else {
        spec_desugar_binds(v.drop_last()).push((v.last().0, spec_desugar(v.last().1)))
    }
}

/// The name of the normalizer's `n`-th synthetic temporary.
pub open spec fn tname(n: nat) -> Seq<char> {
    spec_name("t"@, n)
}

/// Wrap `body` in one single-binding `Let` per binding, outermost first.
pub open spec fn wrap_lets(bs: Seq<(Seq<char>, SpecExpr)>, body: SpecExpr) -> SpecExpr
    decreases bs,
{
    if bs.len() == 0 {
        body
    } else {
        SpecExpr::Let { bindings: seq![bs[0]], body: Box::new(wrap_lets(bs.drop_first(), body)) }
    }
}

/// Bind an `If` condition to a fresh temporary when it is not atomic.
pub open spec fn mk_if(kc: SpecExpr, kt: SpecExpr, ke: SpecExpr, c: nat) -> (SpecExpr, nat) {
    if spec_is_atom(kc) {
        (SpecExpr::If { cond: Box::new(kc), thn: Box::new(kt), els: Box::new(ke) }, c)
    } else {
        (
            SpecExpr::Let {
                bindings: seq![(tname(c), kc)],
                body: Box::new(
                    SpecExpr::If {
                        cond: Box::new(SpecExpr::Id(tname(c))),
                        thn: Box::new(kt),
                        els: Box::new(ke),
                    },
                ),
            },
            c + 1,
        )
    }
}

/// Replace each non-atomic element of a normalized application by a fresh
/// temporary, collecting the bindings in evaluation order.
pub open spec fn temp_bind(kv: Seq<SpecExpr>, c: nat) -> (Seq<(Seq<char>, SpecExpr)>, Seq<
    SpecExpr,
>, nat)
    decreases kv,
{
    if kv.len() == 0 {
        (Seq::empty(), Seq::empty(), c)
    } else {
        let (bs, ks, c1) = temp_bind(kv.drop_last(), c);
        let last = kv.last();
        if spec_is_atom(last) {
            (bs, ks.push(last), c1)
        } else {
            (bs.push((tname(c1), last)), ks.push(SpecExpr::Id(tname(c1))), c1 + 1)
        }
    }
}

/// The K-normal transformation of a desugared tree, threading the counter of
/// the fresh-name supply.
pub open spec fn spec_knorm(e: SpecExpr, c: nat) -> (SpecExpr, nat)
    decreases e,
{
    match e {
        SpecExpr::Form(v) => {
            let (kv, c1) = spec_knorm_seq(v, c);
            let (bs, ks, c2) = temp_bind(kv, c1);
            (wrap_lets(bs, SpecExpr::Form(ks)), c2)
        },
        SpecExpr::Let { bindings, body } => {
            let (kbs, c1) = spec_knorm_binds(bindings, c);
            let (kb, c2) = spec_knorm(*body, c1);
            (wrap_lets(kbs, kb), c2)
        },
        SpecExpr::If { cond, thn, els } => {
            let (kc, c1) = spec_knorm(*cond, c);
            let (kt, c2) = spec_knorm(*thn, c1);
            let (ke, c3) = spec_knorm(*els, c2);
            mk_if(kc, kt, ke, c3)
        },
        SpecExpr::Fn { args, body } => {
            let (kb, c1) = spec_knorm(*body, c);
            (
                SpecExpr::LetFun {
                    name: tname(c1),
                    args,
                    fun_body: Box::new(kb),
                    expr_body: Box::new(SpecExpr::Id(tname(c1))),
                },
                c1 + 1,
            )
        },
        SpecExpr::Def { x, y } => {
            let (ky, c1) = spec_knorm(*y, c);
            (SpecExpr::Def { x, y: Box::new(ky) }, c1)
        },
        SpecExpr::Defun { name, args, body } => {
            let (kb, c1) = spec_knorm(*body, c);
            (
                SpecExpr::Def {
                    x: name,
                    y: Box::new(
                        SpecExpr::LetFun {
                            name: tname(c1),
                            args,
                            fun_body: Box::new(kb),
                            expr_body: Box::new(SpecExpr::Id(tname(c1))),
                        },
                    ),
                },
                c1 + 1,
            )
        },
        SpecExpr::LetFun { name, args, fun_body, expr_body } => {
            let (kf, c1) = spec_knorm(*fun_body, c);
            let (ke, c2) = spec_knorm(*expr_body, c1);
            (
                SpecExpr::LetFun {
                    name,
                    args,
                    fun_body: Box::new(kf),
                    expr_body: Box::new(ke),
                },
                c2,
            )
        },
        _ => (e, c),
    }
}

pub open spec fn spec_knorm_seq(v: Seq<SpecExpr>, c: nat) -> (Seq<SpecExpr>, nat)
    decreases v,
{
    if v.len() == 0 {
        (Seq::empty(), c)
    } else {
        let (kp, c1) = spec_knorm_seq(v.drop_last(), c);
        let (kl, c2) = spec_knorm(v.last(), c1);
        (kp.push(kl), c2)
    }
}

pub open spec fn spec_knorm_binds(v: Seq<(Seq<char>, SpecExpr)>, c: nat) -> (Seq<(
    Seq<char>,
    SpecExpr,
)>, nat)
    decreases v,
{
    if v.len() == 0 {
        (Seq::empty(), c)
    } else {
        let (kp, c1) = spec_knorm_binds(v.drop_last(), c);
        let (kl, c2) = spec_knorm(v.last().1, c1);
        (kp.push((v.last().0, kl)), c2)
    }
}

/// K-normalization of a whole expression: desugar the boolean connectives,
/// then flatten.
pub open spec fn spec_knormalize(e: SpecExpr, c: nat) -> (SpecExpr, nat) {
    spec_knorm(spec_desugar(e), c)
}

/// No `And`, `Or` or `Not` node anywhere in the tree.
pub open spec fn bool_free(e: SpecExpr) -> bool
    decreases e,
{
    match e {
        SpecExpr::Form(v) => bool_free_seq(v),
        SpecExpr::And(v) => false,
        SpecExpr::Or(v) => false,
        SpecExpr::Not(b) => false,
        SpecExpr::Let { bindings, body } => bool_free_binds(bindings) && bool_free(*body),
        SpecExpr::If { cond, thn, els } => bool_free(*cond) && bool_free(*thn) && bool_free(*els),
        SpecExpr::Fn { args, body } => bool_free(*body),
        SpecExpr::Def { x, y } => bool_free(*y),
        SpecExpr::Defun { name, args, body } => bool_free(*body),
        SpecExpr::LetFun { name, args, fun_body, expr_body } => bool_free(*fun_body) && bool_free(
            *expr_body,
        ),
        SpecExpr::DefClos { name, freevars, args, body } => bool_free(*body),
        SpecExpr::LetClos { name, closid, freevars, body } => bool_free(*body),
        _ => true,
    }
}

pub open spec fn bool_free_seq(v: Seq<SpecExpr>) -> bool
    decreases v,
{
    if v.len() == 0 {
        true
    } else {
        bool_free_seq(v.drop_last()) && bool_free(v.last())
    }
}

pub open spec fn bool_free_binds(v: Seq<(Seq<char>, SpecExpr)>) -> bool
    decreases v,
{
    if v.len() == 0 {
        true
    } else {
        bool_free_binds(v.drop_last()) && bool_free(v.last().1)
    }
}

/// Desugaring leaves a tree without boolean connectives and keeps it valid
/// normalizer input.
pub proof fn lemma_desugar_ok(e: SpecExpr)
    requires
        knorm_input_ok(e),
    ensures
        knorm_input_ok(spec_desugar(e)),
        bool_free(spec_desugar(e)),
    decreases e,
{
    match e {
        SpecExpr::Form(v) => {
            lemma_desugar_ok_seq(v);
            lemma_desugar_seq_len(v);
        },
        SpecExpr::And(v) => {
            lemma_desugar_ok_seq(v);
            lemma_build_and_ok(spec_desugar_seq(v));
        },
        SpecExpr::Or(v) => {
            lemma_desugar_ok_seq(v);
            lemma_build_or_ok(spec_desugar_seq(v));
        },
        SpecExpr::Not(b) => {
            lemma_desugar_ok(*b);
            assert(knorm_input_ok(SpecExpr::Bool(false)) && bool_free(SpecExpr::Bool(false)));
            assert(knorm_input_ok(SpecExpr::Bool(true)) && bool_free(SpecExpr::Bool(true)));
        },
        SpecExpr::Let { bindings, body } => {
            lemma_desugar_ok_binds(bindings);
            lemma_desugar_ok(*body);
        },
        SpecExpr::If { cond, thn, els } => {
            lemma_desugar_ok(*cond);
            lemma_desugar_ok(*thn);
            lemma_desugar_ok(*els);
        },
        SpecExpr::Fn { args, body } => {
            lemma_desugar_ok(*body);
        },
        SpecExpr::Def { x, y } => {
            lemma_desugar_ok(*y);
        },
        SpecExpr::Defun { name, args, body } => {
            lemma_desugar_ok(*body);
        },
        SpecExpr::LetFun { name, args, fun_body, expr_body } => {
            lemma_desugar_ok(*fun_body);
            lemma_desugar_ok(*expr_body);
        },
        _ => {},
    }
}

proof fn lemma_desugar_seq_len(v: Seq<SpecExpr>)
    ensures
        spec_desugar_seq(v).len() == v.len(),
    decreases v,
{
    if v.len() > 0 {
        lemma_desugar_seq_len(v.drop_last());
    }
}

proof fn lemma_desugar_ok_seq(v: Seq<SpecExpr>)
    requires
        knorm_input_ok_seq(v),
    ensures
        knorm_input_ok_seq(spec_desugar_seq(v)),
        bool_free_seq(spec_desugar_seq(v)),
        forall|i: int|
            0 <= i < v.len() ==> knorm_input_ok(#[trigger] spec_desugar_seq(v)[i]) && bool_free(
                spec_desugar_seq(v)[i],
            ),
        spec_desugar_seq(v).len() == v.len(),
    decreases v,
{
    if v.len() > 0 {
        lemma_desugar_ok_seq(v.drop_last());
        lemma_desugar_ok(v.last());
        assert forall|i: int|
            0 <= i < v.len() implies knorm_input_ok(#[trigger] spec_desugar_seq(v)[i]) && bool_free(
            spec_desugar_seq(v)[i],
        ) by {
            if i < v.len() - 1 {
                assert(spec_desugar_seq(v)[i] == spec_desugar_seq(v.drop_last())[i]);
            }
        }
    }
}

proof fn lemma_desugar_ok_binds(v: Seq<(Seq<char>, SpecExpr)>)
    requires
        knorm_input_ok_binds(v),
    ensures
        knorm_input_ok_binds(spec_desugar_binds(v)),
        bool_free_binds(spec_desugar_binds(v)),
    decreases v,
{
    if v.len() > 0 {
        lemma_desugar_ok_binds(v.drop_last());
        lemma_desugar_ok(v.last().1);
    }
}

proof fn lemma_build_and_ok(v: Seq<SpecExpr>)
    requires
        forall|i: int|
            0 <= i < v.len() ==> knorm_input_ok(#[trigger] v[i]) && bool_free(v[i]),
    ensures
        knorm_input_ok(build_and(v)),
        bool_free(build_and(v)),
    decreases v,
{
    if v.len() >= 2 {
        assert forall|i: int|
            0 <= i < v.drop_first().len() implies knorm_input_ok(
            #[trigger] v.drop_first()[i],
        ) && bool_free(v.drop_first()[i]) by {
            assert(v.drop_first()[i] == v[i + 1]);
        }
        lemma_build_and_ok(v.drop_first());
        assert(knorm_input_ok(v[0]) && bool_free(v[0]));
        assert(knorm_input_ok(SpecExpr::Bool(false)) && bool_free(SpecExpr::Bool(false)));
    } else if v.len() == 1 {
        assert(knorm_input_ok(v[0]) && bool_free(v[0]));
    }
}

proof fn lemma_build_or_ok(v: Seq<SpecExpr>)
    requires
        forall|i: int|
            0 <= i < v.len() ==> knorm_input_ok(#[trigger] v[i]) && bool_free(v[i]),
    ensures
        knorm_input_ok(build_or(v)),
        bool_free(build_or(v)),
    decreases v,
{
    if v.len() >= 2 {
        assert forall|i: int|
            0 <= i < v.drop_first().len() implies knorm_input_ok(
            #[trigger] v.drop_first()[i],
        ) && bool_free(v.drop_first()[i]) by {
            assert(v.drop_first()[i] == v[i + 1]);
        }
        lemma_build_or_ok(v.drop_first());
        assert(knorm_input_ok(v[0]) && bool_free(v[0]));
        assert(knorm_input_ok(SpecExpr::Bool(true)) && bool_free(SpecExpr::Bool(true)));
    } else if v.len() == 1 {
        assert(knorm_input_ok(v[0]) && bool_free(v[0]));
    }
}

/// Every tree has at least one node.
pub proof fn lemma_size_pos(e: SpecExpr)
    ensures
        spec_size(e) >= 1,
{
}

/// The fresh-name counter never moves backwards, and normalization advances
/// it by at most twice the size of the tree.
pub proof fn lemma_knorm_count(e: SpecExpr, c: nat)
    ensures
        c <= spec_knorm(e, c).1 <= c + 2 * spec_size(e) - 1,
    decreases e,
{
    lemma_size_pos(e);
    match e {
        SpecExpr::Form(v) => {
            lemma_knorm_count_seq(v, c);
            let (kv, c1) = spec_knorm_seq(v, c);
            lemma_temp_bind_count(kv, c1);
            lemma_knorm_seq_len(v, c);
        },
        SpecExpr::Let { bindings, body } => {
            lemma_knorm_count_binds(bindings, c);
            let (kbs, c1) = spec_knorm_binds(bindings, c);
            lemma_knorm_count(*body, c1);
        },
        SpecExpr::If { cond, thn, els } => {
            lemma_knorm_count(*cond, c);
            let c1 = spec_knorm(*cond, c).1;
            lemma_knorm_count(*thn, c1);
            let c2 = spec_knorm(*thn, c1).1;
            lemma_knorm_count(*els, c2);
        },
        SpecExpr::Fn { args, body } => {
            lemma_knorm_count(*body, c);
        },
        SpecExpr::Def { x, y } => {
            lemma_knorm_count(*y, c);
        },
        SpecExpr::Defun { name, args, body } => {
            lemma_knorm_count(*body, c);
        },
        SpecExpr::LetFun { name, args, fun_body, expr_body } => {
            lemma_knorm_count(*fun_body, c);
            let c1 = spec_knorm(*fun_body, c).1;
            lemma_knorm_count(*expr_body, c1);
        },
        _ => {},
    }
}

proof fn lemma_knorm_seq_len(v: Seq<SpecExpr>, c: nat)
    ensures
        spec_knorm_seq(v, c).0.len() == v.len(),
    decreases v,
{
    if v.len() > 0 {
        lemma_knorm_seq_len(v.drop_last(), c);
    }
}

proof fn lemma_knorm_count_seq(v: Seq<SpecExpr>, c: nat)
    ensures
        c <= spec_knorm_seq(v, c).1 <= c + 2 * spec_size_seq(v) - v.len(),
    decreases v,
{
    if v.len() > 0 {
        lemma_knorm_count_seq(v.drop_last(), c);
        lemma_knorm_count(v.last(), spec_knorm_seq(v.drop_last(), c).1);
    }
}

proof fn lemma_knorm_count_binds(v: Seq<(Seq<char>, SpecExpr)>, c: nat)
    ensures
        c <= spec_knorm_binds(v, c).1 <= c + 2 * spec_size_binds(v) - v.len(),
    decreases v,
{
    if v.len() > 0 {
        lemma_knorm_count_binds(v.drop_last(), c);
        lemma_knorm_count(v.last().1, spec_knorm_binds(v.drop_last(), c).1);
    }
}

proof fn lemma_temp_bind_count(kv: Seq<SpecExpr>, c: nat)
    ensures
        c <= temp_bind(kv, c).2 <= c + kv.len(),
    decreases kv,
{
    if kv.len() > 0 {
        lemma_temp_bind_count(kv.drop_last(), c);
    }
}

/// Unfolding helpers: each sequence transform distributes over `push`.
proof fn lemma_desugar_seq_push(s: Seq<SpecExpr>, x: SpecExpr)
    ensures
        spec_desugar_seq(s.push(x)) == spec_desugar_seq(s).push(spec_desugar(x)),
{
}

proof fn lemma_view_exprs_push(s: Seq<Expr>, x: Expr)
    ensures
        view_exprs(s.push(x)) == view_exprs(s).push(view_expr(x)),
{
}

proof fn lemma_view_binds_push(s: Seq<(String, Expr)>, x: (String, Expr))
    ensures
        view_binds(s.push(x)) == view_binds(s).push((x.0@, view_expr(x.1))),
{
}

proof fn lemma_desugar_binds_push(s: Seq<(Seq<char>, SpecExpr)>, x: (Seq<char>, SpecExpr))
    ensures
        spec_desugar_binds(s.push(x)) == spec_desugar_binds(s).push((x.0, spec_desugar(x.1))),
{
}

proof fn lemma_knorm_seq_push(s: Seq<SpecExpr>, x: SpecExpr, c: nat)
    ensures
        spec_knorm_seq(s.push(x), c).0 == spec_knorm_seq(s, c).0.push(
            spec_knorm(x, spec_knorm_seq(s, c).1).0,
        ),
        spec_knorm_seq(s.push(x), c).1 == spec_knorm(x, spec_knorm_seq(s, c).1).1,
{
}

proof fn lemma_knorm_binds_push(s: Seq<(Seq<char>, SpecExpr)>, x: (Seq<char>, SpecExpr), c: nat)
    ensures
        spec_knorm_binds(s.push(x), c).0 == spec_knorm_binds(s, c).0.push(
            (x.0, spec_knorm(x.1, spec_knorm_binds(s, c).1).0),
        ),
        spec_knorm_binds(s.push(x), c).1 == spec_knorm(x.1, spec_knorm_binds(s, c).1).1,
{
}

proof fn lemma_temp_bind_push(s: Seq<SpecExpr>, x: SpecExpr, c: nat)
    ensures
        spec_is_atom(x) ==> temp_bind(s.push(x), c) == (
            temp_bind(s, c).0,
            temp_bind(s, c).1.push(x),
            temp_bind(s, c).2,
        ),
        !spec_is_atom(x) ==> temp_bind(s.push(x), c) == (
            temp_bind(s, c).0.push((tname(temp_bind(s, c).2), x)),
            temp_bind(s, c).1.push(SpecExpr::Id(tname(temp_bind(s, c).2))),
            temp_bind(s, c).2 + 1,
        ),
{
}

/// Pointwise readings of the sequence predicates.
proof fn lemma_input_ok_index(v: Seq<SpecExpr>)
    requires
        knorm_input_ok_seq(v),
    ensures
        forall|i: int| 0 <= i < v.len() ==> knorm_input_ok(#[trigger] v[i]),
    decreases v,
{
    if v.len() > 0 {
        lemma_input_ok_index(v.drop_last());
        assert forall|i: int| 0 <= i < v.len() implies knorm_input_ok(#[trigger] v[i]) by {
            if i < v.len() - 1 {
                assert(v[i] == v.drop_last()[i]);
            }
        }
    }
}

proof fn lemma_bool_free_index(v: Seq<SpecExpr>)
    requires
        bool_free_seq(v),
    ensures
        forall|i: int| 0 <= i < v.len() ==> bool_free(#[trigger] v[i]),
    decreases v,
{
    if v.len() > 0 {
        lemma_bool_free_index(v.drop_last());
        assert forall|i: int| 0 <= i < v.len() implies bool_free(#[trigger] v[i]) by {
            if i < v.len() - 1 {
                assert(v[i] == v.drop_last()[i]);
            }
        }
    }
}

proof fn lemma_input_ok_binds_index(v: Seq<(Seq<char>, SpecExpr)>)
    requires
        knorm_input_ok_binds(v),
    ensures
        forall|i: int| 0 <= i < v.len() ==> knorm_input_ok((#[trigger] v[i]).1),
    decreases v,
{
    if v.len() > 0 {
        lemma_input_ok_binds_index(v.drop_last());
        assert forall|i: int| 0 <= i < v.len() implies knorm_input_ok((#[trigger] v[i]).1) by {
            if i < v.len() - 1 {
                assert(v[i] == v.drop_last()[i]);
            }
        }
    }
}

proof fn lemma_bool_free_binds_index(v: Seq<(Seq<char>, SpecExpr)>)
    requires
        bool_free_binds(v),
    ensures
        forall|i: int| 0 <= i < v.len() ==> bool_free((#[trigger] v[i]).1),
    decreases v,
{
    if v.len() > 0 {
        lemma_bool_free_binds_index(v.drop_last());
        assert forall|i: int| 0 <= i < v.len() implies bool_free((#[trigger] v[i]).1) by {
            if i < v.len() - 1 {
                assert(v[i] == v.drop_last()[i]);
            }
        }
    }
}

/// A node's size within a list bounds the part it contributes.
pub proof fn lemma_size_seq_split(v: Seq<SpecExpr>, i: int)
    requires
        0 <= i < v.len(),
    ensures
        spec_size_seq(v) >= spec_size_seq(v.take(i)) + spec_size(v[i]),
        spec_size_seq(v.take(i + 1)) == spec_size_seq(v.take(i)) + spec_size(v[i]),
    decreases v,
{
    if i == v.len() - 1 {
        assert(v.take(i) =~= v.drop_last());
        assert(v.take(i + 1) =~= v);
    } else {
        lemma_size_seq_split(v.drop_last(), i);
        assert(v.drop_last().take(i) =~= v.take(i));
        assert(v.drop_last().take(i + 1) =~= v.take(i + 1));
        assert(v.drop_last()[i] == v[i]);
    }
}

pub proof fn lemma_size_binds_split(v: Seq<(Seq<char>, SpecExpr)>, i: int)
    requires
        0 <= i < v.len(),
    ensures
        spec_size_binds(v) >= spec_size_binds(v.take(i)) + spec_size(v[i].1),
        spec_size_binds(v.take(i + 1)) == spec_size_binds(v.take(i)) + spec_size(v[i].1),
    decreases v,
{
    if i == v.len() - 1 {
        assert(v.take(i) =~= v.drop_last());
        assert(v.take(i + 1) =~= v);
    } else {
        lemma_size_binds_split(v.drop_last(), i);
        assert(v.drop_last().take(i) =~= v.take(i));
        assert(v.drop_last().take(i + 1) =~= v.take(i + 1));
        assert(v.drop_last()[i] == v[i]);
    }
}

/// Prefixes and suffixes of a list weigh no more than the list.
pub proof fn lemma_size_seq_take_le(v: Seq<SpecExpr>, i: int)
    requires
        0 <= i <= v.len(),
    ensures
        spec_size_seq(v.take(i)) <= spec_size_seq(v),
    decreases v.len() - i,
{
    if i < v.len() {
        lemma_size_seq_take_le(v, i + 1);
        lemma_size_seq_split(v, i);
        lemma_size_pos(v[i]);
    } else {
        assert(v.take(i) =~= v);
    }
}

pub proof fn lemma_size_seq_skip_le(v: Seq<SpecExpr>, i: int)
    requires
        0 <= i <= v.len(),
    ensures
        spec_size_seq(v.skip(i)) <= spec_size_seq(v),
    decreases i,
{
    if i == 0 {
        assert(v.skip(0) =~= v);
    } else {
        lemma_size_seq_skip_le(v, i - 1);
        lemma_size_seq_skip_step(v, i);
    }
}

proof fn lemma_size_seq_skip_step(v: Seq<SpecExpr>, i: int)
    requires
        1 <= i <= v.len(),
    ensures
        spec_size_seq(v.skip(i)) <= spec_size_seq(v.skip(i - 1)),
{
    let a = v.skip(i - 1);
    assert(a.len() > 0);
    lemma_size_seq_first(a);
    assert(a.drop_first() =~= v.skip(i));
    lemma_size_pos(a[0]);
}

proof fn lemma_size_seq_first(v: Seq<SpecExpr>)
    requires
        v.len() > 0,
    ensures
        spec_size_seq(v) == spec_size(v[0]) + spec_size_seq(v.drop_first()),
    decreases v,
{
    if v.len() == 1 {
        assert(v.drop_last() =~= Seq::<SpecExpr>::empty());
        assert(v.drop_first() =~= Seq::<SpecExpr>::empty());
        assert(v.last() == v[0]);
    } else {
        lemma_size_seq_first(v.drop_last());
        assert(v.drop_last()[0] == v[0]);
        assert(v.drop_last().drop_first() =~= v.drop_first().drop_last());
        assert(v.drop_first().last() == v.last());
    }
}

pub proof fn lemma_size_binds_take_le(v: Seq<(Seq<char>, SpecExpr)>, i: int)
    requires
        0 <= i <= v.len(),
    ensures
        spec_size_binds(v.take(i)) <= spec_size_binds(v),
    decreases v.len() - i,
{
    if i < v.len() {
        lemma_size_binds_take_le(v, i + 1);
        lemma_size_binds_split(v, i);
        lemma_size_pos(v[i].1);
    } else {
        assert(v.take(i) =~= v);
    }
}

/// Desugared lists of a list of expressions.
fn desugar_list(v: &Vec<Expr>) -> (r: Vec<Expr>)
    ensures
        view_exprs(r@) == spec_desugar_seq(view_exprs(v@)),
        r@.len() == v@.len(),
    decreases v,
{
    let mut r: Vec<Expr> = Vec::new();
    let mut i: usize = 0;
    while i < v.len()
        invariant
            i <= v.len(),
            r@.len() == i,
            view_exprs(r@) == spec_desugar_seq(view_exprs(v@.take(i as int))),
        decreases v.len() - i,
    {
        let d = desugar_bools(&v[i]);
        proof {
            lemma_view_exprs_push(r@, d);
            lemma_view_exprs_push(v@.take(i as int), v@[i as int]);
            lemma_desugar_seq_push(view_exprs(v@.take(i as int)), view_expr(v@[i as int]));
            assert(v@.take(i as int).push(v@[i as int]) =~= v@.take(i + 1));
        }
        r.push(d);
        i = i + 1;
    }
    proof {
        assert(v@.take(i as int) =~= v@);
    }
    r
}


/// Desugared right-hand sides of a binding list.
fn desugar_bind_list(v: &Vec<(String, Expr)>) -> (r: Vec<(String, Expr)>)
    ensures
        view_binds(r@) == spec_desugar_binds(view_binds(v@)),
        r@.len() == v@.len(),
    decreases v,
{
    let mut r: Vec<(String, Expr)> = Vec::new();
    let mut i: usize = 0;
    while i < v.len()
        invariant
            i <= v.len(),
            r@.len() == i,
            view_binds(r@) == spec_desugar_binds(view_binds(v@.take(i as int))),
        decreases v.len() - i,
    {
        let nm = v[i].0.clone();
        let d = desugar_bools(&v[i].1);
        let pair = (nm, d);
        proof {
            lemma_view_binds_push(r@, pair);
            lemma_view_binds_push(v@.take(i as int), v@[i as int]);
            assert(v@.take(i as int).push(v@[i as int]) =~= v@.take(i + 1));
        }
        r.push(pair);
        i = i + 1;
    }
    proof {
        assert(v@.take(i as int) =~= v@);
    }
    r
}

/// Rewrite the boolean connectives into `If`/`Bool` throughout the tree.
#[verifier::loop_isolation(false)]
pub fn desugar_bools(e: &Expr) -> (r: Expr)
    ensures
        r@ == spec_desugar(e@),
    decreases e,
{
    match e {
        Expr::Nil => Expr::Nil,
        Expr::Bool(b) => Expr::Bool(*b),
        Expr::Int(i) => Expr::Int(*i),
        Expr::Float(s) => Expr::Float(s.clone()),
        Expr::Str(s) => Expr::Str(s.clone()),
        Expr::Id(s) => Expr::Id(s.clone()),
        Expr::Form(v) => Expr::Form(desugar_list(v)),
        Expr::And(v) => {
            let mut ds = desugar_list(v);
            let ghost full = view_exprs(ds@);
            let ghost n = ds@.len() as int;
            if ds.len() == 0 {
                assert(full =~= Seq::<SpecExpr>::empty());
                Expr::Bool(true)
            } else {
                let ghost prev0 = ds@;
                let mut acc = ds.pop().unwrap();
                proof {
                    assert(view_exprs(prev0) == view_exprs(prev0.drop_last()).push(
                        view_expr(prev0.last()),
                    ));
                    assert(acc@ == full[n - 1]);
                    assert(view_exprs(ds@) =~= full.take(n - 1));
                    assert(full.skip(n - 1) =~= seq![full[n - 1]]);
                    assert(build_and(seq![full[n - 1]]) == seq![full[n - 1]][0]);
                }
                while ds.len() > 0
                    invariant
                        0 < ds@.len() + 1 <= n,
                        view_exprs(ds@) == full.take(ds@.len() as int),
                        full.len() == n,
                        acc@ == build_and(full.skip(ds@.len() as int)),
                    decreases ds.len(),
                {
                    let ghost k = ds@.len() as int;
                    let ghost prev = ds@;
                    proof {
                        assert(acc@ == build_and(full.skip(k)));
                    }
                    let x = ds.pop().unwrap();
                    proof {
                        assert(acc@ == build_and(full.skip(k)));
                        assert(view_exprs(prev) == view_exprs(prev.drop_last()).push(
                            view_expr(prev.last()),
                        ));
                        assert(view_exprs(ds@).push(x@) == full.take(k));
                        assert(full.take(k).drop_last() =~= full.take(k - 1));
                        assert(view_exprs(ds@) == full.take(k).drop_last());
                        assert(x@ == full.take(k)[k - 1]);
                        assert(x@ == full[k - 1]);
                        assert(full.skip(k - 1).drop_first() =~= full.skip(k));
                        assert(full.skip(k - 1)[0] == full[k - 1]);
                        assert(full.skip(k - 1).len() >= 2);
                        assert(build_and(full.skip(k - 1)) == (SpecExpr::If {
                            cond: Box::new(full[k - 1]),
                            thn: Box::new(build_and(full.skip(k))),
                            els: Box::new(SpecExpr::Bool(false)),
                        }));
                    }
                    let ghost acc_v = acc@;
                    let new_acc = Expr::If {
                        cond: Box::new(x),
                        thn: Box::new(acc),
                        els: Box::new(Expr::Bool(false)),
                    };
                    proof {
                        assert(view_expr(Expr::Bool(false)) == SpecExpr::Bool(false));
                        assert(new_acc@ == (SpecExpr::If {
                            cond: Box::new(x@),
                            thn: Box::new(acc_v),
                            els: Box::new(SpecExpr::Bool(false)),
                        }));
                    }
                    acc = new_acc;
                }
                proof {
                    assert(full.skip(0) =~= full);
                }
                acc
            }
        },
        Expr::Or(v) => {
            let mut ds = desugar_list(v);
            let ghost full = view_exprs(ds@);
            let ghost n = ds@.len() as int;
            if ds.len() == 0 {
                assert(full =~= Seq::<SpecExpr>::empty());
                Expr::Bool(false)
            } else {
                let ghost prev0 = ds@;
                let mut acc = ds.pop().unwrap();
                proof {
                    assert(view_exprs(prev0) == view_exprs(prev0.drop_last()).push(
                        view_expr(prev0.last()),
                    ));
                    assert(acc@ == full[n - 1]);
                    assert(view_exprs(ds@) =~= full.take(n - 1));
                    assert(full.skip(n - 1) =~= seq![full[n - 1]]);
                    assert(build_or(seq![full[n - 1]]) == seq![full[n - 1]][0]);
                }
                while ds.len() > 0
                    invariant
                        0 < ds@.len() + 1 <= n,
                        view_exprs(ds@) == full.take(ds@.len() as int),
                        full.len() == n,
                        acc@ == build_or(full.skip(ds@.len() as int)),
                    decreases ds.len(),
                {
                    let ghost k = ds@.len() as int;
                    let ghost prev = ds@;
                    let x = ds.pop().unwrap();
                    proof {
                        assert(view_exprs(prev) == view_exprs(prev.drop_last()).push(
                            view_expr(prev.last()),
                        ));
                        assert(view_exprs(ds@).push(x@) == full.take(k));
                        assert(full.take(k).drop_last() =~= full.take(k - 1));
                        assert(view_exprs(ds@) == full.take(k).drop_last());
                        assert(x@ == full.take(k)[k - 1]);
                        assert(x@ == full[k - 1]);
                        assert(full.skip(k - 1).drop_first() =~= full.skip(k));
                        assert(full.skip(k - 1)[0] == full[k - 1]);
                        assert(full.skip(k - 1).len() >= 2);
                        assert(build_or(full.skip(k - 1)) == (SpecExpr::If {
                            cond: Box::new(full[k - 1]),
                            thn: Box::new(SpecExpr::Bool(true)),
                            els: Box::new(build_or(full.skip(k))),
                        }));
                    }
                    let ghost acc_v = acc@;
                    let new_acc = Expr::If {
                        cond: Box::new(x),
                        thn: Box::new(Expr::Bool(true)),
                        els: Box::new(acc),
                    };
                    proof {
                        assert(view_expr(Expr::Bool(true)) == SpecExpr::Bool(true));
                        assert(new_acc@ == (SpecExpr::If {
                            cond: Box::new(x@),
                            thn: Box::new(SpecExpr::Bool(true)),
                            els: Box::new(acc_v),
                        }));
                    }
                    acc = new_acc;
                }
                proof {
                    assert(full.skip(0) =~= full);
                }
                acc
            }
        },
        Expr::Not(b) => {
            let r = Expr::If {
                cond: Box::new(desugar_bools(b)),
                thn: Box::new(Expr::Bool(false)),
                els: Box::new(Expr::Bool(true)),
            };
            proof {
                assert(view_expr(Expr::Bool(false)) == SpecExpr::Bool(false));
                assert(view_expr(Expr::Bool(true)) == SpecExpr::Bool(true));
            }
            r
        },
        Expr::Let { bindings, body } => {
            let bs = desugar_bind_list(bindings);
            Expr::Let { bindings: bs, body: Box::new(desugar_bools(body)) }
        },
        Expr::If { cond, thn, els } => Expr::If {
            cond: Box::new(desugar_bools(cond)),
            thn: Box::new(desugar_bools(thn)),
            els: Box::new(desugar_bools(els)),
        },
        Expr::Fn { args, body } => Expr::Fn {
            args: crate::ast::clone_ids(args),
            body: Box::new(desugar_bools(body)),
        },
        Expr::Def { x, y } => Expr::Def { x: x.clone(), y: Box::new(desugar_bools(y)) },
        Expr::Defun { name, args, body } => Expr::Defun {
            name: name.clone(),
            args: crate::ast::clone_ids(args),
            body: Box::new(desugar_bools(body)),
        },
        Expr::LetFun { name, args, fun_body, expr_body } => Expr::LetFun {
            name: name.clone(),
            args: crate::ast::clone_ids(args),
            fun_body: Box::new(desugar_bools(fun_body)),
            expr_body: Box::new(desugar_bools(expr_body)),
        },
        Expr::DefClos { name, freevars, args, body } => Expr::DefClos {
            name: name.clone(),
            freevars: crate::ast::clone_ids(freevars),
            args: crate::ast::clone_ids(args),
            body: Box::new(desugar_bools(body)),
        },
        Expr::LetClos { name, closid, freevars, body } => Expr::LetClos {
            name: name.clone(),
            closid: closid.clone(),
            freevars: crate::ast::clone_ids(freevars),
            body: Box::new(desugar_bools(body)),
        },
    }
}

/// Wrap `body` in one single-binding `Let` per entry of `bs`, the first entry
/// outermost.
fn wrap_lets_exec(bs: Vec<(String, Expr)>, body: Expr) -> (r: Expr)
    ensures
        r@ == wrap_lets(view_binds(bs@), body@),
{
    let ghost bsv = view_binds(bs@);
    let ghost bodyv = body@;
    let mut bs = bs;
    let mut result = body;
    proof {
        assert(bsv.skip(bs@.len() as int) =~= Seq::<(Seq<char>, SpecExpr)>::empty());
    }
    while bs.len() > 0
        invariant
            bs@.len() <= bsv.len(),
            view_binds(bs@) == bsv.take(bs@.len() as int),
            result@ == wrap_lets(bsv.skip(bs@.len() as int), bodyv),
        decreases bs.len(),
    {
        let ghost j = bs@.len() as int;
        let ghost prev = bs@;
        let pair = bs.pop().unwrap();
        proof {
            assert(view_binds(prev) == view_binds(prev.drop_last()).push(
                (prev.last().0@, view_expr(prev.last().1)),
            ));
            assert(view_binds(bs@).push((pair.0@, pair.1@)) == bsv.take(j));
            assert(bsv.take(j).drop_last() =~= bsv.take(j - 1));
            assert(view_binds(bs@) == bsv.take(j).drop_last());
            assert((pair.0@, pair.1@) == bsv.take(j)[j - 1]);
            assert((pair.0@, pair.1@) == bsv[j - 1]);
        }
        let ghost resv = result@;
        let nbs = vec![pair];
        proof {
            assert(view_binds(nbs@) == view_binds(nbs@.drop_last()).push(
                (nbs@.last().0@, view_expr(nbs@.last().1)),
            ));
            assert(nbs@.drop_last() =~= Seq::<(String, Expr)>::empty());
            assert(view_binds(Seq::<(String, Expr)>::empty()) =~= Seq::<(
                Seq<char>,
                SpecExpr,
            )>::empty());
            assert(view_binds(nbs@) =~= seq![bsv[j - 1]]);
        }
        result = Expr::Let { bindings: nbs, body: Box::new(result) };
        proof {
            assert(result@ == (SpecExpr::Let {
                bindings: seq![bsv[j - 1]],
                body: Box::new(resv),
            }));
            assert(bsv.skip(j - 1)[0] == bsv[j - 1]);
            assert(bsv.skip(j - 1).drop_first() =~= bsv.skip(j));
            assert(wrap_lets(bsv.skip(j - 1), bodyv) == (SpecExpr::Let {
                bindings: seq![bsv.skip(j - 1)[0]],
                body: Box::new(wrap_lets(bsv.skip(j), bodyv)),
            }));
        }
    }
    proof {
        assert(bsv.skip(0) =~= bsv);
    }
    result
}

/// Flatten a desugared tree: every application argument and every `If`
/// condition becomes atomic, multi-binding lets become nested single-binding
/// lets, and anonymous functions become named local functions.
#[verifier::loop_isolation(false)]
#[verifier::rlimit(100)]
pub(crate) fn k_normal_core(e: &Expr, namer: &mut NameGenerator) -> (r: Expr)
    requires
        knorm_input_ok(e@),
        bool_free(e@),
        old(namer).counter + 2 * spec_size(e@) <= usize::MAX,
    ensures
        r@ == spec_knorm(e@, old(namer).counter as nat).0,
        final(namer).counter as nat == spec_knorm(e@, old(namer).counter as nat).1,
    decreases e,
{
    let ghost c0 = namer.counter as nat;
    match e {
        Expr::Nil => Expr::Nil,
        Expr::Bool(b) => Expr::Bool(*b),
        Expr::Int(i) => Expr::Int(*i),
        Expr::Float(s) => Expr::Float(s.clone()),
        Expr::Str(s) => Expr::Str(s.clone()),
        Expr::Id(s) => Expr::Id(s.clone()),
        Expr::Form(v) => {
            let ghost sv = view_exprs(v@);
            let mut kform: Vec<Expr> = Vec::new();
            let mut i: usize = 0;
            proof {
                lemma_input_ok_index(sv);
                lemma_bool_free_index(sv);
                assert(sv.take(0) =~= Seq::<SpecExpr>::empty());
            }
            while i < v.len()
                invariant
                    i <= v.len(),
                    kform@.len() == i,
                    view_exprs(kform@) == spec_knorm_seq(sv.take(i as int), c0).0,
                    namer.counter as nat == spec_knorm_seq(sv.take(i as int), c0).1,
                decreases v.len() - i,
            {
                proof {
                    lemma_knorm_count_seq(sv.take(i as int), c0);
                    lemma_size_seq_split(sv, i as int);
                }
                let ke = k_normal_core(&v[i], namer);
                proof {
                    lemma_view_exprs_push(kform@, ke);
                    lemma_knorm_seq_push(sv.take(i as int), sv[i as int], c0);
                    assert(sv.take(i as int).push(sv[i as int]) =~= sv.take(i + 1));
                }
                kform.push(ke);
                i = i + 1;
            }
            proof {
                assert(sv.take(i as int) =~= sv);
            }
            let ghost c1 = namer.counter as nat;
            let ghost kseq = view_exprs(kform@);
            proof {
                lemma_knorm_seq_len(sv, c0);
                lemma_knorm_count_seq(sv, c0);
            }
            let mut bs: Vec<(String, Expr)> = Vec::new();
            let mut ks: Vec<Expr> = Vec::new();
            let ghost kf0 = kform@;
            let mut kform = kform;
            proof {
                assert(kseq.take(0) =~= Seq::<SpecExpr>::empty());
                assert(kform@ =~= kf0.skip(0));
            }
            while kform.len() > 0
                invariant
                    kform@.len() <= kf0.len(),
                    kform@ == kf0.skip(kf0.len() - kform@.len()),
                    view_binds(bs@) == temp_bind(
                        kseq.take(kf0.len() - kform@.len()),
                        c1,
                    ).0,
                    view_exprs(ks@) == temp_bind(kseq.take(kf0.len() - kform@.len()), c1).1,
                    namer.counter as nat == temp_bind(
                        kseq.take(kf0.len() - kform@.len()),
                        c1,
                    ).2,
                decreases kform.len(),
            {
                let ghost p = kf0.len() - kform@.len();
                let x = kform.remove(0);
                proof {
                    assert(x == kf0.skip(p)[0]);
                    assert(x == kf0[p]);
                    assert(kform@ =~= kf0.skip(p + 1));
                    assert(kseq[p] == view_expr(kf0[p]));
                    lemma_temp_bind_push(kseq.take(p), kseq[p], c1);
                    assert(kseq.take(p).push(kseq[p]) =~= kseq.take(p + 1));
                    lemma_temp_bind_count(kseq.take(p), c1);
                }
                if x.is_atom() {
                    proof {
                        lemma_view_exprs_push(ks@, x);
                    }
                    ks.push(x);
                } else {
                    let nm = namer.next("t");
                    let idx = Expr::Id(nm.clone());
                    let pair = (nm, x);
                    proof {
                        assert(idx@ == SpecExpr::Id(pair.0@));
                        lemma_view_exprs_push(ks@, idx);
                        lemma_view_binds_push(bs@, pair);
                    }
                    bs.push(pair);
                    ks.push(idx);
                }
            }
            proof {
                assert(kseq.take(kf0.len() as int) =~= kseq);
            }
            let ghost ksv = view_exprs(ks@);
            let form = Expr::Form(ks);
            proof {
                assert(form@ == SpecExpr::Form(ksv));
            }
            wrap_lets_exec(bs, form)
        },
        Expr::Let { bindings, body } => {
            let ghost bv = view_binds(bindings@);
            proof {
                lemma_input_ok_binds_index(bv);
                lemma_bool_free_binds_index(bv);
                assert(bv.take(0) =~= Seq::<(Seq<char>, SpecExpr)>::empty());
            }
            let mut nbs: Vec<(String, Expr)> = Vec::new();
            let mut i: usize = 0;
            while i < bindings.len()
                invariant
                    i <= bindings.len(),
                    nbs@.len() == i,
                    view_binds(nbs@) == spec_knorm_binds(bv.take(i as int), c0).0,
                    namer.counter as nat == spec_knorm_binds(bv.take(i as int), c0).1,
                decreases bindings.len() - i,
            {
                proof {
                    lemma_knorm_count_binds(bv.take(i as int), c0);
                    lemma_size_binds_split(bv, i as int);
                    assert(bv[i as int] == (bindings@[i as int].0@, view_expr(
                        bindings@[i as int].1,
                    )));
                }
                let nm = bindings[i].0.clone();
                let ke = k_normal_core(&bindings[i].1, namer);
                let pair = (nm, ke);
                proof {
                    lemma_view_binds_push(nbs@, pair);
                    lemma_knorm_binds_push(bv.take(i as int), bv[i as int], c0);
                    assert(bv.take(i as int).push(bv[i as int]) =~= bv.take(i + 1));
                }
                nbs.push(pair);
                i = i + 1;
            }
            proof {
                assert(bv.take(i as int) =~= bv);
                lemma_knorm_count_binds(bv, c0);
            }
            let kb = k_normal_core(body, namer);
            wrap_lets_exec(nbs, kb)
        },
        Expr::If { cond, thn, els } => {
            proof {
                lemma_knorm_count(cond@, c0);
            }
            let kc = k_normal_core(cond, namer);
            let ghost c1 = namer.counter as nat;
            proof {
                lemma_knorm_count(thn@, c1);
            }
            let kt = k_normal_core(thn, namer);
            let ghost c2 = namer.counter as nat;
            proof {
                lemma_knorm_count(els@, c2);
            }
            let ke = k_normal_core(els, namer);
            let ghost c3 = namer.counter as nat;
            let ghost kcv = kc@;
            let ghost ktv = kt@;
            let ghost kev = ke@;
            if kc.is_atom() {
                let r = Expr::If { cond: Box::new(kc), thn: Box::new(kt), els: Box::new(ke) };
                proof {
                    assert(r@ == (SpecExpr::If {
                        cond: Box::new(kcv),
                        thn: Box::new(ktv),
                        els: Box::new(kev),
                    }));
                }
                r
            } else {
                let nm = namer.next("t");
                let inner = Expr::If {
                    cond: Box::new(Expr::Id(nm.clone())),
                    thn: Box::new(kt),
                    els: Box::new(ke),
                };
                proof {
                    assert(view_expr(Expr::Id(nm)) == SpecExpr::Id(nm@));
                    assert(inner@ == (SpecExpr::If {
                        cond: Box::new(SpecExpr::Id(nm@)),
                        thn: Box::new(ktv),
                        els: Box::new(kev),
                    }));
                }
                let ghost innerv = inner@;
                let nbs = vec![(nm, kc)];
                proof {
                    assert(view_binds(nbs@) == view_binds(nbs@.drop_last()).push(
                        (nbs@.last().0@, view_expr(nbs@.last().1)),
                    ));
                    assert(nbs@.drop_last() =~= Seq::<(String, Expr)>::empty());
                    assert(view_binds(Seq::<(String, Expr)>::empty()) =~= Seq::<(
                        Seq<char>,
                        SpecExpr,
                    )>::empty());
                    assert(view_binds(nbs@) =~= seq![(tname(c3), kcv)]);
                }
                let r = Expr::Let { bindings: nbs, body: Box::new(inner) };
                proof {
                    assert(r@ == (SpecExpr::Let {
                        bindings: seq![(tname(c3), kcv)],
                        body: Box::new(innerv),
                    }));
                }
                r
            }
        },
        Expr::Fn { args, body } => {
            proof {
                lemma_knorm_count(body@, c0);
            }
            let kb = k_normal_core(body, namer);
            let ghost kbv = kb@;
            let nm = namer.next("t");
            let r = Expr::LetFun {
                name: nm.clone(),
                args: crate::ast::clone_ids(args),
                fun_body: Box::new(kb),
                expr_body: Box::new(Expr::Id(nm)),
            };
            proof {
                assert(view_expr(Expr::Id(r.arrow_LetFun_name())) == SpecExpr::Id(
                    r.arrow_LetFun_name()@,
                ));
            }
            r
        },
        Expr::Def { x, y } => {
            proof {
                lemma_knorm_count(y@, c0);
            }
            Expr::Def { x: x.clone(), y: Box::new(k_normal_core(y, namer)) }
        },
        Expr::Defun { name, args, body } => {
            proof {
                lemma_knorm_count(body@, c0);
            }
            let kb = k_normal_core(body, namer);
            let ghost kbv = kb@;
            let nm = namer.next("t");
            let ghost c1 = namer.counter as nat;
            let inner = Expr::LetFun {
                name: nm.clone(),
                args: crate::ast::clone_ids(args),
                fun_body: Box::new(kb),
                expr_body: Box::new(Expr::Id(nm)),
            };
            proof {
                assert(view_expr(Expr::Id(inner.arrow_LetFun_name())) == SpecExpr::Id(
                    inner.arrow_LetFun_name()@,
                ));
                assert(inner@ == (SpecExpr::LetFun {
                    name: tname((c1 - 1) as nat),
                    args: view_ids(args@),
                    fun_body: Box::new(kbv),
                    expr_body: Box::new(SpecExpr::Id(tname((c1 - 1) as nat))),
                }));
            }
            let ghost innerv = inner@;
            let r = Expr::Def { x: name.clone(), y: Box::new(inner) };
            proof {
                assert(r@ == (SpecExpr::Def { x: name@, y: Box::new(innerv) }));
            }
            r
        },
        Expr::LetFun { name, args, fun_body, expr_body } => {
            proof {
                lemma_knorm_count(fun_body@, c0);
            }
            let kf = k_normal_core(fun_body, namer);
            proof {
                lemma_knorm_count(expr_body@, namer.counter as nat);
            }
            let ke = k_normal_core(expr_body, namer);
            Expr::LetFun {
                name: name.clone(),
                args: crate::ast::clone_ids(args),
                fun_body: Box::new(kf),
                expr_body: Box::new(ke),
            }
        },
        Expr::And(_) => vstd::pervasive::unreached(),
        Expr::Or(_) => vstd::pervasive::unreached(),
        Expr::Not(_) => vstd::pervasive::unreached(),
        Expr::DefClos { .. } => vstd::pervasive::unreached(),
        Expr::LetClos { .. } => vstd::pervasive::unreached(),
    }
}

/// K-normalize one expression with the given fresh-name supply: desugar the
/// boolean connectives, then flatten applications and conditionals into
/// chains of single-binding lets.
pub fn k_normalize(e: &Expr, namer: &mut NameGenerator) -> (r: Expr)
    requires
        knorm_input_ok(e@),
        old(namer).counter + 2 * spec_size(spec_desugar(e@)) <= usize::MAX,
    ensures
        r@ == spec_knormalize(e@, old(namer).counter as nat).0,
        final(namer).counter as nat == spec_knormalize(e@, old(namer).counter as nat).1,
{
    let d = desugar_bools(e);
    proof {
        lemma_desugar_ok(e@);
    }
    k_normal_core(&d, namer)
}

/// The shape K-normalization establishes: application elements and `If`
/// conditions are atomic, every `Let` binds exactly one name, and the sugar
/// (`And`/`Or`/`Not`/`Fn`/`Defun`) is gone.
pub open spec fn knormal_form(e: SpecExpr) -> bool
    decreases e,
{
    match e {
        SpecExpr::Form(v) => atoms_seq(v),
        SpecExpr::Let { bindings, body } => bindings.len() == 1 && knormal_form(bindings[0].1)
            && knormal_form(*body),
        SpecExpr::If { cond, thn, els } => spec_is_atom(*cond) && knormal_form(*thn)
            && knormal_form(*els),
        SpecExpr::LetFun { name, args, fun_body, expr_body } => knormal_form(*fun_body)
            && knormal_form(*expr_body),
        SpecExpr::Def { x, y } => knormal_form(*y),
        SpecExpr::And(_) => false,
        SpecExpr::Or(_) => false,
        SpecExpr::Not(_) => false,
        SpecExpr::Fn { .. } => false,
        SpecExpr::Defun { .. } => false,
        SpecExpr::DefClos { .. } => false,
        SpecExpr::LetClos { .. } => false,
        _ => true,
    }
}

pub open spec fn atoms_seq(v: Seq<SpecExpr>) -> bool {
    forall|i: int| 0 <= i < v.len() ==> spec_is_atom(#[trigger] v[i])
}

proof fn lemma_knormal_form_bool_free(e: SpecExpr)
    requires
        knormal_form(e),
    ensures
        bool_free(e),
    decreases e,
{
    match e {
        SpecExpr::Form(v) => {
            lemma_atoms_bool_free(v);
        },
        SpecExpr::Let { bindings, body } => {
            lemma_knormal_form_bool_free(bindings[0].1);
            lemma_knormal_form_bool_free(*body);
            lemma_bool_free_binds_single(bindings);
        },
        SpecExpr::If { cond, thn, els } => {
            lemma_knormal_form_bool_free(*cond);
            lemma_knormal_form_bool_free(*thn);
            lemma_knormal_form_bool_free(*els);
        },
        SpecExpr::LetFun { name, args, fun_body, expr_body } => {
            lemma_knormal_form_bool_free(*fun_body);
            lemma_knormal_form_bool_free(*expr_body);
        },
        SpecExpr::Def { x, y } => {
            lemma_knormal_form_bool_free(*y);
        },
        _ => {},
    }
}

proof fn lemma_atoms_bool_free(v: Seq<SpecExpr>)
    requires
        atoms_seq(v),
    ensures
        bool_free_seq(v),
    decreases v,
{
    if v.len() > 0 {
        assert(atoms_seq(v.drop_last())) by {
            assert(forall|i: int|
                0 <= i < v.len() - 1 ==> v.drop_last()[i] == #[trigger] v[i]);
        }
        lemma_atoms_bool_free(v.drop_last());
        assert(spec_is_atom(v.last()));
        assert(bool_free(v.last()));
    }
}

proof fn lemma_bool_free_binds_single(v: Seq<(Seq<char>, SpecExpr)>)
    requires
        v.len() == 1,
        bool_free(v[0].1),
    ensures
        bool_free_binds(v),
{
    assert(v.drop_last() =~= Seq::<(Seq<char>, SpecExpr)>::empty());
    assert(bool_free_binds(Seq::<(Seq<char>, SpecExpr)>::empty()));
    assert(v.last() == v[0]);
}

/// Desugaring changes nothing in a tree that has no boolean connectives.
proof fn lemma_desugar_identity(e: SpecExpr)
    requires
        bool_free(e),
    ensures
        spec_desugar(e) == e,
    decreases e,
{
    match e {
        SpecExpr::Form(v) => {
            lemma_desugar_seq_identity(v);
        },
        SpecExpr::Let { bindings, body } => {
            lemma_desugar_binds_identity(bindings);
            lemma_desugar_identity(*body);
        },
        SpecExpr::If { cond, thn, els } => {
            lemma_desugar_identity(*cond);
            lemma_desugar_identity(*thn);
            lemma_desugar_identity(*els);
        },
        SpecExpr::Fn { args, body } => {
            lemma_desugar_identity(*body);
        },
        SpecExpr::Def { x, y } => {
            lemma_desugar_identity(*y);
        },
        SpecExpr::Defun { name, args, body } => {
            lemma_desugar_identity(*body);
        },
        SpecExpr::LetFun { name, args, fun_body, expr_body } => {
            lemma_desugar_identity(*fun_body);
            lemma_desugar_identity(*expr_body);
        },
        SpecExpr::DefClos { name, freevars, args, body } => {
            lemma_desugar_identity(*body);
        },
        SpecExpr::LetClos { name, closid, freevars, body } => {
            lemma_desugar_identity(*body);
        },
        _ => {},
    }
}

proof fn lemma_desugar_seq_identity(v: Seq<SpecExpr>)
    requires
        bool_free_seq(v),
    ensures
        spec_desugar_seq(v) == v,
    decreases v,
{
    if v.len() > 0 {
        lemma_desugar_seq_identity(v.drop_last());
        lemma_desugar_identity(v.last());
        assert(spec_desugar_seq(v) =~= v);
    } else {
        assert(spec_desugar_seq(v) =~= v);
    }
}

proof fn lemma_desugar_binds_identity(v: Seq<(Seq<char>, SpecExpr)>)
    requires
        bool_free_binds(v),
    ensures
        spec_desugar_binds(v) == v,
    decreases v,
{
    if v.len() > 0 {
        lemma_desugar_binds_identity(v.drop_last());
        lemma_desugar_identity(v.last().1);
        assert(spec_desugar_binds(v) =~= v);
    } else {
        assert(spec_desugar_binds(v) =~= v);
    }
}

/// K-normalization establishes the K-normal shape.
pub proof fn lemma_knorm_establishes_form(e: SpecExpr, c: nat)
    requires
        knorm_input_ok(e),
        bool_free(e),
    ensures
        knormal_form(spec_knorm(e, c).0),
    decreases e,
{
    reveal_with_fuel(knormal_form, 3);
    match e {
        SpecExpr::Form(v) => {
            lemma_knorm_form_seq(v, c);
            let (kv, c1) = spec_knorm_seq(v, c);
            lemma_temp_bind_form(kv, c1);
            let (bs, ks, c2) = temp_bind(kv, c1);
            assert(knormal_form(SpecExpr::Form(ks)));
            lemma_wrap_lets_form(bs, SpecExpr::Form(ks));
        },
        SpecExpr::Let { bindings, body } => {
            lemma_knorm_form_binds(bindings, c);
            let (kbs, c1) = spec_knorm_binds(bindings, c);
            lemma_knorm_establishes_form(*body, c1);
            lemma_wrap_lets_form(kbs, spec_knorm(*body, c1).0);
        },
        SpecExpr::If { cond, thn, els } => {
            lemma_knorm_establishes_form(*cond, c);
            let c1 = spec_knorm(*cond, c).1;
            lemma_knorm_establishes_form(*thn, c1);
            let c2 = spec_knorm(*thn, c1).1;
            lemma_knorm_establishes_form(*els, c2);
            let (kc, kt, ke) = (spec_knorm(*cond, c).0, spec_knorm(*thn, c1).0, spec_knorm(*els, c2).0);
            if !spec_is_atom(kc) {
                assert(knormal_form(SpecExpr::Id(tname(c2))));
                assert(knormal_form(SpecExpr::If {
                    cond: Box::new(SpecExpr::Id(tname(c2))),
                    thn: Box::new(kt),
                    els: Box::new(ke),
                }));
                assert(seq![(tname(c2), kc)][0] == (tname(c2), kc));
                assert(knormal_form(mk_if(kc, kt, ke, c2).0));
            }
        },
        SpecExpr::Fn { args, body } => {
            lemma_knorm_establishes_form(*body, c);
            let c1 = spec_knorm(*body, c).1;
            assert(knormal_form(SpecExpr::Id(tname(c1))));
            assert(knormal_form(SpecExpr::LetFun {
                name: tname(c1),
                args,
                fun_body: Box::new(spec_knorm(*body, c).0),
                expr_body: Box::new(SpecExpr::Id(tname(c1))),
            }));
        },
        SpecExpr::Def { x, y } => {
            lemma_knorm_establishes_form(*y, c);
        },
        SpecExpr::Defun { name, args, body } => {
            lemma_knorm_establishes_form(*body, c);
            let c1 = spec_knorm(*body, c).1;
            assert(knormal_form(SpecExpr::Id(tname(c1))));
            assert(knormal_form(SpecExpr::LetFun {
                name: tname(c1),
                args,
                fun_body: Box::new(spec_knorm(*body, c).0),
                expr_body: Box::new(SpecExpr::Id(tname(c1))),
            }));
        },
        SpecExpr::LetFun { name, args, fun_body, expr_body } => {
            lemma_knorm_establishes_form(*fun_body, c);
            let c1 = spec_knorm(*fun_body, c).1;
            lemma_knorm_establishes_form(*expr_body, c1);
        },
        _ => {},
    }
}

proof fn lemma_knorm_form_seq(v: Seq<SpecExpr>, c: nat)
    requires
        knorm_input_ok_seq(v),
        bool_free_seq(v),
    ensures
        forall|i: int|
            0 <= i < v.len() ==> knormal_form(#[trigger] spec_knorm_seq(v, c).0[i]),
        spec_knorm_seq(v, c).0.len() == v.len(),
    decreases v,
{
    if v.len() > 0 {
        lemma_knorm_form_seq(v.drop_last(), c);
        let c1 = spec_knorm_seq(v.drop_last(), c).1;
        lemma_knorm_establishes_form(v.last(), c1);
        assert forall|i: int|
            0 <= i < v.len() implies knormal_form(#[trigger] spec_knorm_seq(v, c).0[i]) by {
            if i < v.len() - 1 {
                assert(spec_knorm_seq(v, c).0[i] == spec_knorm_seq(v.drop_last(), c).0[i]);
            }
        }
    }
}

proof fn lemma_knorm_form_binds(v: Seq<(Seq<char>, SpecExpr)>, c: nat)
    requires
        knorm_input_ok_binds(v),
        bool_free_binds(v),
    ensures
        forall|i: int|
            0 <= i < v.len() ==> knormal_form((#[trigger] spec_knorm_binds(v, c).0[i]).1),
        spec_knorm_binds(v, c).0.len() == v.len(),
    decreases v,
{
    if v.len() > 0 {
        lemma_knorm_form_binds(v.drop_last(), c);
        let c1 = spec_knorm_binds(v.drop_last(), c).1;
        lemma_knorm_establishes_form(v.last().1, c1);
        assert forall|i: int|
            0 <= i < v.len() implies knormal_form(
            (#[trigger] spec_knorm_binds(v, c).0[i]).1,
        ) by {
            if i < v.len() - 1 {
                assert(spec_knorm_binds(v, c).0[i] == spec_knorm_binds(v.drop_last(), c).0[i]);
            }
        }
    }
}

proof fn lemma_temp_bind_form(kv: Seq<SpecExpr>, c: nat)
    requires
        forall|i: int| 0 <= i < kv.len() ==> knormal_form(#[trigger] kv[i]),
    ensures
        atoms_seq(temp_bind(kv, c).1),
        forall|i: int|
            0 <= i < temp_bind(kv, c).0.len() ==> knormal_form(
                (#[trigger] temp_bind(kv, c).0[i]).1,
            ),
    decreases kv,
{
    if kv.len() > 0 {
        assert(forall|i: int|
            0 <= i < kv.len() - 1 ==> kv.drop_last()[i] == #[trigger] kv[i]);
        lemma_temp_bind_form(kv.drop_last(), c);
        assert(knormal_form(kv.last()));
        let (bs, ks, c1) = temp_bind(kv.drop_last(), c);
        if spec_is_atom(kv.last()) {
            assert(forall|i: int|
                0 <= i < ks.push(kv.last()).len() ==> spec_is_atom(
                    #[trigger] ks.push(kv.last())[i],
                ));
        } else {
            let idx = SpecExpr::Id(tname(c1));
            assert(forall|i: int|
                0 <= i < ks.push(idx).len() ==> spec_is_atom(#[trigger] ks.push(idx)[i]));
            assert(forall|i: int|
                0 <= i < bs.push((tname(c1), kv.last())).len() ==> knormal_form(
                    (#[trigger] bs.push((tname(c1), kv.last()))[i]).1,
                ));
        }
    }
}

proof fn lemma_wrap_lets_form(bs: Seq<(Seq<char>, SpecExpr)>, body: SpecExpr)
    requires
        forall|i: int| 0 <= i < bs.len() ==> knormal_form((#[trigger] bs[i]).1),
        knormal_form(body),
    ensures
        knormal_form(wrap_lets(bs, body)),
    decreases bs,
{
    if bs.len() > 0 {
        assert(forall|i: int|
            0 <= i < bs.len() - 1 ==> bs.drop_first()[i] == #[trigger] bs[i + 1]);
        assert(forall|i: int|
            0 <= i < bs.drop_first().len() ==> knormal_form(
                (#[trigger] bs.drop_first()[i]).1,
            ));
        lemma_wrap_lets_form(bs.drop_first(), body);
        assert(seq![bs[0]][0] == bs[0]);
        assert(knormal_form(bs[0].1));
    }
}

/// On a tree already in K-normal shape the normalizer changes nothing and
/// draws no fresh names.
pub proof fn lemma_knorm_identity(e: SpecExpr, c: nat)
    requires
        knormal_form(e),
    ensures
        spec_knorm(e, c) == (e, c),
    decreases e,
{
    match e {
        SpecExpr::Form(v) => {
            lemma_knorm_seq_atoms(v, c);
            lemma_temp_bind_atoms(v, c);
        },
        SpecExpr::Let { bindings, body } => {
            lemma_knorm_identity(bindings[0].1, c);
            assert(bindings.drop_last() =~= Seq::<(Seq<char>, SpecExpr)>::empty());
            assert(bindings.last() == bindings[0]);
            assert(spec_knorm_binds(Seq::<(Seq<char>, SpecExpr)>::empty(), c) == (
                Seq::<(Seq<char>, SpecExpr)>::empty(),
                c,
            ));
            assert((bindings[0].0, bindings[0].1) == bindings[0]);
            assert(spec_knorm_binds(bindings, c) == (
                Seq::<(Seq<char>, SpecExpr)>::empty().push(bindings[0]),
                c,
            ));
            assert(Seq::<(Seq<char>, SpecExpr)>::empty().push(bindings[0]) =~= bindings);
            lemma_knorm_identity(*body, c);
            assert(wrap_lets(bindings, *body) == (SpecExpr::Let {
                bindings: seq![bindings[0]],
                body: Box::new(wrap_lets(bindings.drop_first(), *body)),
            }));
            assert(bindings.drop_first() =~= Seq::<(Seq<char>, SpecExpr)>::empty());
            assert(seq![bindings[0]] =~= bindings);
        },
        SpecExpr::If { cond, thn, els } => {
            lemma_knorm_identity(*cond, c);
            lemma_knorm_identity(*thn, c);
            lemma_knorm_identity(*els, c);
        },
        SpecExpr::LetFun { name, args, fun_body, expr_body } => {
            lemma_knorm_identity(*fun_body, c);
            lemma_knorm_identity(*expr_body, c);
        },
        SpecExpr::Def { x, y } => {
            lemma_knorm_identity(*y, c);
        },
        _ => {},
    }
}

proof fn lemma_knorm_seq_atoms(v: Seq<SpecExpr>, c: nat)
    requires
        atoms_seq(v),
    ensures
        spec_knorm_seq(v, c) == (v, c),
    decreases v,
{
    if v.len() > 0 {
        assert(forall|i: int|
            0 <= i < v.len() - 1 ==> v.drop_last()[i] == #[trigger] v[i]);
        lemma_knorm_seq_atoms(v.drop_last(), c);
        assert(spec_is_atom(v.last()));
        assert(spec_knorm(v.last(), c) == (v.last(), c));
        assert(v.drop_last().push(v.last()) =~= v);
    } else {
        assert(spec_knorm_seq(v, c).0 =~= v);
    }
}

proof fn lemma_temp_bind_atoms(v: Seq<SpecExpr>, c: nat)
    requires
        atoms_seq(v),
    ensures
        temp_bind(v, c) == (Seq::<(Seq<char>, SpecExpr)>::empty(), v, c),
    decreases v,
{
    if v.len() > 0 {
        assert(forall|i: int|
            0 <= i < v.len() - 1 ==> v.drop_last()[i] == #[trigger] v[i]);
        lemma_temp_bind_atoms(v.drop_last(), c);
        assert(spec_is_atom(v.last()));
        assert(v.drop_last().push(v.last()) =~= v);
    } else {
        assert(temp_bind(v, c).1 =~= v);
    }
}

/// Flattening is idempotent: running K-normalization on its own output
/// reproduces that output exactly, and introduces no further temporaries.
pub proof fn lemma_knormalize_idempotent(e: SpecExpr, c: nat, c2: nat)
    requires
        knorm_input_ok(e),
    ensures
        spec_knormalize(spec_knormalize(e, c).0, c2) == (spec_knormalize(e, c).0, c2),
{
    lemma_desugar_ok(e);
    lemma_knorm_establishes_form(spec_desugar(e), c);

    let k = spec_knormalize(e, c).0;
    lemma_knormal_form_bool_free(k);
    lemma_desugar_identity(k);
    lemma_knorm_identity(k, c2);
}

/// A tree in K-normal shape is valid A-normalizer input.
pub proof fn lemma_knormal_form_anorm_ok(e: SpecExpr)
    requires
        knormal_form(e),
    ensures
        crate::anormal::anorm_input_ok(e),
    decreases e,
{
    match e {
        SpecExpr::Form(v) => {
        },
        SpecExpr::Let { bindings, body } => {
            lemma_knormal_form_anorm_ok(bindings[0].1);
            lemma_knormal_form_anorm_ok(*body);
        },
        SpecExpr::If { cond, thn, els } => {
            lemma_knormal_form_anorm_ok(*cond);
            lemma_knormal_form_anorm_ok(*thn);
            lemma_knormal_form_anorm_ok(*els);
        },
        SpecExpr::LetFun { name, args, fun_body, expr_body } => {
            lemma_knormal_form_anorm_ok(*fun_body);
            lemma_knormal_form_anorm_ok(*expr_body);
        },
        SpecExpr::Def { x, y } => {
            lemma_knormal_form_anorm_ok(*y);
        },
        _ => {},
    }
}

/// Desugaring introduces no definitions.
pub proof fn lemma_desugar_no_defs(e: SpecExpr)
    requires
        crate::ast::no_defs(e),
    ensures
        crate::ast::no_defs(spec_desugar(e)),
    decreases e,
{
    match e {
        SpecExpr::Form(v) => {
            lemma_desugar_no_defs_seq(v);
        },
        SpecExpr::And(v) => {
            lemma_desugar_no_defs_seq(v);
            lemma_build_and_no_defs(spec_desugar_seq(v));
        },
        SpecExpr::Or(v) => {
            lemma_desugar_no_defs_seq(v);
            lemma_build_or_no_defs(spec_desugar_seq(v));
        },
        SpecExpr::Not(b) => {
            lemma_desugar_no_defs(*b);
            assert(crate::ast::no_defs(SpecExpr::Bool(false)));
            assert(crate::ast::no_defs(SpecExpr::Bool(true)));
        },
        SpecExpr::Let { bindings, body } => {
            lemma_desugar_no_defs_binds(bindings);
            lemma_desugar_no_defs(*body);
        },
        SpecExpr::If { cond, thn, els } => {
            lemma_desugar_no_defs(*cond);
            lemma_desugar_no_defs(*thn);
            lemma_desugar_no_defs(*els);
        },
        SpecExpr::Fn { args, body } => {
            lemma_desugar_no_defs(*body);
        },
        SpecExpr::LetFun { name, args, fun_body, expr_body } => {
            lemma_desugar_no_defs(*fun_body);
            lemma_desugar_no_defs(*expr_body);
        },
        SpecExpr::LetClos { name, closid, freevars, body } => {
            lemma_desugar_no_defs(*body);
        },
        _ => {},
    }
}

proof fn lemma_desugar_no_defs_seq(v: Seq<SpecExpr>)
    requires
        crate::ast::no_defs_seq(v),
    ensures
        crate::ast::no_defs_seq(spec_desugar_seq(v)),
        forall|i: int|
            0 <= i < v.len() ==> crate::ast::no_defs(#[trigger] spec_desugar_seq(v)[i]),
        spec_desugar_seq(v).len() == v.len(),
    decreases v,
{
    if v.len() > 0 {
        lemma_desugar_no_defs_seq(v.drop_last());
        lemma_desugar_no_defs(v.last());
        assert forall|i: int|
            0 <= i < v.len() implies crate::ast::no_defs(#[trigger] spec_desugar_seq(v)[i]) by {
            if i < v.len() - 1 {
                assert(spec_desugar_seq(v)[i] == spec_desugar_seq(v.drop_last())[i]);
            }
        }
    }
}

proof fn lemma_desugar_no_defs_binds(v: Seq<(Seq<char>, SpecExpr)>)
    requires
        crate::ast::no_defs_binds(v),
    ensures
        crate::ast::no_defs_binds(spec_desugar_binds(v)),
    decreases v,
{
    if v.len() > 0 {
        lemma_desugar_no_defs_binds(v.drop_last());
        lemma_desugar_no_defs(v.last().1);
    }
}

proof fn lemma_build_and_no_defs(v: Seq<SpecExpr>)
    requires
        forall|i: int| 0 <= i < v.len() ==> crate::ast::no_defs(#[trigger] v[i]),
    ensures
        crate::ast::no_defs(build_and(v)),
    decreases v,
{
    if v.len() >= 2 {
        assert forall|i: int|
            0 <= i < v.drop_first().len() implies crate::ast::no_defs(
            #[trigger] v.drop_first()[i],
        ) by {
            assert(v.drop_first()[i] == v[i + 1]);
        }
        lemma_build_and_no_defs(v.drop_first());
        assert(crate::ast::no_defs(v[0]));
        assert(crate::ast::no_defs(SpecExpr::Bool(false)));
    } else if v.len() == 1 {
        assert(crate::ast::no_defs(v[0]));
    }
}

proof fn lemma_build_or_no_defs(v: Seq<SpecExpr>)
    requires
        forall|i: int| 0 <= i < v.len() ==> crate::ast::no_defs(#[trigger] v[i]),
    ensures
        crate::ast::no_defs(build_or(v)),
    decreases v,
{
    if v.len() >= 2 {
        assert forall|i: int|
            0 <= i < v.drop_first().len() implies crate::ast::no_defs(
            #[trigger] v.drop_first()[i],
        ) by {
            assert(v.drop_first()[i] == v[i + 1]);
        }
        lemma_build_or_no_defs(v.drop_first());
        assert(crate::ast::no_defs(v[0]));
        assert(crate::ast::no_defs(SpecExpr::Bool(true)));
    } else if v.len() == 1 {
        assert(crate::ast::no_defs(v[0]));
    }
}

/// Normalization introduces no definitions.
pub proof fn lemma_knorm_no_defs(e: SpecExpr, c: nat)
    requires
        crate::ast::no_defs(e),
    ensures
        crate::ast::no_defs(spec_knorm(e, c).0),
    decreases e,
{
    reveal_with_fuel(crate::ast::no_defs, 3);
    match e {
        SpecExpr::Form(v) => {
            lemma_knorm_no_defs_seq(v, c);
            let (kv, c1) = spec_knorm_seq(v, c);
            lemma_temp_bind_no_defs(kv, c1);
            let (bs, ks, c2) = temp_bind(kv, c1);
            assert(crate::ast::no_defs(SpecExpr::Form(ks)));
            lemma_wrap_lets_no_defs(bs, SpecExpr::Form(ks));
        },
        SpecExpr::Let { bindings, body } => {
            lemma_knorm_no_defs_binds(bindings, c);
            let (kbs, c1) = spec_knorm_binds(bindings, c);
            lemma_knorm_no_defs(*body, c1);
            lemma_wrap_lets_no_defs(kbs, spec_knorm(*body, c1).0);
        },
        SpecExpr::If { cond, thn, els } => {
            lemma_knorm_no_defs(*cond, c);
            let c1 = spec_knorm(*cond, c).1;
            lemma_knorm_no_defs(*thn, c1);
            let c2 = spec_knorm(*thn, c1).1;
            lemma_knorm_no_defs(*els, c2);
            let (kc, kt, ke) = (
                spec_knorm(*cond, c).0,
                spec_knorm(*thn, c1).0,
                spec_knorm(*els, c2).0,
            );
            if !spec_is_atom(kc) {
                assert(crate::ast::no_defs(SpecExpr::Id(tname(c2))));
                assert(crate::ast::no_defs(SpecExpr::If {
                    cond: Box::new(SpecExpr::Id(tname(c2))),
                    thn: Box::new(kt),
                    els: Box::new(ke),
                }));
                assert(seq![(tname(c2), kc)][0] == (tname(c2), kc));
                assert(crate::ast::no_defs(mk_if(kc, kt, ke, c2).0));
            }
        },
        SpecExpr::Fn { args, body } => {
            lemma_knorm_no_defs(*body, c);
            let c1 = spec_knorm(*body, c).1;
            assert(crate::ast::no_defs(SpecExpr::Id(tname(c1))));
            assert(crate::ast::no_defs(SpecExpr::LetFun {
                name: tname(c1),
                args,
                fun_body: Box::new(spec_knorm(*body, c).0),
                expr_body: Box::new(SpecExpr::Id(tname(c1))),
            }));
        },
        SpecExpr::LetFun { name, args, fun_body, expr_body } => {
            lemma_knorm_no_defs(*fun_body, c);
            let c1 = spec_knorm(*fun_body, c).1;
            lemma_knorm_no_defs(*expr_body, c1);
        },
        _ => {},
    }
}

proof fn lemma_knorm_no_defs_seq(v: Seq<SpecExpr>, c: nat)
    requires
        crate::ast::no_defs_seq(v),
    ensures
        forall|i: int|
            0 <= i < v.len() ==> crate::ast::no_defs(#[trigger] spec_knorm_seq(v, c).0[i]),
        spec_knorm_seq(v, c).0.len() == v.len(),
    decreases v,
{
    if v.len() > 0 {
        lemma_knorm_no_defs_seq(v.drop_last(), c);
        let c1 = spec_knorm_seq(v.drop_last(), c).1;
        lemma_knorm_no_defs(v.last(), c1);
        assert forall|i: int|
            0 <= i < v.len() implies crate::ast::no_defs(
            #[trigger] spec_knorm_seq(v, c).0[i],
        ) by {
            if i < v.len() - 1 {
                assert(spec_knorm_seq(v, c).0[i] == spec_knorm_seq(v.drop_last(), c).0[i]);
            }
        }
    }
}

proof fn lemma_knorm_no_defs_binds(v: Seq<(Seq<char>, SpecExpr)>, c: nat)
    requires
        crate::ast::no_defs_binds(v),
    ensures
        forall|i: int|
            0 <= i < v.len() ==> crate::ast::no_defs(
                (#[trigger] spec_knorm_binds(v, c).0[i]).1,
            ),
        spec_knorm_binds(v, c).0.len() == v.len(),
    decreases v,
{
    if v.len() > 0 {
        lemma_knorm_no_defs_binds(v.drop_last(), c);
        let c1 = spec_knorm_binds(v.drop_last(), c).1;
        lemma_knorm_no_defs(v.last().1, c1);
        assert forall|i: int|
            0 <= i < v.len() implies crate::ast::no_defs(
            (#[trigger] spec_knorm_binds(v, c).0[i]).1,
        ) by {
            if i < v.len() - 1 {
                assert(spec_knorm_binds(v, c).0[i] == spec_knorm_binds(v.drop_last(), c).0[i]);
            }
        }
    }
}

proof fn lemma_temp_bind_no_defs(kv: Seq<SpecExpr>, c: nat)
    requires
        forall|i: int| 0 <= i < kv.len() ==> crate::ast::no_defs(#[trigger] kv[i]),
    ensures
        forall|i: int|
            0 <= i < temp_bind(kv, c).1.len() ==> crate::ast::no_defs(
                #[trigger] temp_bind(kv, c).1[i],
            ),
        forall|i: int|
            0 <= i < temp_bind(kv, c).0.len() ==> crate::ast::no_defs(
                (#[trigger] temp_bind(kv, c).0[i]).1,
            ),
        crate::ast::no_defs_seq(temp_bind(kv, c).1),
    decreases kv,
{
    broadcast use crate::ast::lemma_push_parts;

    if kv.len() > 0 {
        assert(forall|i: int|
            0 <= i < kv.len() - 1 ==> kv.drop_last()[i] == #[trigger] kv[i]);
        lemma_temp_bind_no_defs(kv.drop_last(), c);
        assert(crate::ast::no_defs(kv.last()));
        let (bs, ks, c1) = temp_bind(kv.drop_last(), c);
        if !spec_is_atom(kv.last()) {
            assert(crate::ast::no_defs(SpecExpr::Id(tname(c1))));
        }
    }
}

proof fn lemma_wrap_lets_no_defs(bs: Seq<(Seq<char>, SpecExpr)>, body: SpecExpr)
    requires
        forall|i: int| 0 <= i < bs.len() ==> crate::ast::no_defs((#[trigger] bs[i]).1),
        crate::ast::no_defs(body),
    ensures
        crate::ast::no_defs(wrap_lets(bs, body)),
    decreases bs,
{
    if bs.len() > 0 {
        assert(forall|i: int|
            0 <= i < bs.len() - 1 ==> bs.drop_first()[i] == #[trigger] bs[i + 1]);
        lemma_wrap_lets_no_defs(bs.drop_first(), body);
        assert(seq![bs[0]][0] == bs[0]);
        assert(crate::ast::no_defs(bs[0].1));
        assert(seq![bs[0]].drop_last() =~= Seq::<(Seq<char>, SpecExpr)>::empty());
        assert(crate::ast::no_defs_binds(Seq::<(Seq<char>, SpecExpr)>::empty()));
        assert(crate::ast::no_defs_binds(seq![bs[0]]));
    }
}
/// K-normalization of a whole program, one top-level expression at a time,
/// threading the fresh-name counter.
pub open spec fn spec_knormalize_prog(p: Seq<SpecExpr>, c: nat) -> (Seq<SpecExpr>, nat)
    decreases p,
{
    if p.len() == 0 {
        (Seq::empty(), c)
    } else {
        let (kp, c1) = spec_knormalize_prog(p.drop_last(), c);
        let (ke, c2) = spec_knormalize(p.last(), c1);
        (kp.push(ke), c2)
    }
}

/// The number of nodes in a tree, when it fits in a machine word.
pub fn tree_size(e: &Expr) -> (r: Option<usize>)
    ensures
        match r {
            Some(n) => n as nat == spec_size(e@),
            None => spec_size(e@) > usize::MAX,
        },
    decreases e,
{
    broadcast use crate::ast::lemma_view_exprs, crate::ast::lemma_view_binds, crate::ast::lemma_push_parts;

    match e {
        Expr::Form(v) => size_add_one(tree_size_list(v)),
        Expr::And(v) => size_add_one(tree_size_list(v)),
        Expr::Or(v) => size_add_one(tree_size_list(v)),
        Expr::Not(b) => size_add_one(tree_size(b)),
        Expr::Let { bindings, body } => {
            let sb = tree_size_binds(bindings);
            let s = tree_size(body);
            size_add_one(size_add(sb, s))
        },
        Expr::If { cond, thn, els } => {
            let a = tree_size(cond);
            let b = tree_size(thn);
            let c = tree_size(els);
            size_add_one(size_add(size_add(a, b), c))
        },
        Expr::Fn { args, body } => size_add_one(tree_size(body)),
        Expr::Def { x, y } => size_add_one(tree_size(y)),
        Expr::Defun { name, args, body } => size_add_one(tree_size(body)),
        Expr::LetFun { name, args, fun_body, expr_body } => {
            let a = tree_size(fun_body);
            let b = tree_size(expr_body);
            size_add_one(size_add(a, b))
        },
        Expr::DefClos { name, freevars, args, body } => size_add_one(tree_size(body)),
        Expr::LetClos { name, closid, freevars, body } => size_add_one(tree_size(body)),
        _ => Some(1),
    }
}

/// Checked addition on optional sizes; `None` means "too large".
fn size_add(a: Option<usize>, b: Option<usize>) -> (r: Option<usize>)
    ensures
        match (a, b) {
            (Some(x), Some(y)) => match r {
                Some(n) => n == x + y,
                None => x + y > usize::MAX,
            },
            _ => r is None,
        },
{
    match (a, b) {
        (Some(x), Some(y)) => x.checked_add(y),
        _ => None,
    }
}

fn size_add_one(a: Option<usize>) -> (r: Option<usize>)
    ensures
        match a {
            Some(x) => match r {
                Some(n) => n == x + 1,
                None => x + 1 > usize::MAX,
            },
            None => r is None,
        },
{
    match a {
        Some(x) => x.checked_add(1),
        None => None,
    }
}

/// The summed sizes of a list of trees, relative to `spec_size_seq`.
#[verifier::loop_isolation(false)]
fn tree_size_list(v: &Vec<Expr>) -> (r: Option<usize>)
    ensures
        match r {
            Some(n) => n as nat == spec_size_seq(view_exprs(v@)),
            None => spec_size_seq(view_exprs(v@)) > usize::MAX,
        },
    decreases v,
{
    broadcast use crate::ast::lemma_view_exprs, crate::ast::lemma_push_parts;

    let ghost sv = view_exprs(v@);
    let mut total: Option<usize> = Some(0);
    let mut i: usize = 0;
    proof {
        assert(spec_size_seq(sv.take(0)) == 0) by {
            assert(sv.take(0) =~= Seq::<SpecExpr>::empty());
        }
    }
    while i < v.len()
        invariant
            i <= v.len(),
            match total {
                Some(n) => n as nat == spec_size_seq(sv.take(i as int)),
                None => spec_size_seq(sv.take(i as int)) > usize::MAX,
            },
        decreases v.len() - i,
    {
        let s = tree_size(&v[i]);
        proof {
            assert(sv.take(i as int).push(sv[i as int]) =~= sv.take(i + 1));
        }
        total = size_add(total, s);
        proof {
            if total is None {
                lemma_size_seq_take_le_gen(sv, i + 1);
            }
        }
        i = i + 1;
    }
    proof {
        assert(sv.take(i as int) =~= sv);
    }
    total
}

/// A prefix weighs no more than the whole list.
proof fn lemma_size_seq_take_le_gen(v: Seq<SpecExpr>, i: int)
    requires
        0 <= i <= v.len(),
    ensures
        spec_size_seq(v.take(i)) <= spec_size_seq(v),
{
    lemma_size_seq_take_le(v, i);
}

/// The summed sizes of a binding list.
#[verifier::loop_isolation(false)]
fn tree_size_binds(v: &Vec<(String, Expr)>) -> (r: Option<usize>)
    ensures
        match r {
            Some(n) => n as nat == spec_size_binds(view_binds(v@)),
            None => spec_size_binds(view_binds(v@)) > usize::MAX,
        },
    decreases v,
{
    broadcast use crate::ast::lemma_view_binds, crate::ast::lemma_push_parts;

    let ghost bv = view_binds(v@);
    let mut total: Option<usize> = Some(0);
    let mut i: usize = 0;
    proof {
        assert(spec_size_binds(bv.take(0)) == 0) by {
            assert(bv.take(0) =~= Seq::<(Seq<char>, SpecExpr)>::empty());
        }
    }
    while i < v.len()
        invariant
            i <= v.len(),
            match total {
                Some(n) => n as nat == spec_size_binds(bv.take(i as int)),
                None => spec_size_binds(bv.take(i as int)) > usize::MAX,
            },
        decreases v.len() - i,
    {
        proof {
            assert(bv[i as int] == (v@[i as int].0@, view_expr(v@[i as int].1)));
        }
        let s = tree_size(&v[i].1);
        proof {
            assert(bv.take(i as int).push(bv[i as int]) =~= bv.take(i + 1));
        }
        total = size_add(total, s);
        proof {
            if total is None {
                lemma_size_binds_take_le(bv, i + 1);
            }
        }
        i = i + 1;
    }
    proof {
        assert(bv.take(i as int) =~= bv);
    }
    total
}
} // verus!
