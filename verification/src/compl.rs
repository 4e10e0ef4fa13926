//! The compiler pipeline: K-normalization, A-normalization, copy
//! propagation and closure conversion, serialized either as the textual
//! intermediate representation or as C-like target code.  Each pass's
//! precondition is proved from the previous pass's contract, so one check of
//! the surface input carries the whole chain.

use vstd::prelude::*;
use crate::ast::{Expr, SpecExpr, view_expr, view_exprs, view_binds, no_defs, no_defs_seq, no_defs_binds};
use crate::knormal::{
    knorm_input_ok, knorm_input_ok_seq, knorm_input_ok_binds, knormal_form, spec_knormalize,
    spec_knormalize_prog, spec_desugar, spec_size, tree_size, desugar_bools,
};
use crate::anormal::spec_anormalize_prog;
use crate::copyprop::{spec_copy_prop, cp_prog_ok};
use crate::closure::{spec_closure_convert, cc_prog_ok};
use crate::formatter::{spec_format_prog, format_prog};
use crate::util::NameGenerator;

verus! {

/// Valid surface input for the pipeline: definitions only at the top level,
/// applications never empty, and no closure nodes (those are pipeline
/// output).
pub open spec fn top_input_ok(e: SpecExpr) -> bool {
    match e {
        SpecExpr::Def { x, y } => knorm_input_ok(*y) && no_defs(*y),
        SpecExpr::Defun { name, args, body } => knorm_input_ok(*body) && no_defs(*body),
        _ => knorm_input_ok(e) && no_defs(e),
    }
}

pub open spec fn prog_input_ok(p: Seq<SpecExpr>) -> bool
    decreases p,
{
    if p.len() == 0 {
        true
    } else {
        prog_input_ok(p.drop_last()) && top_input_ok(p.last())
    }
}

/// Where a top-level definition may stand after K-normalization.
pub open spec fn defsplit(e: SpecExpr) -> bool {
    match e {
        SpecExpr::Def { x, y } => no_defs(*y),
        _ => no_defs(e),
    }
}

/// The shape of a K-normalized program.
pub open spec fn kform_prog_ok(q: Seq<SpecExpr>) -> bool
    decreases q,
{
    if q.len() == 0 {
        true
    } else {
        kform_prog_ok(q.drop_last()) && knormal_form(q.last()) && defsplit(q.last())
    }
}

/// K-normalizing a valid top-level item leaves it K-normal, with any
/// definition still confined to the top.
pub proof fn lemma_knormalize_item(t: SpecExpr, c: nat)
    requires
        top_input_ok(t),
    ensures
        knormal_form(spec_knormalize(t, c).0),
        defsplit(spec_knormalize(t, c).0),
{
    match t {
        SpecExpr::Def { x, y } => {
            crate::knormal::lemma_desugar_ok(t);
            crate::knormal::lemma_knorm_establishes_form(spec_desugar(t), c);
            crate::knormal::lemma_desugar_no_defs(*y);
            crate::knormal::lemma_knorm_no_defs(spec_desugar(*y), c);
        },
        SpecExpr::Defun { name, args, body } => {
            crate::knormal::lemma_desugar_ok(t);
            crate::knormal::lemma_knorm_establishes_form(spec_desugar(t), c);
            crate::knormal::lemma_desugar_no_defs(*body);
            crate::knormal::lemma_knorm_no_defs(spec_desugar(*body), c);
            let kb = crate::knormal::spec_knorm(spec_desugar(*body), c).0;
            let c1 = crate::knormal::spec_knorm(spec_desugar(*body), c).1;
            assert(no_defs(SpecExpr::Id(crate::knormal::tname(c1))));
            assert(no_defs(SpecExpr::LetFun {
                name: crate::knormal::tname(c1),
                args,
                fun_body: Box::new(kb),
                expr_body: Box::new(SpecExpr::Id(crate::knormal::tname(c1))),
            }));
        },
        _ => {
            crate::knormal::lemma_desugar_ok(t);
            crate::knormal::lemma_knorm_establishes_form(spec_desugar(t), c);
            crate::knormal::lemma_desugar_no_defs(t);
            crate::knormal::lemma_knorm_no_defs(spec_desugar(t), c);
            let k = spec_knormalize(t, c).0;
            assert(defsplit(k)) by {
                if k is Def {
                    assert(!no_defs(k));
                }
            }
        },
    }
}

/// K-normalizing a valid program leaves a K-normal program.
pub proof fn lemma_knormalize_prog_ok(p: Seq<SpecExpr>, c: nat)
    requires
        prog_input_ok(p),
    ensures
        kform_prog_ok(spec_knormalize_prog(p, c).0),
    decreases p,
{
    broadcast use crate::ast::lemma_push_parts;

    if p.len() > 0 {
        lemma_knormalize_prog_ok(p.drop_last(), c);
        let c1 = spec_knormalize_prog(p.drop_last(), c).1;
        lemma_knormalize_item(p.last(), c1);
    }
}

/// A K-normal program is valid A-normalizer input.
pub proof fn lemma_kform_anorm_ok(q: Seq<SpecExpr>)
    requires
        kform_prog_ok(q),
    ensures
        crate::anormal::anorm_input_ok_prog(q),
    decreases q,
{
    if q.len() > 0 {
        lemma_kform_anorm_ok(q.drop_last());
        crate::knormal::lemma_knormal_form_anorm_ok(q.last());
    }
}

/// A-normalizing a K-normal program leaves valid copy-propagation input.
pub proof fn lemma_anorm_prog_cp_ok(q: Seq<SpecExpr>)
    requires
        kform_prog_ok(q),
    ensures
        cp_prog_ok(spec_anormalize_prog(q)),
    decreases q,
{
    broadcast use crate::ast::lemma_push_parts;

    if q.len() > 0 {
        lemma_anorm_prog_cp_ok(q.drop_last());
        crate::anormal::lemma_anorm_cp_top_ok(q.last());
    }
}

/// The lowered program a valid surface program compiles to, together with
/// the final fresh-name counter.
pub open spec fn spec_lowered(p: Seq<SpecExpr>) -> (Seq<SpecExpr>, nat) {
    let (kp, c1) = spec_knormalize_prog(p, 0);
    let ap = spec_anormalize_prog(kp);
    let cp = spec_copy_prop(ap);
    spec_closure_convert(cp, c1)
}

/// Valid surface input yields valid closure-conversion input.
pub proof fn lemma_pipeline_ok(p: Seq<SpecExpr>)
    requires
        prog_input_ok(p),
    ensures
        crate::anormal::anorm_input_ok_prog(spec_knormalize_prog(p, 0).0),
        cp_prog_ok(spec_anormalize_prog(spec_knormalize_prog(p, 0).0)),
        cc_prog_ok(spec_copy_prop(spec_anormalize_prog(spec_knormalize_prog(p, 0).0))),
{
    lemma_knormalize_prog_ok(p, 0);
    let kp = spec_knormalize_prog(p, 0).0;
    lemma_kform_anorm_ok(kp);
    lemma_anorm_prog_cp_ok(kp);
    crate::closure::lemma_cp_prog_cc_ok(
        spec_anormalize_prog(kp),
        Seq::<(Seq<char>, SpecExpr)>::empty(),
    );
}

/// Whether `e` is valid surface input, as a runtime check.
pub fn check_top_input(e: &Expr) -> (r: bool)
    ensures
        r == top_input_ok(e@),
{
    match e {
        Expr::Def { x, y } => check_expr_input(y),
        Expr::Defun { name, args, body } => check_expr_input(body),
        other => check_expr_input(other),
    }
}

/// Whether `e` is valid in expression position: no definitions, no closure
/// nodes, no empty applications.
#[verifier::loop_isolation(false)]
pub fn check_expr_input(e: &Expr) -> (r: bool)
    ensures
        r == (knorm_input_ok(e@) && no_defs(e@)),
    decreases e,
{
    broadcast use crate::ast::lemma_view_exprs, crate::ast::lemma_view_binds, crate::ast::lemma_push_parts;

    match e {
        Expr::Form(v) => {
            if v.len() == 0 {
                proof {
                    assert(view_exprs(v@).len() == 0);
                }
                false
            } else {
                proof {
                    assert(view_exprs(v@).len() > 0);
                }
                check_expr_list(v)
            }
        },
        Expr::And(v) => check_expr_list(v),
        Expr::Or(v) => check_expr_list(v),
        Expr::Not(b) => check_expr_input(b),
        Expr::Let { bindings, body } => {
            let bs_ok = check_expr_binds(bindings);
            bs_ok && check_expr_input(body)
        },
        Expr::If { cond, thn, els } => {
            let a = check_expr_input(cond);
            let b = a && check_expr_input(thn);
            b && check_expr_input(els)
        },
        Expr::Fn { args, body } => check_expr_input(body),
        Expr::LetFun { name, args, fun_body, expr_body } => {
            let a = check_expr_input(fun_body);
            a && check_expr_input(expr_body)
        },
        Expr::Def { .. } => false,
        Expr::Defun { .. } => false,
        Expr::DefClos { .. } => false,
        Expr::LetClos { .. } => false,
        _ => true,
    }
}

#[verifier::loop_isolation(false)]
fn check_expr_list(v: &Vec<Expr>) -> (r: bool)
    ensures
        r == (knorm_input_ok_seq(view_exprs(v@)) && no_defs_seq(view_exprs(v@))),
    decreases v,
{
    broadcast use crate::ast::lemma_view_exprs, crate::ast::lemma_push_parts;

    let ghost sv = view_exprs(v@);
    let mut i: usize = 0;
    proof {
        assert(sv.take(0) =~= Seq::<SpecExpr>::empty());
    }
    while i < v.len()
        invariant
            i <= v.len(),
            knorm_input_ok_seq(sv.take(i as int)),
            no_defs_seq(sv.take(i as int)),
        decreases v.len() - i,
    {
        let ok = check_expr_input(&v[i]);
        proof {
            assert(sv.take(i as int).push(sv[i as int]) =~= sv.take(i + 1));
        }
        if !ok {
            proof {
                lemma_seq_pred_prefix(sv, i as int);
            }
            return false;
        }
        i = i + 1;
    }
    proof {
        assert(sv.take(i as int) =~= sv);
    }
    true
}

/// If a sequence predicate holds of the whole, it holds of the element.
proof fn lemma_seq_pred_prefix(v: Seq<SpecExpr>, i: int)
    requires
        0 <= i < v.len(),
    ensures
        knorm_input_ok_seq(v) ==> knorm_input_ok(v[i]),
        no_defs_seq(v) ==> no_defs(v[i]),
    decreases v,
{
    if i == v.len() - 1 {
    } else {
        lemma_seq_pred_prefix(v.drop_last(), i);
        assert(v.drop_last()[i] == v[i]);
    }
}

#[verifier::loop_isolation(false)]
fn check_expr_binds(v: &Vec<(String, Expr)>) -> (r: bool)
    ensures
        r == (knorm_input_ok_binds(view_binds(v@)) && no_defs_binds(view_binds(v@))),
    decreases v,
{
    broadcast use crate::ast::lemma_view_binds, crate::ast::lemma_push_parts;

    let ghost bv = view_binds(v@);
    let mut i: usize = 0;
    proof {
        assert(bv.take(0) =~= Seq::<(Seq<char>, SpecExpr)>::empty());
    }
    while i < v.len()
        invariant
            i <= v.len(),
            knorm_input_ok_binds(bv.take(i as int)),
            no_defs_binds(bv.take(i as int)),
        decreases v.len() - i,
    {
        proof {
            assert(bv[i as int] == (v@[i as int].0@, view_expr(v@[i as int].1)));
        }
        let ok = check_expr_input(&v[i].1);
        proof {
            assert(bv.take(i as int).push(bv[i as int]) =~= bv.take(i + 1));
        }
        if !ok {
            proof {
                lemma_binds_pred_prefix(bv, i as int);
            }
            return false;
        }
        i = i + 1;
    }
    proof {
        assert(bv.take(i as int) =~= bv);
    }
    true
}

proof fn lemma_binds_pred_prefix(v: Seq<(Seq<char>, SpecExpr)>, i: int)
    requires
        0 <= i < v.len(),
    ensures
        knorm_input_ok_binds(v) ==> knorm_input_ok(v[i].1),
        no_defs_binds(v) ==> no_defs(v[i].1),
    decreases v,
{
    if i == v.len() - 1 {
    } else {
        lemma_binds_pred_prefix(v.drop_last(), i);
        assert(v.drop_last()[i] == v[i]);
    }
}

/// Whether the fresh-name counter survives K-normalizing every item.
pub open spec fn knorm_budget_ok(p: Seq<SpecExpr>, c: nat) -> bool
    decreases p,
{
    if p.len() == 0 {
        true
    } else {
        knorm_budget_ok(p.drop_last(), c) && spec_knormalize_prog(p.drop_last(), c).1 + 2
            * spec_size(spec_desugar(p.last())) <= usize::MAX
    }
}

/// Whether the machine limits hold along the whole lowering.
pub open spec fn lowering_fits(p: Seq<SpecExpr>) -> bool {
    let (kp, c1) = spec_knormalize_prog(p, 0);
    let cp = spec_copy_prop(spec_anormalize_prog(kp));
    knorm_budget_ok(p, 0) && c1 + crate::knormal::spec_size_seq(cp) <= usize::MAX
}

/// Whether every lowered item is small enough to render.
pub open spec fn render_fits(q: Seq<SpecExpr>) -> bool {
    forall|j: int| 0 <= j < q.len() ==> 2 * spec_size(#[trigger] q[j]) <= usize::MAX
}

/// Lower a surface program and render the result as the textual
/// intermediate representation.  Fails exactly when the input is not valid
/// surface input or a machine limit would be hit.
#[verifier::loop_isolation(false)]
pub fn compl_to_ir(prog: Vec<Expr>) -> (r: Result<String, String>)
    ensures
        r matches Ok(s) ==> prog_input_ok(view_exprs(prog@)) && lowering_fits(view_exprs(prog@))
            && render_fits(spec_lowered(view_exprs(prog@)).0) && s@ == spec_format_prog(
            spec_lowered(view_exprs(prog@)).0,
        ),
        r is Err ==> !(prog_input_ok(view_exprs(prog@)) && lowering_fits(view_exprs(prog@))
            && render_fits(spec_lowered(view_exprs(prog@)).0)),
{
    broadcast use crate::ast::lemma_view_exprs;

    let ghost pv = view_exprs(prog@);
    let lowered = lower(prog)?;
    let ghost lv = view_exprs(lowered@);
    let mut i: usize = 0;
    while i < lowered.len()
        invariant
            i <= lowered.len(),
            lv == view_exprs(lowered@),
            forall|j: int| 0 <= j < i ==> 2 * spec_size(#[trigger] lv[j]) <= usize::MAX,
        decreases lowered.len() - i,
    {
        match tree_size(&lowered[i]) {
            Some(n) => {
                if n > usize::MAX / 2 {
                    return Err(string_too_large());
                }
            },
            None => {
                return Err(string_too_large());
            },
        }
        i = i + 1;
    }
    let text = format_prog(&lowered);
    Ok(text)
}

/// Run the four lowering passes on a surface program.
#[verifier::loop_isolation(false)]
fn lower(prog: Vec<Expr>) -> (r: Result<Vec<Expr>, String>)
    ensures
        r matches Ok(q) ==> prog_input_ok(view_exprs(prog@)) && lowering_fits(view_exprs(prog@))
            && view_exprs(q@) == spec_lowered(view_exprs(prog@)).0,
        r is Err ==> !(prog_input_ok(view_exprs(prog@)) && lowering_fits(view_exprs(prog@))),
{
    broadcast use crate::ast::lemma_view_exprs, crate::ast::lemma_push_parts;

    let ghost pv = view_exprs(prog@);
    let mut i: usize = 0;
    proof {
        assert(pv.take(0) =~= Seq::<SpecExpr>::empty());
    }
    while i < prog.len()
        invariant
            i <= prog.len(),
            prog_input_ok(pv.take(i as int)),
        decreases prog.len() - i,
    {
        let ok = check_top_input(&prog[i]);
        proof {
            assert(pv.take(i as int).push(pv[i as int]) =~= pv.take(i + 1));
        }
        if !ok {
            proof {
                lemma_prog_input_prefix(pv, i as int);
            }
            return Err(string_invalid_input());
        }
        i = i + 1;
    }
    proof {
        assert(pv.take(i as int) =~= pv);
        lemma_pipeline_ok(pv);
    }
    let mut namer = NameGenerator::new();
    let mut kprog: Vec<Expr> = Vec::new();
    let mut j: usize = 0;
    proof {
        assert(knorm_budget_ok(pv.take(0), 0));
    }
    while j < prog.len()
        invariant
            j <= prog.len(),
            kprog@.len() == j,
            prog_input_ok(pv),
            knorm_budget_ok(pv.take(j as int), 0),
            view_exprs(kprog@) == spec_knormalize_prog(pv.take(j as int), 0).0,
            namer.counter as nat == spec_knormalize_prog(pv.take(j as int), 0).1,
        decreases prog.len() - j,
    {
        let d = desugar_bools(&prog[j]);
        proof {
            assert(pv.take(j as int).push(pv[j as int]) =~= pv.take(j + 1));
            lemma_prog_input_prefix(pv, j as int);
            lemma_top_knorm_ok(pv[j as int]);
            crate::knormal::lemma_desugar_ok(pv[j as int]);
        }
        let fits = match tree_size(&d) {
            Some(n) => n <= (usize::MAX - namer.counter) / 2,
            None => false,
        };
        if !fits {
            proof {
                lemma_budget_prefix(pv, j as int);
            }
            return Err(string_too_large());
        }
        let k = crate::knormal::k_normal_core(&d, &mut namer);
        kprog.push(k);
        j = j + 1;
    }
    proof {
        assert(pv.take(j as int) =~= pv);
    }
    let ghost kv = view_exprs(kprog@);
    let ghost c1 = namer.counter as nat;
    let aprog = crate::anormal::a_normalize(kprog);
    let cprog = crate::copyprop::copy_prop(aprog);
    let fits2 = match tree_size_prog(&cprog) {
        Some(n) => {
            let headroom = usize::MAX - namer.counter;
            n <= headroom
        },
        None => false,
    };
    if !fits2 {
        return Err(string_too_large());
    }
    let lprog = crate::closure::closure_convert(cprog, &mut namer);
    Ok(lprog)
}

/// The summed sizes of the top-level items.
#[verifier::loop_isolation(false)]
fn tree_size_prog(v: &Vec<Expr>) -> (r: Option<usize>)
    ensures
        match r {
            Some(n) => n as nat == crate::knormal::spec_size_seq(view_exprs(v@)),
            None => crate::knormal::spec_size_seq(view_exprs(v@)) > usize::MAX,
        },
{
    broadcast use crate::ast::lemma_view_exprs, crate::ast::lemma_push_parts;

    let ghost sv = view_exprs(v@);
    let mut total: usize = 0;
    let mut i: usize = 0;
    proof {
        assert(crate::knormal::spec_size_seq(sv.take(0)) == 0) by {
            assert(sv.take(0) =~= Seq::<SpecExpr>::empty());
        }
    }
    while i < v.len()
        invariant
            i <= v.len(),
            total as nat == crate::knormal::spec_size_seq(sv.take(i as int)),
        decreases v.len() - i,
    {
        proof {
            assert(sv.take(i as int).push(sv[i as int]) =~= sv.take(i + 1));
        }
        match tree_size(&v[i]) {
            Some(n) => {
                match total.checked_add(n) {
                    Some(t) => {
                        total = t;
                    },
                    None => {
                        proof {
                            crate::knormal::lemma_size_seq_take_le(sv, i + 1);
                        }
                        return None;
                    },
                }
            },
            None => {
                proof {
                    crate::knormal::lemma_size_seq_take_le(sv, i + 1);
                    crate::knormal::lemma_size_seq_split(sv, i as int);
                }
                return None;
            },
        }
        i = i + 1;
    }
    proof {
        assert(sv.take(i as int) =~= sv);
    }
    Some(total)
}

proof fn lemma_prog_input_prefix(p: Seq<SpecExpr>, i: int)
    requires
        0 <= i < p.len(),
    ensures
        prog_input_ok(p) ==> top_input_ok(p[i]),
    decreases p,
{
    if i == p.len() - 1 {
    } else {
        lemma_prog_input_prefix(p.drop_last(), i);
        assert(p.drop_last()[i] == p[i]);
    }
}

proof fn lemma_budget_prefix(p: Seq<SpecExpr>, i: int)
    requires
        0 <= i < p.len(),
        !(spec_knormalize_prog(p.take(i), 0).1 + 2 * spec_size(spec_desugar(p[i]))
            <= usize::MAX),
    ensures
        !knorm_budget_ok(p, 0),
    decreases p,
{
    broadcast use crate::ast::lemma_push_parts;

    if i == p.len() - 1 {
        assert(p.take(i) =~= p.drop_last());
    } else {
        assert(p.drop_last().take(i) =~= p.take(i));
        assert(p.drop_last()[i] == p[i]);
        lemma_budget_prefix(p.drop_last(), i);
    }
}

/// A valid top-level item is valid normalizer input as a whole node.
proof fn lemma_top_knorm_ok(t: SpecExpr)
    requires
        top_input_ok(t),
    ensures
        knorm_input_ok(t),
{
}

fn string_invalid_input() -> (r: String)
    ensures
        true,
{
    String::from_str("invalid input: definitions must be top-level forms and applications must name an operator")
}

fn string_too_large() -> (r: String)
    ensures
        true,
{
    String::from_str("program too large for this machine")
}
/// Whether the lowered program is small enough for the code generator's
/// temporary counter.
pub open spec fn cgen_fits(q: Seq<SpecExpr>) -> bool {
    crate::knormal::spec_size_seq(q) <= usize::MAX && 2 * crate::knormal::spec_size_seq(q) + 2
        * q.len() <= u64::MAX
}

/// Lower a surface program and generate C-like target code.  Fails exactly
/// when the input is not valid surface input, a machine limit would be hit,
/// or the lowered program still holds an unresolved identifier.
#[verifier::rlimit(100)]
pub fn compl_to_c(prog: Vec<Expr>) -> (r: Result<String, String>)
    ensures
        r matches Ok(s) ==> prog_input_ok(view_exprs(prog@)) && lowering_fits(view_exprs(prog@))
            && cgen_fits(spec_lowered(view_exprs(prog@)).0) && crate::codegen::spec_generate_c(
            spec_lowered(view_exprs(prog@)).0,
        ) == Some(s@),
        r is Err ==> !(prog_input_ok(view_exprs(prog@)) && lowering_fits(view_exprs(prog@))
            && cgen_fits(spec_lowered(view_exprs(prog@)).0) && crate::codegen::spec_generate_c(
            spec_lowered(view_exprs(prog@)).0,
        ) is Some),
{
    broadcast use crate::ast::lemma_view_exprs;

    let ghost pv = view_exprs(prog@);
    let lowered = lower(prog)?;
    let ghost q = view_exprs(lowered@);
    proof {
        assert(q.len() == lowered@.len());
    }
    let fits = match tree_size_prog(&lowered) {
        Some(n) => {
            let n64 = n as u64;
            let len64 = lowered.len() as u64;
            match n64.checked_mul(2) {
                Some(a) => match len64.checked_mul(2) {
                    Some(b) => match a.checked_add(b) {
                        Some(_) => true,
                        None => false,
                    },
                    None => false,
                },
                None => false,
            }
        },
        None => false,
    };
    if !fits {
        proof {
            assert(!cgen_fits(q));
        }
        return Err(string_too_large());
    }
    crate::codegen::generate_c_code(lowered)
}
} // verus!
