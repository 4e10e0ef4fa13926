//! Copy propagation: eliminate trivial variable/atom aliasing by threading a
//! scoped substitution environment through an A-normal tree.

use vstd::prelude::*;
use crate::ast::{Expr, SpecExpr, spec_is_atom, view_expr, view_exprs, view_binds, view_ids};
use crate::anormal::clone_expr;

verus! {

broadcast use crate::ast::lemma_view_exprs, crate::ast::lemma_view_binds, crate::ast::lemma_push_parts;

/// The substitution environment: name-to-atom bindings, most recent last.
pub struct Env(pub Vec<(String, Expr)>);

pub open spec fn view_env(env: Seq<(String, Expr)>) -> Seq<(Seq<char>, SpecExpr)> {
    view_binds(env)
}

/// The most recent binding of `id`, if any.
pub open spec fn spec_lookup(env: Seq<(Seq<char>, SpecExpr)>, id: Seq<char>) -> Option<SpecExpr>
    decreases env,
{
    if env.len() == 0 {
        Option::None
    } else if env.last().0 == id {
        Option::Some(env.last().1)
    } else {
        spec_lookup(env.drop_last(), id)
    }
}

/// Follow bindings while the bound value is itself an identifier, stopping at
/// a non-identifier atom or an unbound name.  The fuel bounds the walk; with
/// `env.len() + 1` units it reaches the end of every alias chain that does
/// not revisit a name.
pub open spec fn spec_chase(env: Seq<(Seq<char>, SpecExpr)>, id: Seq<char>, fuel: nat) -> SpecExpr
    decreases fuel,
{
    if fuel == 0 {
        SpecExpr::Id(id)
    } else {
        match spec_lookup(env, id) {
            Option::None => SpecExpr::Id(id),
            Option::Some(v) => match v {
                SpecExpr::Id(id2) => spec_chase(env, id2, (fuel - 1) as nat),
                _ => v,
            },
        }
    }
}

/// What an identifier resolves to under the environment.
pub open spec fn spec_origin(env: Seq<(Seq<char>, SpecExpr)>, id: Seq<char>) -> SpecExpr {
    spec_chase(env, id, env.len() + 1)
}

/// Valid expression-position input for copy propagation: an A-normal,
/// fully desugared tree.  Definitions are valid only at the top level of a
/// program, never in expression position.
pub open spec fn cp_expr_ok(e: SpecExpr) -> bool
    decreases e,
{
    match e {
        SpecExpr::Form(v) => cp_expr_ok_seq(v),
        SpecExpr::Let { bindings, body } => bindings.len() == 1 && cp_expr_ok(bindings[0].1)
            && cp_expr_ok(*body),
        SpecExpr::If { cond, thn, els } => cp_expr_ok(*cond) && cp_expr_ok(*thn) && cp_expr_ok(
            *els,
        ),
        SpecExpr::LetFun { name, args, fun_body, expr_body } => cp_expr_ok(*fun_body)
            && cp_expr_ok(*expr_body),
        SpecExpr::And(_) => false,
        SpecExpr::Or(_) => false,
        SpecExpr::Not(_) => false,
        SpecExpr::Fn { .. } => false,
        SpecExpr::Def { .. } => false,
        SpecExpr::Defun { .. } => false,
        SpecExpr::DefClos { .. } => false,
        SpecExpr::LetClos { .. } => false,
        _ => true,
    }
}

pub open spec fn cp_expr_ok_seq(v: Seq<SpecExpr>) -> bool
    decreases v,
{
    if v.len() == 0 {
        true
    } else {
        cp_expr_ok_seq(v.drop_last()) && cp_expr_ok(v.last())
    }
}

/// Copy propagation of one expression under an environment.
pub open spec fn spec_cp(e: SpecExpr, env: Seq<(Seq<char>, SpecExpr)>) -> SpecExpr
    decreases e,
{
    match e {
        SpecExpr::Id(id) => spec_origin(env, id),
        SpecExpr::Form(v) => SpecExpr::Form(spec_cp_seq(v, env)),
        SpecExpr::Let { bindings, body } => {
            if bindings.len() == 1 {
                let x = bindings[0].0;
                let e1 = bindings[0].1;
                if e1 == SpecExpr::Id(x) {
                    *body
                } else {
                    let pe = spec_cp(e1, env);
                    if spec_is_atom(pe) {
                        spec_cp(*body, env.push((x, pe)))
                    } else {
                        SpecExpr::Let {
                            bindings: seq![(x, pe)],
                            body: Box::new(spec_cp(*body, env)),
                        }
                    }
                }
            } else {
                e
            }
        },
        SpecExpr::If { cond, thn, els } => SpecExpr::If {
            cond: Box::new(spec_cp(*cond, env)),
            thn: Box::new(spec_cp(*thn, env)),
            els: Box::new(spec_cp(*els, env)),
        },
        SpecExpr::LetFun { name, args, fun_body, expr_body } => SpecExpr::LetFun {
            name,
            args,
            fun_body: Box::new(spec_cp(*fun_body, env)),
            expr_body: Box::new(spec_cp(*expr_body, env)),
        },
        _ => e,
    }
}

pub open spec fn spec_cp_seq(v: Seq<SpecExpr>, env: Seq<(Seq<char>, SpecExpr)>) -> Seq<SpecExpr>
    decreases v,
{
    if v.len() == 0 {
        Seq::empty()
    } else {
        spec_cp_seq(v.drop_last(), env).push(spec_cp(v.last(), env))
    }
}

/// Valid top-level input: definitions may stand at the top of the program,
/// with valid expression bodies.
pub open spec fn cp_top_ok(e: SpecExpr) -> bool {
    match e {
        SpecExpr::Def { x, y } => cp_expr_ok(*y),
        SpecExpr::Defun { name, args, body } => cp_expr_ok(*body),
        _ => cp_expr_ok(e),
    }
}

pub open spec fn cp_prog_ok(p: Seq<SpecExpr>) -> bool
    decreases p,
{
    if p.len() == 0 {
        true
    } else {
        cp_prog_ok(p.drop_last()) && cp_top_ok(p.last())
    }
}

/// Copy propagation over a program: a top-level definition whose propagated
/// value is an atom is recorded in the environment instead of being emitted
/// (unless it is a self-binding, which is dropped without recording); all
/// other items are emitted with their sub-expressions propagated.
pub open spec fn spec_copy_prop(p: Seq<SpecExpr>) -> Seq<SpecExpr> {
    spec_cp_prog(p, Seq::empty()).0
}

pub open spec fn spec_cp_prog(p: Seq<SpecExpr>, env0: Seq<(Seq<char>, SpecExpr)>) -> (
    Seq<SpecExpr>,
    Seq<(Seq<char>, SpecExpr)>,
)
    decreases p,
{
    if p.len() == 0 {
        (Seq::empty(), env0)
    } else {
        let (out, env) = spec_cp_prog(p.drop_last(), env0);
        spec_cp_top(p.last(), out, env)
    }
}

pub open spec fn spec_cp_top(
    e: SpecExpr,
    out: Seq<SpecExpr>,
    env: Seq<(Seq<char>, SpecExpr)>,
) -> (Seq<SpecExpr>, Seq<(Seq<char>, SpecExpr)>) {
    match e {
        SpecExpr::Def { x, y } => {
            let ny = spec_cp(*y, env);
            if spec_is_atom(ny) {
                if ny == SpecExpr::Id(x) {
                    (out, env)
                } else {
                    (out, env.push((x, ny)))
                }
            } else {
                (out.push(SpecExpr::Def { x, y: Box::new(ny) }), env)
            }
        },
        SpecExpr::Defun { name, args, body } => (
            out.push(SpecExpr::Defun { name, args, body: Box::new(spec_cp(*body, env)) }),
            env,
        ),
        _ => (out.push(spec_cp(e, env)), env),
    }
}

impl Env {
    /// An empty substitution environment.
    pub fn new() -> (r: Env)
        ensures
            view_env(r.0@) == Seq::<(Seq<char>, SpecExpr)>::empty(),
    {
        let r = Env(Vec::new());
        proof {
            assert(view_env(r.0@) =~= Seq::<(Seq<char>, SpecExpr)>::empty());
        }
        r
    }

    /// Record that `x` stands for `e`.
    pub fn push(&mut self, x: String, e: Expr)
        ensures
            view_env(final(self).0@) == view_env(old(self).0@).push((x@, e@)),
    {
        let ghost xv = x@;
        let ghost ev = e@;
        let pair = (x, e);
        proof {
            assert(view_binds(self.0@.push(pair)) == view_binds(self.0@).push(
                (pair.0@, view_expr(pair.1)),
            ));
        }
        self.0.push(pair);
    }

    /// The most recent binding of `id`, if any.
    fn get(&self, id: &String) -> (r: Option<&Expr>)
        ensures
            match r {
                Option::Some(e) => spec_lookup(view_env(self.0@), id@) == Option::Some(e@),
                Option::None => spec_lookup(view_env(self.0@), id@) is None,
            },
    {
        let ghost envv = view_env(self.0@);
        proof {
            assert(envv.take(self.0@.len() as int) =~= envv);
        }
        let mut i: usize = self.0.len();
        while i > 0
            invariant
                i <= self.0.len(),
                envv == view_env(self.0@),
                spec_lookup(envv, id@) == spec_lookup(envv.take(i as int), id@),
            decreases i,
        {
            i = i - 1;
            proof {
                assert(envv.take(i + 1).drop_last() =~= envv.take(i as int));
                assert(envv.take(i + 1).last() == envv[i as int]);
                assert(envv[i as int] == (self.0@[i as int].0@, view_expr(self.0@[i as int].1)));
            }
            if self.0[i].0 == *id {
                return Some(&self.0[i].1);
            }
        }
        proof {
            assert(envv.take(0) =~= Seq::<(Seq<char>, SpecExpr)>::empty());
        }
        None
    }

    /// Resolve `id` through the alias chain: follow bindings while the bound
    /// value is itself an identifier, until reaching a non-identifier atom or
    /// an unbound name.
    fn get_origin(&self, id: &String) -> (r: Expr)
        ensures
            r@ == spec_origin(view_env(self.0@), id@),
    {
        let ghost envv = view_env(self.0@);
        let mut cur: String = id.clone();
        let mut fuel: usize = self.0.len();
        proof {
            assert(envv.len() == self.0@.len());
        }
        loop
            invariant
                fuel + 1 <= envv.len() + 1,
                spec_origin(envv, id@) == spec_chase(envv, cur@, (fuel + 1) as nat),
                envv == view_env(self.0@),
            decreases fuel,
        {
            match self.get(&cur) {
                None => {
                    proof {
                        assert(spec_chase(envv, cur@, (fuel + 1) as nat) == SpecExpr::Id(cur@));
                    }
                    return Expr::Id(cur);
                },
                Some(v) => {
                    match v {
                        Expr::Id(s) => {
                            proof {
                                assert(v@ == SpecExpr::Id(s@));
                            }
                            if fuel == 0 {
                                proof {
                                    assert(spec_chase(envv, cur@, 1nat) == spec_chase(
                                        envv,
                                        s@,
                                        0nat,
                                    ));
                                    assert(spec_chase(envv, s@, 0nat) == SpecExpr::Id(s@));
                                }
                                return Expr::Id(s.clone());
                            }
                            fuel = fuel - 1;
                            cur = s.clone();
                        },
                        _ => {
                            proof {
                                assert(spec_chase(envv, cur@, (fuel + 1) as nat) == v@);
                            }
                            return clone_expr(v);
                        },
                    }
                },
            }
        }
    }
}

/// Copy-propagate one expression under the environment.
#[verifier::loop_isolation(false)]
pub fn copy_prop_helper(e: &Expr, env: &Env) -> (r: Expr)
    requires
        cp_expr_ok(e@),
    ensures
        r@ == spec_cp(e@, view_env(env.0@)),
    decreases e,
{
    let ghost envv = view_env(env.0@);
    match e {
        Expr::Nil => Expr::Nil,
        Expr::Bool(b) => Expr::Bool(*b),
        Expr::Int(i) => Expr::Int(*i),
        Expr::Float(s) => Expr::Float(s.clone()),
        Expr::Str(s) => Expr::Str(s.clone()),
        Expr::Id(id) => env.get_origin(id),
        Expr::Form(v) => {
            let ghost sv = view_exprs(v@);
            proof {
                lemma_cp_ok_index(sv);
            }
            let mut r: Vec<Expr> = Vec::new();
            let mut i: usize = 0;
            while i < v.len()
                invariant
                    i <= v.len(),
                    r@.len() == i,
                    view_exprs(r@) == spec_cp_seq(sv.take(i as int), envv),
                    envv == view_env(env.0@),
                    sv == view_exprs(v@),
                    cp_expr_ok_seq(sv),
                    forall|j: int| 0 <= j < sv.len() ==> cp_expr_ok(#[trigger] sv[j]),
                decreases v.len() - i,
            {
                let d = copy_prop_helper(&v[i], env);
                proof {
                    assert(view_exprs(r@.push(d)) == view_exprs(r@).push(view_expr(d)));
                    assert(sv.take(i as int).push(sv[i as int]) =~= sv.take(i + 1));
                    assert(spec_cp_seq(sv.take(i as int).push(sv[i as int]), envv) == spec_cp_seq(
                        sv.take(i as int),
                        envv,
                    ).push(spec_cp(sv[i as int], envv)));
                }
                r.push(d);
                i = i + 1;
            }
            proof {
                assert(sv.take(i as int) =~= sv);
            }
            Expr::Form(r)
        },
        Expr::Let { bindings, body } => {
            proof {
                assert(view_binds(bindings@).len() == 1);
                assert(view_binds(bindings@)[0] == (bindings@[0].0@, view_expr(bindings@[0].1)));
            }
            let x = &bindings[0].0;
            let e1 = &bindings[0].1;
            let e1_is_self = match e1 {
                Expr::Id(id) => *id == *x,
                _ => false,
            };
            if e1_is_self {
                clone_expr(body)
            } else {
                let pe = copy_prop_helper(e1, env);
                let ghost pev = pe@;
                if pe.is_atom() {
                    let mut env2 = Env(crate::anormal::clone_binds(&env.0));
                    env2.push(x.clone(), pe);
                    copy_prop_helper(body, &env2)
                } else {
                    let pb = copy_prop_helper(body, env);
                    let ghost pbv = pb@;
                    let nbs = vec![(x.clone(), pe)];
                    proof {
                        assert(view_binds(nbs@) == view_binds(nbs@.drop_last()).push(
                            (nbs@.last().0@, view_expr(nbs@.last().1)),
                        ));
                        assert(nbs@.drop_last() =~= Seq::<(String, Expr)>::empty());
                        assert(view_binds(Seq::<(String, Expr)>::empty()) =~= Seq::<(
                            Seq<char>,
                            SpecExpr,
                        )>::empty());
                        assert(view_binds(nbs@) =~= seq![(x@, pev)]);
                    }
                    let r = Expr::Let { bindings: nbs, body: Box::new(pb) };
                    proof {
                        assert(r@ == (SpecExpr::Let {
                            bindings: seq![(x@, pev)],
                            body: Box::new(pbv),
                        }));
                    }
                    r
                }
            }
        },
        Expr::If { cond, thn, els } => Expr::If {
            cond: Box::new(copy_prop_helper(cond, env)),
            thn: Box::new(copy_prop_helper(thn, env)),
            els: Box::new(copy_prop_helper(els, env)),
        },
        Expr::LetFun { name, args, fun_body, expr_body } => Expr::LetFun {
            name: name.clone(),
            args: crate::ast::clone_ids(args),
            fun_body: Box::new(copy_prop_helper(fun_body, env)),
            expr_body: Box::new(copy_prop_helper(expr_body, env)),
        },
        Expr::And(_) => vstd::pervasive::unreached(),
        Expr::Or(_) => vstd::pervasive::unreached(),
        Expr::Not(_) => vstd::pervasive::unreached(),
        Expr::Fn { .. } => vstd::pervasive::unreached(),
        Expr::Def { .. } => vstd::pervasive::unreached(),
        Expr::Defun { .. } => vstd::pervasive::unreached(),
        Expr::DefClos { .. } => vstd::pervasive::unreached(),
        Expr::LetClos { .. } => vstd::pervasive::unreached(),
    }
}

proof fn lemma_cp_ok_index(v: Seq<SpecExpr>)
    requires
        cp_expr_ok_seq(v),
    ensures
        forall|j: int| 0 <= j < v.len() ==> cp_expr_ok(#[trigger] v[j]),
    decreases v,
{
    if v.len() > 0 {
        lemma_cp_ok_index(v.drop_last());
        assert forall|j: int| 0 <= j < v.len() implies cp_expr_ok(#[trigger] v[j]) by {
            if j < v.len() - 1 {
                assert(v[j] == v.drop_last()[j]);
            }
        }
    }
}

proof fn lemma_cp_prog_index(p: Seq<SpecExpr>)
    requires
        cp_prog_ok(p),
    ensures
        forall|j: int| 0 <= j < p.len() ==> cp_top_ok(#[trigger] p[j]),
    decreases p,
{
    if p.len() > 0 {
        lemma_cp_prog_index(p.drop_last());
        assert forall|j: int| 0 <= j < p.len() implies cp_top_ok(#[trigger] p[j]) by {
            if j < p.len() - 1 {
                assert(p[j] == p.drop_last()[j]);
            }
        }
    }
}

/// Copy propagation over a whole program.
pub fn copy_prop(prog: Vec<Expr>) -> (r: Vec<Expr>)
    requires
        cp_prog_ok(view_exprs(prog@)),
    ensures
        view_exprs(r@) == spec_copy_prop(view_exprs(prog@)),
{
    let ghost pv = view_exprs(prog@);
    proof {
        lemma_cp_prog_index(pv);
    }
    let mut env = Env::new();
    let mut out: Vec<Expr> = Vec::new();
    let mut i: usize = 0;
    proof {
        assert(pv.take(0) =~= Seq::<SpecExpr>::empty());
    }
    while i < prog.len()
        invariant
            i <= prog.len(),
            view_exprs(out@) == spec_cp_prog(pv.take(i as int), Seq::empty()).0,
            view_env(env.0@) == spec_cp_prog(pv.take(i as int), Seq::empty()).1,
            pv == view_exprs(prog@),
            forall|j: int| 0 <= j < pv.len() ==> cp_top_ok(#[trigger] pv[j]),
        decreases prog.len() - i,
    {
        let ghost envv = view_env(env.0@);
        proof {
            assert(pv.take(i as int).push(pv[i as int]) =~= pv.take(i + 1));
            assert(spec_cp_prog(pv.take(i + 1), Seq::empty()) == spec_cp_top(
                pv[i as int],
                view_exprs(out@),
                envv,
            ));
        }
        match &prog[i] {
            Expr::Def { x, y } => {
                let ny = copy_prop_helper(y, &env);
                let ghost nyv = ny@;
                if ny.is_atom() {
                    let ny_is_self = match &ny {
                        Expr::Id(id) => *id == *x,
                        _ => false,
                    };
                    if !ny_is_self {
                        env.push(x.clone(), ny);
                    }
                } else {
                    let d = Expr::Def { x: x.clone(), y: Box::new(ny) };
                    proof {
                        assert(d@ == (SpecExpr::Def { x: x@, y: Box::new(nyv) }));
                        assert(view_exprs(out@.push(d)) == view_exprs(out@).push(view_expr(d)));
                    }
                    out.push(d);
                }
            },
            Expr::Defun { name, args, body } => {
                let nb = copy_prop_helper(body, &env);
                let ghost nbv = nb@;
                let d = Expr::Defun {
                    name: name.clone(),
                    args: crate::ast::clone_ids(args),
                    body: Box::new(nb),
                };
                proof {
                    assert(d@ == (SpecExpr::Defun {
                        name: name@,
                        args: view_ids(args@),
                        body: Box::new(nbv),
                    }));
                    assert(view_exprs(out@.push(d)) == view_exprs(out@).push(view_expr(d)));
                }
                out.push(d);
            },
            other => {
                let d = copy_prop_helper(other, &env);
                proof {
                    assert(view_exprs(out@.push(d)) == view_exprs(out@).push(view_expr(d)));
                }
                out.push(d);
            },
        }
        i = i + 1;
    }
    proof {
        assert(pv.take(i as int) =~= pv);
    }
    out
}

/// Every value the environment holds is an atom.
pub open spec fn env_atoms(env: Seq<(Seq<char>, SpecExpr)>) -> bool {
    forall|i: int| 0 <= i < env.len() ==> spec_is_atom((#[trigger] env[i]).1)
}

proof fn lemma_lookup_atom(env: Seq<(Seq<char>, SpecExpr)>, id: Seq<char>)
    requires
        env_atoms(env),
        spec_lookup(env, id) is Some,
    ensures
        spec_is_atom(spec_lookup(env, id).unwrap()),
    decreases env,
{
    if env.len() > 0 {
        if env.last().0 == id {
            assert(env[env.len() - 1].1 == env.last().1);
        } else {
            assert(forall|i: int|
                0 <= i < env.len() - 1 ==> env.drop_last()[i] == #[trigger] env[i]);
            lemma_lookup_atom(env.drop_last(), id);
        }
    }
}

proof fn lemma_chase_ok(env: Seq<(Seq<char>, SpecExpr)>, id: Seq<char>, fuel: nat)
    requires
        env_atoms(env),
    ensures
        cp_expr_ok(spec_chase(env, id, fuel)),
        spec_is_atom(spec_chase(env, id, fuel)),
    decreases fuel,
{
    if fuel > 0 {
        match spec_lookup(env, id) {
            Option::None => {},
            Option::Some(v) => {
                lemma_lookup_atom(env, id);
                match v {
                    SpecExpr::Id(id2) => {
                        lemma_chase_ok(env, id2, (fuel - 1) as nat);
                    },
                    _ => {},
                }
            },
        }
    }
}

/// Copy propagation keeps an expression in valid shape.
pub proof fn lemma_cp_preserves(e: SpecExpr, env: Seq<(Seq<char>, SpecExpr)>)
    requires
        cp_expr_ok(e),
        env_atoms(env),
    ensures
        cp_expr_ok(spec_cp(e, env)),
    decreases e,
{
    reveal_with_fuel(cp_expr_ok, 3);
    match e {
        SpecExpr::Id(id) => {
            lemma_chase_ok(env, id, env.len() + 1);
        },
        SpecExpr::Form(v) => {
            lemma_cp_preserves_seq(v, env);
        },
        SpecExpr::Let { bindings, body } => {
            let x = bindings[0].0;
            let e1 = bindings[0].1;
            assert(bindings.last() == bindings[0]);
            if e1 == SpecExpr::Id(x) {
            } else {
                lemma_cp_preserves(e1, env);
                let pe = spec_cp(e1, env);
                if spec_is_atom(pe) {
                    let env2 = env.push((x, pe));
                    assert(env_atoms(env2)) by {
                        assert(forall|i: int|
                            0 <= i < env.len() ==> env2[i] == #[trigger] env[i]);
                        assert(env2[env.len() as int].1 == pe);
                    }
                    lemma_cp_preserves(*body, env2);
                } else {
                    lemma_cp_preserves(*body, env);
                    assert(seq![(x, pe)][0] == (x, pe));
                }
            }
        },
        SpecExpr::If { cond, thn, els } => {
            lemma_cp_preserves(*cond, env);
            lemma_cp_preserves(*thn, env);
            lemma_cp_preserves(*els, env);
        },
        SpecExpr::LetFun { name, args, fun_body, expr_body } => {
            lemma_cp_preserves(*fun_body, env);
            lemma_cp_preserves(*expr_body, env);
        },
        _ => {},
    }
}

proof fn lemma_cp_preserves_seq(v: Seq<SpecExpr>, env: Seq<(Seq<char>, SpecExpr)>)
    requires
        cp_expr_ok_seq(v),
        env_atoms(env),
    ensures
        cp_expr_ok_seq(spec_cp_seq(v, env)),
    decreases v,
{
    broadcast use crate::ast::lemma_push_parts;

    if v.len() > 0 {
        lemma_cp_preserves_seq(v.drop_last(), env);
        lemma_cp_preserves(v.last(), env);
    }
}
} // verus!
