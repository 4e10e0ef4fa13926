//! C code generation from a fully lowered program: every sub-expression
//! becomes a statement sequence feeding a named temporary, with an explicit
//! symbol-to-location environment, and the output is assembled from fixed
//! sections (declarations, globals, the program entry block, definitions).

use vstd::prelude::*;
use vstd::string::{StringExecFns, StrSliceExecFns};
use crate::ast::{Expr, SpecExpr, view_expr, view_exprs, view_binds, view_ids};
use crate::util::spec_digits;
use crate::formatter::spec_int_str;

verus! {

/// A generated location name: a prefix, an underscore, and a counter.
pub open spec fn cgn(prefix: Seq<char>, n: nat) -> Seq<char> {
    prefix + "_"@ + spec_digits(n)
}

/// The latest location bound to `id`.
pub open spec fn cg_lookup(env: Seq<(Seq<char>, Seq<char>)>, id: Seq<char>) -> Option<Seq<char>>
    decreases env,
{
    if env.len() == 0 {
        Option::None
    } else if env.last().0 == id {
        Option::Some(env.last().1)
    } else {
        cg_lookup(env.drop_last(), id)
    }
}

/// Whether a location names a global function (and must be boxed into a
/// function-pointer value before use).
pub open spec fn is_global_func(m: Seq<char>) -> bool {
    m.len() >= 11 && m.subrange(0, 11) == "global_func"@
}

/// The `args[i] = v;` lines of a call.
pub open spec fn arg_lines(args_addr: Seq<char>, addrs: Seq<Seq<char>>) -> Seq<char>
    decreases addrs,
{
    if addrs.len() == 0 {
        Seq::empty()
    } else {
        arg_lines(args_addr, addrs.drop_last()) + args_addr + "["@ + spec_digits(
            (addrs.len() - 1) as nat,
        ) + "] = "@ + addrs.last() + ";\n"@
    }
}

/// Generated statements and the location holding the value, threading the
/// fresh-temporary counter; `None` reports an unresolved identifier or a
/// node kind that is invalid after closure conversion.
pub open spec fn gen_expr_s(e: SpecExpr, env: Seq<(Seq<char>, Seq<char>)>, c: nat) -> Option<
    (Seq<char>, Seq<char>, nat),
>
    decreases e,
{
    match e {
        SpecExpr::Id(id) => {
            match cg_lookup(env, id) {
                Option::None => Option::None,
                Option::Some(m) => {
                    if is_global_func(m) {
                        let addr = cgn("f"@, c);
                        Option::Some(
                            ("PLV "@ + addr + " = __new_FUNCPTR("@ + m + ");"@, addr, c + 1),
                        )
                    } else {
                        Option::Some((Seq::empty(), m, c))
                    }
                },
            }
        },
        SpecExpr::Nil => {
            let addr = cgn("tmp"@, c);
            Option::Some(("PLV "@ + addr + " = __new_NIL();"@, addr, c + 1))
        },
        SpecExpr::Int(i) => {
            let addr = cgn("tmp"@, c);
            Option::Some(
                ("PLV "@ + addr + " = __new_INT("@ + spec_int_str(i) + ");"@, addr, c + 1),
            )
        },
        SpecExpr::Float(s) => {
            let addr = cgn("tmp"@, c);
            Option::Some(("PLV "@ + addr + " = __new_FLOAT("@ + s + ");"@, addr, c + 1))
        },
        SpecExpr::Str(s) => {
            let addr = cgn("tmp"@, c);
            Option::Some(
                ("PLV "@ + addr + " = __new_STR(\""@ + s + "\");"@, addr, c + 1),
            )
        },
        SpecExpr::Bool(b) => {
            let addr = cgn("tmp"@, c);
            Option::Some(
                (
                    "PLV "@ + addr + " = __new_BOOL("@ + (if b {
                        "1"@
                    } else {
                        "0"@
                    }) + ");"@,
                    addr,
                    c + 1,
                ),
            )
        },
        SpecExpr::Form(v) => {
            match gen_args_s(v, env, c) {
                Option::None => Option::None,
                Option::Some((code, addrs, c1)) => {
                    let addr = cgn("tmp"@, c1);
                    let args_addr = cgn("args"@, c1 + 1);
                    let code2 = code + "PLV "@ + args_addr + "["@ + spec_digits(addrs.len())
                        + "];\n"@ + arg_lines(args_addr, addrs) + "PLV "@ + addr
                        + " = __PL_funcall("@ + args_addr + ");"@;
                    Option::Some((code2, addr, c1 + 2))
                },
            }
        },
        SpecExpr::If { cond, thn, els } => {
            match gen_expr_s(*cond, env, c) {
                Option::None => Option::None,
                Option::Some((cc, ca, c1)) => {
                    match gen_expr_s(*thn, env, c1) {
                        Option::None => Option::None,
                        Option::Some((tc, ta, c2)) => {
                            match gen_expr_s(*els, env, c2) {
                                Option::None => Option::None,
                                Option::Some((ec, ea, c3)) => {
                                    let addr = cgn("tmp"@, c3);
                                    let code = cc + "\n"@ + "PLV "@ + addr + ";"@ + "if ("@
                                        + ca + ".val.b == 1) {\n"@ + tc + "\n"@ + addr + " = "@
                                        + ta + ";\n} else {\n"@ + ec + "\n"@ + addr + "="@ + ea
                                        + ";\n}"@;
                                    Option::Some((code, addr, c3 + 1))
                                },
                            }
                        },
                    }
                },
            }
        },
        SpecExpr::Let { bindings, body } => {
            if bindings.len() == 1 {
                match gen_expr_s(bindings[0].1, env, c) {
                    Option::None => Option::None,
                    Option::Some((ec, ea, c1)) => {
                        match gen_expr_s(*body, env.push((bindings[0].0, ea)), c1) {
                            Option::None => Option::None,
                            Option::Some((bc, ba, c2)) => {
                                let code = ec + "\n"@ + bc + "\n"@ + "__delete_PLV(&"@ + ea
                                    + ");"@;
                                Option::Some((code, ba, c2))
                            },
                        }
                    },
                }
            } else {
                Option::None
            }
        },
        SpecExpr::LetClos { name, closid, freevars, body } => {
            let clos_addr = cgn("clos"@, c);
            match cg_lookup(env, closid) {
                Option::None => Option::None,
                Option::Some(cp) => {
                    let fv_addr = cgn("freevars"@, c + 1);
                    match fv_lines(freevars, env, fv_addr) {
                        Option::None => Option::None,
                        Option::Some(lines) => {
                            match gen_expr_s(*body, env.push((name, clos_addr)), c + 2) {
                                Option::None => Option::None,
                                Option::Some((bc, ba, c2)) => {
                                    let code = "PLV *"@ + fv_addr + " = malloc(sizeof(PLV) * "@
                                        + spec_digits(freevars.len()) + ");\n"@ + lines + "PLV "@
                                        + clos_addr + " = __new_CLOS("@ + cp + ", "@ + fv_addr
                                        + ");\n"@ + bc + "\n"@ + "__delete_PLV(&"@ + clos_addr
                                        + ");\nfree("@ + fv_addr + ");"@;
                                    Option::Some((code, ba, c2))
                                },
                            }
                        },
                    }
                },
            }
        },
        _ => Option::None,
    }
}

/// The generated code for every element of an application, left to right.
pub open spec fn gen_args_s(v: Seq<SpecExpr>, env: Seq<(Seq<char>, Seq<char>)>, c: nat) -> Option<
    (Seq<char>, Seq<Seq<char>>, nat),
>
    decreases v,
{
    if v.len() == 0 {
        Option::Some((Seq::empty(), Seq::empty(), c))
    } else {
        match gen_args_s(v.drop_last(), env, c) {
            Option::None => Option::None,
            Option::Some((code, addrs, c1)) => {
                match gen_expr_s(v.last(), env, c1) {
                    Option::None => Option::None,
                    Option::Some((ic, ia, c2)) => {
                        let code2 = code + (if ic.len() > 0 {
                            ic + "\n"@
                        } else {
                            Seq::empty()
                        });
                        Option::Some((code2, addrs.push(ia), c2))
                    },
                }
            },
        }
    }
}

/// The lines that fill the captured-variable buffer of a closure, in the
/// exact order the template declared them.
pub open spec fn fv_lines(
    fvs: Seq<Seq<char>>,
    env: Seq<(Seq<char>, Seq<char>)>,
    fv_addr: Seq<char>,
) -> Option<Seq<char>>
    decreases fvs,
{
    if fvs.len() == 0 {
        Option::Some(Seq::empty())
    } else {
        match fv_lines(fvs.drop_last(), env, fv_addr) {
            Option::None => Option::None,
            Option::Some(lines) => {
                match cg_lookup(env, fvs.last()) {
                    Option::None => Option::None,
                    Option::Some(a) => Option::Some(
                        lines + fv_addr + "["@ + spec_digits((fvs.len() - 1) as nat) + "] = "@
                            + a + ";\n"@,
                    ),
                }
            },
        }
    }
}

/// The generator's whole-program state: the location environment, the
/// fresh-temporary counter, and the six output sections.
pub struct SpecCg {
    pub env: Seq<(Seq<char>, Seq<char>)>,
    pub c: nat,
    pub func_decl: Seq<Seq<char>>,
    pub clos_decl: Seq<Seq<char>>,
    pub global_var_decl: Seq<Seq<char>>,
    pub main_prog: Seq<Seq<char>>,
    pub func_def: Seq<Seq<char>>,
    pub clos_def: Seq<Seq<char>>,
}

/// The environment rows binding parameters to `args[i]` slots.
pub open spec fn arg_slots(args: Seq<Seq<char>>, buf: Seq<char>) -> Seq<(Seq<char>, Seq<char>)>
    decreases args,
{
    if args.len() == 0 {
        Seq::empty()
    } else {
        arg_slots(args.drop_last(), buf).push(
            (args.last(), buf + "["@ + spec_digits((args.len() - 1) as nat) + "]"@),
        )
    }
}

/// One top-level item folded into the generator state.
pub open spec fn gen_top_s(e: SpecExpr, st: SpecCg) -> Option<SpecCg> {
    match e {
        SpecExpr::Def { x, y } => {
            match gen_expr_s(*y, st.env, st.c) {
                Option::None => Option::None,
                Option::Some((yc, ya, c1)) => {
                    let func_addr = cgn("global_var_init_func"@, c1);
                    let x_addr = cgn("global_var"@, c1 + 1);
                    Option::Some(
                        SpecCg {
                            env: st.env.push((x, x_addr)),
                            c: c1 + 2,
                            func_decl: st.func_decl.push("PLV "@ + func_addr + "();"@),
                            func_def: st.func_def.push(
                                "PLV "@ + func_addr + "(){\n"@ + yc + "\nreturn "@ + ya
                                    + ";\n}"@,
                            ),
                            global_var_decl: st.global_var_decl.push("PLV "@ + x_addr + ";"@),
                            main_prog: st.main_prog.push(
                                "PLV "@ + x_addr + " = "@ + func_addr + "();"@,
                            ),
                            ..st
                        },
                    )
                },
            }
        },
        SpecExpr::Defun { name, args, body } => {
            let funcptr = cgn("global_func"@, st.c);
            let env1 = st.env.push((name, funcptr));
            let env2 = env1 + arg_slots(args, "args"@);
            match gen_expr_s(*body, env2, st.c + 1) {
                Option::None => Option::None,
                Option::Some((bc, ba, c1)) => Option::Some(
                    SpecCg {
                        env: env1,
                        c: c1,
                        func_decl: st.func_decl.push("PLV "@ + funcptr + "(PLV *args);"@),
                        func_def: st.func_def.push(
                            "PLV "@ + funcptr + "(PLV *args){\n"@ + bc + "\nreturn "@ + ba
                                + ";\n}"@,
                        ),
                        ..st
                    },
                ),
            }
        },
        SpecExpr::DefClos { name, freevars, args, body } => {
            let closptr = cgn("global_clos"@, st.c);
            let env1 = st.env.push((name, closptr));
            let env2 = env1 + arg_slots(freevars, "freevars"@) + arg_slots(args, "args"@);
            match gen_expr_s(*body, env2, st.c + 1) {
                Option::None => Option::None,
                Option::Some((bc, ba, c1)) => Option::Some(
                    SpecCg {
                        env: env1,
                        c: c1,
                        clos_decl: st.clos_decl.push(
                            "PLV "@ + closptr + "(PLV *freevars, PLV *args);"@,
                        ),
                        clos_def: st.clos_def.push(
                            "PLV "@ + closptr + "(PLV *freevars, PLV *args){\n"@ + bc
                                + "\nreturn "@ + ba + ";\n}"@,
                        ),
                        ..st
                    },
                ),
            }
        },
        _ => {
            match gen_expr_s(e, st.env, st.c) {
                Option::None => Option::None,
                Option::Some((code, addr, c1)) => Option::Some(
                    SpecCg {
                        c: c1,
                        main_prog: st.main_prog.push(code).push(
                            "__PLV_print(&"@ + addr + ");\nputchar('\\n');\n"@,
                        ),
                        ..st
                    },
                ),
            }
        },
    }
}

/// The builtin operators, pre-bound to fixed global function locations.
pub open spec fn builtin_env() -> Seq<(Seq<char>, Seq<char>)> {
    seq![
        ("+"@, "global_func_add"@),
        ("-"@, "global_func_sub"@),
        ("*"@, "global_func_mul"@),
        ("/"@, "global_func_div"@),
        ("="@, "global_func_eq"@),
        (">"@, "global_func_gt"@),
        ("<"@, "global_func_lt"@),
        ("<="@, "global_func_leq"@),
        (">="@, "global_func_geq"@),
    ]
}

pub open spec fn init_cg() -> SpecCg {
    SpecCg {
        env: builtin_env(),
        c: 0,
        func_decl: Seq::empty(),
        clos_decl: Seq::empty(),
        global_var_decl: Seq::empty(),
        main_prog: Seq::empty(),
        func_def: Seq::empty(),
        clos_def: Seq::empty(),
    }
}

pub open spec fn gen_prog_s(p: Seq<SpecExpr>, st: SpecCg) -> Option<SpecCg>
    decreases p,
{
    if p.len() == 0 {
        Option::Some(st)
    } else {
        match gen_prog_s(p.drop_last(), st) {
            Option::None => Option::None,
            Option::Some(st1) => gen_top_s(p.last(), st1),
        }
    }
}

/// Sections joined by newlines.
pub open spec fn join_nl(v: Seq<Seq<char>>) -> Seq<char>
    decreases v,
{
    if v.len() == 0 {
        Seq::empty()
    } else if v.len() == 1 {
        v[0]
    } else {
        join_nl(v.drop_last()) + "\n"@ + v.last()
    }
}

/// The complete program text from a final generator state.
pub open spec fn assemble_s(st: SpecCg) -> Seq<char> {
    "#include \"runtime.c\"\n\n// Function declarations\n"@ + join_nl(st.func_decl)
        + "\n\n// Closure declarations\n"@ + join_nl(st.clos_decl)
        + "\n\n// Global variable declarations\n"@ + join_nl(st.global_var_decl)
        + "\n\n// Main program\nint main() {\n"@ + join_nl(st.main_prog) + "\nreturn 0;\n}\n\n// Function definitions\n"@
        + join_nl(st.func_def) + "\n\n// Closure definitions\n"@ + join_nl(st.clos_def)
}

/// The C text a lowered program generates, when every identifier resolves
/// and only lowered node kinds appear.
pub open spec fn spec_generate_c(p: Seq<SpecExpr>) -> Option<Seq<char>> {
    match gen_prog_s(p, init_cg()) {
        Option::None => Option::None,
        Option::Some(st) => Option::Some(assemble_s(st)),
    }
}

/// The generator draws at most two fresh temporaries per node.
pub proof fn lemma_gen_count(e: SpecExpr, env: Seq<(Seq<char>, Seq<char>)>, c: nat)
    ensures
        gen_expr_s(e, env, c) matches Some(r) ==> c <= r.2 <= c + 2 * crate::knormal::spec_size(
            e,
        ),
    decreases e,
{
    match e {
        SpecExpr::Form(v) => {
            lemma_gen_args_count(v, env, c);
        },
        SpecExpr::If { cond, thn, els } => {
            lemma_gen_count(*cond, env, c);
            if gen_expr_s(*cond, env, c) is Some {
                let c1 = gen_expr_s(*cond, env, c).unwrap().2;
                lemma_gen_count(*thn, env, c1);
                if gen_expr_s(*thn, env, c1) is Some {
                    let c2 = gen_expr_s(*thn, env, c1).unwrap().2;
                    lemma_gen_count(*els, env, c2);
                }
            }
        },
        SpecExpr::Let { bindings, body } => {
            if bindings.len() == 1 {
                lemma_gen_count(bindings[0].1, env, c);
                if gen_expr_s(bindings[0].1, env, c) is Some {
                    let r1 = gen_expr_s(bindings[0].1, env, c).unwrap();
                    lemma_gen_count(*body, env.push((bindings[0].0, r1.1)), r1.2);
                    crate::closure::lemma_size_binds_first_pub(bindings);
                }
            }
        },
        SpecExpr::LetClos { name, closid, freevars, body } => {
            let clos_addr = cgn("clos"@, c);
            lemma_gen_count(*body, env.push((name, clos_addr)), c + 2);
        },
        _ => {},
    }
}

proof fn lemma_gen_args_count(v: Seq<SpecExpr>, env: Seq<(Seq<char>, Seq<char>)>, c: nat)
    ensures
        gen_args_s(v, env, c) matches Some(r) ==> c <= r.2 <= c
            + 2 * crate::knormal::spec_size_seq(v),
    decreases v,
{
    if v.len() > 0 {
        lemma_gen_args_count(v.drop_last(), env, c);
        if gen_args_s(v.drop_last(), env, c) is Some {
            let c1 = gen_args_s(v.drop_last(), env, c).unwrap().2;
            lemma_gen_count(v.last(), env, c1);
        }
    }
}

pub proof fn lemma_gen_top_count(e: SpecExpr, st: SpecCg)
    ensures
        gen_top_s(e, st) matches Some(st2) ==> st.c <= st2.c <= st.c + 2
            * crate::knormal::spec_size(e) + 2,
{
    match e {
        SpecExpr::Def { x, y } => {
            lemma_gen_count(*y, st.env, st.c);
        },
        SpecExpr::Defun { name, args, body } => {
            let funcptr = cgn("global_func"@, st.c);
            let env1 = st.env.push((name, funcptr));
            lemma_gen_count(*body, env1 + arg_slots(args, "args"@), st.c + 1);
        },
        SpecExpr::DefClos { name, freevars, args, body } => {
            let closptr = cgn("global_clos"@, st.c);
            let env1 = st.env.push((name, closptr));
            lemma_gen_count(
                *body,
                env1 + arg_slots(freevars, "freevars"@) + arg_slots(args, "args"@),
                st.c + 1,
            );
        },
        _ => {
            lemma_gen_count(e, st.env, st.c);
        },
    }
}

pub proof fn lemma_gen_prog_count(p: Seq<SpecExpr>, st: SpecCg)
    ensures
        gen_prog_s(p, st) matches Some(st2) ==> st.c <= st2.c <= st.c + 2
            * crate::knormal::spec_size_seq(p) + 2 * p.len(),
    decreases p,
{
    if p.len() > 0 {
        lemma_gen_prog_count(p.drop_last(), st);
        if gen_prog_s(p.drop_last(), st) is Some {
            let st1 = gen_prog_s(p.drop_last(), st).unwrap();
            lemma_gen_top_count(p.last(), st1);
            crate::knormal::lemma_size_pos(p.last());
        }
    }
}

/// The model of the exec location environment.
pub open spec fn view_locs(v: Seq<(String, String)>) -> Seq<(Seq<char>, Seq<char>)>
    decreases v,
{
    if v.len() == 0 {
        Seq::empty()
    } else {
        view_locs(v.drop_last()).push((v.last().0@, v.last().1@))
    }
}

pub broadcast proof fn lemma_view_locs(v: Seq<(String, String)>)
    ensures
        (#[trigger] view_locs(v)).len() == v.len(),
        forall|i: int|
            0 <= i < v.len() ==> view_locs(v)[i] == ((#[trigger] v[i]).0@, v[i].1@),
    decreases v.len(),
{
    broadcast use crate::ast::lemma_push_parts;

    if v.len() > 0 {
        lemma_view_locs(v.drop_last());
        assert forall|i: int| 0 <= i < v.len() implies view_locs(v)[i] == (
            (#[trigger] v[i]).0@,
            v[i].1@,
        ) by {
            if i < v.len() - 1 {
                assert(v.drop_last()[i] == v[i]);
            }
        }
    }
}

/// The working state of the generator.
pub struct CCodeGenerator {
    pub fresh_var_counter: u64,
    pub env: Vec<(String, String)>,
    pub func_decl: Vec<String>,
    pub clos_decl: Vec<String>,
    pub global_var_decl: Vec<String>,
    pub main_prog: Vec<String>,
    pub func_def: Vec<String>,
    pub clos_def: Vec<String>,
}

impl CCodeGenerator {
    /// A fresh location name for `prefix`.
    fn fresh_var(&mut self, prefix: &str) -> (r: String)
        requires
            old(self).fresh_var_counter < u64::MAX,
        ensures
            r@ == cgn(prefix@, old(self).fresh_var_counter as nat),
            final(self).fresh_var_counter == old(self).fresh_var_counter + 1,
            final(self).env@ == old(self).env@,
            final(self).func_decl@ == old(self).func_decl@,
            final(self).clos_decl@ == old(self).clos_decl@,
            final(self).global_var_decl@ == old(self).global_var_decl@,
            final(self).main_prog@ == old(self).main_prog@,
            final(self).func_def@ == old(self).func_def@,
            final(self).clos_def@ == old(self).clos_def@,
    {
        let mut name = String::from_str(prefix);
        name.append("_");
        crate::util::push_digits_u64(&mut name, self.fresh_var_counter);
        self.fresh_var_counter = self.fresh_var_counter + 1;
        proof {
            assert(name@ =~= cgn(prefix@, (final(self).fresh_var_counter - 1) as nat));
        }
        name
    }

    /// The latest location bound to `id`.
    #[verifier::loop_isolation(false)]
    fn env_get(&self, id: &String) -> (r: Option<&String>)
        ensures
            match r {
                Option::Some(m) => cg_lookup(view_locs(self.env@), id@) == Option::Some(m@),
                Option::None => cg_lookup(view_locs(self.env@), id@) is None,
            },
    {
        broadcast use lemma_view_locs;

        let ghost envv = view_locs(self.env@);
        proof {
            assert(envv.take(self.env@.len() as int) =~= envv);
        }
        let mut i: usize = self.env.len();
        while i > 0
            invariant
                i <= self.env.len(),
                cg_lookup(envv, id@) == cg_lookup(envv.take(i as int), id@),
            decreases i,
        {
            i = i - 1;
            proof {
                assert(envv.take(i + 1).drop_last() =~= envv.take(i as int));
                assert(envv.take(i + 1).last() == envv[i as int]);
            }
            if self.env[i].0 == *id {
                return Some(&self.env[i].1);
            }
        }
        proof {
            assert(envv.take(0) =~= Seq::<(Seq<char>, Seq<char>)>::empty());
        }
        None
    }

    /// Generate statements computing `e`, returning them with the location
    /// that then holds the value.
    #[verifier::loop_isolation(false)]
    #[verifier::rlimit(100)]
    fn gen_expr(&mut self, e: &Expr) -> (r: Result<(String, String), String>)
        requires
            old(self).fresh_var_counter + 2 * crate::knormal::spec_size(e@) <= u64::MAX,
        ensures
            r matches Ok(p) ==> gen_expr_s(
                e@,
                view_locs(old(self).env@),
                old(self).fresh_var_counter as nat,
            ) == Some((p.0@, p.1@, final(self).fresh_var_counter as nat)),
            r is Err ==> gen_expr_s(
                e@,
                view_locs(old(self).env@),
                old(self).fresh_var_counter as nat,
            ) is None,
            final(self).env@ == old(self).env@,
            final(self).func_decl@ == old(self).func_decl@,
            final(self).clos_decl@ == old(self).clos_decl@,
            final(self).global_var_decl@ == old(self).global_var_decl@,
            final(self).main_prog@ == old(self).main_prog@,
            final(self).func_def@ == old(self).func_def@,
            final(self).clos_def@ == old(self).clos_def@,
        decreases crate::knormal::spec_size(e@), 1int,
    {
        broadcast use lemma_view_locs, crate::ast::lemma_view_exprs, crate::ast::lemma_view_binds, crate::ast::lemma_push_parts;

        let ghost envv = view_locs(self.env@);
        let ghost c0 = self.fresh_var_counter as nat;
        proof {
            crate::knormal::lemma_size_pos(e@);
        }
        match e {
            Expr::Id(id) => self.gen_id(id),
            Expr::Nil => {
                let addr = self.fresh_var("tmp");
                let mut code = String::from_str("PLV ");
                code.append(addr.as_str());
                code.append(" = __new_NIL();");
                proof {
                    assert(code@ =~= "PLV "@ + addr@ + " = __new_NIL();"@);
                }
                Ok((code, addr))
            },
            Expr::Int(i) => {
                let addr = self.fresh_var("tmp");
                let mut code = String::from_str("PLV ");
                code.append(addr.as_str());
                code.append(" = __new_INT(");
                let num = crate::formatter::int_to_string(*i);
                code.append(num.as_str());
                code.append(");");
                proof {
                    assert(code@ =~= "PLV "@ + addr@ + " = __new_INT("@ + spec_int_str(
                        *i as int,
                    ) + ");"@);
                }
                Ok((code, addr))
            },
            Expr::Float(s) => {
                let addr = self.fresh_var("tmp");
                let mut code = String::from_str("PLV ");
                code.append(addr.as_str());
                code.append(" = __new_FLOAT(");
                code.append(s.as_str());
                code.append(");");
                proof {
                    assert(code@ =~= "PLV "@ + addr@ + " = __new_FLOAT("@ + s@ + ");"@);
                }
                Ok((code, addr))
            },
            Expr::Str(s) => {
                let addr = self.fresh_var("tmp");
                let mut code = String::from_str("PLV ");
                code.append(addr.as_str());
                code.append(" = __new_STR(\"");
                code.append(s.as_str());
                code.append("\");");
                proof {
                    assert(code@ =~= "PLV "@ + addr@ + " = __new_STR(\""@ + s@ + "\");"@);
                }
                Ok((code, addr))
            },
            Expr::Bool(b) => {
                let addr = self.fresh_var("tmp");
                let mut code = String::from_str("PLV ");
                code.append(addr.as_str());
                code.append(" = __new_BOOL(");
                if *b {
                    code.append("1");
                } else {
                    code.append("0");
                }
                code.append(");");
                proof {
                    if *b {
                        assert(code@ =~= "PLV "@ + addr@ + " = __new_BOOL("@ + "1"@ + ");"@);
                    } else {
                        assert(code@ =~= "PLV "@ + addr@ + " = __new_BOOL("@ + "0"@ + ");"@);
                    }
                }
                Ok((code, addr))
            },
            Expr::Form(v) => self.gen_form(v),
            Expr::If { cond, thn, els } => self.gen_if(cond, thn, els),
            Expr::Let { bindings, body } => self.gen_let(bindings, body),
            Expr::LetClos { name, closid, freevars, body } => self.gen_letclos(
                name,
                closid,
                freevars,
                body,
            ),
            _ => Err(err_invalid()),
        }
    }
}


impl CCodeGenerator {
    /// Generate an application: evaluate each element left to right into a
    /// contiguous argument buffer, then emit one call.
    #[verifier::loop_isolation(false)]
    #[verifier::rlimit(100)]
    fn gen_form(&mut self, v: &Vec<Expr>) -> (r: Result<(String, String), String>)
        requires
            old(self).fresh_var_counter + 2 * crate::knormal::spec_size(
                SpecExpr::Form(view_exprs(v@)),
            ) <= u64::MAX,
        ensures
            r matches Ok(p) ==> gen_expr_s(
                SpecExpr::Form(view_exprs(v@)),
                view_locs(old(self).env@),
                old(self).fresh_var_counter as nat,
            ) == Some((p.0@, p.1@, final(self).fresh_var_counter as nat)),
            r is Err ==> gen_expr_s(
                SpecExpr::Form(view_exprs(v@)),
                view_locs(old(self).env@),
                old(self).fresh_var_counter as nat,
            ) is None,
            final(self).env@ == old(self).env@,
            final(self).func_decl@ == old(self).func_decl@,
            final(self).clos_decl@ == old(self).clos_decl@,
            final(self).global_var_decl@ == old(self).global_var_decl@,
            final(self).main_prog@ == old(self).main_prog@,
            final(self).func_def@ == old(self).func_def@,
            final(self).clos_def@ == old(self).clos_def@,
        decreases crate::knormal::spec_size_seq(view_exprs(v@)) + 1, 0int,
    {
        broadcast use lemma_view_locs, crate::ast::lemma_view_exprs, crate::ast::lemma_push_parts;

        let ghost envv = view_locs(self.env@);
        let ghost c0 = self.fresh_var_counter as nat;

                let ghost sv = view_exprs(v@);
                let mut code = String::new();
                let mut addrs: Vec<String> = Vec::new();
                let mut i: usize = 0;
                proof {
                    assert(sv.take(0) =~= Seq::<SpecExpr>::empty());
                    assert(code@ =~= Seq::<char>::empty());
                    assert(view_ids(addrs@) =~= Seq::<Seq<char>>::empty());
                }
                while i < v.len()
                    invariant
                        i <= v.len(),
                        addrs@.len() == i,
                        self.env@ == old(self).env@,
                        self.func_decl@ == old(self).func_decl@,
                        self.clos_decl@ == old(self).clos_decl@,
                        self.global_var_decl@ == old(self).global_var_decl@,
                        self.main_prog@ == old(self).main_prog@,
                        self.func_def@ == old(self).func_def@,
                        self.clos_def@ == old(self).clos_def@,
                        gen_args_s(sv.take(i as int), envv, c0) == Some(
                            (code@, view_ids(addrs@), self.fresh_var_counter as nat),
                        ),
                    decreases v.len() - i,
                {
                    proof {
                        lemma_gen_args_count(sv.take(i as int), envv, c0);
                        crate::knormal::lemma_size_seq_split(sv, i as int);
                        crate::knormal::lemma_size_seq_take_le(sv, i as int);
                    }
                    let item = self.gen_expr(&v[i]);
                    proof {
                        assert(sv.take(i as int).push(sv[i as int]) =~= sv.take(i + 1));
                    }
                    match item {
                        Err(m) => {
                            proof {
                                lemma_gen_args_none(sv, i as int, envv, c0);
                            }
                            return Err(m);
                        },
                        Ok((ic, ia)) => {
                            if ic.as_str().unicode_len() > 0 {
                                code.append(ic.as_str());
                                code.append("\n");
                            }
                            proof {
                                if ic@.len() > 0 {
                                    assert(code@ =~= gen_args_s(
                                        sv.take(i as int),
                                        envv,
                                        c0,
                                    ).unwrap().0 + (ic@ + "\n"@));
                                } else {
                                    assert(code@ =~= gen_args_s(
                                        sv.take(i as int),
                                        envv,
                                        c0,
                                    ).unwrap().0 + Seq::<char>::empty());
                                }
                                assert(view_ids(addrs@.push(ia)) =~= view_ids(addrs@).push(ia@));
                            }
                            addrs.push(ia);
                        },
                    }
                    i = i + 1;
                }
                proof {
                    assert(sv.take(i as int) =~= sv);
                    lemma_gen_args_count(sv, envv, c0);
                }
                let addr = self.fresh_var("tmp");
                let args_addr = self.fresh_var("args");
                code.append("PLV ");
                code.append(args_addr.as_str());
                code.append("[");
                let nstr = crate::util::usize_to_string(addrs.len());
                code.append(nstr.as_str());
                code.append("];\n");
                let ghost base = code@;
                let ghost addrsv = view_ids(addrs@);
                let mut j: usize = 0;
                proof {
                    assert(arg_lines(args_addr@, addrsv.take(0)) =~= Seq::<char>::empty());
                    assert(code@ =~= base + arg_lines(args_addr@, addrsv.take(0)));
                }
                while j < addrs.len()
                    invariant
                        j <= addrs.len(),
                        code@ == base + arg_lines(args_addr@, addrsv.take(j as int)),
                    decreases addrs.len() - j,
                {
                    code.append(args_addr.as_str());
                    code.append("[");
                    let jstr = crate::util::usize_to_string(j);
                    code.append(jstr.as_str());
                    code.append("] = ");
                    code.append(addrs[j].as_str());
                    code.append(";\n");
                    proof {
                        assert(addrsv.take(j + 1).drop_last() =~= addrsv.take(j as int));
                        assert(addrsv.take(j + 1).last() == addrsv[j as int]);
                        assert(addrsv[j as int] == addrs@[j as int]@);
                        assert(code@ =~= base + (arg_lines(args_addr@, addrsv.take(j as int))
                            + args_addr@ + "["@ + spec_digits(j as nat) + "] = "@
                            + addrsv[j as int] + ";\n"@));
                        assert(arg_lines(args_addr@, addrsv.take(j + 1)) == arg_lines(
                            args_addr@,
                            addrsv.take(j as int),
                        ) + args_addr@ + "["@ + spec_digits(j as nat) + "] = "@
                            + addrsv[j as int] + ";\n"@);
                    }
                    j = j + 1;
                }
                proof {
                    assert(addrsv.take(j as int) =~= addrsv);
                }
                code.append("PLV ");
                code.append(addr.as_str());
                code.append(" = __PL_funcall(");
                code.append(args_addr.as_str());
                code.append(");");
                proof {
                    assert(code@ =~= gen_args_s(sv, envv, c0).unwrap().0 + "PLV "@ + args_addr@
                        + "["@ + spec_digits(addrsv.len()) + "];\n"@ + arg_lines(
                        args_addr@,
                        addrsv,
                    ) + "PLV "@ + addr@ + " = __PL_funcall("@ + args_addr@ + ");"@);
                }
                Ok((code, addr))
            
    }

    /// Generate a closure binding: fill the capture buffer in template
    /// order, build the closure value, then release it after the body.
    #[verifier::loop_isolation(false)]
    #[verifier::rlimit(100)]
    fn gen_letclos(
        &mut self,
        name: &String,
        closid: &String,
        freevars: &Vec<String>,
        body: &Expr,
    ) -> (r: Result<(String, String), String>)
        requires
            old(self).fresh_var_counter + 2 * crate::knormal::spec_size(
                SpecExpr::LetClos {
                    name: name@,
                    closid: closid@,
                    freevars: view_ids(freevars@),
                    body: Box::new(body@),
                },
            ) <= u64::MAX,
        ensures
            r matches Ok(p) ==> gen_expr_s(
                SpecExpr::LetClos {
                    name: name@,
                    closid: closid@,
                    freevars: view_ids(freevars@),
                    body: Box::new(body@),
                },
                view_locs(old(self).env@),
                old(self).fresh_var_counter as nat,
            ) == Some((p.0@, p.1@, final(self).fresh_var_counter as nat)),
            r is Err ==> gen_expr_s(
                SpecExpr::LetClos {
                    name: name@,
                    closid: closid@,
                    freevars: view_ids(freevars@),
                    body: Box::new(body@),
                },
                view_locs(old(self).env@),
                old(self).fresh_var_counter as nat,
            ) is None,
            final(self).env@ == old(self).env@,
            final(self).func_decl@ == old(self).func_decl@,
            final(self).clos_decl@ == old(self).clos_decl@,
            final(self).global_var_decl@ == old(self).global_var_decl@,
            final(self).main_prog@ == old(self).main_prog@,
            final(self).func_def@ == old(self).func_def@,
            final(self).clos_def@ == old(self).clos_def@,
        decreases crate::knormal::spec_size(
            SpecExpr::LetClos {
                name: name@,
                closid: closid@,
                freevars: view_ids(freevars@),
                body: Box::new(body@),
            },
        ), 0int,
    {
        broadcast use lemma_view_locs, crate::ast::lemma_view_exprs, crate::ast::lemma_push_parts;

        let ghost envv = view_locs(self.env@);
        let ghost c0 = self.fresh_var_counter as nat;
                let clos_addr = self.fresh_var("clos");
                let looked = match self.env_get(closid) {
                    Some(m) => Some(m.clone()),
                    None => None,
                };
                match looked {
                    None => Err(err_undefined()),
                    Some(cp) => {
                        let fv_addr = self.fresh_var("freevars");
                        let mut lines = String::new();
                        let ghost fvv = view_ids(freevars@);
                        let mut i: usize = 0;
                        proof {
                            assert(fvv.take(0) =~= Seq::<Seq<char>>::empty());
                            assert(lines@ =~= Seq::<char>::empty());
                        }
                        while i < freevars.len()
                            invariant
                                i <= freevars.len(),
                                fv_lines(fvv.take(i as int), envv, fv_addr@) == Some(lines@),
                                self.env@ == old(self).env@,
                            decreases freevars.len() - i,
                        {
                            proof {
                                assert(fvv.take(i as int).push(fvv[i as int]) =~= fvv.take(
                                    i + 1,
                                ));
                            }
                            let looked_fv = match self.env_get(&freevars[i]) {
                                Some(a) => Some(a.clone()),
                                None => None,
                            };
                            match looked_fv {
                                None => {
                                    proof {
                                        lemma_fv_lines_none(fvv, i as int, envv, fv_addr@);
                                    }
                                    return Err(err_undefined());
                                },
                                Some(a) => {
                                    lines.append(fv_addr.as_str());
                                    lines.append("[");
                                    let istr = crate::util::usize_to_string(i);
                                    lines.append(istr.as_str());
                                    lines.append("] = ");
                                    lines.append(a.as_str());
                                    lines.append(";\n");
                                    proof {
                                        assert(lines@ =~= fv_lines(
                                            fvv.take(i as int),
                                            envv,
                                            fv_addr@,
                                        ).unwrap() + fv_addr@ + "["@ + spec_digits(i as nat)
                                            + "] = "@ + a@ + ";\n"@);
                                    }
                                },
                            }
                            i = i + 1;
                        }
                        proof {
                            assert(fvv.take(i as int) =~= fvv);
                        }
                        self.env.push((name.clone(), clos_addr.clone()));
                        proof {
                            assert(view_locs(self.env@) =~= envv.push((name@, clos_addr@)));
                        }
                        let r2 = self.gen_expr(body);
                        match r2 {
                            Err(m) => {
                                let _popped = self.env.pop();
                                proof {
                                    assert(self.env@ =~= old(self).env@);
                                }
                                Err(m)
                            },
                            Ok((bc, ba)) => {
                                let _popped = self.env.pop();
                                proof {
                                    assert(self.env@ =~= old(self).env@);
                                }
                                let mut code = String::from_str("PLV *");
                                code.append(fv_addr.as_str());
                                code.append(" = malloc(sizeof(PLV) * ");
                                let nstr = crate::util::usize_to_string(freevars.len());
                                code.append(nstr.as_str());
                                code.append(");\n");
                                code.append(lines.as_str());
                                code.append("PLV ");
                                code.append(clos_addr.as_str());
                                code.append(" = __new_CLOS(");
                                code.append(cp.as_str());
                                code.append(", ");
                                code.append(fv_addr.as_str());
                                code.append(");\n");
                                code.append(bc.as_str());
                                code.append("\n");
                                code.append("__delete_PLV(&");
                                code.append(clos_addr.as_str());
                                code.append(");\nfree(");
                                code.append(fv_addr.as_str());
                                code.append(");");
                                proof {
                                    assert(code@ =~= "PLV *"@ + fv_addr@
                                        + " = malloc(sizeof(PLV) * "@ + spec_digits(fvv.len())
                                        + ");\n"@ + lines@ + "PLV "@ + clos_addr@
                                        + " = __new_CLOS("@ + cp@ + ", "@ + fv_addr@ + ");\n"@
                                        + bc@ + "\n"@ + "__delete_PLV(&"@ + clos_addr@
                                        + ");\nfree("@ + fv_addr@ + ");"@);
                                }
                                Ok((code, ba))
                            },
                        }
                    },
                }
            
    }
}


impl CCodeGenerator {
    /// An identifier: its location, boxing global functions into values.
    #[verifier::rlimit(60)]
    fn gen_id(&mut self, id: &String) -> (r: Result<(String, String), String>)
        requires
            old(self).fresh_var_counter + 2 <= u64::MAX,
        ensures
            r matches Ok(p) ==> gen_expr_s(
                SpecExpr::Id(id@),
                view_locs(old(self).env@),
                old(self).fresh_var_counter as nat,
            ) == Some((p.0@, p.1@, final(self).fresh_var_counter as nat)),
            r is Err ==> gen_expr_s(
                SpecExpr::Id(id@),
                view_locs(old(self).env@),
                old(self).fresh_var_counter as nat,
            ) is None,
            final(self).env@ == old(self).env@,
            final(self).func_decl@ == old(self).func_decl@,
            final(self).clos_decl@ == old(self).clos_decl@,
            final(self).global_var_decl@ == old(self).global_var_decl@,
            final(self).main_prog@ == old(self).main_prog@,
            final(self).func_def@ == old(self).func_def@,
            final(self).clos_def@ == old(self).clos_def@,
    {
        broadcast use lemma_view_locs;

        let ghost envv = view_locs(self.env@);
        let ghost c0 = self.fresh_var_counter as nat;

                let looked = match self.env_get(id) {
                    Some(m) => Some(m.clone()),
                    None => None,
                };
                match looked {
                    None => Err(err_undefined()),
                    Some(m) => {
                        let is_gf = if m.as_str().unicode_len() >= 11 {
                            let pre = m.as_str().substring_char(0, 11);
                            let pre_s = String::from_str(pre);
                            pre_s == String::from_str("global_func")
                        } else {
                            false
                        };
                        if is_gf {
                            let addr = self.fresh_var("f");
                            let mut code = String::from_str("PLV ");
                            code.append(addr.as_str());
                            code.append(" = __new_FUNCPTR(");
                            code.append(m.as_str());
                            code.append(");");
                            proof {
                                assert(code@ =~= "PLV "@ + addr@ + " = __new_FUNCPTR("@ + m@
                                    + ");"@);
                            }
                            Ok((code, addr))
                        } else {
                            proof {
                                assert(!is_global_func(m@));
                            }
                            let code = String::new();
                            proof {
                                assert(code@ =~= Seq::<char>::empty());
                            }
                            Ok((code, m))
                        }
                    },
                }
            
    }

    /// A conditional: both branches' statements guarded natively, meeting in
    /// one temporary.
    #[verifier::rlimit(100)]
    fn gen_if(&mut self, cond: &Expr, thn: &Expr, els: &Expr) -> (r: Result<
        (String, String),
        String,
    >)
        requires
            old(self).fresh_var_counter + 2 * crate::knormal::spec_size(
                SpecExpr::If { cond: Box::new(cond@), thn: Box::new(thn@), els: Box::new(els@) },
            ) <= u64::MAX,
        ensures
            r matches Ok(p) ==> gen_expr_s(
                SpecExpr::If { cond: Box::new(cond@), thn: Box::new(thn@), els: Box::new(els@) },
                view_locs(old(self).env@),
                old(self).fresh_var_counter as nat,
            ) == Some((p.0@, p.1@, final(self).fresh_var_counter as nat)),
            r is Err ==> gen_expr_s(
                SpecExpr::If { cond: Box::new(cond@), thn: Box::new(thn@), els: Box::new(els@) },
                view_locs(old(self).env@),
                old(self).fresh_var_counter as nat,
            ) is None,
            final(self).env@ == old(self).env@,
            final(self).func_decl@ == old(self).func_decl@,
            final(self).clos_decl@ == old(self).clos_decl@,
            final(self).global_var_decl@ == old(self).global_var_decl@,
            final(self).main_prog@ == old(self).main_prog@,
            final(self).func_def@ == old(self).func_def@,
            final(self).clos_def@ == old(self).clos_def@,
        decreases crate::knormal::spec_size(
            SpecExpr::If { cond: Box::new(cond@), thn: Box::new(thn@), els: Box::new(els@) },
        ), 0int,
    {
        broadcast use lemma_view_locs;

        let ghost envv = view_locs(self.env@);
        let ghost c0 = self.fresh_var_counter as nat;

                proof {
                    lemma_gen_count(cond@, envv, c0);
                }
                let (cc, ca) = self.gen_expr(cond)?;
                proof {
                    lemma_gen_count(thn@, envv, self.fresh_var_counter as nat);
                }
                let (tc, ta) = self.gen_expr(thn)?;
                proof {
                    lemma_gen_count(els@, envv, self.fresh_var_counter as nat);
                }
                let (ec, ea) = self.gen_expr(els)?;
                let addr = self.fresh_var("tmp");
                let mut code = cc;
                code.append("\n");
                code.append("PLV ");
                code.append(addr.as_str());
                code.append(";");
                code.append("if (");
                code.append(ca.as_str());
                code.append(".val.b == 1) {\n");
                code.append(tc.as_str());
                code.append("\n");
                code.append(addr.as_str());
                code.append(" = ");
                code.append(ta.as_str());
                code.append(";\n} else {\n");
                code.append(ec.as_str());
                code.append("\n");
                code.append(addr.as_str());
                code.append("=");
                code.append(ea.as_str());
                code.append(";\n}");
                proof {
                    assert(code@ =~= gen_expr_s(cond@, envv, c0).unwrap().0 + "\n"@ + "PLV "@
                        + addr@ + ";"@ + "if ("@ + ca@ + ".val.b == 1) {\n"@ + tc@ + "\n"@
                        + addr@ + " = "@ + ta@ + ";\n} else {\n"@ + ec@ + "\n"@ + addr@ + "="@
                        + ea@ + ";\n}"@);
                }
                Ok((code, addr))
            
    }

    /// A `let`: bind the evaluated right-hand side's location for exactly
    /// the body, then release its storage.
    #[verifier::rlimit(100)]
    fn gen_let(&mut self, bindings: &Vec<(String, Expr)>, body: &Expr) -> (r: Result<
        (String, String),
        String,
    >)
        requires
            old(self).fresh_var_counter + 2 * crate::knormal::spec_size(
                SpecExpr::Let { bindings: view_binds(bindings@), body: Box::new(body@) },
            ) <= u64::MAX,
        ensures
            r matches Ok(p) ==> gen_expr_s(
                SpecExpr::Let { bindings: view_binds(bindings@), body: Box::new(body@) },
                view_locs(old(self).env@),
                old(self).fresh_var_counter as nat,
            ) == Some((p.0@, p.1@, final(self).fresh_var_counter as nat)),
            r is Err ==> gen_expr_s(
                SpecExpr::Let { bindings: view_binds(bindings@), body: Box::new(body@) },
                view_locs(old(self).env@),
                old(self).fresh_var_counter as nat,
            ) is None,
            final(self).env@ == old(self).env@,
            final(self).func_decl@ == old(self).func_decl@,
            final(self).clos_decl@ == old(self).clos_decl@,
            final(self).global_var_decl@ == old(self).global_var_decl@,
            final(self).main_prog@ == old(self).main_prog@,
            final(self).func_def@ == old(self).func_def@,
            final(self).clos_def@ == old(self).clos_def@,
        decreases crate::knormal::spec_size(
            SpecExpr::Let { bindings: view_binds(bindings@), body: Box::new(body@) },
        ), 0int,
    {
        broadcast use lemma_view_locs, crate::ast::lemma_view_binds, crate::ast::lemma_push_parts;

        let ghost envv = view_locs(self.env@);
        let ghost c0 = self.fresh_var_counter as nat;

                if bindings.len() != 1 {
                    proof {
                        assert(view_binds(bindings@).len() != 1);
                    }
                    return Err(err_invalid());
                }
                proof {
                    assert(view_binds(bindings@)[0] == (bindings@[0].0@, view_expr(
                        bindings@[0].1,
                    )));
                    crate::closure::lemma_size_binds_first_pub(view_binds(bindings@));
                    lemma_gen_count(view_binds(bindings@)[0].1, envv, c0);
                }
                let e1 = &bindings[0].1;
                let r1 = self.gen_expr(e1);
                match r1 {
                    Err(m) => Err(m),
                    Ok((ec, ea)) => {
                        self.env.push((bindings[0].0.clone(), ea.clone()));
                        proof {
                            assert(view_locs(self.env@) =~= envv.push(
                                (bindings@[0].0@, ea@),
                            ));
                        }
                        let r2 = self.gen_expr(body);
                        match r2 {
                            Err(m) => {
                                let _popped = self.env.pop();
                                proof {
                                    assert(self.env@ =~= old(self).env@);
                                }
                                Err(m)
                            },
                            Ok((bc, ba)) => {
                                let _popped = self.env.pop();
                                proof {
                                    assert(self.env@ =~= old(self).env@);
                                }
                                let mut code = ec;
                                code.append("\n");
                                code.append(bc.as_str());
                                code.append("\n");
                                code.append("__delete_PLV(&");
                                code.append(ea.as_str());
                                code.append(");");
                                proof {
                                    assert(code@ =~= gen_expr_s(
                                        view_binds(bindings@)[0].1,
                                        envv,
                                        c0,
                                    ).unwrap().0 + "\n"@ + bc@ + "\n"@ + "__delete_PLV(&"@ + ea@
                                        + ");"@);
                                }
                                Ok((code, ba))
                            },
                        }
                    },
                }
            
    }
}

/// Once one element fails, the whole argument list fails.
proof fn lemma_gen_args_none(
    v: Seq<SpecExpr>,
    i: int,
    env: Seq<(Seq<char>, Seq<char>)>,
    c: nat,
)
    requires
        0 <= i < v.len(),
        gen_args_s(v.take(i), env, c) is Some,
        gen_expr_s(v[i], env, gen_args_s(v.take(i), env, c).unwrap().2) is None,
    ensures
        gen_args_s(v, env, c) is None,
    decreases v.len() - i,
{
    broadcast use crate::ast::lemma_push_parts;

    if i == v.len() - 1 {
        assert(v.take(i) =~= v.drop_last());
    } else {
        assert(v.take(i + 1).drop_last() =~= v.take(i));
        assert(v.take(i + 1).last() == v[i]);
        assert(gen_args_s(v.take(i + 1), env, c) is None);
        lemma_gen_args_none_tail(v, i + 1, env, c);
    }
}

proof fn lemma_gen_args_none_tail(
    v: Seq<SpecExpr>,
    i: int,
    env: Seq<(Seq<char>, Seq<char>)>,
    c: nat,
)
    requires
        0 < i <= v.len(),
        gen_args_s(v.take(i), env, c) is None,
    ensures
        gen_args_s(v, env, c) is None,
    decreases v.len() - i,
{
    broadcast use crate::ast::lemma_push_parts;

    if i == v.len() {
        assert(v.take(i) =~= v);
    } else {
        assert(v.take(i + 1).drop_last() =~= v.take(i));
        lemma_gen_args_none_tail(v, i + 1, env, c);
    }
}

/// Once one captured variable fails to resolve, the capture lines fail.
proof fn lemma_fv_lines_none(
    fvs: Seq<Seq<char>>,
    i: int,
    env: Seq<(Seq<char>, Seq<char>)>,
    fv_addr: Seq<char>,
)
    requires
        0 <= i < fvs.len(),
        fv_lines(fvs.take(i), env, fv_addr) is Some,
        cg_lookup(env, fvs[i]) is None,
    ensures
        fv_lines(fvs, env, fv_addr) is None,
    decreases fvs.len() - i,
{
    broadcast use crate::ast::lemma_push_parts;

    if i == fvs.len() - 1 {
        assert(fvs.take(i) =~= fvs.drop_last());
    } else {
        assert(fvs.take(i + 1).drop_last() =~= fvs.take(i));
        assert(fvs.take(i + 1).last() == fvs[i]);
        assert(fv_lines(fvs.take(i + 1), env, fv_addr) is None);
        lemma_fv_lines_none_tail(fvs, i + 1, env, fv_addr);
    }
}

proof fn lemma_fv_lines_none_tail(
    fvs: Seq<Seq<char>>,
    i: int,
    env: Seq<(Seq<char>, Seq<char>)>,
    fv_addr: Seq<char>,
)
    requires
        0 < i <= fvs.len(),
        fv_lines(fvs.take(i), env, fv_addr) is None,
    ensures
        fv_lines(fvs, env, fv_addr) is None,
    decreases fvs.len() - i,
{
    broadcast use crate::ast::lemma_push_parts;

    if i == fvs.len() {
        assert(fvs.take(i) =~= fvs);
    } else {
        assert(fvs.take(i + 1).drop_last() =~= fvs.take(i));
        lemma_fv_lines_none_tail(fvs, i + 1, env, fv_addr);
    }
}

fn err_undefined() -> (r: String)
    ensures
        true,
{
    String::from_str("undefined identifier in lowered program")
}

fn err_invalid() -> (r: String)
    ensures
        true,
{
    String::from_str("invalid node kind in lowered program")
}

impl CCodeGenerator {
    /// A generator with the builtin operators pre-bound.
    fn new() -> (r: CCodeGenerator)
        ensures
            r.st() == init_cg(),
    {
        broadcast use lemma_view_locs, crate::ast::lemma_push_parts;

        let mut env: Vec<(String, String)> = Vec::new();
        proof {
            assert(view_locs(env@) =~= Seq::<(Seq<char>, Seq<char>)>::empty());
        }
        env.push((String::from_str("+"), String::from_str("global_func_add")));
        proof {
            assert(view_locs(env@) =~= seq![("+"@, "global_func_add"@)]);
        }
        env.push((String::from_str("-"), String::from_str("global_func_sub")));
        proof {
            assert(view_locs(env@) =~= seq![("+"@, "global_func_add"@), ("-"@, "global_func_sub"@)]);
        }
        env.push((String::from_str("*"), String::from_str("global_func_mul")));
        proof {
            assert(view_locs(env@) =~= seq![
                ("+"@, "global_func_add"@),
                ("-"@, "global_func_sub"@),
                ("*"@, "global_func_mul"@),
            ]);
        }
        env.push((String::from_str("/"), String::from_str("global_func_div")));
        proof {
            assert(view_locs(env@) =~= seq![
                ("+"@, "global_func_add"@),
                ("-"@, "global_func_sub"@),
                ("*"@, "global_func_mul"@),
                ("/"@, "global_func_div"@),
            ]);
        }
        env.push((String::from_str("="), String::from_str("global_func_eq")));
        proof {
            assert(view_locs(env@) =~= seq![
                ("+"@, "global_func_add"@),
                ("-"@, "global_func_sub"@),
                ("*"@, "global_func_mul"@),
                ("/"@, "global_func_div"@),
                ("="@, "global_func_eq"@),
            ]);
        }
        env.push((String::from_str(">"), String::from_str("global_func_gt")));
        proof {
            assert(view_locs(env@) =~= seq![
                ("+"@, "global_func_add"@),
                ("-"@, "global_func_sub"@),
                ("*"@, "global_func_mul"@),
                ("/"@, "global_func_div"@),
                ("="@, "global_func_eq"@),
                (">"@, "global_func_gt"@),
            ]);
        }
        env.push((String::from_str("<"), String::from_str("global_func_lt")));
        proof {
            assert(view_locs(env@) =~= seq![
                ("+"@, "global_func_add"@),
                ("-"@, "global_func_sub"@),
                ("*"@, "global_func_mul"@),
                ("/"@, "global_func_div"@),
                ("="@, "global_func_eq"@),
                (">"@, "global_func_gt"@),
                ("<"@, "global_func_lt"@),
            ]);
        }
        env.push((String::from_str("<="), String::from_str("global_func_leq")));
        proof {
            assert(view_locs(env@) =~= seq![
                ("+"@, "global_func_add"@),
                ("-"@, "global_func_sub"@),
                ("*"@, "global_func_mul"@),
                ("/"@, "global_func_div"@),
                ("="@, "global_func_eq"@),
                (">"@, "global_func_gt"@),
                ("<"@, "global_func_lt"@),
                ("<="@, "global_func_leq"@),
            ]);
        }
        env.push((String::from_str(">="), String::from_str("global_func_geq")));
        proof {
            assert(view_locs(env@) =~= builtin_env());
        }
        let r = CCodeGenerator {
            fresh_var_counter: 0,
            env,
            func_decl: Vec::new(),
            clos_decl: Vec::new(),
            global_var_decl: Vec::new(),
            main_prog: Vec::new(),
            func_def: Vec::new(),
            clos_def: Vec::new(),
        };
        proof {
            assert(view_ids(r.func_decl@) =~= Seq::<Seq<char>>::empty());
            assert(view_ids(r.clos_decl@) =~= Seq::<Seq<char>>::empty());
            assert(view_ids(r.global_var_decl@) =~= Seq::<Seq<char>>::empty());
            assert(view_ids(r.main_prog@) =~= Seq::<Seq<char>>::empty());
            assert(view_ids(r.func_def@) =~= Seq::<Seq<char>>::empty());
            assert(view_ids(r.clos_def@) =~= Seq::<Seq<char>>::empty());
            assert(r.st() =~= init_cg());
        }
        r
    }

    /// The generator's state in the model.
    pub open spec fn st(&self) -> SpecCg {
        SpecCg {
            env: view_locs(self.env@),
            c: self.fresh_var_counter as nat,
            func_decl: view_ids(self.func_decl@),
            clos_decl: view_ids(self.clos_decl@),
            global_var_decl: view_ids(self.global_var_decl@),
            main_prog: view_ids(self.main_prog@),
            func_def: view_ids(self.func_def@),
            clos_def: view_ids(self.clos_def@),
        }
    }

    /// Fold one top-level item into the state.
    #[verifier::loop_isolation(false)]
    #[verifier::rlimit(100)]
    fn gen_top(&mut self, e: &Expr) -> (r: Result<(), String>)
        requires
            old(self).fresh_var_counter + 2 * crate::knormal::spec_size(e@) + 2 <= u64::MAX,
        ensures
            r is Ok ==> gen_top_s(e@, old(self).st()) == Some(final(self).st()),
            r is Err ==> gen_top_s(e@, old(self).st()) is None,
    {
        broadcast use lemma_view_locs, crate::ast::lemma_view_exprs, crate::ast::lemma_view_binds, crate::ast::lemma_push_parts;

        let ghost st0 = self.st();
        match e {
            Expr::Def { x, y } => {
                proof {
                    lemma_gen_count(y@, st0.env, st0.c);
                }
                let (yc, ya) = self.gen_expr(y)?;
                let func_addr = self.fresh_var("global_var_init_func");
                let mut decl = String::from_str("PLV ");
                decl.append(func_addr.as_str());
                decl.append("();");
                proof {
                    assert(decl@ =~= "PLV "@ + func_addr@ + "();"@);
                    assert(view_ids(self.func_decl@.push(decl)) =~= view_ids(
                        self.func_decl@,
                    ).push(decl@));
                }
                self.func_decl.push(decl);
                let mut def = String::from_str("PLV ");
                def.append(func_addr.as_str());
                def.append("(){\n");
                def.append(yc.as_str());
                def.append("\nreturn ");
                def.append(ya.as_str());
                def.append(";\n}");
                proof {
                    assert(def@ =~= "PLV "@ + func_addr@ + "(){\n"@ + yc@ + "\nreturn "@ + ya@
                        + ";\n}"@);
                    assert(view_ids(self.func_def@.push(def)) =~= view_ids(
                        self.func_def@,
                    ).push(def@));
                }
                self.func_def.push(def);
                let x_addr = self.fresh_var("global_var");
                let mut gdecl = String::from_str("PLV ");
                gdecl.append(x_addr.as_str());
                gdecl.append(";");
                proof {
                    assert(gdecl@ =~= "PLV "@ + x_addr@ + ";"@);
                    assert(view_ids(self.global_var_decl@.push(gdecl)) =~= view_ids(
                        self.global_var_decl@,
                    ).push(gdecl@));
                }
                self.global_var_decl.push(gdecl);
                let mut init = String::from_str("PLV ");
                init.append(x_addr.as_str());
                init.append(" = ");
                init.append(func_addr.as_str());
                init.append("();");
                proof {
                    assert(init@ =~= "PLV "@ + x_addr@ + " = "@ + func_addr@ + "();"@);
                    assert(view_ids(self.main_prog@.push(init)) =~= view_ids(
                        self.main_prog@,
                    ).push(init@));
                }
                self.main_prog.push(init);
                let ghost xa = x_addr@;
                self.env.push((x.clone(), x_addr));
                proof {
                    assert(view_locs(self.env@) =~= st0.env.push((x@, xa)));
                }
                Ok(())
            },
            Expr::Defun { name, args, body } => {
                let funcptr = self.fresh_var("global_func");
                self.env.push((name.clone(), funcptr.clone()));
                let ghost env1 = view_locs(self.env@);
                proof {
                    assert(env1 =~= st0.env.push((name@, funcptr@)));
                }
                let ghost env_exec1 = self.env@;
                let base_len = self.env.len();
                self.push_arg_slots(args, "args");
                proof {
                    assert(view_locs(self.env@) =~= env1 + arg_slots(
                        view_ids(args@),
                        "args"@,
                    ));
                }
                let res = self.gen_expr(body);
                self.env.truncate(base_len);
                proof {
                    assert(self.env@ =~= env_exec1);
                    assert(view_locs(self.env@) =~= env1);
                }
                match res {
                    Err(m) => Err(m),
                    Ok((bc, ba)) => {
                        let mut decl = String::from_str("PLV ");
                        decl.append(funcptr.as_str());
                        decl.append("(PLV *args);");
                        proof {
                            assert(decl@ =~= "PLV "@ + funcptr@ + "(PLV *args);"@);
                            assert(view_ids(self.func_decl@.push(decl)) =~= view_ids(
                                self.func_decl@,
                            ).push(decl@));
                        }
                        self.func_decl.push(decl);
                        let mut def = String::from_str("PLV ");
                        def.append(funcptr.as_str());
                        def.append("(PLV *args){\n");
                        def.append(bc.as_str());
                        def.append("\nreturn ");
                        def.append(ba.as_str());
                        def.append(";\n}");
                        proof {
                            assert(def@ =~= "PLV "@ + funcptr@ + "(PLV *args){\n"@ + bc@
                                + "\nreturn "@ + ba@ + ";\n}"@);
                            assert(view_ids(self.func_def@.push(def)) =~= view_ids(
                                self.func_def@,
                            ).push(def@));
                        }
                        self.func_def.push(def);
                        proof {
                            assert(view_locs(self.env@) =~= env1);
                        }
                        Ok(())
                    },
                }
            },
            Expr::DefClos { name, freevars, args, body } => {
                let closptr = self.fresh_var("global_clos");
                self.env.push((name.clone(), closptr.clone()));
                let ghost env1 = view_locs(self.env@);
                proof {
                    assert(env1 =~= st0.env.push((name@, closptr@)));
                }
                let ghost env_exec1 = self.env@;
                let base_len = self.env.len();
                self.push_arg_slots(freevars, "freevars");
                let ghost env2 = view_locs(self.env@);
                proof {
                    assert(env2 =~= env1 + arg_slots(view_ids(freevars@), "freevars"@));
                }
                self.push_arg_slots(args, "args");
                proof {
                    assert(view_locs(self.env@) =~= env1 + arg_slots(
                        view_ids(freevars@),
                        "freevars"@,
                    ) + arg_slots(view_ids(args@), "args"@));
                }
                let res = self.gen_expr(body);
                self.env.truncate(base_len);
                proof {
                    assert(self.env@ =~= env_exec1);
                    assert(view_locs(self.env@) =~= env1);
                }
                match res {
                    Err(m) => Err(m),
                    Ok((bc, ba)) => {
                        let mut decl = String::from_str("PLV ");
                        decl.append(closptr.as_str());
                        decl.append("(PLV *freevars, PLV *args);");
                        proof {
                            assert(decl@ =~= "PLV "@ + closptr@ + "(PLV *freevars, PLV *args);"@);
                            assert(view_ids(self.clos_decl@.push(decl)) =~= view_ids(
                                self.clos_decl@,
                            ).push(decl@));
                        }
                        self.clos_decl.push(decl);
                        let mut def = String::from_str("PLV ");
                        def.append(closptr.as_str());
                        def.append("(PLV *freevars, PLV *args){\n");
                        def.append(bc.as_str());
                        def.append("\nreturn ");
                        def.append(ba.as_str());
                        def.append(";\n}");
                        proof {
                            assert(def@ =~= "PLV "@ + closptr@ + "(PLV *freevars, PLV *args){\n"@
                                + bc@ + "\nreturn "@ + ba@ + ";\n}"@);
                            assert(view_ids(self.clos_def@.push(def)) =~= view_ids(
                                self.clos_def@,
                            ).push(def@));
                        }
                        self.clos_def.push(def);
                        proof {
                            assert(view_locs(self.env@) =~= env1);
                        }
                        Ok(())
                    },
                }
            },
            other => {
                proof {
                    lemma_gen_count(other@, st0.env, st0.c);
                }
                let (code, addr) = self.gen_expr(other)?;
                proof {
                    assert(view_ids(self.main_prog@.push(code)) =~= view_ids(
                        self.main_prog@,
                    ).push(code@));
                }
                let ghost codev = code@;
                self.main_prog.push(code);
                let mut print_line = String::from_str("__PLV_print(&");
                print_line.append(addr.as_str());
                print_line.append(");\nputchar('\\n');\n");
                proof {
                    assert(print_line@ =~= "__PLV_print(&"@ + addr@ + ");\nputchar('\\n');\n"@);
                    assert(view_ids(self.main_prog@.push(print_line)) =~= view_ids(
                        self.main_prog@,
                    ).push(print_line@));
                }
                self.main_prog.push(print_line);
                Ok(())
            },
        }
    }

    /// Bind each name to its slot in the given buffer.
    #[verifier::loop_isolation(false)]
    fn push_arg_slots(&mut self, names: &Vec<String>, buf: &str)
        ensures
            final(self).env@.len() == old(self).env@.len() + names@.len(),
            final(self).env@.subrange(0, old(self).env@.len() as int) == old(self).env@,
            view_locs(final(self).env@) == view_locs(old(self).env@) + arg_slots(
                view_ids(names@),
                buf@,
            ),
            final(self).fresh_var_counter == old(self).fresh_var_counter,
            final(self).func_decl@ == old(self).func_decl@,
            final(self).clos_decl@ == old(self).clos_decl@,
            final(self).global_var_decl@ == old(self).global_var_decl@,
            final(self).main_prog@ == old(self).main_prog@,
            final(self).func_def@ == old(self).func_def@,
            final(self).clos_def@ == old(self).clos_def@,
    {
        broadcast use lemma_view_locs, crate::ast::lemma_push_parts;

        let ghost base = view_locs(self.env@);
        let ghost nv = view_ids(names@);
        let mut i: usize = 0;
        proof {
            assert(arg_slots(nv.take(0), buf@) =~= Seq::<(Seq<char>, Seq<char>)>::empty());
            assert(view_locs(self.env@) =~= base + arg_slots(nv.take(0), buf@));
        }
        while i < names.len()
            invariant
                i <= names.len(),
                self.env@.len() == old(self).env@.len() + i,
                self.env@.subrange(0, old(self).env@.len() as int) =~= old(self).env@,
                view_locs(self.env@) == base + arg_slots(nv.take(i as int), buf@),
                self.fresh_var_counter == old(self).fresh_var_counter,
                self.func_decl@ == old(self).func_decl@,
                self.clos_decl@ == old(self).clos_decl@,
                self.global_var_decl@ == old(self).global_var_decl@,
                self.main_prog@ == old(self).main_prog@,
                self.func_def@ == old(self).func_def@,
                self.clos_def@ == old(self).clos_def@,
            decreases names.len() - i,
        {
            let mut slot = String::from_str(buf);
            slot.append("[");
            let istr = crate::util::usize_to_string(i);
            slot.append(istr.as_str());
            slot.append("]");
            let pair = (names[i].clone(), slot);
            proof {
                assert(pair.1@ =~= buf@ + "["@ + spec_digits(i as nat) + "]"@);
                assert(nv.take(i as int).push(nv[i as int]) =~= nv.take(i + 1));
                assert(arg_slots(nv.take(i + 1), buf@) == arg_slots(
                    nv.take(i as int),
                    buf@,
                ).push((nv[i as int], buf@ + "["@ + spec_digits(i as nat) + "]"@)));
                assert(view_locs(self.env@.push(pair)) =~= view_locs(self.env@).push(
                    (pair.0@, pair.1@),
                ));
            }
            self.env.push(pair);
            i = i + 1;
        }
        proof {
            assert(nv.take(i as int) =~= nv);
            assert(self.env@.subrange(0, old(self).env@.len() as int) =~= old(self).env@);
        }
    }
}

/// The sections joined by newlines.
#[verifier::loop_isolation(false)]
fn join_nl_exec(v: &Vec<String>) -> (r: String)
    ensures
        r@ == join_nl(view_ids(v@)),
{
    broadcast use crate::ast::lemma_push_parts;

    let ghost sv = view_ids(v@);
    let mut out = String::new();
    let mut i: usize = 0;
    proof {
        assert(join_nl(sv.take(0)) =~= Seq::<char>::empty());
    }
    while i < v.len()
        invariant
            i <= v.len(),
            sv == view_ids(v@),
            out@ == join_nl(sv.take(i as int)),
        decreases v.len() - i,
    {
        if i > 0 {
            out.append("\n");
        }
        out.append(v[i].as_str());
        proof {
            reveal_strlit("\n");
            assert(sv.take(i + 1).drop_last() =~= sv.take(i as int));
            assert(sv.take(i + 1).last() == sv[i as int]);
            assert(sv[i as int] == v@[i as int]@);
            if i == 0 {
                assert(join_nl(sv.take(1)) == sv.take(1)[0]);
                assert(out@ =~= join_nl(sv.take(1)));
            } else {
                assert(join_nl(sv.take(i + 1)) == join_nl(sv.take(i as int)) + "\n"@
                    + sv[i as int]);
                assert(out@ =~= join_nl(sv.take(i + 1)));
            }
        }
        i = i + 1;
    }
    proof {
        assert(sv.take(i as int) =~= sv);
    }
    out
}

/// Generate the complete C program for a lowered program.  Fails exactly
/// when an identifier does not resolve or a node kind that closure
/// conversion should have eliminated is still present.
#[verifier::loop_isolation(false)]
#[verifier::rlimit(100)]
pub fn generate_c_code(prog: Vec<Expr>) -> (r: Result<String, String>)
    requires
        2 * crate::knormal::spec_size_seq(view_exprs(prog@)) + 2 * prog@.len() <= u64::MAX,
    ensures
        r matches Ok(s) ==> spec_generate_c(view_exprs(prog@)) == Some(s@),
        r is Err ==> spec_generate_c(view_exprs(prog@)) is None,
{
    broadcast use crate::ast::lemma_view_exprs, crate::ast::lemma_push_parts;

    let ghost pv = view_exprs(prog@);
    let mut g = CCodeGenerator::new();
    proof {
        assert(gen_prog_s(pv.take(0), init_cg()) == Some(g.st())) by {
            assert(pv.take(0) =~= Seq::<SpecExpr>::empty());
        }
    }
    let mut i: usize = 0;
    while i < prog.len()
        invariant
            i <= prog.len(),
            gen_prog_s(pv.take(i as int), init_cg()) == Some(g.st()),
        decreases prog.len() - i,
    {
        proof {
            lemma_gen_prog_count(pv.take(i as int), init_cg());
            crate::knormal::lemma_size_seq_split(pv, i as int);
            crate::knormal::lemma_size_seq_take_le(pv, i as int);
            assert(pv.take(i as int).push(pv[i as int]) =~= pv.take(i + 1));
        }
        match g.gen_top(&prog[i]) {
            Ok(_) => {},
            Err(m) => {
                proof {
                    lemma_gen_prog_none(pv, i as int);
                }
                return Err(m);
            },
        }
        i = i + 1;
    }
    proof {
        assert(pv.take(i as int) =~= pv);
    }
    let out = assemble(&g);
    Ok(out)
}


/// Assemble the complete program text from the generator's sections.
#[verifier::rlimit(100)]
fn assemble(g: &CCodeGenerator) -> (r: String)
    ensures
        r@ == assemble_s(g.st()),
{
    let mut out = String::from_str("#include \"runtime.c\"\n\n// Function declarations\n");
    let s1 = join_nl_exec(&g.func_decl);
    out.append(s1.as_str());
    out.append("\n\n// Closure declarations\n");
    let s2 = join_nl_exec(&g.clos_decl);
    out.append(s2.as_str());
    out.append("\n\n// Global variable declarations\n");
    let s3 = join_nl_exec(&g.global_var_decl);
    out.append(s3.as_str());
    out.append("\n\n// Main program\nint main() {\n");
    let s4 = join_nl_exec(&g.main_prog);
    out.append(s4.as_str());
    out.append("\nreturn 0;\n}\n\n// Function definitions\n");
    let s5 = join_nl_exec(&g.func_def);
    out.append(s5.as_str());
    out.append("\n\n// Closure definitions\n");
    let s6 = join_nl_exec(&g.clos_def);
    out.append(s6.as_str());
    proof {
        assert(out@ =~= assemble_s(g.st()));
    }
    out
}

/// Once one item fails, the whole program fails.
proof fn lemma_gen_prog_none(p: Seq<SpecExpr>, i: int)
    requires
        0 <= i < p.len(),
        gen_prog_s(p.take(i), init_cg()) is Some,
        gen_top_s(p[i], gen_prog_s(p.take(i), init_cg()).unwrap()) is None,
    ensures
        gen_prog_s(p, init_cg()) is None,
    decreases p.len() - i,
{
    broadcast use crate::ast::lemma_push_parts;

    if i == p.len() - 1 {
        assert(p.take(i) =~= p.drop_last());
    } else {
        assert(p.take(i + 1).drop_last() =~= p.take(i));
        assert(p.take(i + 1).last() == p[i]);
        assert(gen_prog_s(p.take(i + 1), init_cg()) is None);
        lemma_gen_prog_none_tail(p, i + 1);
    }
}

proof fn lemma_gen_prog_none_tail(p: Seq<SpecExpr>, i: int)
    requires
        0 < i <= p.len(),
        gen_prog_s(p.take(i), init_cg()) is None,
    ensures
        gen_prog_s(p, init_cg()) is None,
    decreases p.len() - i,
{
    broadcast use crate::ast::lemma_push_parts;

    if i == p.len() {
        assert(p.take(i) =~= p);
    } else {
        assert(p.take(i + 1).drop_last() =~= p.take(i));
        lemma_gen_prog_none_tail(p, i + 1);
    }
}

} // verus!
