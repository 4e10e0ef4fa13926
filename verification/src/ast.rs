//! The expression tree shared by every stage of the pipeline, its
//! mathematical model, and the free-variable analysis.

use vstd::prelude::*;

verus! {

/// One tagged tree serves every pipeline stage; each pass accepts only a
/// subset of the node kinds and its contract says which.  Float literals
/// carry their source text: the pipeline never computes with them, it only
/// moves them through to the printed output.
#[derive(Debug, PartialEq)]
pub enum Expr {
    Nil,
    Bool(bool),
    Int(i64),
    Float(String),
    Str(String),
    Id(String),
    Form(Vec<Expr>),
    Let { bindings: Vec<(String, Expr)>, body: Box<Expr> },
    If { cond: Box<Expr>, thn: Box<Expr>, els: Box<Expr> },
    And(Vec<Expr>),
    Or(Vec<Expr>),
    Not(Box<Expr>),
    Fn { args: Vec<String>, body: Box<Expr> },
    Def { x: String, y: Box<Expr> },
    Defun { name: String, args: Vec<String>, body: Box<Expr> },
    LetFun { name: String, args: Vec<String>, fun_body: Box<Expr>, expr_body: Box<Expr> },
    DefClos { name: String, freevars: Vec<String>, args: Vec<String>, body: Box<Expr> },
    LetClos { name: String, closid: String, freevars: Vec<String>, body: Box<Expr> },
}

/// The mathematical shape of an expression tree: the same constructors over
/// `Seq` and `int`.  All contracts in this crate speak about this model.
pub enum SpecExpr {
    Nil,
    Bool(bool),
    Int(int),
    Float(Seq<char>),
    Str(Seq<char>),
    Id(Seq<char>),
    Form(Seq<SpecExpr>),
    Let { bindings: Seq<(Seq<char>, SpecExpr)>, body: Box<SpecExpr> },
    If { cond: Box<SpecExpr>, thn: Box<SpecExpr>, els: Box<SpecExpr> },
    And(Seq<SpecExpr>),
    Or(Seq<SpecExpr>),
    Not(Box<SpecExpr>),
    Fn { args: Seq<Seq<char>>, body: Box<SpecExpr> },
    Def { x: Seq<char>, y: Box<SpecExpr> },
    Defun { name: Seq<char>, args: Seq<Seq<char>>, body: Box<SpecExpr> },
    LetFun {
        name: Seq<char>,
        args: Seq<Seq<char>>,
        fun_body: Box<SpecExpr>,
        expr_body: Box<SpecExpr>,
    },
    DefClos {
        name: Seq<char>,
        freevars: Seq<Seq<char>>,
        args: Seq<Seq<char>>,
        body: Box<SpecExpr>,
    },
    LetClos {
        name: Seq<char>,
        closid: Seq<char>,
        freevars: Seq<Seq<char>>,
        body: Box<SpecExpr>,
    },
}

/// The views of a list of identifiers.
pub open spec fn view_ids(v: Seq<String>) -> Seq<Seq<char>> {
    v.map_values(|s: String| s@)
}

/// The model of an expression tree.
pub open spec fn view_expr(e: Expr) -> SpecExpr
    decreases e,
{
    match e {
        Expr::Nil => SpecExpr::Nil,
        Expr::Bool(b) => SpecExpr::Bool(b),
        Expr::Int(i) => SpecExpr::Int(i as int),
        Expr::Float(s) => SpecExpr::Float(s@),
        Expr::Str(s) => SpecExpr::Str(s@),
        Expr::Id(s) => SpecExpr::Id(s@),
        Expr::Form(v) => SpecExpr::Form(view_exprs(v@)),
        Expr::Let { bindings, body } => SpecExpr::Let {
            bindings: view_binds(bindings@),
            body: Box::new(view_expr(*body)),
        },
        Expr::If { cond, thn, els } => SpecExpr::If {
            cond: Box::new(view_expr(*cond)),
            thn: Box::new(view_expr(*thn)),
            els: Box::new(view_expr(*els)),
        },
        Expr::And(v) => SpecExpr::And(view_exprs(v@)),
        Expr::Or(v) => SpecExpr::Or(view_exprs(v@)),
        Expr::Not(b) => SpecExpr::Not(Box::new(view_expr(*b))),
        Expr::Fn { args, body } => SpecExpr::Fn {
            args: view_ids(args@),
            body: Box::new(view_expr(*body)),
        },
        Expr::Def { x, y } => SpecExpr::Def { x: x@, y: Box::new(view_expr(*y)) },
        Expr::Defun { name, args, body } => SpecExpr::Defun {
            name: name@,
            args: view_ids(args@),
            body: Box::new(view_expr(*body)),
        },
        Expr::LetFun { name, args, fun_body, expr_body } => SpecExpr::LetFun {
            name: name@,
            args: view_ids(args@),
            fun_body: Box::new(view_expr(*fun_body)),
            expr_body: Box::new(view_expr(*expr_body)),
        },
        Expr::DefClos { name, freevars, args, body } => SpecExpr::DefClos {
            name: name@,
            freevars: view_ids(freevars@),
            args: view_ids(args@),
            body: Box::new(view_expr(*body)),
        },
        Expr::LetClos { name, closid, freevars, body } => SpecExpr::LetClos {
            name: name@,
            closid: closid@,
            freevars: view_ids(freevars@),
            body: Box::new(view_expr(*body)),
        },
    }
}

/// The models of a list of expressions.
pub open spec fn view_exprs(v: Seq<Expr>) -> Seq<SpecExpr>
    decreases v,
{
    if v.len() == 0 {
        Seq::empty()
    } else {
        view_exprs(v.drop_last()).push(view_expr(v.last()))
    }
}

/// The models of a list of let bindings.
pub open spec fn view_binds(v: Seq<(String, Expr)>) -> Seq<(Seq<char>, SpecExpr)>
    decreases v,
{
    if v.len() == 0 {
        Seq::empty()
    } else {
        view_binds(v.drop_last()).push((v.last().0@, view_expr(v.last().1)))
    }
}

impl View for Expr {
    type V = SpecExpr;

    open spec fn view(&self) -> SpecExpr {
        view_expr(*self)
    }
}

pub broadcast proof fn lemma_view_exprs(v: Seq<Expr>)
    ensures
        (#[trigger] view_exprs(v)).len() == v.len(),
        forall|i: int| 0 <= i < v.len() ==> view_exprs(v)[i] == view_expr(#[trigger] v[i]),
    decreases v.len(),
{
    if v.len() > 0 {
        lemma_view_exprs(v.drop_last());
        assert forall|i: int| 0 <= i < v.len() implies view_exprs(v)[i] == view_expr(
            #[trigger] v[i],
        ) by {
            if i < v.len() - 1 {
                assert(v.drop_last()[i] == v[i]);
            }
        }
    }
}

pub broadcast proof fn lemma_view_binds(v: Seq<(String, Expr)>)
    ensures
        (#[trigger] view_binds(v)).len() == v.len(),
        forall|i: int|
            0 <= i < v.len() ==> view_binds(v)[i] == ((#[trigger] v[i]).0@, view_expr(v[i].1)),
    decreases v.len(),
{
    if v.len() > 0 {
        lemma_view_binds(v.drop_last());
        assert forall|i: int| 0 <= i < v.len() implies view_binds(v)[i] == (
            (#[trigger] v[i]).0@,
            view_expr(v[i].1),
        ) by {
            if i < v.len() - 1 {
                assert(v.drop_last()[i] == v[i]);
            }
        }
    }
}

/// A pushed sequence takes apart again: the backbone of every recursion in
/// this crate that walks a list from its last element.
pub broadcast proof fn lemma_push_parts<T>(s: Seq<T>, x: T)
    ensures
        (#[trigger] s.push(x)).drop_last() == s,
        s.push(x).last() == x,
        s.push(x).len() == s.len() + 1,
{
    assert(s.push(x).drop_last() =~= s);
}

/// An atom is a literal or a bare identifier: never a computation.
pub open spec fn spec_is_atom(e: SpecExpr) -> bool {
    match e {
        SpecExpr::Nil => true,
        SpecExpr::Bool(_) => true,
        SpecExpr::Int(_) => true,
        SpecExpr::Float(_) => true,
        SpecExpr::Str(_) => true,
        SpecExpr::Id(_) => true,
        _ => false,
    }
}

/// Copy a list of identifiers.
pub fn clone_ids(v: &Vec<String>) -> (r: Vec<String>)
    ensures
        r@ == v@,
{
    let mut r: Vec<String> = Vec::new();
    let mut i: usize = 0;
    while i < v.len()
        invariant
            i <= v.len(),
            r@ =~= v@.take(i as int),
        decreases v.len() - i,
    {
        r.push(v[i].clone());
        assert(r@ =~= v@.take(i + 1));
        i = i + 1;
    }
    assert(r@ =~= v@);
    r
}

impl Expr {
    /// Whether this node is a literal or a bare identifier.
    pub fn is_atom(&self) -> (r: bool)
        ensures
            r == spec_is_atom(self@),
    {
        match self {
            Expr::Nil => true,
            Expr::Bool(_) => true,
            Expr::Int(_) => true,
            Expr::Float(_) => true,
            Expr::Str(_) => true,
            Expr::Id(_) => true,
            _ => false,
        }
    }
}

/// The builtin primitive names of the language.
pub open spec fn spec_primitives() -> Seq<Seq<char>> {
    seq![
        "+"@,
        "-"@,
        "*"@,
        "/"@,
        "="@,
        "<"@,
        "<="@,
        ">"@,
        ">="@,
        "list"@,
        "car"@,
        "cdr"@,
        "cons"@,
        "length"@,
        "nth"@,
        "append"@,
    ]
}

/// Whether `s` names a builtin primitive.
pub fn is_primitive(s: &String) -> (r: bool)
    ensures
        r == spec_primitives().contains(s@),
{
    if *s == String::from_str("+") {
        proof {
            assert(spec_primitives()[0] == "+"@);
        }
        return true;
    }
    if *s == String::from_str("-") {
        proof {
            assert(spec_primitives()[1] == "-"@);
        }
        return true;
    }
    if *s == String::from_str("*") {
        proof {
            assert(spec_primitives()[2] == "*"@);
        }
        return true;
    }
    if *s == String::from_str("/") {
        proof {
            assert(spec_primitives()[3] == "/"@);
        }
        return true;
    }
    if *s == String::from_str("=") {
        proof {
            assert(spec_primitives()[4] == "="@);
        }
        return true;
    }
    if *s == String::from_str("<") {
        proof {
            assert(spec_primitives()[5] == "<"@);
        }
        return true;
    }
    if *s == String::from_str("<=") {
        proof {
            assert(spec_primitives()[6] == "<="@);
        }
        return true;
    }
    if *s == String::from_str(">") {
        proof {
            assert(spec_primitives()[7] == ">"@);
        }
        return true;
    }
    if *s == String::from_str(">=") {
        proof {
            assert(spec_primitives()[8] == ">="@);
        }
        return true;
    }
    if *s == String::from_str("list") {
        proof {
            assert(spec_primitives()[9] == "list"@);
        }
        return true;
    }
    if *s == String::from_str("car") {
        proof {
            assert(spec_primitives()[10] == "car"@);
        }
        return true;
    }
    if *s == String::from_str("cdr") {
        proof {
            assert(spec_primitives()[11] == "cdr"@);
        }
        return true;
    }
    if *s == String::from_str("cons") {
        proof {
            assert(spec_primitives()[12] == "cons"@);
        }
        return true;
    }
    if *s == String::from_str("length") {
        proof {
            assert(spec_primitives()[13] == "length"@);
        }
        return true;
    }
    if *s == String::from_str("nth") {
        proof {
            assert(spec_primitives()[14] == "nth"@);
        }
        return true;
    }
    if *s == String::from_str("append") {
        proof {
            assert(spec_primitives()[15] == "append"@);
        }
        return true;
    }
    proof {
        assert(forall|i: int|
            0 <= i < spec_primitives().len() ==> #[trigger] spec_primitives()[i] != s@);
    }
    false
}

/// The set of names in a list.
pub open spec fn ids_set(s: Seq<Seq<char>>) -> Set<Seq<char>>
    decreases s,
{
    if s.len() == 0 {
        Set::empty()
    } else {
        ids_set(s.drop_last()).insert(s.last())
    }
}

pub broadcast proof fn lemma_ids_set_contains(s: Seq<Seq<char>>, x: Seq<char>)
    ensures
        #[trigger] ids_set(s).contains(x) <==> exists|i: int| 0 <= i < s.len() && s[i] == x,
    decreases s,
{
    if s.len() > 0 {
        lemma_ids_set_contains(s.drop_last(), x);
        if ids_set(s).contains(x) {
            if s.last() == x {
                assert(s[s.len() - 1] == x);
            } else {
                let i = choose|i: int| 0 <= i < s.drop_last().len() && s.drop_last()[i] == x;
                assert(s[i] == x);
            }
        }
        if exists|i: int| 0 <= i < s.len() && s[i] == x {
            let i = choose|i: int| 0 <= i < s.len() && s[i] == x;
            if i < s.len() - 1 {
                assert(s.drop_last()[i] == x);
            }
        }
    }
}

/// The bound set a free-variable walk starts from: the caller's names plus
/// the builtin primitives.
pub open spec fn bound_set(bnd: Seq<Seq<char>>) -> Set<Seq<char>> {
    ids_set(bnd).union(ids_set(spec_primitives()))
}

/// Strictly ascending in lexicographic order (hence without duplicates).
pub open spec fn sorted_lex(s: Seq<Seq<char>>) -> bool {
    forall|i: int| 0 <= i < s.len() - 1 ==> crate::util::lex_lt(#[trigger] s[i], s[i + 1])
}

/// Insert a name into a sorted list, keeping it sorted and duplicate-free.
pub open spec fn insert_lex(s: Seq<Seq<char>>, x: Seq<char>) -> Seq<Seq<char>>
    decreases s,
{
    if s.len() == 0 {
        seq![x]
    } else if s[0] == x {
        s
    } else if crate::util::lex_lt(x, s[0]) {
        seq![x] + s
    } else {
        seq![s[0]] + insert_lex(s.drop_first(), x)
    }
}

proof fn lemma_lex_asym(a: Seq<char>, b: Seq<char>)
    requires
        crate::util::lex_lt(a, b),
    ensures
        !crate::util::lex_lt(b, a),
    decreases a,
{
    if a.len() > 0 && b.len() > 0 && a[0] == b[0] {
        lemma_lex_asym(a.drop_first(), b.drop_first());
    }
}

proof fn lemma_insert_lex_head(s: Seq<Seq<char>>, x: Seq<char>)
    ensures
        insert_lex(s, x).len() == s.len() + ((if ids_set(s).contains(x) {
            0int
        } else {
            1int
        })) || insert_lex(s, x).len() >= 1,
        insert_lex(s, x).len() >= 1,
        insert_lex(s, x)[0] == x || (s.len() > 0 && insert_lex(s, x)[0] == s[0]),
    decreases s,
{
    if s.len() > 0 && s[0] != x && !crate::util::lex_lt(x, s[0]) {
        lemma_insert_lex_head(s.drop_first(), x);
    }
}

/// Insertion keeps the list sorted.
pub proof fn lemma_insert_lex_sorted(s: Seq<Seq<char>>, x: Seq<char>)
    requires
        sorted_lex(s),
    ensures
        sorted_lex(insert_lex(s, x)),
    decreases s,
{
    if s.len() == 0 {
    } else if s[0] == x {
    } else if crate::util::lex_lt(x, s[0]) {
        let r = seq![x] + s;
        assert forall|i: int| 0 <= i < r.len() - 1 implies crate::util::lex_lt(
            #[trigger] r[i],
            r[i + 1],
        ) by {
            if i == 0 {
                assert(r[0] == x && r[1] == s[0]);
            } else {
                assert(r[i] == s[i - 1] && r[i + 1] == s[i]);
            }
        }
    } else {
        assert(crate::util::lex_lt(s[0], x)) by {
            if !crate::util::lex_lt(s[0], x) {
                crate::util::lemma_lex_connected(x, s[0]);
            }
        }
        assert forall|i: int|
            0 <= i < s.drop_first().len() - 1 implies crate::util::lex_lt(
            #[trigger] s.drop_first()[i],
            s.drop_first()[i + 1],
        ) by {
            assert(s.drop_first()[i] == s[i + 1]);
            assert(s.drop_first()[i + 1] == s[i + 2]);
        }
        lemma_insert_lex_sorted(s.drop_first(), x);
        lemma_insert_lex_head(s.drop_first(), x);
        let r = seq![s[0]] + insert_lex(s.drop_first(), x);
        let t = insert_lex(s.drop_first(), x);
        assert forall|i: int| 0 <= i < r.len() - 1 implies crate::util::lex_lt(
            #[trigger] r[i],
            r[i + 1],
        ) by {
            if i == 0 {
                assert(r[0] == s[0] && r[1] == t[0]);
                if t[0] == x {
                } else {
                    assert(t[0] == s.drop_first()[0]);
                    assert(s.drop_first()[0] == s[1]);
                }
            } else {
                assert(r[i] == t[i - 1] && r[i + 1] == t[i]);
            }
        }
    }
}

/// Insert a name into a sorted vector, keeping it sorted and duplicate-free.
#[verifier::loop_isolation(false)]
pub fn insert_sorted(acc: &mut Vec<String>, x: String)
    requires
        sorted_lex(view_ids(old(acc)@)),
    ensures
        view_ids(final(acc)@) == insert_lex(view_ids(old(acc)@), x@),
        sorted_lex(view_ids(final(acc)@)),
{
    let ghost s = view_ids(acc@);
    let ghost xv = x@;
    proof {
        lemma_insert_lex_sorted(s, xv);
    }
    let mut i: usize = 0;
    while i < acc.len() && crate::util::str_lt(&acc[i], &x)
        invariant
            i <= acc.len(),
            forall|j: int| 0 <= j < i ==> crate::util::lex_lt(#[trigger] s[j], xv),
        decreases acc.len() - i,
    {
        i = i + 1;
    }
    if i < acc.len() && acc[i] == x {
        proof {
            lemma_insert_lex_at(s, xv, i as int);
        }
    } else {
        proof {
            lemma_insert_lex_at(s, xv, i as int);
        }
        acc.insert(i, x);
        proof {
            assert(view_ids(acc@) =~= s.take(i as int) + seq![xv] + s.skip(i as int));
        }
    }
}

/// Where the scan stops determines the result of `insert_lex`.
#[verifier::rlimit(100)]
proof fn lemma_insert_lex_at(s: Seq<Seq<char>>, x: Seq<char>, i: int)
    requires
        sorted_lex(s),
        0 <= i <= s.len(),
        forall|j: int| 0 <= j < i ==> crate::util::lex_lt(#[trigger] s[j], x),
        i < s.len() ==> !crate::util::lex_lt(s[i], x),
    ensures
        i < s.len() && s[i] == x ==> insert_lex(s, x) == s,
        !(i < s.len() && s[i] == x) ==> insert_lex(s, x) == s.take(i) + seq![x] + s.skip(i),
    decreases s,
{
    if i == 0 {
        if s.len() == 0 {
            assert(insert_lex(s, x) =~= s.take(0) + seq![x] + s.skip(0));
        } else if s[0] == x {
        } else if crate::util::lex_lt(x, s[0]) {
            assert(insert_lex(s, x) =~= s.take(0) + seq![x] + s.skip(0));
        } else {
            crate::util::lemma_lex_connected(x, s[0]);
        }
    } else {
        assert(crate::util::lex_lt(s[0], x));
        lemma_lex_asym(s[0], x);
        crate::util::lemma_lex_irrefl(s[0]);
        assert(s[0] != x) by {
            if s[0] == x {
                assert(crate::util::lex_lt(s[0], s[0]));
            }
        }
        assert(!crate::util::lex_lt(x, s[0]));
        let t = s.drop_first();
        assert forall|ii: int| 0 <= ii < t.len() - 1 implies crate::util::lex_lt(
            #[trigger] t[ii],
            t[ii + 1],
        ) by {
            assert(t[ii] == s[ii + 1]);
            assert(t[ii + 1] == s[ii + 2]);
        }
        assert forall|j: int| 0 <= j < i - 1 implies crate::util::lex_lt(#[trigger] t[j], x) by {
            assert(t[j] == s[j + 1]);
        }
        assert(i - 1 < t.len() ==> !crate::util::lex_lt(t[i - 1], x)) by {
            if i - 1 < t.len() {
                assert(t[i - 1] == s[i]);
            }
        }
        lemma_insert_lex_at(t, x, i - 1);
        if i < s.len() && s[i] == x {
            assert(t[i - 1] == x);
            assert(insert_lex(s, x) =~= s);
        } else {
            assert(insert_lex(s, x) =~= seq![s[0]] + (t.take(i - 1) + seq![x] + t.skip(i - 1)));
            assert(seq![s[0]] + (t.take(i - 1) + seq![x] + t.skip(i - 1)) =~= s.take(i)
                + seq![x] + s.skip(i));
        }
    }
}

/// No definition node anywhere: definitions are only valid at the top
/// level of a program.
pub open spec fn no_defs(e: SpecExpr) -> bool
    decreases e,
{
    match e {
        SpecExpr::Form(v) => no_defs_seq(v),
        SpecExpr::And(v) => no_defs_seq(v),
        SpecExpr::Or(v) => no_defs_seq(v),
        SpecExpr::Not(b) => no_defs(*b),
        SpecExpr::Let { bindings, body } => no_defs_binds(bindings) && no_defs(*body),
        SpecExpr::If { cond, thn, els } => no_defs(*cond) && no_defs(*thn) && no_defs(*els),
        SpecExpr::Fn { args, body } => no_defs(*body),
        SpecExpr::LetFun { name, args, fun_body, expr_body } => no_defs(*fun_body) && no_defs(
            *expr_body,
        ),
        SpecExpr::LetClos { name, closid, freevars, body } => no_defs(*body),
        SpecExpr::Def { .. } => false,
        SpecExpr::Defun { .. } => false,
        SpecExpr::DefClos { .. } => false,
        _ => true,
    }
}

pub open spec fn no_defs_seq(v: Seq<SpecExpr>) -> bool
    decreases v,
{
    if v.len() == 0 {
        true
    } else {
        no_defs_seq(v.drop_last()) && no_defs(v.last())
    }
}

pub open spec fn no_defs_binds(v: Seq<(Seq<char>, SpecExpr)>) -> bool
    decreases v,
{
    if v.len() == 0 {
        true
    } else {
        no_defs_binds(v.drop_last()) && no_defs(v.last().1)
    }
}

/// Trees on which free variables are meaningful: definition nodes are only
/// valid at program top level, never inside an expression.
pub open spec fn fv_ok(e: SpecExpr) -> bool
    decreases e,
{
    match e {
        SpecExpr::Form(v) => fv_ok_seq(v),
        SpecExpr::And(v) => fv_ok_seq(v),
        SpecExpr::Or(v) => fv_ok_seq(v),
        SpecExpr::Not(b) => fv_ok(*b),
        SpecExpr::Let { bindings, body } => fv_ok_binds(bindings) && fv_ok(*body),
        SpecExpr::If { cond, thn, els } => fv_ok(*cond) && fv_ok(*thn) && fv_ok(*els),
        SpecExpr::Fn { args, body } => fv_ok(*body),
        SpecExpr::LetFun { name, args, fun_body, expr_body } => fv_ok(*fun_body) && fv_ok(
            *expr_body,
        ),
        SpecExpr::LetClos { name, closid, freevars, body } => fv_ok(*body),
        SpecExpr::Def { .. } => false,
        SpecExpr::Defun { .. } => false,
        SpecExpr::DefClos { .. } => false,
        _ => true,
    }
}

pub open spec fn fv_ok_seq(v: Seq<SpecExpr>) -> bool
    decreases v,
{
    if v.len() == 0 {
        true
    } else {
        fv_ok_seq(v.drop_last()) && fv_ok(v.last())
    }
}

pub open spec fn fv_ok_binds(v: Seq<(Seq<char>, SpecExpr)>) -> bool
    decreases v,
{
    if v.len() == 0 {
        true
    } else {
        fv_ok_binds(v.drop_last()) && fv_ok(v.last().1)
    }
}

/// The names bound by a binding list.
pub open spec fn names_set(bs: Seq<(Seq<char>, SpecExpr)>) -> Set<Seq<char>>
    decreases bs,
{
    if bs.len() == 0 {
        Set::empty()
    } else {
        names_set(bs.drop_last()).insert(bs.last().0)
    }
}

/// Walk the tree collecting every identifier used outside the bound set into
/// the sorted accumulator.  Binders extend the bound set for exactly the
/// subtrees they scope over.
pub open spec fn collect_free(e: SpecExpr, b: Set<Seq<char>>, acc: Seq<Seq<char>>) -> Seq<
    Seq<char>,
>
    decreases e,
{
    match e {
        SpecExpr::Id(id) => if b.contains(id) {
            acc
        } else {
            insert_lex(acc, id)
        },
        SpecExpr::Form(v) => collect_free_seq(v, b, acc),
        SpecExpr::And(v) => collect_free_seq(v, b, acc),
        SpecExpr::Or(v) => collect_free_seq(v, b, acc),
        SpecExpr::Not(x) => collect_free(*x, b, acc),
        SpecExpr::Let { bindings, body } => collect_free(
            *body,
            b.union(names_set(bindings)),
            collect_free_binds(bindings, b, acc),
        ),
        SpecExpr::If { cond, thn, els } => collect_free(
            *els,
            b,
            collect_free(*thn, b, collect_free(*cond, b, acc)),
        ),
        SpecExpr::Fn { args, body } => collect_free(*body, b.union(ids_set(args)), acc),
        SpecExpr::LetFun { name, args, fun_body, expr_body } => collect_free(
            *expr_body,
            b.insert(name),
            collect_free(*fun_body, b.insert(name).union(ids_set(args)), acc),
        ),
        SpecExpr::LetClos { name, closid, freevars, body } => collect_free(
            *body,
            b.insert(name),
            acc,
        ),
        _ => acc,
    }
}

pub open spec fn collect_free_seq(v: Seq<SpecExpr>, b: Set<Seq<char>>, acc: Seq<Seq<char>>) -> Seq<
    Seq<char>,
>
    decreases v,
{
    if v.len() == 0 {
        acc
    } else {
        collect_free(v.last(), b, collect_free_seq(v.drop_last(), b, acc))
    }
}

pub open spec fn collect_free_binds(
    v: Seq<(Seq<char>, SpecExpr)>,
    b: Set<Seq<char>>,
    acc: Seq<Seq<char>>,
) -> Seq<Seq<char>>
    decreases v,
{
    if v.len() == 0 {
        acc
    } else {
        collect_free(v.last().1, b, collect_free_binds(v.drop_last(), b, acc))
    }
}

/// The free variables of `e` outside `bnd` and the builtin primitives, in
/// ascending lexicographic order.
pub open spec fn spec_free_vars(e: SpecExpr, bnd: Seq<Seq<char>>) -> Seq<Seq<char>> {
    collect_free(e, bound_set(bnd), Seq::empty())
}

/// Collection keeps the accumulator sorted.
pub proof fn lemma_collect_sorted(e: SpecExpr, b: Set<Seq<char>>, acc: Seq<Seq<char>>)
    requires
        sorted_lex(acc),
    ensures
        sorted_lex(collect_free(e, b, acc)),
    decreases e,
{
    match e {
        SpecExpr::Id(id) => {
            if !b.contains(id) {
                lemma_insert_lex_sorted(acc, id);
            }
        },
        SpecExpr::Form(v) => {
            lemma_collect_sorted_seq(v, b, acc);
        },
        SpecExpr::And(v) => {
            lemma_collect_sorted_seq(v, b, acc);
        },
        SpecExpr::Or(v) => {
            lemma_collect_sorted_seq(v, b, acc);
        },
        SpecExpr::Not(x) => {
            lemma_collect_sorted(*x, b, acc);
        },
        SpecExpr::Let { bindings, body } => {
            lemma_collect_sorted_binds(bindings, b, acc);
            lemma_collect_sorted(
                *body,
                b.union(names_set(bindings)),
                collect_free_binds(bindings, b, acc),
            );
        },
        SpecExpr::If { cond, thn, els } => {
            lemma_collect_sorted(*cond, b, acc);
            lemma_collect_sorted(*thn, b, collect_free(*cond, b, acc));
            lemma_collect_sorted(*els, b, collect_free(*thn, b, collect_free(*cond, b, acc)));
        },
        SpecExpr::Fn { args, body } => {
            lemma_collect_sorted(*body, b.union(ids_set(args)), acc);
        },
        SpecExpr::LetFun { name, args, fun_body, expr_body } => {
            lemma_collect_sorted(*fun_body, b.insert(name).union(ids_set(args)), acc);
            lemma_collect_sorted(
                *expr_body,
                b.insert(name),
                collect_free(*fun_body, b.insert(name).union(ids_set(args)), acc),
            );
        },
        SpecExpr::LetClos { name, closid, freevars, body } => {
            lemma_collect_sorted(*body, b.insert(name), acc);
        },
        _ => {},
    }
}

proof fn lemma_collect_sorted_seq(v: Seq<SpecExpr>, b: Set<Seq<char>>, acc: Seq<Seq<char>>)
    requires
        sorted_lex(acc),
    ensures
        sorted_lex(collect_free_seq(v, b, acc)),
    decreases v,
{
    if v.len() > 0 {
        lemma_collect_sorted_seq(v.drop_last(), b, acc);
        lemma_collect_sorted(v.last(), b, collect_free_seq(v.drop_last(), b, acc));
    }
}

proof fn lemma_collect_sorted_binds(
    v: Seq<(Seq<char>, SpecExpr)>,
    b: Set<Seq<char>>,
    acc: Seq<Seq<char>>,
)
    requires
        sorted_lex(acc),
    ensures
        sorted_lex(collect_free_binds(v, b, acc)),
    decreases v,
{
    if v.len() > 0 {
        lemma_collect_sorted_binds(v.drop_last(), b, acc);
        lemma_collect_sorted(v.last().1, b, collect_free_binds(v.drop_last(), b, acc));
    }
}

/// Whether `s` is in the bound set: one of the caller's names or a builtin.
#[verifier::loop_isolation(false)]
fn is_bound(bnd: &Vec<String>, s: &String) -> (r: bool)
    ensures
        r == bound_set(view_ids(bnd@)).contains(s@),
{
    let ghost bv = view_ids(bnd@);
    proof {
        lemma_ids_set_contains(bv, s@);
        lemma_ids_set_contains(spec_primitives(), s@);
    }
    let mut i: usize = 0;
    while i < bnd.len()
        invariant
            i <= bnd.len(),
            bv == view_ids(bnd@),
            forall|j: int| 0 <= j < i ==> #[trigger] bv[j] != s@,
        decreases bnd.len() - i,
    {
        if bnd[i] == *s {
            proof {
                assert(bv[i as int] == s@);
            }
            return true;
        }
        i = i + 1;
    }
    let r = is_primitive(s);
    proof {
        assert(spec_primitives().contains(s@) == (exists|i: int|
            0 <= i < spec_primitives().len() && spec_primitives()[i] == s@));
        assert(!ids_set(bv).contains(s@));
        if r {
            let i = choose|i: int|
                0 <= i < spec_primitives().len() && spec_primitives()[i] == s@;
            assert(ids_set(spec_primitives()).contains(s@));
        }
    }
    r
}

proof fn lemma_fv_ok_seq_index(v: Seq<SpecExpr>)
    requires
        fv_ok_seq(v),
    ensures
        forall|j: int| 0 <= j < v.len() ==> fv_ok(#[trigger] v[j]),
    decreases v,
{
    if v.len() > 0 {
        lemma_fv_ok_seq_index(v.drop_last());
        assert forall|j: int| 0 <= j < v.len() implies fv_ok(#[trigger] v[j]) by {
            if j < v.len() - 1 {
                assert(v[j] == v.drop_last()[j]);
            }
        }
    }
}

proof fn lemma_fv_ok_binds_index(v: Seq<(Seq<char>, SpecExpr)>)
    requires
        fv_ok_binds(v),
    ensures
        forall|j: int| 0 <= j < v.len() ==> fv_ok((#[trigger] v[j]).1),
    decreases v,
{
    if v.len() > 0 {
        lemma_fv_ok_binds_index(v.drop_last());
        assert forall|j: int| 0 <= j < v.len() implies fv_ok((#[trigger] v[j]).1) by {
            if j < v.len() - 1 {
                assert(v[j] == v.drop_last()[j]);
            }
        }
    }
}

/// Push names onto the bound list; the bound set grows by exactly them.
#[verifier::loop_isolation(false)]
fn push_names(bnd: &mut Vec<String>, names: &Vec<String>)
    ensures
        final(bnd)@ == old(bnd)@ + names@,
        bound_set(view_ids(final(bnd)@)) == bound_set(view_ids(old(bnd)@)).union(
            ids_set(view_ids(names@)),
        ),
{
    let ghost b0 = bnd@;
    let mut i: usize = 0;
    proof {
        assert(bnd@ =~= b0 + names@.take(0));
    }
    while i < names.len()
        invariant
            i <= names.len(),
            bnd@ == b0 + names@.take(i as int),
        decreases names.len() - i,
    {
        bnd.push(names[i].clone());
        proof {
            assert(bnd@ =~= b0 + names@.take(i + 1));
        }
        i = i + 1;
    }
    proof {
        assert(names@.take(i as int) =~= names@);
        lemma_ids_set_concat(view_ids(b0), view_ids(names@));
        assert(view_ids(b0 + names@) =~= view_ids(b0) + view_ids(names@));
        assert(bound_set(view_ids(bnd@)) =~= bound_set(view_ids(b0)).union(
            ids_set(view_ids(names@)),
        ));
    }
}

/// The names of a concatenation are the union of the names.
pub proof fn lemma_ids_set_concat(a: Seq<Seq<char>>, b: Seq<Seq<char>>)
    ensures
        ids_set(a + b) == ids_set(a).union(ids_set(b)),
{
    broadcast use lemma_ids_set_contains;

    assert forall|x: Seq<char>| #[trigger] ids_set(a + b).contains(x) implies ids_set(a).union(
        ids_set(b),
    ).contains(x) by {
        let i = choose|i: int| 0 <= i < (a + b).len() && (a + b)[i] == x;
        if i < a.len() {
            assert(a[i] == x);
        } else {
            assert(b[i - a.len()] == x);
        }
    }
    assert forall|x: Seq<char>|
        ids_set(a).union(ids_set(b)).contains(x) implies #[trigger] ids_set(a + b).contains(
        x,
    ) by {
        if ids_set(a).contains(x) {
            let i = choose|i: int| 0 <= i < a.len() && a[i] == x;
            assert((a + b)[i] == x);
        } else {
            let i = choose|i: int| 0 <= i < b.len() && b[i] == x;
            assert((a + b)[a.len() + i] == x);
        }
    }
    assert(ids_set(a + b) =~= ids_set(a).union(ids_set(b)));
}

/// Walk the tree, adding each free identifier to the sorted accumulator;
/// the bound list is extended for subtrees under a binder and restored
/// before returning.
#[verifier::loop_isolation(false)]
#[verifier::rlimit(100)]
fn collect_free_vars(e: &Expr, bnd: &mut Vec<String>, acc: &mut Vec<String>)
    requires
        fv_ok(e@),
        sorted_lex(view_ids(old(acc)@)),
    ensures
        final(bnd)@ == old(bnd)@,
        view_ids(final(acc)@) == collect_free(
            e@,
            bound_set(view_ids(old(bnd)@)),
            view_ids(old(acc)@),
        ),
        sorted_lex(view_ids(final(acc)@)),
    decreases e,
{
    broadcast use lemma_view_exprs, lemma_view_binds, lemma_push_parts;

    let ghost b = bound_set(view_ids(bnd@));
    let ghost acc0 = view_ids(acc@);
    proof {
        lemma_collect_sorted(e@, b, acc0);
    }
    match e {
        Expr::Id(s) => {
            if !is_bound(bnd, s) {
                insert_sorted(acc, s.clone());
            }
        },
        Expr::Form(v) => {
            collect_free_list(v, bnd, acc);
        },
        Expr::And(v) => {
            collect_free_list(v, bnd, acc);
        },
        Expr::Or(v) => {
            collect_free_list(v, bnd, acc);
        },
        Expr::Not(x) => {
            collect_free_vars(x, bnd, acc);
        },
        Expr::Let { bindings, body } => {
            let ghost bv = view_binds(bindings@);
            proof {
                lemma_fv_ok_binds_index(bv);
            }
            let mut i: usize = 0;
            while i < bindings.len()
                invariant
                    i <= bindings.len(),
                    bnd@ == old(bnd)@,
                    view_ids(acc@) == collect_free_binds(bv.take(i as int), b, acc0),
                    sorted_lex(view_ids(acc@)),
                decreases bindings.len() - i,
            {
                proof {
                    assert(bv[i as int] == (bindings@[i as int].0@, view_expr(
                        bindings@[i as int].1,
                    )));
                    lemma_collect_sorted_binds(bv.take(i as int), b, acc0);
                }
                collect_free_vars(&bindings[i].1, bnd, acc);
                proof {
                    assert(bv.take(i as int).push(bv[i as int]) =~= bv.take(i + 1));
                    assert(collect_free_binds(bv.take(i as int).push(bv[i as int]), b, acc0)
                        == collect_free(
                        bv[i as int].1,
                        b,
                        collect_free_binds(bv.take(i as int), b, acc0),
                    ));
                }
                i = i + 1;
            }
            proof {
                assert(bv.take(i as int) =~= bv);
            }
            let old_len = bnd.len();
            let mut names: Vec<String> = Vec::new();
            let mut j: usize = 0;
            proof {
                assert(bv.take(0) =~= Seq::<(Seq<char>, SpecExpr)>::empty());
                assert(view_ids(names@) =~= Seq::<Seq<char>>::empty());
                assert(ids_set(view_ids(names@)) =~= names_set(bv.take(0)));
            }
            while j < bindings.len()
                invariant
                    j <= bindings.len(),
                    ids_set(view_ids(names@)) == names_set(bv.take(j as int)),
                decreases bindings.len() - j,
            {
                proof {
                    assert(bv[j as int] == (bindings@[j as int].0@, view_expr(
                        bindings@[j as int].1,
                    )));
                }
                let ghost names0 = view_ids(names@);
                names.push(bindings[j].0.clone());
                proof {
                    assert(view_ids(names@) =~= names0.push(bv[j as int].0));
                    assert(ids_set(names0.push(bv[j as int].0)) == ids_set(names0).insert(
                        bv[j as int].0,
                    ));
                    assert(bv.take(j as int).push(bv[j as int]) =~= bv.take(j + 1));
                    assert(names_set(bv.take(j + 1)) == names_set(bv.take(j as int)).insert(
                        bv[j as int].0,
                    ));
                }
                j = j + 1;
            }
            proof {
                assert(bv.take(j as int) =~= bv);
            }
            push_names(bnd, &names);
            collect_free_vars(body, bnd, acc);
            bnd.truncate(old_len);
            proof {
                assert(bnd@ =~= old(bnd)@);
            }
        },
        Expr::If { cond, thn, els } => {
            collect_free_vars(cond, bnd, acc);
            proof {
                lemma_collect_sorted(cond@, b, acc0);
            }
            collect_free_vars(thn, bnd, acc);
            proof {
                lemma_collect_sorted(thn@, b, collect_free(cond@, b, acc0));
            }
            collect_free_vars(els, bnd, acc);
        },
        Expr::Fn { args, body } => {
            let old_len = bnd.len();
            push_names(bnd, args);
            collect_free_vars(body, bnd, acc);
            bnd.truncate(old_len);
            proof {
                assert(bnd@ =~= old(bnd)@);
            }
        },
        Expr::LetFun { name, args, fun_body, expr_body } => {
            let old_len = bnd.len();
            bnd.push(name.clone());
            let after_name_len = bnd.len();
            let ghost bn = bound_set(view_ids(bnd@));
            proof {
                assert(view_ids(bnd@) =~= view_ids(old(bnd)@).push(name@));
                assert(ids_set(view_ids(bnd@)) == ids_set(view_ids(old(bnd)@)).insert(name@));
                assert(bn =~= b.insert(name@));
            }
            push_names(bnd, args);
            proof {
                assert(bound_set(view_ids(bnd@)) =~= b.insert(name@).union(
                    ids_set(view_ids(args@)),
                ));
            }
            collect_free_vars(fun_body, bnd, acc);
            bnd.truncate(after_name_len);
            proof {
                assert(view_ids(bnd@) =~= view_ids(old(bnd)@).push(name@));
                assert(bound_set(view_ids(bnd@)) =~= b.insert(name@));
                lemma_collect_sorted(fun_body@, b.insert(name@).union(ids_set(view_ids(args@))), acc0);
            }
            collect_free_vars(expr_body, bnd, acc);
            bnd.truncate(old_len);
            proof {
                assert(bnd@ =~= old(bnd)@);
            }
        },
        Expr::LetClos { name, closid, freevars, body } => {
            let old_len = bnd.len();
            bnd.push(name.clone());
            proof {
                assert(view_ids(bnd@) =~= view_ids(old(bnd)@).push(name@));
                assert(bound_set(view_ids(bnd@)) =~= b.insert(name@));
            }
            collect_free_vars(body, bnd, acc);
            bnd.truncate(old_len);
            proof {
                assert(bnd@ =~= old(bnd)@);
            }
        },
        Expr::Def { .. } => vstd::pervasive::unreached(),
        Expr::Defun { .. } => vstd::pervasive::unreached(),
        Expr::DefClos { .. } => vstd::pervasive::unreached(),
        _ => {},
    }
}

/// Collect free variables of each element in order.
#[verifier::loop_isolation(false)]
fn collect_free_list(v: &Vec<Expr>, bnd: &mut Vec<String>, acc: &mut Vec<String>)
    requires
        fv_ok_seq(view_exprs(v@)),
        sorted_lex(view_ids(old(acc)@)),
    ensures
        final(bnd)@ == old(bnd)@,
        view_ids(final(acc)@) == collect_free_seq(
            view_exprs(v@),
            bound_set(view_ids(old(bnd)@)),
            view_ids(old(acc)@),
        ),
        sorted_lex(view_ids(final(acc)@)),
    decreases v,
{
    broadcast use lemma_view_exprs, lemma_view_binds, lemma_push_parts;

    let ghost sv = view_exprs(v@);
    let ghost b = bound_set(view_ids(bnd@));
    let ghost acc0 = view_ids(acc@);
    proof {
        lemma_fv_ok_seq_index(sv);
        assert(sv.take(0) =~= Seq::<SpecExpr>::empty());
    }
    let mut i: usize = 0;
    while i < v.len()
        invariant
            i <= v.len(),
            bnd@ == old(bnd)@,
            view_ids(acc@) == collect_free_seq(sv.take(i as int), b, acc0),
            sorted_lex(view_ids(acc@)),
        decreases v.len() - i,
    {
        collect_free_vars(&v[i], bnd, acc);
        proof {
            assert(sv.take(i as int).push(sv[i as int]) =~= sv.take(i + 1));
            assert(collect_free_seq(sv.take(i as int).push(sv[i as int]), b, acc0)
                == collect_free(sv[i as int], b, collect_free_seq(sv.take(i as int), b, acc0)));
        }
        i = i + 1;
    }
    proof {
        assert(sv.take(i as int) =~= sv);
    }
}

impl Expr {
    /// Collect the free variables of this expression, excluding the names in
    /// `bounded` and the builtin primitives, in ascending lexicographic
    /// order.
    pub fn free_vars(&self, bounded: &Vec<String>) -> (r: Vec<String>)
        requires
            fv_ok(self@),
        ensures
            view_ids(r@) == spec_free_vars(self@, view_ids(bounded@)),
            sorted_lex(view_ids(r@)),
    {
        let mut bnd = clone_ids(bounded);
        let mut acc: Vec<String> = Vec::new();
        proof {
            assert(view_ids(acc@) =~= Seq::<Seq<char>>::empty());
        }
        collect_free_vars(self, &mut bnd, &mut acc);
        acc
    }
}

/// A name occurs free in the tree: used outside the bound set, with each
/// binder extending the bound set for exactly the subtrees it scopes over.
pub open spec fn free_in(e: SpecExpr, b: Set<Seq<char>>, x: Seq<char>) -> bool
    decreases e,
{
    match e {
        SpecExpr::Id(id) => id == x && !b.contains(id),
        SpecExpr::Form(v) => free_in_seq(v, b, x),
        SpecExpr::And(v) => free_in_seq(v, b, x),
        SpecExpr::Or(v) => free_in_seq(v, b, x),
        SpecExpr::Not(inner) => free_in(*inner, b, x),
        SpecExpr::Let { bindings, body } => free_in_binds(bindings, b, x) || free_in(
            *body,
            b.union(names_set(bindings)),
            x,
        ),
        SpecExpr::If { cond, thn, els } => free_in(*cond, b, x) || free_in(*thn, b, x)
            || free_in(*els, b, x),
        SpecExpr::Fn { args, body } => free_in(*body, b.union(ids_set(args)), x),
        SpecExpr::LetFun { name, args, fun_body, expr_body } => free_in(
            *fun_body,
            b.insert(name).union(ids_set(args)),
            x,
        ) || free_in(*expr_body, b.insert(name), x),
        SpecExpr::LetClos { name, closid, freevars, body } => free_in(*body, b.insert(name), x),
        _ => false,
    }
}

pub open spec fn free_in_seq(v: Seq<SpecExpr>, b: Set<Seq<char>>, x: Seq<char>) -> bool
    decreases v,
{
    if v.len() == 0 {
        false
    } else {
        free_in_seq(v.drop_last(), b, x) || free_in(v.last(), b, x)
    }
}

pub open spec fn free_in_binds(
    v: Seq<(Seq<char>, SpecExpr)>,
    b: Set<Seq<char>>,
    x: Seq<char>,
) -> bool
    decreases v,
{
    if v.len() == 0 {
        false
    } else {
        free_in_binds(v.drop_last(), b, x) || free_in(v.last().1, b, x)
    }
}

/// Inserting adds exactly one name to the members.
proof fn lemma_insert_lex_contains(s: Seq<Seq<char>>, x: Seq<char>, y: Seq<char>)
    ensures
        insert_lex(s, x).contains(y) <==> (s.contains(y) || y == x),
    decreases s,
{
    if s.len() == 0 {
        assert(insert_lex(s, x) == seq![x]);
        assert(seq![x][0] == x);
        if y == x {
            assert(insert_lex(s, x).contains(y)) by {
                assert(insert_lex(s, x)[0] == y);
            }
        }
    } else if s[0] == x {
        if s.contains(y) || y == x {
            if y == x {
                assert(s[0] == y);
            }
        }
    } else if crate::util::lex_lt(x, s[0]) {
        let r = seq![x] + s;
        if y == x {
            assert(r[0] == y);
        }
        if s.contains(y) {
            let i = choose|i: int| 0 <= i < s.len() && s[i] == y;
            assert(r[i + 1] == y);
        }
        if r.contains(y) {
            let i = choose|i: int| 0 <= i < r.len() && r[i] == y;
            if i == 0 {
                assert(y == x);
            } else {
                assert(s[i - 1] == y);
            }
        }
    } else {
        lemma_insert_lex_contains(s.drop_first(), x, y);
        let t = insert_lex(s.drop_first(), x);
        let r = seq![s[0]] + t;
        assert(insert_lex(s, x) == r);
        if r.contains(y) {
            let i = choose|i: int| 0 <= i < r.len() && r[i] == y;
            if i == 0 {
                assert(s[0] == y);
            } else {
                assert(t[i - 1] == y);
                assert(t.contains(y));
                if s.drop_first().contains(y) {
                    let j = choose|j: int|
                        0 <= j < s.drop_first().len() && s.drop_first()[j] == y;
                    assert(s[j + 1] == y);
                }
            }
        }
        if y == x {
            assert(t.contains(y));
            let i = choose|i: int| 0 <= i < t.len() && t[i] == y;
            assert(r[i + 1] == y);
        }
        if s.contains(y) {
            let i = choose|i: int| 0 <= i < s.len() && s[i] == y;
            if i == 0 {
                assert(r[0] == y);
            } else {
                assert(s.drop_first()[i - 1] == y);
                assert(t.contains(y));
                let j = choose|j: int| 0 <= j < t.len() && t[j] == y;
                assert(r[j + 1] == y);
            }
        }
    }
}

/// What the walk collects: the accumulator's names plus the free names.
proof fn lemma_collect_contains(e: SpecExpr, b: Set<Seq<char>>, acc: Seq<Seq<char>>, x: Seq<char>)
    ensures
        collect_free(e, b, acc).contains(x) <==> (acc.contains(x) || free_in(e, b, x)),
    decreases e,
{
    match e {
        SpecExpr::Id(id) => {
            if !b.contains(id) {
                lemma_insert_lex_contains(acc, id, x);
            }
        },
        SpecExpr::Form(v) => {
            lemma_collect_contains_seq(v, b, acc, x);
        },
        SpecExpr::And(v) => {
            lemma_collect_contains_seq(v, b, acc, x);
        },
        SpecExpr::Or(v) => {
            lemma_collect_contains_seq(v, b, acc, x);
        },
        SpecExpr::Not(inner) => {
            lemma_collect_contains(*inner, b, acc, x);
        },
        SpecExpr::Let { bindings, body } => {
            lemma_collect_contains_binds(bindings, b, acc, x);
            lemma_collect_contains(
                *body,
                b.union(names_set(bindings)),
                collect_free_binds(bindings, b, acc),
                x,
            );
        },
        SpecExpr::If { cond, thn, els } => {
            lemma_collect_contains(*cond, b, acc, x);
            lemma_collect_contains(*thn, b, collect_free(*cond, b, acc), x);
            lemma_collect_contains(
                *els,
                b,
                collect_free(*thn, b, collect_free(*cond, b, acc)),
                x,
            );
        },
        SpecExpr::Fn { args, body } => {
            lemma_collect_contains(*body, b.union(ids_set(args)), acc, x);
        },
        SpecExpr::LetFun { name, args, fun_body, expr_body } => {
            lemma_collect_contains(*fun_body, b.insert(name).union(ids_set(args)), acc, x);
            lemma_collect_contains(
                *expr_body,
                b.insert(name),
                collect_free(*fun_body, b.insert(name).union(ids_set(args)), acc),
                x,
            );
        },
        SpecExpr::LetClos { name, closid, freevars, body } => {
            lemma_collect_contains(*body, b.insert(name), acc, x);
        },
        _ => {},
    }
}

proof fn lemma_collect_contains_seq(
    v: Seq<SpecExpr>,
    b: Set<Seq<char>>,
    acc: Seq<Seq<char>>,
    x: Seq<char>,
)
    ensures
        collect_free_seq(v, b, acc).contains(x) <==> (acc.contains(x) || free_in_seq(v, b, x)),
    decreases v,
{
    if v.len() > 0 {
        lemma_collect_contains_seq(v.drop_last(), b, acc, x);
        lemma_collect_contains(v.last(), b, collect_free_seq(v.drop_last(), b, acc), x);
    }
}

proof fn lemma_collect_contains_binds(
    v: Seq<(Seq<char>, SpecExpr)>,
    b: Set<Seq<char>>,
    acc: Seq<Seq<char>>,
    x: Seq<char>,
)
    ensures
        collect_free_binds(v, b, acc).contains(x) <==> (acc.contains(x) || free_in_binds(
            v,
            b,
            x,
        )),
    decreases v,
{
    if v.len() > 0 {
        lemma_collect_contains_binds(v.drop_last(), b, acc, x);
        lemma_collect_contains(v.last().1, b, collect_free_binds(v.drop_last(), b, acc), x);
    }
}

/// Free-variable correctness: a name stands in the collected list exactly
/// when it occurs free in the tree outside the caller's names and the
/// builtin primitives; and the list is strictly sorted, so it is the unique
/// sorted enumeration of the free names.
pub proof fn lemma_free_vars_semantics(e: SpecExpr, bnd: Seq<Seq<char>>)
    ensures
        forall|x: Seq<char>|
            #[trigger] spec_free_vars(e, bnd).contains(x) <==> free_in(e, bound_set(bnd), x),
        sorted_lex(spec_free_vars(e, bnd)),
{
    assert forall|x: Seq<char>|
        #[trigger] spec_free_vars(e, bnd).contains(x) <==> free_in(e, bound_set(bnd), x) by {
        lemma_collect_contains(e, bound_set(bnd), Seq::empty(), x);
    }
    lemma_collect_sorted(e, bound_set(bnd), Seq::empty());
}

} // verus!
