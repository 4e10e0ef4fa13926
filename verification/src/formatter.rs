//! Pretty printing: a single-line rendering when it fits in the configured
//! line width, an indented multi-line rendering otherwise, with
//! form-specific layout for `let`, `if` and the function binders.

use vstd::prelude::*;
use vstd::string::{StringExecFns, StrSliceExecFns};
use crate::ast::{Expr, SpecExpr, view_expr, view_exprs, view_binds, view_ids};
use crate::util::spec_digits;

verus! {

/// Formatting parameters: base indent level, the indent unit, and the line
/// width under which a node is rendered on a single line.
pub struct PrettyFormatter {
    pub indent: usize,
    pub indent_str: String,
    pub line_width: usize,
}

/// The spec-level parameters of a formatter.
pub struct SpecFmt {
    pub indent: nat,
    pub indent_str: Seq<char>,
    pub line_width: nat,
}

pub open spec fn view_fmt(f: PrettyFormatter) -> SpecFmt {
    SpecFmt { indent: f.indent as nat, indent_str: f.indent_str@, line_width: f.line_width as nat }
}

impl View for PrettyFormatter {
    type V = SpecFmt;

    open spec fn view(&self) -> SpecFmt {
        view_fmt(*self)
    }
}

/// `s` repeated `n` times.
pub open spec fn repeat_str(s: Seq<char>, n: nat) -> Seq<char>
    decreases n,
{
    if n == 0 {
        Seq::empty()
    } else {
        repeat_str(s, (n - 1) as nat) + s
    }
}

/// The indent prefix at nesting level `level`.
pub open spec fn ind(f: SpecFmt, level: nat) -> Seq<char> {
    repeat_str(f.indent_str, level + f.indent)
}

/// The rendering of an integer literal.
pub open spec fn spec_int_str(n: int) -> Seq<char> {
    if n < 0 {
        seq!['-'] + spec_digits((-n) as nat)
    } else {
        spec_digits(n as nat)
    }
}

/// A string literal with its quotes, inner quotes escaped.
pub open spec fn escape_str(s: Seq<char>) -> Seq<char>
    decreases s,
{
    if s.len() == 0 {
        Seq::empty()
    } else {
        escape_str(s.drop_last()) + (if s.last() == '"' {
            seq!['\\', '"']
        } else {
            seq![s.last()]
        })
    }
}

/// The names of a binder list separated by single spaces.
pub open spec fn join_sp(v: Seq<Seq<char>>) -> Seq<char>
    decreases v,
{
    if v.len() == 0 {
        Seq::empty()
    } else if v.len() == 1 {
        v[0]
    } else {
        join_sp(v.drop_last()) + seq![' '] + v.last()
    }
}

/// The rendering of an atom; composite nodes defer to the layout rules.
pub open spec fn spec_format(f: SpecFmt, e: SpecExpr, cur: nat) -> Seq<char>
    decreases e,
{
    match e {
        SpecExpr::Nil => "nil"@,
        SpecExpr::Bool(b) => if b {
            "true"@
        } else {
            "false"@
        },
        SpecExpr::Int(i) => spec_int_str(i),
        SpecExpr::Float(s) => s,
        SpecExpr::Str(s) => seq!['"'] + escape_str(s) + seq!['"'],
        SpecExpr::Id(s) => s,
        SpecExpr::Form(v) => {
            if v.len() == 0 {
                "()"@
            } else {
                mk_form(
                    f,
                    spec_format(f, v[0], cur + 1),
                    spec_format_elems(f, v.drop_first(), cur + 1),
                    cur,
                )
            }
        },
        SpecExpr::Let { bindings, body } => mk_let(
            f,
            spec_format_bind_list(f, bindings, cur + 2),
            spec_format(f, *body, cur + 1),
            cur,
        ),
        SpecExpr::If { cond, thn, els } => mk_if_str(
            f,
            spec_format(f, *cond, cur + 1),
            spec_format(f, *thn, cur + 1),
            spec_format(f, *els, cur + 1),
            cur,
        ),
        SpecExpr::And(v) => mk_and_or(f, "and"@, spec_format_elems(f, v, cur + 1), cur),
        SpecExpr::Or(v) => mk_and_or(f, "or"@, spec_format_elems(f, v, cur + 1), cur),
        SpecExpr::Not(b) => "(not "@ + spec_format(f, *b, cur + 1) + ")"@,
        SpecExpr::Fn { args, body } => mk_fn(f, args, spec_format(f, *body, cur + 1), cur),
        SpecExpr::Def { x, y } => mk_def(f, x, spec_format(f, *y, cur + 1), cur),
        SpecExpr::Defun { name, args, body } => mk_defun(
            f,
            name,
            args,
            spec_format(f, *body, cur + 1),
            cur,
        ),
        SpecExpr::LetFun { name, args, fun_body, expr_body } => mk_letfun(
            f,
            name,
            args,
            spec_format(f, *fun_body, cur + 1),
            spec_format(f, *expr_body, cur + 1),
            cur,
        ),
        SpecExpr::DefClos { name, freevars, args, body } => mk_defclos(
            f,
            name,
            freevars,
            args,
            spec_format(f, *body, cur + 1),
            cur,
        ),
        SpecExpr::LetClos { name, closid, freevars, body } => mk_letclos(
            f,
            name,
            closid,
            freevars,
            spec_format(f, *body, cur + 1),
            cur,
        ),
    }
}

/// The renderings of the elements, each at the given indent.
pub open spec fn spec_format_elems(f: SpecFmt, v: Seq<SpecExpr>, cur: nat) -> Seq<Seq<char>>
    decreases v,
{
    if v.len() == 0 {
        Seq::empty()
    } else {
        spec_format_elems(f, v.drop_last(), cur).push(spec_format(f, v.last(), cur))
    }
}

/// The renderings of `let` bindings, one `(name value)` piece each.
pub open spec fn spec_format_bind_list(
    f: SpecFmt,
    bs: Seq<(Seq<char>, SpecExpr)>,
    cur: nat,
) -> Seq<Seq<char>>
    decreases bs,
{
    if bs.len() == 0 {
        Seq::empty()
    } else {
        spec_format_bind_list(f, bs.drop_last(), cur).push(
            "("@ + bs.last().0 + " "@ + spec_format(f, bs.last().1, cur) + ")"@,
        )
    }
}

pub proof fn lemma_format_elems_len(f: SpecFmt, v: Seq<SpecExpr>, cur: nat)
    ensures
        spec_format_elems(f, v, cur).len() == v.len(),
    decreases v,
{
    broadcast use crate::ast::lemma_push_parts;

    if v.len() > 0 {
        lemma_format_elems_len(f, v.drop_last(), cur);
    }
}

/// Elements each on their own line with the given prefix.
pub open spec fn join_lines(pieces: Seq<Seq<char>>, prefix: Seq<char>) -> Seq<char>
    decreases pieces,
{
    if pieces.len() == 0 {
        Seq::empty()
    } else if pieces.len() == 1 {
        prefix + pieces[0]
    } else {
        join_lines(pieces.drop_last(), prefix) + seq!['\n'] + prefix + pieces.last()
    }
}

/// An application: single-line when it fits, one argument per line when not.
pub open spec fn mk_form(f: SpecFmt, head: Seq<char>, args: Seq<Seq<char>>, cur: nat) -> Seq<
    char,
> {
    let single = "("@ + head + " "@ + join_sp(args) + ")"@;
    if single.len() <= f.line_width {
        single
    } else {
        "("@ + head + (if args.len() > 0 {
            seq!['\n'] + join_lines(args, ind(f, cur + 1)) + seq!['\n']
        } else {
            Seq::empty()
        }) + ind(f, cur) + ")"@
    }
}

/// A `let`: bindings each on their own line, then the body.
pub open spec fn mk_let(f: SpecFmt, binds: Seq<Seq<char>>, body: Seq<char>, cur: nat) -> Seq<
    char,
> {
    "(let\n"@ + ind(f, cur + 1) + "(\n"@ + join_lines(binds, ind(f, cur + 2)) + seq!['\n'] + ind(
        f,
        cur + 1,
    ) + ")\n"@ + ind(f, cur + 1) + body + seq!['\n'] + ind(f, cur) + ")"@
}

/// An `if`: single-line when it fits, three lines when not.
pub open spec fn mk_if_str(f: SpecFmt, c: Seq<char>, t: Seq<char>, e: Seq<char>, cur: nat) -> Seq<
    char,
> {
    let single = "(if "@ + c + " "@ + t + " "@ + e + ")"@;
    if single.len() <= f.line_width {
        single
    } else {
        "(if\n"@ + ind(f, cur + 1) + c + seq!['\n'] + ind(f, cur + 1) + t + seq!['\n'] + ind(
            f,
            cur + 1,
        ) + e + seq!['\n'] + ind(f, cur) + ")"@
    }
}

/// `and`/`or`: single-line when it fits, one operand per line when not.
pub open spec fn mk_and_or(f: SpecFmt, op: Seq<char>, pieces: Seq<Seq<char>>, cur: nat) -> Seq<
    char,
> {
    if pieces.len() == 0 {
        "("@ + op + ")"@
    } else {
        let single = "("@ + op + " "@ + join_sp(pieces) + ")"@;
        if single.len() <= f.line_width {
            single
        } else {
            "("@ + op + seq!['\n'] + join_lines(pieces, ind(f, cur + 1)) + seq!['\n'] + ind(
                f,
                cur,
            ) + ")"@
        }
    }
}

/// A function literal.
pub open spec fn mk_fn(f: SpecFmt, args: Seq<Seq<char>>, body: Seq<char>, cur: nat) -> Seq<char> {
    let args_str = "("@ + join_sp(args) + ")"@;
    let single = "(fn "@ + args_str + " "@ + body + ")"@;
    if single.len() <= f.line_width {
        single
    } else {
        "(fn "@ + args_str + seq!['\n'] + ind(f, cur + 1) + body + seq!['\n'] + ind(f, cur)
            + ")"@
    }
}

/// A top-level value definition.
pub open spec fn mk_def(f: SpecFmt, x: Seq<char>, v: Seq<char>, cur: nat) -> Seq<char> {
    let single = "(def "@ + x + " "@ + v + ")"@;
    if single.len() <= f.line_width {
        single
    } else {
        "(def "@ + x + seq!['\n'] + ind(f, cur + 1) + v + seq!['\n'] + ind(f, cur) + ")"@
    }
}

/// A top-level function definition: always multi-line.
pub open spec fn mk_defun(
    f: SpecFmt,
    name: Seq<char>,
    args: Seq<Seq<char>>,
    body: Seq<char>,
    cur: nat,
) -> Seq<char> {
    "(defun "@ + name + " "@ + "("@ + join_sp(args) + ")"@ + seq!['\n'] + ind(f, cur + 1) + body
        + seq!['\n'] + ind(f, cur) + ")"@
}

/// A named local function.
pub open spec fn mk_letfun(
    f: SpecFmt,
    name: Seq<char>,
    args: Seq<Seq<char>>,
    fun_body: Seq<char>,
    expr_body: Seq<char>,
    cur: nat,
) -> Seq<char> {
    "(letfun ("@ + name + " "@ + "("@ + join_sp(args) + ")"@ + seq!['\n'] + ind(f, cur + 1)
        + fun_body + seq!['\n'] + ind(f, cur + 1) + ")\n"@ + ind(f, cur + 1) + expr_body
        + seq!['\n'] + ind(f, cur) + ")"@
}

/// A hoisted closure template.
pub open spec fn mk_defclos(
    f: SpecFmt,
    name: Seq<char>,
    freevars: Seq<Seq<char>>,
    args: Seq<Seq<char>>,
    body: Seq<char>,
    cur: nat,
) -> Seq<char> {
    "(defclos "@ + name + " "@ + "("@ + join_sp(freevars) + ")"@ + " "@ + "("@ + join_sp(args)
        + ")"@ + seq!['\n'] + ind(f, cur + 1) + body + seq!['\n'] + ind(f, cur) + ")"@
}

/// A closure binding.
pub open spec fn mk_letclos(
    f: SpecFmt,
    name: Seq<char>,
    closid: Seq<char>,
    freevars: Seq<Seq<char>>,
    body: Seq<char>,
    cur: nat,
) -> Seq<char> {
    "(letclos ("@ + name + " "@ + closid + seq!['\n'] + ind(f, cur + 2) + "("@ + join_sp(freevars)
        + ")"@ + seq!['\n'] + ind(f, cur + 1) + ")\n"@ + ind(f, cur + 1) + body + seq!['\n'] + ind(
        f,
        cur,
    ) + ")"@
}

/// The whole-program rendering: items separated by blank lines.
pub open spec fn spec_format_prog(p: Seq<SpecExpr>) -> Seq<char>
    decreases p,
{
    if p.len() == 0 {
        Seq::empty()
    } else if p.len() == 1 {
        spec_format(spec_default_fmt(), p[0], 0)
    } else {
        spec_format_prog(p.drop_last()) + "\n\n"@ + spec_format(spec_default_fmt(), p.last(), 0)
    }
}

/// The default layout: two-space indent units and an 80-character width.
pub open spec fn spec_default_fmt() -> SpecFmt {
    SpecFmt { indent: 0, indent_str: "  "@, line_width: 80 }
}

/// The rendering of an integer literal.
pub fn int_to_string(i: i64) -> (r: String)
    ensures
        r@ == spec_int_str(i as int),
{
    if i < 0 {
        let mut out = String::from_str("-");
        let m: u64 = ((-(i + 1)) as u64) + 1;
        proof {
            reveal_strlit("-");
            assert(m as nat == (-(i as int)) as nat);
        }
        crate::util::push_digits_u64(&mut out, m);
        assert(out@ =~= spec_int_str(i as int));
        out
    } else {
        let mut out = String::new();
        crate::util::push_digits_u64(&mut out, i as u64);
        assert(out@ =~= spec_int_str(i as int));
        out
    }
}

/// A string literal body with inner quotes escaped.
#[verifier::loop_isolation(false)]
fn escape_exec(s: &String) -> (r: String)
    ensures
        r@ == escape_str(s@),
{
    let mut out = String::new();
    let n = s.as_str().unicode_len();
    let mut i: usize = 0;
    proof {
        assert(escape_str(s@.take(0)) =~= Seq::<char>::empty());
    }
    while i < n
        invariant
            i <= n,
            n == s@.len(),
            out@ == escape_str(s@.take(i as int)),
        decreases n - i,
    {
        let c = s.as_str().get_char(i);
        proof {
            assert(s@.take(i + 1).drop_last() =~= s@.take(i as int));
            assert(s@.take(i + 1).last() == s@[i as int]);
        }
        if c == '"' {
            out.append("\\\"");
            proof {
                reveal_strlit("\\\"");
                assert(out@ =~= escape_str(s@.take(i + 1)));
            }
        } else {
            let piece = s.as_str().substring_char(i, i + 1);
            proof {
                assert(piece@ =~= seq![s@[i as int]]);
            }
            out.append(piece);
            proof {
                assert(out@ =~= escape_str(s@.take(i + 1)));
            }
        }
        i = i + 1;
    }
    proof {
        assert(s@.take(i as int) =~= s@);
    }
    out
}

/// The names joined by single spaces.
#[verifier::loop_isolation(false)]
fn join_sp_exec(v: &Vec<String>) -> (r: String)
    ensures
        r@ == join_sp(view_ids(v@)),
{
    broadcast use crate::ast::lemma_push_parts;

    let ghost sv = view_ids(v@);
    let mut out = String::new();
    let mut i: usize = 0;
    proof {
        assert(join_sp(sv.take(0)) =~= Seq::<char>::empty());
    }
    while i < v.len()
        invariant
            i <= v.len(),
            sv == view_ids(v@),
            out@ == join_sp(sv.take(i as int)),
        decreases v.len() - i,
    {
        if i > 0 {
            out.append(" ");
            proof {
                reveal_strlit(" ");
            }
        }
        out.append(v[i].as_str());
        proof {
            reveal_strlit(" ");
            assert(sv.take(i + 1).drop_last() =~= sv.take(i as int));
            assert(sv.take(i + 1).last() == sv[i as int]);
            assert(sv[i as int] == v@[i as int]@);
            if i == 0 {
                assert(join_sp(sv.take(1)) == sv.take(1)[0]);
                assert(out@ =~= join_sp(sv.take(1)));
            } else {
                assert(join_sp(sv.take(i + 1)) == join_sp(sv.take(i as int)) + seq![' ']
                    + sv[i as int]);
                assert(out@ =~= join_sp(sv.take(i + 1)));
            }
        }
        i = i + 1;
    }
    proof {
        assert(sv.take(i as int) =~= sv);
    }
    out
}

/// The pieces each on their own line with the given prefix.
#[verifier::loop_isolation(false)]
fn join_lines_exec(pieces: &Vec<String>, prefix: &String) -> (r: String)
    ensures
        r@ == join_lines(view_ids(pieces@), prefix@),
{
    broadcast use crate::ast::lemma_push_parts;

    let ghost sv = view_ids(pieces@);
    let mut out = String::new();
    let mut i: usize = 0;
    proof {
        assert(join_lines(sv.take(0), prefix@) =~= Seq::<char>::empty());
    }
    while i < pieces.len()
        invariant
            i <= pieces.len(),
            sv == view_ids(pieces@),
            out@ == join_lines(sv.take(i as int), prefix@),
        decreases pieces.len() - i,
    {
        if i > 0 {
            out.append("\n");
        }
        out.append(prefix.as_str());
        out.append(pieces[i].as_str());
        proof {
            reveal_strlit("\n");
            assert(sv.take(i + 1).drop_last() =~= sv.take(i as int));
            assert(sv.take(i + 1).last() == sv[i as int]);
            assert(sv[i as int] == pieces@[i as int]@);
            if i == 0 {
                assert(join_lines(sv.take(1), prefix@) == prefix@ + sv.take(1)[0]);
                assert(out@ =~= join_lines(sv.take(1), prefix@));
            } else {
                assert(join_lines(sv.take(i + 1), prefix@) == join_lines(
                    sv.take(i as int),
                    prefix@,
                ) + seq!['\n'] + prefix@ + sv[i as int]);
                assert(out@ =~= join_lines(sv.take(i + 1), prefix@));
            }
        }
        i = i + 1;
    }
    proof {
        assert(sv.take(i as int) =~= sv);
    }
    out
}

impl Default for PrettyFormatter {
    /// Two-space indent units and an 80-character line width.
    fn default() -> (r: PrettyFormatter)
        ensures
            r@ == spec_default_fmt(),
    {
        let r = PrettyFormatter {
            indent: 0,
            indent_str: String::from_str("  "),
            line_width: 80,
        };
        r
    }
}

impl PrettyFormatter {
    /// A formatter with the default layout.
    pub fn new() -> (r: PrettyFormatter)
        ensures
            r@ == spec_default_fmt(),
    {
        PrettyFormatter {
            indent: 0,
            indent_str: String::from_str("  "),
            line_width: 80,
        }
    }

    /// Use `indent_str` as the indent unit.
    pub fn with_indent(self, indent_str: &str) -> (r: PrettyFormatter)
        ensures
            r@ == (SpecFmt { indent_str: indent_str@, ..self@ }),
    {
        PrettyFormatter { indent_str: String::from_str(indent_str), ..self }
    }

    /// Wrap lines that would exceed `width` characters.
    pub fn with_line_width(self, width: usize) -> (r: PrettyFormatter)
        ensures
            r@ == (SpecFmt { line_width: width as nat, ..self@ }),
    {
        PrettyFormatter { line_width: width, ..self }
    }

    /// The indent prefix at the given nesting level.
    #[verifier::loop_isolation(false)]
    pub fn indent_str(&self, level: usize) -> (r: String)
        requires
            level + self.indent <= usize::MAX,
        ensures
            r@ == ind(self@, level as nat),
    {
        let n = level + self.indent;
        let mut out = String::new();
        let mut i: usize = 0;
        proof {
            assert(repeat_str(self@.indent_str, 0) =~= Seq::<char>::empty());
        }
        while i < n
            invariant
                i <= n,
                out@ == repeat_str(self@.indent_str, i as nat),
            decreases n - i,
        {
            out.append(self.indent_str.as_str());
            i = i + 1;
        }
        out
    }

    /// Render a tree with this formatter's layout.
    pub fn format(&self, expr: &Expr) -> (r: String)
        requires
            self.indent + 2 * crate::knormal::spec_size(expr@) <= usize::MAX,
        ensures
            r@ == spec_format(self@, expr@, 0),
    {
        self.format_expr(expr, 0)
    }
}

/// Render a tree with the default layout.
pub fn pretty_format(expr: &Expr) -> (r: String)
    requires
        2 * crate::knormal::spec_size(expr@) <= usize::MAX,
    ensures
        r@ == spec_format(spec_default_fmt(), expr@, 0),
{
    PrettyFormatter::new().format(expr)
}

/// Render a whole program, items separated by blank lines.
#[verifier::loop_isolation(false)]
pub fn format_prog(prog: &Vec<Expr>) -> (r: String)
    requires
        forall|j: int|
            0 <= j < prog@.len() ==> 2 * crate::knormal::spec_size(view_expr(
                #[trigger] prog@[j],
            )) <= usize::MAX,
    ensures
        r@ == spec_format_prog(view_exprs(prog@)),
{
    broadcast use crate::ast::lemma_view_exprs, crate::ast::lemma_push_parts;

    let ghost pv = view_exprs(prog@);
    let mut out = String::new();
    let mut i: usize = 0;
    proof {
        assert(spec_format_prog(pv.take(0)) =~= Seq::<char>::empty());
    }
    while i < prog.len()
        invariant
            i <= prog.len(),
            pv == view_exprs(prog@),
            out@ == spec_format_prog(pv.take(i as int)),
        decreases prog.len() - i,
    {
        if i > 0 {
            out.append("\n\n");
        }
        let piece = pretty_format(&prog[i]);
        out.append(piece.as_str());
        proof {
            reveal_strlit("\n\n");
            assert(pv.take(i + 1).drop_last() =~= pv.take(i as int));
            assert(pv.take(i + 1).last() == pv[i as int]);
            if i == 0 {
                assert(spec_format_prog(pv.take(1)) == spec_format(
                    spec_default_fmt(),
                    pv.take(1)[0],
                    0,
                ));
                assert(out@ =~= spec_format_prog(pv.take(1)));
            } else {
                assert(out@ =~= spec_format_prog(pv.take(i + 1)));
            }
        }
        i = i + 1;
    }
    proof {
        assert(pv.take(i as int) =~= pv);
    }
    out
}

impl PrettyFormatter {
    /// The rendered elements of `v` from `start` on, each at indent `cur`.
    #[verifier::loop_isolation(false)]
    fn format_elems(&self, v: &Vec<Expr>, start: usize, cur: usize) -> (r: Vec<String>)
        requires
            start <= v@.len(),
            cur + 2 * crate::knormal::spec_size_seq(view_exprs(v@).skip(start as int))
                + self.indent <= usize::MAX,
        ensures
            view_ids(r@) == spec_format_elems(
                self@,
                view_exprs(v@).skip(start as int),
                cur as nat,
            ),
        decreases v,
    {
        broadcast use crate::ast::lemma_view_exprs, crate::ast::lemma_push_parts;

        let ghost sv = view_exprs(v@).skip(start as int);
        let mut r: Vec<String> = Vec::new();
        let mut i: usize = start;
        proof {
            assert(view_ids(r@) =~= Seq::<Seq<char>>::empty());
            assert(spec_format_elems(self@, sv.take(0), cur as nat) =~= Seq::<Seq<char>>::empty());
        }
        while i < v.len()
            invariant
                start <= i <= v.len(),
                r@.len() == i - start,
                view_ids(r@) == spec_format_elems(self@, sv.take(i - start), cur as nat),
            decreases v.len() - i,
        {
            let ghost k = i - start;
            proof {
                assert(sv[k] == view_exprs(v@)[i as int]);
                crate::knormal::lemma_size_seq_split(sv, k);
                crate::knormal::lemma_size_seq_take_le(sv, k);
            }
            let d = self.format_expr(&v[i], cur);
            proof {
                assert(sv.take(k).push(sv[k]) =~= sv.take(k + 1));
                assert(view_ids(r@.push(d)) =~= view_ids(r@).push(d@));
            }
            r.push(d);
            i = i + 1;
        }
        proof {
            assert(sv.take(i - start) =~= sv);
        }
        r
    }

    /// The rendered bindings of a `let`, one `(name value)` piece each.
    #[verifier::loop_isolation(false)]
    fn format_binds(&self, bs: &Vec<(String, Expr)>, cur: usize) -> (r: Vec<String>)
        requires
            cur + 2 * crate::knormal::spec_size_binds(view_binds(bs@)) + self.indent
                <= usize::MAX,
        ensures
            view_ids(r@) == spec_format_bind_list(self@, view_binds(bs@), cur as nat),
        decreases bs,
    {
        broadcast use crate::ast::lemma_view_exprs, crate::ast::lemma_view_binds, crate::ast::lemma_push_parts;

        let ghost bv = view_binds(bs@);
        let mut r: Vec<String> = Vec::new();
        let mut i: usize = 0;
        proof {
            assert(view_ids(r@) =~= Seq::<Seq<char>>::empty());
            assert(spec_format_bind_list(self@, bv.take(0), cur as nat) =~= Seq::<
                Seq<char>,
            >::empty());
        }
        while i < bs.len()
            invariant
                i <= bs.len(),
                r@.len() == i,
                view_ids(r@) == spec_format_bind_list(self@, bv.take(i as int), cur as nat),
            decreases bs.len() - i,
        {
            proof {
                assert(bv[i as int] == (bs@[i as int].0@, view_expr(bs@[i as int].1)));
                crate::knormal::lemma_size_binds_split(bv, i as int);
                crate::knormal::lemma_size_binds_take_le(bv, i as int);
            }
            let val = self.format_expr(&bs[i].1, cur);
            let mut piece = String::from_str("(");
            piece.append(bs[i].0.as_str());
            piece.append(" ");
            piece.append(val.as_str());
            piece.append(")");
            proof {
                assert(piece@ =~= "("@ + bv[i as int].0 + " "@ + spec_format(
                    self@,
                    bv[i as int].1,
                    cur as nat,
                ) + ")"@);
                assert(bv.take(i as int).push(bv[i as int]) =~= bv.take(i + 1));
                assert(view_ids(r@.push(piece)) =~= view_ids(r@).push(piece@));
            }
            r.push(piece);
            i = i + 1;
        }
        proof {
            assert(bv.take(i as int) =~= bv);
        }
        r
    }

    /// Render one node at the given indent level.
    #[verifier::loop_isolation(false)]
    #[verifier::rlimit(100)]
    fn format_expr(&self, e: &Expr, cur: usize) -> (r: String)
        requires
            cur + 2 * crate::knormal::spec_size(e@) + self.indent <= usize::MAX,
        ensures
            r@ == spec_format(self@, e@, cur as nat),
        decreases e,
    {
        broadcast use crate::ast::lemma_view_exprs, crate::ast::lemma_view_binds, crate::ast::lemma_push_parts;

        proof {
            crate::knormal::lemma_size_pos(e@);
        }
        match e {
            Expr::Nil => String::from_str("nil"),
            Expr::Bool(b) => {
                if *b {
                    String::from_str("true")
                } else {
                    String::from_str("false")
                }
            },
            Expr::Int(i) => int_to_string(*i),
            Expr::Float(s) => s.clone(),
            Expr::Id(s) => s.clone(),
            Expr::Str(s) => {
                let mut out = String::from_str("\"");
                let esc = escape_exec(s);
                out.append(esc.as_str());
                out.append("\"");
                proof {
                    reveal_strlit("\"");
                    assert(out@ =~= seq!['"'] + escape_str(s@) + seq!['"']);
                }
                out
            },
            Expr::Form(v) => {
                if v.len() == 0 {
                    let r = String::from_str("()");
                    proof {
                        assert(view_exprs(v@).len() == 0);
                    }
                    r
                } else {
                    proof {
                        crate::knormal::lemma_size_seq_split(view_exprs(v@), 0);
                        crate::knormal::lemma_size_seq_take_le(view_exprs(v@), 0);
                        crate::knormal::lemma_size_seq_skip_le(view_exprs(v@), 1);
                    }
                    let head = self.format_expr(&v[0], cur + 1);
                    let pieces = self.format_elems(v, 1, cur + 1);
                    let joined = join_sp_exec(&pieces);
                    let mut single = String::from_str("(");
                    single.append(head.as_str());
                    single.append(" ");
                    single.append(joined.as_str());
                    single.append(")");
                    let ghost headv = head@;
                    let ghost argsv = spec_format_elems(
                        self@,
                        view_exprs(v@).drop_first(),
                        (cur + 1) as nat,
                    );
                    proof {
                        assert(view_exprs(v@).skip(1) =~= view_exprs(v@).drop_first());
                        assert(single@ =~= "("@ + headv + " "@ + join_sp(argsv) + ")"@);
                    }
                    if single.as_str().unicode_len() <= self.line_width {
                        single
                    } else {
                        let mut out = String::from_str("(");
                        out.append(head.as_str());
                        if v.len() > 1 {
                            out.append("\n");
                            let pre = self.indent_str(cur + 1);
                            let lines = join_lines_exec(&pieces, &pre);
                            out.append(lines.as_str());
                            out.append("\n");
                        }
                        let pre0 = self.indent_str(cur);
                        out.append(pre0.as_str());
                        out.append(")");
                        proof {
                            reveal_strlit("\n");
                            lemma_format_elems_len(
                                self@,
                                view_exprs(v@).drop_first(),
                                (cur + 1) as nat,
                            );
                            if v@.len() > 1 {
                                assert(out@ =~= "("@ + headv + (seq!['\n'] + join_lines(
                                    argsv,
                                    ind(self@, (cur + 1) as nat),
                                ) + seq!['\n']) + ind(self@, cur as nat) + ")"@);
                            } else {
                                assert(out@ =~= "("@ + headv + Seq::<char>::empty() + ind(
                                    self@,
                                    cur as nat,
                                ) + ")"@);
                            }
                        }
                        out
                    }
                }
            },
            Expr::Let { bindings, body } => {
                let pieces = self.format_binds(bindings, cur + 2);
                let body_s = self.format_expr(body, cur + 1);
                let ind1 = self.indent_str(cur + 1);
                let ind2 = self.indent_str(cur + 2);
                let ind0 = self.indent_str(cur);
                let lines = join_lines_exec(&pieces, &ind2);
                let mut out = String::from_str("(let\n");
                out.append(ind1.as_str());
                out.append("(\n");
                out.append(lines.as_str());
                out.append("\n");
                out.append(ind1.as_str());
                out.append(")\n");
                out.append(ind1.as_str());
                out.append(body_s.as_str());
                out.append("\n");
                out.append(ind0.as_str());
                out.append(")");
                proof {
                    reveal_strlit("\n");
                    assert(out@ =~= mk_let(
                        self@,
                        spec_format_bind_list(self@, view_binds(bindings@), (cur + 2) as nat),
                        spec_format(self@, body@, (cur + 1) as nat),
                        cur as nat,
                    ));
                }
                out
            },
            Expr::If { cond, thn, els } => {
                let c = self.format_expr(cond, cur + 1);
                let t = self.format_expr(thn, cur + 1);
                let el = self.format_expr(els, cur + 1);
                let mut single = String::from_str("(if ");
                single.append(c.as_str());
                single.append(" ");
                single.append(t.as_str());
                single.append(" ");
                single.append(el.as_str());
                single.append(")");
                proof {
                    assert(single@ =~= "(if "@ + c@ + " "@ + t@ + " "@ + el@ + ")"@);
                }
                if single.as_str().unicode_len() <= self.line_width {
                    single
                } else {
                    let ind1 = self.indent_str(cur + 1);
                    let ind0 = self.indent_str(cur);
                    let mut out = String::from_str("(if\n");
                    out.append(ind1.as_str());
                    out.append(c.as_str());
                    out.append("\n");
                    out.append(ind1.as_str());
                    out.append(t.as_str());
                    out.append("\n");
                    out.append(ind1.as_str());
                    out.append(el.as_str());
                    out.append("\n");
                    out.append(ind0.as_str());
                    out.append(")");
                    proof {
                        reveal_strlit("\n");
                        assert(out@ =~= mk_if_str(self@, c@, t@, el@, cur as nat));
                    }
                    out
                }
            },
            Expr::And(v) => {
                proof {
                    crate::knormal::lemma_size_seq_skip_le(view_exprs(v@), 0);
                }
                let pieces = self.format_elems(v, 0, cur + 1);
                proof {
                    assert(view_exprs(v@).skip(0) =~= view_exprs(v@));
                    lemma_format_elems_len(self@, view_exprs(v@), (cur + 1) as nat);
                }
                self.format_and_or(true, &pieces, cur, Ghost(view_exprs(v@)))
            },
            Expr::Or(v) => {
                proof {
                    crate::knormal::lemma_size_seq_skip_le(view_exprs(v@), 0);
                }
                let pieces = self.format_elems(v, 0, cur + 1);
                proof {
                    assert(view_exprs(v@).skip(0) =~= view_exprs(v@));
                    lemma_format_elems_len(self@, view_exprs(v@), (cur + 1) as nat);
                }
                self.format_and_or(false, &pieces, cur, Ghost(view_exprs(v@)))
            },
            Expr::Not(b) => {
                let inner = self.format_expr(b, cur + 1);
                let mut out = String::from_str("(not ");
                out.append(inner.as_str());
                out.append(")");
                proof {
                    assert(out@ =~= "(not "@ + inner@ + ")"@);
                }
                out
            },
            Expr::Fn { args, body } => {
                let b = self.format_expr(body, cur + 1);
                let joined = join_sp_exec(args);
                let mut args_str = String::from_str("(");
                args_str.append(joined.as_str());
                args_str.append(")");
                let mut single = String::from_str("(fn ");
                single.append(args_str.as_str());
                single.append(" ");
                single.append(b.as_str());
                single.append(")");
                proof {
                    assert(args_str@ =~= "("@ + join_sp(view_ids(args@)) + ")"@);
                    assert(single@ =~= "(fn "@ + args_str@ + " "@ + b@ + ")"@);
                }
                if single.as_str().unicode_len() <= self.line_width {
                    single
                } else {
                    let ind1 = self.indent_str(cur + 1);
                    let ind0 = self.indent_str(cur);
                    let mut out = String::from_str("(fn ");
                    out.append(args_str.as_str());
                    out.append("\n");
                    out.append(ind1.as_str());
                    out.append(b.as_str());
                    out.append("\n");
                    out.append(ind0.as_str());
                    out.append(")");
                    proof {
                        reveal_strlit("\n");
                        assert(out@ =~= "(fn "@ + args_str@ + seq!['\n'] + ind(
                            self@,
                            (cur + 1) as nat,
                        ) + b@ + seq!['\n'] + ind(self@, cur as nat) + ")"@);
                    }
                    out
                }
            },
            Expr::Def { x, y } => {
                let v = self.format_expr(y, cur + 1);
                let mut single = String::from_str("(def ");
                single.append(x.as_str());
                single.append(" ");
                single.append(v.as_str());
                single.append(")");
                proof {
                    assert(single@ =~= "(def "@ + x@ + " "@ + v@ + ")"@);
                }
                if single.as_str().unicode_len() <= self.line_width {
                    single
                } else {
                    let ind1 = self.indent_str(cur + 1);
                    let ind0 = self.indent_str(cur);
                    let mut out = String::from_str("(def ");
                    out.append(x.as_str());
                    out.append("\n");
                    out.append(ind1.as_str());
                    out.append(v.as_str());
                    out.append("\n");
                    out.append(ind0.as_str());
                    out.append(")");
                    proof {
                        reveal_strlit("\n");
                        assert(out@ =~= "(def "@ + x@ + seq!['\n'] + ind(self@, (cur + 1) as nat)
                            + v@ + seq!['\n'] + ind(self@, cur as nat) + ")"@);
                    }
                    out
                }
            },
            Expr::Defun { name, args, body } => {
                let b = self.format_expr(body, cur + 1);
                let joined = join_sp_exec(args);
                let ind1 = self.indent_str(cur + 1);
                let ind0 = self.indent_str(cur);
                let mut out = String::from_str("(defun ");
                out.append(name.as_str());
                out.append(" ");
                out.append("(");
                out.append(joined.as_str());
                out.append(")");
                out.append("\n");
                out.append(ind1.as_str());
                out.append(b.as_str());
                out.append("\n");
                out.append(ind0.as_str());
                out.append(")");
                proof {
                    reveal_strlit("\n");
                    assert(out@ =~= mk_defun(
                        self@,
                        name@,
                        view_ids(args@),
                        b@,
                        cur as nat,
                    ));
                }
                out
            },
            Expr::LetFun { name, args, fun_body, expr_body } => {
                let fb = self.format_expr(fun_body, cur + 1);
                let eb = self.format_expr(expr_body, cur + 1);
                let joined = join_sp_exec(args);
                let ind1 = self.indent_str(cur + 1);
                let ind0 = self.indent_str(cur);
                let mut out = String::from_str("(letfun (");
                out.append(name.as_str());
                out.append(" ");
                out.append("(");
                out.append(joined.as_str());
                out.append(")");
                out.append("\n");
                out.append(ind1.as_str());
                out.append(fb.as_str());
                out.append("\n");
                out.append(ind1.as_str());
                out.append(")\n");
                out.append(ind1.as_str());
                out.append(eb.as_str());
                out.append("\n");
                out.append(ind0.as_str());
                out.append(")");
                proof {
                    reveal_strlit("\n");
                    assert(out@ =~= mk_letfun(
                        self@,
                        name@,
                        view_ids(args@),
                        fb@,
                        eb@,
                        cur as nat,
                    ));
                }
                out
            },
            Expr::DefClos { name, freevars, args, body } => {
                let b = self.format_expr(body, cur + 1);
                let jf = join_sp_exec(freevars);
                let ja = join_sp_exec(args);
                let ind1 = self.indent_str(cur + 1);
                let ind0 = self.indent_str(cur);
                let mut out = String::from_str("(defclos ");
                out.append(name.as_str());
                out.append(" ");
                out.append("(");
                out.append(jf.as_str());
                out.append(")");
                out.append(" ");
                out.append("(");
                out.append(ja.as_str());
                out.append(")");
                out.append("\n");
                out.append(ind1.as_str());
                out.append(b.as_str());
                out.append("\n");
                out.append(ind0.as_str());
                out.append(")");
                proof {
                    reveal_strlit("\n");
                    assert(out@ =~= mk_defclos(
                        self@,
                        name@,
                        view_ids(freevars@),
                        view_ids(args@),
                        b@,
                        cur as nat,
                    ));
                }
                out
            },
            Expr::LetClos { name, closid, freevars, body } => {
                let b = self.format_expr(body, cur + 1);
                let jf = join_sp_exec(freevars);
                let ind2 = self.indent_str(cur + 2);
                let ind1 = self.indent_str(cur + 1);
                let ind0 = self.indent_str(cur);
                let mut out = String::from_str("(letclos (");
                out.append(name.as_str());
                out.append(" ");
                out.append(closid.as_str());
                out.append("\n");
                out.append(ind2.as_str());
                out.append("(");
                out.append(jf.as_str());
                out.append(")");
                out.append("\n");
                out.append(ind1.as_str());
                out.append(")\n");
                out.append(ind1.as_str());
                out.append(b.as_str());
                out.append("\n");
                out.append(ind0.as_str());
                out.append(")");
                proof {
                    reveal_strlit("\n");
                    assert(out@ =~= mk_letclos(
                        self@,
                        name@,
                        closid@,
                        view_ids(freevars@),
                        b@,
                        cur as nat,
                    ));
                }
                out
            },
        }
    }

    /// Assemble an `and`/`or` from its rendered operands.
    fn format_and_or(
        &self,
        is_and: bool,
        pieces: &Vec<String>,
        cur: usize,
        Ghost(orig): Ghost<Seq<SpecExpr>>,
    ) -> (r: String)
        requires
            cur + 2 + self.indent <= usize::MAX,
            view_ids(pieces@) == spec_format_elems(self@, orig, (cur + 1) as nat),
            pieces@.len() == orig.len(),
        ensures
            is_and ==> r@ == spec_format(self@, SpecExpr::And(orig), cur as nat),
            !is_and ==> r@ == spec_format(self@, SpecExpr::Or(orig), cur as nat),
    {
        let op = if is_and {
            "and"
        } else {
            "or"
        };
        let ghost opv = if is_and {
            "and"@
        } else {
            "or"@
        };
        if pieces.len() == 0 {
            let mut out = String::from_str("(");
            out.append(op);
            out.append(")");
            proof {
                assert(out@ =~= "("@ + opv + ")"@);
            }
            out
        } else {
            let joined = join_sp_exec(pieces);
            let mut single = String::from_str("(");
            single.append(op);
            single.append(" ");
            single.append(joined.as_str());
            single.append(")");
            proof {
                assert(single@ =~= "("@ + opv + " "@ + join_sp(view_ids(pieces@)) + ")"@);
            }
            if single.as_str().unicode_len() <= self.line_width {
                single
            } else {
                let ind1 = self.indent_str(cur + 1);
                let ind0 = self.indent_str(cur);
                let lines = join_lines_exec(pieces, &ind1);
                let mut out = String::from_str("(");
                out.append(op);
                out.append("\n");
                out.append(lines.as_str());
                out.append("\n");
                out.append(ind0.as_str());
                out.append(")");
                proof {
                    reveal_strlit("\n");
                    assert(out@ =~= "("@ + opv + seq!['\n'] + join_lines(
                        view_ids(pieces@),
                        ind(self@, (cur + 1) as nat),
                    ) + seq!['\n'] + ind(self@, cur as nat) + ")"@);
                }
                out
            }
        }
    }
}

} // verus!
