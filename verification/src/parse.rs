//! The surface reader: parenthesized lists to raw `Form` trees, then a
//! post-processing step that recognizes the special forms (`let`, `if`,
//! `and`, `or`, `not`, `fn`, `def`, `defun`, `letfun`).  Malformed syntax is
//! reported as an error value.

use vstd::prelude::*;
use vstd::string::{StringExecFns, StrSliceExecFns};
use crate::ast::Expr;
use crate::anormal::clone_expr;

verus! {

/// One surface token.
pub enum Token {
    Open,
    Close,
    Text(String),
    Sym(String),
}

/// Split the input into tokens; `;` starts a comment that runs to the end
/// of the line, and a double-quoted literal may escape an inner quote with
/// a backslash.
#[verifier::loop_isolation(false)]
pub fn tokenize(input: &str) -> (r: Result<Vec<Token>, String>)
{
    let n = input.unicode_len();
    let mut toks: Vec<Token> = Vec::new();
    let mut i: usize = 0;
    while i < n
        invariant
            n == input@.len(),
            i <= n,
        decreases n - i,
    {
        let c = input.get_char(i);
        if c == '(' {
            toks.push(Token::Open);
            i = i + 1;
        } else if c == ')' {
            toks.push(Token::Close);
            i = i + 1;
        } else if c == ';' {
            let start = i;
            while i < n && input.get_char(i) != '\n'
                invariant
                    n == input@.len(),
                    start <= i <= n,
                decreases n - i,
            {
                i = i + 1;
            }
            if i < n {
                i = i + 1;
            }
            proof {
                assert(i > start);
            }
        } else if c == ' ' || c == '\t' || c == '\n' || c == '\r' {
            i = i + 1;
        } else if c == '"' {
            let mut text = String::new();
            i = i + 1;
            let start = i;
            let mut closed = false;
            while i < n && !closed
                invariant
                    n == input@.len(),
                    start <= i <= n,
                decreases n - i,
            {
                let d = input.get_char(i);
                if d == '"' {
                    closed = true;
                    i = i + 1;
                } else if d == '\\' && i + 1 < n && input.get_char(i + 1) == '"' {
                    text.append("\"");
                    i = i + 2;
                } else {
                    let piece = input.substring_char(i, i + 1);
                    text.append(piece);
                    i = i + 1;
                }
            }
            if !closed {
                return Err(String::from_str("parse error: unterminated string literal"));
            }
            toks.push(Token::Text(text));
        } else {
            let start = i;
            while i < n && !is_delim(input.get_char(i))
                invariant
                    n == input@.len(),
                    start <= i <= n,
                decreases n - i,
            {
                i = i + 1;
            }
            proof {
                assert(input@[start as int] == c);
                assert(i != start);
            }
            let word = input.substring_char(start, i);
            toks.push(Token::Sym(String::from_str(word)));
        }
    }
    Ok(toks)
}

fn is_delim(c: char) -> (r: bool)
    ensures
        r == (c == '(' || c == ')' || c == ';' || c == '"' || c == ' ' || c == '\t' || c
            == '\n' || c == '\r'),
{
    c == '(' || c == ')' || c == ';' || c == '"' || c == ' ' || c == '\t' || c == '\n' || c
        == '\r'
}

/// Whether every character is a decimal digit.
fn all_digits(s: &str, from: usize) -> (r: bool)
    requires
        from <= s@.len(),
{
    let n = s.unicode_len();
    if from >= n {
        return false;
    }
    let mut i = from;
    while i < n
        invariant
            n == s@.len(),
            i <= n,
        decreases n - i,
    {
        let c = s.get_char(i);
        if !(c == '0' || c == '1' || c == '2' || c == '3' || c == '4' || c == '5' || c == '6'
            || c == '7' || c == '8' || c == '9') {
            return false;
        }
        i = i + 1;
    }
    true
}

/// Whether the word is a float literal: digits with exactly one inner dot.
fn is_float_word(s: &str) -> (r: bool) {
    let n = s.unicode_len();
    let start: usize = if n > 0 && s.get_char(0) == '-' {
        1
    } else {
        0
    };
    let mut dots: usize = 0;
    let mut digits: usize = 0;
    let mut i = start;
    if start >= n {
        return false;
    }
    while i < n
        invariant
            n == s@.len(),
            i <= n,
        decreases n - i,
    {
        let c = s.get_char(i);
        if c == '.' {
            if dots > 0 {
                return false;
            }
            if i == start || i + 1 >= n {
                return false;
            }
            dots = dots + 1;
        } else if c == '0' || c == '1' || c == '2' || c == '3' || c == '4' || c == '5' || c
            == '6' || c == '7' || c == '8' || c == '9' {
            if digits < usize::MAX {
                digits = digits + 1;
            }
        } else {
            return false;
        }
        i = i + 1;
    }
    dots == 1 && digits > 0
}

/// Parse a decimal integer literal, rejecting values outside `i64`.
fn parse_int_word(s: &str) -> (r: Option<i64>) {
    let n = s.unicode_len();
    let neg = n > 0 && s.get_char(0) == '-';
    let start: usize = if neg {
        1
    } else {
        0
    };
    if !all_digits(s, if start <= n {
        start
    } else {
        n
    }) {
        return None;
    }
    let mut acc: i64 = 0;
    let mut i = start;
    while i < n
        invariant
            n == s@.len(),
            i <= n,
        decreases n - i,
    {
        let c = s.get_char(i);
        let d: i64 = digit_value(c);
        acc = match acc.checked_mul(10) {
            Some(v) => v,
            None => {
                return None;
            },
        };
        acc = if neg {
            match acc.checked_sub(d) {
                Some(v) => v,
                None => {
                    return None;
                },
            }
        } else {
            match acc.checked_add(d) {
                Some(v) => v,
                None => {
                    return None;
                },
            }
        };
        i = i + 1;
    }
    Some(acc)
}

fn digit_value(c: char) -> i64 {
    if c == '0' {
        0
    } else if c == '1' {
        1
    } else if c == '2' {
        2
    } else if c == '3' {
        3
    } else if c == '4' {
        4
    } else if c == '5' {
        5
    } else if c == '6' {
        6
    } else if c == '7' {
        7
    } else if c == '8' {
        8
    } else if c == '9' {
        9
    } else {
        0
    }
}

/// One atom from a bare word; an integer literal outside `i64` is an error.
fn word_to_atom(w: String) -> (r: Result<Expr, String>) {
    if w == String::from_str("nil") {
        Ok(Expr::Nil)
    } else if w == String::from_str("true") {
        Ok(Expr::Bool(true))
    } else if w == String::from_str("false") {
        Ok(Expr::Bool(false))
    } else {
        match parse_int_word(w.as_str()) {
            Some(i) => Ok(Expr::Int(i)),
            None => {
                let neg = w.as_str().unicode_len() > 0 && w.as_str().get_char(0) == '-';
                let from: usize = if neg && 1 <= w.as_str().unicode_len() {
                    1
                } else {
                    0
                };
                if all_digits(w.as_str(), from) {
                    Err(String::from_str("parse error: integer literal out of range"))
                } else if is_float_word(w.as_str()) {
                    Ok(Expr::Float(w))
                } else {
                    Ok(Expr::Id(w))
                }
            },
        }
    }
}

/// One expression starting at `pos`; on success the next unread position.
pub fn parse_tokens(toks: &Vec<Token>, pos: usize) -> (r: Result<(Expr, usize), String>)
    requires
        pos <= toks@.len(),
    ensures
        r matches Ok(p) ==> pos < p.1 <= toks@.len(),
    decreases toks@.len() - pos,
{
    if pos >= toks.len() {
        return Err(String::from_str("parse error: unexpected end of input"));
    }
    match &toks[pos] {
        Token::Close => Err(String::from_str("parse error: unexpected closing parenthesis")),
        Token::Text(s) => Ok((Expr::Str(s.clone()), pos + 1)),
        Token::Sym(s) => {
            match word_to_atom(s.clone()) {
                Ok(atom) => Ok((atom, pos + 1)),
                Err(m) => Err(m),
            }
        },
        Token::Open => {
            let mut items: Vec<Expr> = Vec::new();
            let mut cur = pos + 1;
            loop
                invariant
                    pos < cur <= toks@.len(),
                decreases toks@.len() - cur,
            {
                if cur >= toks.len() {
                    return Err(
                        String::from_str("parse error: missing closing parenthesis"),
                    );
                }
                let is_close = match &toks[cur] {
                    Token::Close => true,
                    _ => false,
                };
                if is_close {
                    return Ok((Expr::Form(items), cur + 1));
                }
                let (item, next) = match parse_tokens(toks, cur) {
                    Ok(p) => p,
                    Err(m) => {
                        return Err(m);
                    },
                };
                items.push(item);
                cur = next;
            }
        },
    }
}

/// Recognize the special forms in a raw list tree.
#[verifier::loop_isolation(false)]
#[verifier::rlimit(100)]
pub fn advance_parse(e: Expr) -> (r: Expr)
    decreases e,
{
    match e {
        Expr::Form(form) => {
            let mut items: Vec<Expr> = Vec::new();
            let mut form = form;
            let ghost orig = form@;
            let total = form.len();
            let mut taken: usize = 0;
            while form.len() > 0
                invariant
                    total == orig.len(),
                    taken + form@.len() == orig.len(),
                    form@ =~= orig.skip(taken as int),
                decreases form.len(),
            {
                let item = form.remove(0);
                proof {
                    assert(orig.skip(taken as int)[0] == orig[taken as int]);
                    assert(orig.skip(taken as int).drop_first() =~= orig.skip(taken + 1));
                }
                items.push(advance_parse(item));
                taken = taken + 1;
            }
            recognize_form(items)
        },
        other => other,
    }
}

/// Turn a transformed list into a special form where its head demands it.
#[verifier::rlimit(100)]
fn recognize_form(items: Vec<Expr>) -> (r: Expr) {
    if items.len() == 0 {
        return Expr::Form(items);
    }
    let head_word: Option<&String> = match &items[0] {
        Expr::Id(id) => Some(id),
        _ => None,
    };
    match head_word {
        None => Expr::Form(items),
        Some(id) => {
            if *id == String::from_str("let") && items.len() == 3 {
                let is_bindings = match &items[1] {
                    Expr::Form(_) => true,
                    _ => false,
                };
                if is_bindings {
                    let mut bindings: Vec<(String, Expr)> = Vec::new();
                    let blist = match &items[1] {
                        Expr::Form(bl) => bl,
                        _ => {
                            return Expr::Form(items);
                        },
                    };
                    let mut i: usize = 0;
                    while i < blist.len()
                        decreases blist@.len() - i,
                    {
                        match &blist[i] {
                            Expr::Form(pair) => {
                                if pair.len() == 2 {
                                    match &pair[0] {
                                        Expr::Id(var_name) => {
                                            bindings.push(
                                                (var_name.clone(), clone_expr(&pair[1])),
                                            );
                                        },
                                        _ => {},
                                    }
                                }
                            },
                            _ => {},
                        }
                        i = i + 1;
                    }
                    let body = Box::new(clone_expr(&items[2]));
                    return Expr::Let { bindings, body };
                }
                Expr::Form(items)
            } else if *id == String::from_str("if") && items.len() == 4 {
                let cond = Box::new(clone_expr(&items[1]));
                let thn = Box::new(clone_expr(&items[2]));
                let els = Box::new(clone_expr(&items[3]));
                Expr::If { cond, thn, els }
            } else if *id == String::from_str("and") {
                let mut rest = items;
                let _head = rest.remove(0);
                Expr::And(rest)
            } else if *id == String::from_str("or") {
                let mut rest = items;
                let _head = rest.remove(0);
                Expr::Or(rest)
            } else if *id == String::from_str("not") && items.len() == 2 {
                Expr::Not(Box::new(clone_expr(&items[1])))
            } else if *id == String::from_str("fn") && items.len() == 3 {
                match id_list(&items[1]) {
                    Some(args) => {
                        let body = Box::new(clone_expr(&items[2]));
                        Expr::Fn { args, body }
                    },
                    None => Expr::Form(items),
                }
            } else if *id == String::from_str("def") && items.len() == 3 {
                match &items[1] {
                    Expr::Id(x) => {
                        let y = Box::new(clone_expr(&items[2]));
                        Expr::Def { x: x.clone(), y }
                    },
                    _ => Expr::Form(items),
                }
            } else if *id == String::from_str("defun") && items.len() == 4 {
                let name = match &items[1] {
                    Expr::Id(nm) => Some(nm.clone()),
                    _ => None,
                };
                match name {
                    Some(nm) => {
                        match id_list(&items[2]) {
                            Some(args) => {
                                let body = Box::new(clone_expr(&items[3]));
                                Expr::Defun { name: nm, args, body }
                            },
                            None => Expr::Form(items),
                        }
                    },
                    None => Expr::Form(items),
                }
            } else if *id == String::from_str("letfun") && items.len() == 3 {
                let parts = match &items[1] {
                    Expr::Form(fd) => {
                        if fd.len() == 3 {
                            let nm = match &fd[0] {
                                Expr::Id(nm) => Some(nm.clone()),
                                _ => None,
                            };
                            match nm {
                                Some(nm) => {
                                    match id_list(&fd[1]) {
                                        Some(args) => Some(
                                            (nm, args, clone_expr(&fd[2])),
                                        ),
                                        None => None,
                                    }
                                },
                                None => None,
                            }
                        } else {
                            None
                        }
                    },
                    _ => None,
                };
                match parts {
                    Some((nm, args, fun_body)) => {
                        let expr_body = Box::new(clone_expr(&items[2]));
                        Expr::LetFun {
                            name: nm,
                            args,
                            fun_body: Box::new(fun_body),
                            expr_body,
                        }
                    },
                    None => Expr::Form(items),
                }
            } else {
                Expr::Form(items)
            }
        },
    }
}

/// The identifiers of an argument list, when the node is one.
fn id_list(e: &Expr) -> (r: Option<Vec<String>>) {
    match e {
        Expr::Form(arg_list) => {
            let mut args: Vec<String> = Vec::new();
            let mut i: usize = 0;
            while i < arg_list.len()
                decreases arg_list@.len() - i,
            {
                match &arg_list[i] {
                    Expr::Id(nm) => {
                        args.push(nm.clone());
                    },
                    _ => {},
                }
                i = i + 1;
            }
            Some(args)
        },
        _ => None,
    }
}

/// Parse one surface expression from its textual form.
pub fn parse(input: &str) -> (r: Result<Expr, String>) {
    let toks = tokenize(input)?;
    let (raw, _next) = parse_tokens(&toks, 0)?;
    Ok(advance_parse(raw))
}

} // verus!
