//! Reading a multi-expression source text: one parsed tree per top-level
//! form.

use vstd::prelude::*;
use crate::ast::Expr;
use crate::parse::{tokenize, advance_parse, parse_tokens};

verus! {

/// Parse a source text into its top-level expressions.
pub fn read_string(content: &str) -> (r: Result<Vec<Expr>, String>) {
    let toks = tokenize(content)?;
    let mut exprs: Vec<Expr> = Vec::new();
    let mut pos: usize = 0;
    while pos < toks.len()
        invariant
            pos <= toks@.len(),
        decreases toks@.len() - pos,
    {
        let (raw, next) = match parse_tokens(&toks, pos) {
            Ok(p) => p,
            Err(m) => {
                return Err(m);
            },
        };
        exprs.push(advance_parse(raw));
        pos = next;
    }
    Ok(exprs)
}

} // verus!
