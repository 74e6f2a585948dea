//! Running the enabled rules over one parsed file, and the boolean flag
//! syntax of the command surface.

use vstd::prelude::*;
use crate::adjacency::{TopItem, adjacency_findings, reflects_finding};
use crate::inline_rule::{MacroCall, embed_pass, reflects_inline};
use crate::report::Violation;
use crate::Config;

verus! {

/// Check one file: run the enabled rules in order (adjacency first, then
/// placeholder inlining) and return their violations, adjacency's first.
pub fn check_file(
    path: &str,
    content: &str,
    items: &Vec<TopItem>,
    macros: &Vec<MacroCall>,
    config: &Config,
) -> (r: Vec<Violation>)
    ensures
        ({
            let adj = adjacency_findings(items@);
            let pass = embed_pass(macros@, 0, Seq::empty(), content@);
            let n_adj: int = if config.impl_follows_type {
                adj.len() as int
            } else {
                0
            };
            let n_emb: int = if config.embed_simple_vars {
                pass.len() as int
            } else {
                0
            };
            &&& r@.len() == n_adj + n_emb
            &&& config.impl_follows_type ==> forall|k: int|
                0 <= k < adj.len() ==> reflects_finding(#[trigger] r@[k], adj[k], path@)
            &&& config.embed_simple_vars ==> forall|k: int|
                0 <= k < pass.len() ==> reflects_inline(
                    #[trigger] r@[n_adj + k],
                    pass[k].0,
                    path@,
                    pass[k].1,
                )
        }),
{
    let mut out: Vec<Violation> = Vec::new();
    if config.impl_follows_type {
        let mut adj_violations = crate::adjacency::check_impl_follows_type(path, items);
        let ghost avs = adj_violations@;
        out.append(&mut adj_violations);
        assert(out@ =~= avs);
    }
    let ghost adj_part = out@;
    if config.embed_simple_vars {
        let mut emb_violations = crate::inline_rule::check_embed_simple_vars(
            path,
            content,
            macros,
        );
        let ghost evs = emb_violations@;
        out.append(&mut emb_violations);
        assert(out@ =~= adj_part + evs);
    }
    out
}

/// How the command surface reads a boolean flag value: case-insensitively
/// (for ASCII), `true`/`1`/`yes` and `false`/`0`/`no`.
pub open spec fn spec_parse_bool(s: Seq<char>) -> Option<bool> {
    let l = crate::text::lower_seq(s);
    if l == "true"@ || l == "1"@ || l == "yes"@ {
        Some(true)
    } else if l == "false"@ || l == "0"@ || l == "no"@ {
        Some(false)
    } else {
        None
    }
}

/// Parse a boolean flag value.
pub fn parse_bool_flag(value: &str) -> (r: Option<bool>)
    ensures
        r == spec_parse_bool(value@),
{
    let chars = crate::text::str_chars(value);
    let l = crate::text::lower_chars(&chars);
    if crate::text::chars_eq(&l, &crate::text::str_chars("true")) || crate::text::chars_eq(
        &l,
        &crate::text::str_chars("1"),
    ) || crate::text::chars_eq(&l, &crate::text::str_chars("yes")) {
        Some(true)
    } else if crate::text::chars_eq(&l, &crate::text::str_chars("false"))
        || crate::text::chars_eq(&l, &crate::text::str_chars("0")) || crate::text::chars_eq(
        &l,
        &crate::text::str_chars("no"),
    ) {
        Some(false)
    } else {
        None
    }
}

} // verus!
