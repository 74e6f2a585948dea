//! Violations and fixes: what a rule reports, and the byte-exact text
//! replacement an automatic fix performs.

use vstd::prelude::*;

verus! {

/// Which check fired; lets callers filter and report per rule.
#[derive(Clone, Copy, PartialEq, Eq, Structural, Debug)]
pub enum RuleId {
    ImplFollowsType,
    EmbedSimpleVars,
}

impl RuleId {
    /// The rule's name as printed in reports.
    pub fn name(&self) -> (r: String)
        ensures
            self is ImplFollowsType ==> r@ == "impl-follows-type"@,
            self is EmbedSimpleVars ==> r@ == "embed-simple-vars"@,
    {
        match self {
            RuleId::ImplFollowsType => "impl-follows-type".to_owned(),
            RuleId::EmbedSimpleVars => "embed-simple-vars".to_owned(),
        }
    }
}

/// A half-open range `[start, end)` of the original file's character
/// sequence, and the text to substitute for it. Fixes are always relative
/// to the original content, never to an intermediate patched state.
#[derive(Debug)]
pub struct Fix {
    pub start: usize,
    pub end: usize,
    pub replacement: Vec<char>,
}

impl Fix {
    /// The range is ordered and lies within content of length `n`.
    pub open spec fn valid_for(&self, n: int) -> bool {
        self.start <= self.end <= n
    }

    /// An exact copy of this fix.
    pub fn duplicate(&self) -> (r: Fix)
        ensures
            r.start == self.start,
            r.end == self.end,
            r.replacement@ == self.replacement@,
    {
        let rep = self.replacement.clone();
        assert(rep@ =~= self.replacement@);
        Fix { start: self.start, end: self.end, replacement: rep }
    }
}

/// One finding of one rule in one file. Immutable once produced.
#[derive(Debug)]
pub struct Violation {
    pub rule: RuleId,
    pub file: String,
    pub line: usize,
    pub message: String,
    pub fix: Option<Fix>,
}

/// The message the adjacency rule attaches to a violation.
pub open spec fn adjacency_message(name: Seq<char>, end_line: nat, gap: nat) -> Seq<char> {
    "`impl "@ + name + "` should follow type definition (line "@ + crate::text::dec_str(
        end_line,
    ) + "), but has "@ + crate::text::dec_str(gap) + " blank line(s)"@
}

/// Build the adjacency rule's message.
pub fn build_adjacency_message(name: &String, end_line: usize, gap: usize) -> (r: String)
    ensures
        r@ == adjacency_message(name@, end_line as nat, gap as nat),
{
    let mut m = String::new();
    m.append("`impl ");
    m.append(name.as_str());
    m.append("` should follow type definition (line ");
    let e = crate::text::usize_to_string(end_line);
    m.append(e.as_str());
    m.append("), but has ");
    let g = crate::text::usize_to_string(gap);
    m.append(g.as_str());
    m.append(" blank line(s)");
    assert(m@ =~= adjacency_message(name@, end_line as nat, gap as nat));
    m
}

/// The message the inlining rule attaches to a violation about `name`.
pub open spec fn inline_message(name: Seq<char>) -> Seq<char> {
    "variable `"@ + name
        + "` should be embedded in format string: use `{"@ + name + "}` instead of `{}, "@
        + name + "`"@
}

/// Build the inlining rule's message.
pub fn build_inline_message(name: &String) -> (r: String)
    ensures
        r@ == inline_message(name@),
{
    let mut m = String::new();
    m.append("variable `");
    m.append(name.as_str());
    m.append("` should be embedded in format string: use `{");
    m.append(name.as_str());
    m.append("}` instead of `{}, ");
    m.append(name.as_str());
    m.append("`");
    assert(m@ =~= inline_message(name@));
    m
}

} // verus!
