//! The placeholder-inlining rule: flag formatting invocations that pass a
//! bare identifier for an unnamed `{}` placeholder, and synthesize an
//! automatic fix when every trailing argument is such an identifier.

use vstd::prelude::*;
use crate::text;
use crate::tokens::{Token, TokenKind};
use crate::placeholders;
use crate::report::{Violation, RuleId};

verus! {

/// One recognized formatting-style invocation: the macro's simple name,
/// the source position its invocation starts at (for deduplication of
/// nested expansions), and the tokens of its argument list.
#[derive(Debug)]
pub struct MacroCall {
    pub name: String,
    pub line: usize,
    pub column: usize,
    pub tokens: Vec<Token>,
}

/// The fixed allow-list of formatting, output and leveled-logging call
/// names the rule recognizes.
pub open spec fn is_format_macro_name(s: Seq<char>) -> bool {
    ||| s == "format"@
    ||| s == "write"@
    ||| s == "writeln"@
    ||| s == "print"@
    ||| s == "println"@
    ||| s == "eprint"@
    ||| s == "eprintln"@
    ||| s == "panic"@
    ||| s == "format_args"@
    ||| s == "log"@
    ||| s == "trace"@
    ||| s == "debug"@
    ||| s == "info"@
    ||| s == "warn"@
    ||| s == "error"@
}

/// Whether `name` is one of the recognized formatting-style call names.
pub fn is_format_macro(name: &str) -> (r: bool)
    ensures
        r == is_format_macro_name(name@),
{
    ||| text::str_eq(name, "format")
    ||| text::str_eq(name, "write")
    ||| text::str_eq(name, "writeln")
    ||| text::str_eq(name, "print")
    ||| text::str_eq(name, "println")
    ||| text::str_eq(name, "eprint")
    ||| text::str_eq(name, "eprintln")
    ||| text::str_eq(name, "panic")
    ||| text::str_eq(name, "format_args")
    ||| text::str_eq(name, "log")
    ||| text::str_eq(name, "trace")
    ||| text::str_eq(name, "debug")
    ||| text::str_eq(name, "info")
    ||| text::str_eq(name, "warn")
    ||| text::str_eq(name, "error")
}

/// The text of a string-literal token: plainly quoted or a raw string.
pub open spec fn is_string_literal_text(s: Seq<char>) -> bool {
    ||| (s.len() >= 1 && s[0] == '"')
    ||| (s.len() >= 2 && s[0] == 'r' && (s[1] == '#' || s[1] == '"'))
}

fn text_is_string_literal(t: &String) -> (r: bool)
    ensures
        r == is_string_literal_text(t@),
{
    let v = text::str_chars(t.as_str());
    if v.len() >= 1 && v[0] == '"' {
        true
    } else if v.len() >= 2 && v[0] == 'r' && (v[1] == '#' || v[1] == '"') {
        true
    } else {
        false
    }
}

/// Index of the first string-literal token at or after `i`: the format
/// template of the invocation.
pub open spec fn fmt_token_idx(toks: Seq<Token>, i: int) -> Option<int>
    decreases toks.len() - i,
{
    if i < 0 || i >= toks.len() {
        None
    } else if toks[i].kind == TokenKind::Literal && is_string_literal_text(toks[i].text@) {
        Some(i)
    } else {
        fmt_token_idx(toks, i + 1)
    }
}

/// The trailing arguments after the template: a comma-separated list,
/// each either a lone identifier or a complex expression collected
/// verbatim up to the next top-level comma. Each entry is the argument's
/// text and its source line.
pub open spec fn collect_args(toks: Seq<Token>, i: int) -> Seq<(Seq<char>, int)>
    decreases toks.len() - i,
{
    if i < 0 || i >= toks.len() {
        Seq::empty()
    } else if crate::tokens::is_comma(toks[i]) {
        collect_args(toks, i + 1)
    } else if crate::tokens::lone_ident_at(toks, i) {
        seq![(toks[i].text@, toks[i].line as int)] + collect_args(toks, i + 1)
    } else {
        let e = crate::tokens::arg_end(toks, i);
        if crate::tokens::concat_texts(toks, i, e).len() == 0 {
            collect_args(toks, i + 1)
        } else {
            let step = if i < e <= toks.len() { e } else { i + 1 };
            seq![(crate::tokens::complex_arg_text(toks, i), toks[i].line as int)]
                + collect_args(toks, step)
        }
    }
}

/// The placeholder/argument pairs whose argument is a simple identifier:
/// (placeholder offset, identifier text, argument line).
pub open spec fn simple_sel(ps: Seq<int>, args: Seq<(Seq<char>, int)>, k: int) -> Seq<
    (int, Seq<char>, int),
>
    decreases args.len() - k,
{
    if k < 0 || k >= args.len() || k >= ps.len() {
        Seq::empty()
    } else if crate::tokens::simple_identifier(args[k].0) {
        seq![(ps[k], args[k].0, args[k].1)] + simple_sel(ps, args, k + 1)
    } else {
        simple_sel(ps, args, k + 1)
    }
}

/// The template after inlining the first `k` placeholder/argument pairs,
/// applied highest offset first so earlier offsets stay valid.
pub open spec fn inline_rev(
    fmt: Seq<char>,
    ps: Seq<int>,
    args: Seq<(Seq<char>, int)>,
    k: int,
) -> Seq<char>
    decreases k,
{
    if k <= 0 {
        fmt
    } else {
        inline_rev(
            text::splice_spec(fmt, ps[k - 1], ps[k - 1] + 2, seq!['{'] + args[k - 1].0 + seq!['}']),
            ps,
            args,
            k - 1,
        )
    }
}

/// One inlining violation, as the specification sees it.
pub struct InlineFinding {
    pub name: Seq<char>,
    pub line: int,
}

/// What the rule reports for one invocation's tokens against one file:
/// the findings (one per simple argument) and the fix they share, which
/// exists only when every argument is simple and the synthesizer accepts.
pub open spec fn inline_outcome(toks: Seq<Token>, content: Seq<char>) -> (
    Seq<InlineFinding>,
    Option<(int, int, Seq<char>)>,
) {
    match fmt_token_idx(toks, 0) {
        Option::None => (Seq::empty(), Option::None),
        Option::Some(fi) => {
            let fmt_text = toks[fi].text@;
            let ps = placeholders::empty_placeholders(fmt_text);
            if ps.len() == 0 {
                (Seq::empty(), Option::None)
            } else {
                let args = collect_args(toks, fi + 1);
                if ps.len() != args.len() {
                    (Seq::empty(), Option::None)
                } else {
                    let simples = simple_sel(ps, args, 0);
                    if simples.len() == 0 {
                        (Seq::empty(), Option::None)
                    } else {
                        let findings = Seq::new(
                            simples.len(),
                            |k: int| InlineFinding { name: simples[k].1, line: simples[k].2 },
                        );
                        let fix = if simples.len() == args.len() {
                            crate::fix_synth::synth_fix_spec(
                                fmt_text,
                                inline_rev(fmt_text, ps, args, ps.len() as int),
                                toks[fi].line as int,
                                toks[fi].end_line as int,
                                content,
                            )
                        } else {
                            Option::None
                        };
                        (findings, fix)
                    }
                }
            }
        },
    }
}

/// A produced violation carries exactly what one inlining finding says,
/// together with the shared fix, if any.
pub open spec fn reflects_inline(
    v: Violation,
    f: InlineFinding,
    path: Seq<char>,
    fix: Option<(int, int, Seq<char>)>,
) -> bool {
    &&& v.rule == RuleId::EmbedSimpleVars
    &&& v.file@ == path
    &&& v.line as int == f.line
    &&& v.message@ == crate::report::inline_message(f.name)
    &&& match fix {
        Option::None => v.fix is None,
        Option::Some((s, e, rep)) => match v.fix {
            Option::Some(fx) => fx.start as int == s && fx.end as int == e && fx.replacement@
                == rep,
            Option::None => false,
        },
    }
}

/// `new_v` extends `old_v` with one violation per finding.
pub open spec fn extends_with_findings(
    old_v: Seq<Violation>,
    new_v: Seq<Violation>,
    findings: Seq<InlineFinding>,
    path: Seq<char>,
    fix: Option<(int, int, Seq<char>)>,
) -> bool {
    &&& new_v.len() == old_v.len() + findings.len()
    &&& forall|k: int| 0 <= k < old_v.len() ==> new_v[k] == old_v[k]
    &&& forall|k: int|
        0 <= k < findings.len() ==> reflects_inline(
            #[trigger] new_v[old_v.len() + k],
            findings[k],
            path,
            fix,
        )
}

/// The position `(line, column)` was already visited.
pub open spec fn seen_contains(seen: Seq<(usize, usize)>, line: usize, column: usize) -> bool {
    exists|j: int| 0 <= j < seen.len() && seen[j] == (line, column)
}

/// Walks the recognized formatting invocations of one file and collects
/// the inlining rule's violations.
pub struct FormatMacroVisitor {
    pub path_str: String,
    pub content: Vec<char>,
    pub violations: Vec<Violation>,
    pub seen_spans: Vec<(usize, usize)>,
}

impl FormatMacroVisitor {
    /// A fresh visitor for one file's path and content.
    pub fn new(path: &str, content: &str) -> (v: FormatMacroVisitor)
        ensures
            v.path_str@ == path@,
            v.content@ == content@,
            v.violations@ == Seq::<Violation>::empty(),
            v.seen_spans@ == Seq::<(usize, usize)>::empty(),
    {
        FormatMacroVisitor {
            path_str: path.to_owned(),
            content: text::str_chars(content),
            violations: Vec::new(),
            seen_spans: Vec::new(),
        }
    }

    /// Analyze one invocation's tokens: locate the template, match its
    /// empty placeholders against the trailing arguments, report each
    /// simple argument, and attach a fix when all of them are simple.
    pub fn analyze_format_macro_tokens(&mut self, tokens: &Vec<Token>)
        ensures
            final(self).path_str@ == old(self).path_str@,
            final(self).content@ == old(self).content@,
            final(self).seen_spans@ == old(self).seen_spans@,
            extends_with_findings(
                old(self).violations@,
                final(self).violations@,
                inline_outcome(tokens@, old(self).content@).0,
                old(self).path_str@,
                inline_outcome(tokens@, old(self).content@).1,
            ),
    {
        let ghost outcome = inline_outcome(tokens@, old(self).content@);
        // Find the format template: the first string-literal token.
        let fi = match find_fmt_token(tokens) {
            Option::Some(f) => f,
            Option::None => {
                assert(outcome.0 =~= Seq::<InlineFinding>::empty());
                return ;
            },
        };
        assert(fmt_token_idx(tokens@, 0) == Some(fi as int));
        let fmt_chars = text::str_chars(tokens[fi].text.as_str());
        let ps = placeholders::placeholder_positions(&fmt_chars);
        let ghost ps_spec = placeholders::empty_placeholders(tokens@[fi as int].text@);
        if ps.len() == 0 {
            assert(outcome.0 =~= Seq::<InlineFinding>::empty());
            return ;
        }
        // Collect the trailing arguments after the template.
        let mut args: Vec<(String, usize)> = Vec::new();
        let ghost args_spec = collect_args(tokens@, fi + 1);
        let ghost mut adone: Seq<(Seq<char>, int)> = Seq::empty();
        let mut i: usize = fi + 1;
        while i < tokens.len()
            invariant
                fi < tokens.len(),
                fi + 1 <= i <= tokens.len(),
                args_spec == collect_args(tokens@, fi + 1),
                args_spec == adone + collect_args(tokens@, i as int),
                args@.len() == adone.len(),
                forall|k: int|
                    0 <= k < adone.len() ==> (#[trigger] args@[k]).0@ == adone[k].0 && args@[
                        k
                    ].1 as int == adone[k].1,
            decreases tokens.len() - i,
        {
            if crate::tokens::punct_is_comma(&tokens[i]) {
                i = i + 1;
            } else {
                proof {
                    crate::tokens::lemma_arg_end_bounds(tokens@, i + 1);
                }
                match crate::tokens::collect_argument(tokens, i) {
                    Option::Some((txt, line, next)) => {
                        let ghost entry = if crate::tokens::lone_ident_at(tokens@, i as int) {
                            (tokens@[i as int].text@, tokens@[i as int].line as int)
                        } else {
                            (
                                crate::tokens::complex_arg_text(tokens@, i as int),
                                tokens@[i as int].line as int,
                            )
                        };
                        proof {
                            adone = adone.push(entry);
                            if crate::tokens::lone_ident_at(tokens@, i as int) {
                                assert(next == i + 1);
                            } else {
                                assert(next as int == crate::tokens::arg_end(tokens@, i as int));
                                assert(next > i);
                            }
                        }
                        args.push((txt, line));
                        i = next;
                    },
                    Option::None => {
                        i = i + 1;
                    },
                }
            }
        }
        assert(collect_args(tokens@, i as int) =~= Seq::<(Seq<char>, int)>::empty());
        assert(args_spec =~= adone);
        if ps.len() != args.len() {
            assert(outcome.0 =~= Seq::<InlineFinding>::empty());
            return ;
        }
        // Partition the pairs into simple identifiers and complex ones.
        let mut simples: Vec<(usize, String, usize)> = Vec::new();
        let ghost simples_spec = simple_sel(ps_spec, args_spec, 0);
        let ghost mut sdone: Seq<(int, Seq<char>, int)> = Seq::empty();
        let mut k: usize = 0;
        while k < args.len()
            invariant
                ps@.len() == args@.len(),
                ps@.len() == ps_spec.len(),
                args@.len() == args_spec.len(),
                forall|j: int| 0 <= j < ps@.len() ==> ps@[j] as int == ps_spec[j],
                forall|j: int|
                    0 <= j < args_spec.len() ==> (#[trigger] args@[j]).0@ == args_spec[j].0
                        && args@[j].1 as int == args_spec[j].1,
                k <= args.len(),
                simples_spec == simple_sel(ps_spec, args_spec, 0),
                simples_spec == sdone + simple_sel(ps_spec, args_spec, k as int),
                simples@.len() == sdone.len(),
                forall|j: int|
                    0 <= j < sdone.len() ==> (#[trigger] simples@[j]).0 as int == sdone[j].0
                        && simples@[j].1@ == sdone[j].1 && simples@[j].2 as int == sdone[j].2,
            decreases args.len() - k,
        {
            if crate::tokens::is_simple_identifier(args[k].0.as_str()) {
                proof {
                    sdone = sdone.push((ps_spec[k as int], args_spec[k as int].0, args_spec[
                        k as int
                    ].1));
                }
                simples.push((ps[k], args[k].0.clone(), args[k].1));
            }
            k = k + 1;
        }
        assert(simple_sel(ps_spec, args_spec, args@.len() as int) =~= Seq::<
            (int, Seq<char>, int),
        >::empty());
        assert(simples_spec =~= sdone);
        if simples.len() == 0 {
            assert(outcome.0 =~= Seq::<InlineFinding>::empty());
            return ;
        }
        // When every argument is simple, build the inlined template and
        // hand off to the fix synthesizer.
        proof {
            assert forall|j: int| 0 <= j < ps_spec.len() implies ps_spec[j] + 2
                <= fmt_chars@.len() by {
                placeholders::lemma_placeholder_at(fmt_chars@, 0, false, j);
            }
            assert forall|a: int, b: int| 0 <= a < b < ps_spec.len() implies ps_spec[a] + 2
                <= ps_spec[b] by {
                placeholders::lemma_placeholders_apart(fmt_chars@, 0, false, a, b);
            }
        }
        let fix: Option<crate::report::Fix> = if simples.len() == args.len() {
            let mut cur = fmt_chars.clone();
            assert(cur@ =~= fmt_chars@);
            let mut k: usize = ps.len();
            while k > 0
                invariant
                    ps@.len() == args@.len(),
                    ps@.len() == ps_spec.len(),
                    args@.len() == args_spec.len(),
                    forall|j: int| 0 <= j < ps@.len() ==> ps@[j] as int == ps_spec[j],
                    forall|j: int|
                        0 <= j < args_spec.len() ==> (#[trigger] args@[j]).0@ == args_spec[j].0
                            && args@[j].1 as int == args_spec[j].1,
                    k <= ps.len(),
                    forall|j: int| 0 <= j < ps_spec.len() ==> ps_spec[j] + 2 <= fmt_chars@.len(),
                    forall|a: int, b: int|
                        0 <= a < b < ps_spec.len() ==> ps_spec[a] + 2 <= ps_spec[b],
                    k >= 1 ==> ps_spec[k - 1] + 2 <= cur@.len(),
                    inline_rev(fmt_chars@, ps_spec, args_spec, ps_spec.len() as int)
                        == inline_rev(cur@, ps_spec, args_spec, k as int),
                decreases k,
            {
                let pos = ps[k - 1];
                let cur_len = cur.len();
                assert(pos as int + 2 <= cur_len as int);
                let mut repl: Vec<char> = Vec::new();
                repl.push('{');
                let name_chars = text::str_chars(args[k - 1].0.as_str());
                let mut c: usize = 0;
                while c < name_chars.len()
                    invariant
                        c <= name_chars.len(),
                        repl@ == seq!['{'] + name_chars@.subrange(0, c as int),
                    decreases name_chars.len() - c,
                {
                    repl.push(name_chars[c]);
                    assert(repl@ =~= seq!['{'] + name_chars@.subrange(0, c + 1));
                    c = c + 1;
                }
                repl.push('}');
                assert(name_chars@.subrange(0, name_chars@.len() as int) =~= name_chars@);
                assert(repl@ =~= seq!['{'] + args_spec[k - 1].0 + seq!['}']);
                let ghost old_cur = cur@;
                cur = text::splice(&cur, pos, pos + 2, &repl);
                proof {
                    assert(cur@ =~= text::splice_spec(
                        old_cur,
                        ps_spec[k - 1],
                        ps_spec[k - 1] + 2,
                        seq!['{'] + args_spec[k - 1].0 + seq!['}'],
                    ));
                    if k >= 2 {
                        assert(ps_spec[k - 2] + 2 <= ps_spec[k - 1]);
                        assert(cur@.len() >= ps_spec[k - 1] + 2);
                    }
                }
                k = k - 1;
            }
            crate::fix_synth::create_full_macro_fix(
                &fmt_chars,
                &cur,
                tokens[fi].line,
                tokens[fi].end_line,
                &self.content,
            )
        } else {
            Option::None
        };
        let ghost fix_spec = outcome.1;
        assert(match fix_spec {
            Option::None => fix is None,
            Option::Some((s, e, rep)) => match fix {
                Option::Some(fx) => fx.start as int == s && fx.end as int == e
                    && fx.replacement@ == rep,
                Option::None => false,
            },
        });
        // Report one violation per simple argument; they share the fix.
        let ghost vdone0 = self.violations@;
        let ghost findings = outcome.0;
        let mut j: usize = 0;
        while j < simples.len()
            invariant
                j <= simples.len(),
                simples@.len() == findings.len(),
                forall|q: int|
                    0 <= q < findings.len() ==> (#[trigger] simples@[q]).1@ == findings[q].name
                        && simples@[q].2 as int == findings[q].line,
                self.path_str@ == old(self).path_str@,
                self.content@ == old(self).content@,
                self.seen_spans@ == old(self).seen_spans@,
                self.violations@.len() == vdone0.len() + j,
                forall|q: int| 0 <= q < vdone0.len() ==> self.violations@[q] == vdone0[q],
                forall|q: int|
                    0 <= q < j ==> reflects_inline(
                        #[trigger] self.violations@[vdone0.len() + q],
                        findings[q],
                        old(self).path_str@,
                        fix_spec,
                    ),
                match fix_spec {
                    Option::None => fix is None,
                    Option::Some((s, e, rep)) => match fix {
                        Option::Some(fx) => fx.start as int == s && fx.end as int == e
                            && fx.replacement@ == rep,
                        Option::None => false,
                    },
                },
            decreases simples.len() - j,
        {
            let message = crate::report::build_inline_message(&simples[j].1);
            let this_fix: Option<crate::report::Fix> = match &fix {
                Option::Some(fx) => Option::Some(fx.duplicate()),
                Option::None => Option::None,
            };
            let v = Violation {
                rule: RuleId::EmbedSimpleVars,
                file: self.path_str.clone(),
                line: simples[j].2,
                message,
                fix: this_fix,
            };
            self.violations.push(v);
            j = j + 1;
        }
    }

    /// Check one invocation: deduplicate by source position, gate on the
    /// allow-list of formatting call names, then analyze its tokens.
    pub fn check_format_macro(&mut self, mac: &MacroCall)
        ensures
            final(self).path_str@ == old(self).path_str@,
            final(self).content@ == old(self).content@,
            seen_contains(old(self).seen_spans@, mac.line, mac.column) ==> final(self).seen_spans@
                == old(self).seen_spans@ && final(self).violations@ == old(self).violations@,
            !seen_contains(old(self).seen_spans@, mac.line, mac.column) ==> {
                &&& final(self).seen_spans@ == old(self).seen_spans@.push((mac.line, mac.column))
                &&& if is_format_macro_name(mac.name@) {
                    extends_with_findings(
                        old(self).violations@,
                        final(self).violations@,
                        inline_outcome(mac.tokens@, old(self).content@).0,
                        old(self).path_str@,
                        inline_outcome(mac.tokens@, old(self).content@).1,
                    )
                } else {
                    final(self).violations@ == old(self).violations@
                }
            },
    {
        if position_seen(&self.seen_spans, mac.line, mac.column) {
            return ;
        }
        self.seen_spans.push((mac.line, mac.column));
        if !is_format_macro(mac.name.as_str()) {
            return ;
        }
        self.analyze_format_macro_tokens(&mac.tokens);
    }
}

/// One check of the rule over a file's recognized invocations, visited in
/// order with position deduplication threaded through: each unseen
/// invocation with an allow-listed name contributes one entry per finding,
/// paired with the fix shared by that invocation's findings.
pub open spec fn embed_pass(
    macros: Seq<MacroCall>,
    i: int,
    seen: Seq<(usize, usize)>,
    content: Seq<char>,
) -> Seq<(InlineFinding, Option<(int, int, Seq<char>)>)>
    decreases macros.len() - i,
{
    if i < 0 || i >= macros.len() {
        Seq::empty()
    } else {
        let m = macros[i];
        if seen_contains(seen, m.line, m.column) {
            embed_pass(macros, i + 1, seen, content)
        } else {
            let seen2 = seen.push((m.line, m.column));
            if !is_format_macro_name(m.name@) {
                embed_pass(macros, i + 1, seen2, content)
            } else {
                let outcome = inline_outcome(m.tokens@, content);
                Seq::new(outcome.0.len(), |k: int| (outcome.0[k], outcome.1)) + embed_pass(
                    macros,
                    i + 1,
                    seen2,
                    content,
                )
            }
        }
    }
}

/// Run the inlining rule over one file's recognized invocations.
pub fn check_embed_simple_vars(path: &str, content: &str, macros: &Vec<MacroCall>) -> (r: Vec<
    Violation,
>)
    ensures
        ({
            let pass = embed_pass(macros@, 0, Seq::empty(), content@);
            &&& r@.len() == pass.len()
            &&& forall|k: int|
                0 <= k < pass.len() ==> reflects_inline(
                    #[trigger] r@[k],
                    pass[k].0,
                    path@,
                    pass[k].1,
                )
        }),
{
    let ghost pass = embed_pass(macros@, 0, Seq::empty(), content@);
    let mut visitor = FormatMacroVisitor::new(path, content);
    let ghost mut done: Seq<(InlineFinding, Option<(int, int, Seq<char>)>)> = Seq::empty();
    let mut i: usize = 0;
    while i < macros.len()
        invariant
            i <= macros.len(),
            pass == embed_pass(macros@, 0, Seq::empty(), content@),
            visitor.path_str@ == path@,
            visitor.content@ == content@,
            pass == done + embed_pass(macros@, i as int, visitor.seen_spans@, content@),
            visitor.violations@.len() == done.len(),
            forall|k: int|
                0 <= k < done.len() ==> reflects_inline(
                    #[trigger] visitor.violations@[k],
                    done[k].0,
                    path@,
                    done[k].1,
                ),
        decreases macros.len() - i,
    {
        let ghost seen0 = visitor.seen_spans@;
        let ghost v0 = visitor.violations@;
        visitor.check_format_macro(&macros[i]);
        proof {
            let m = macros@[i as int];
            if seen_contains(seen0, m.line, m.column) {
            } else if !is_format_macro_name(m.name@) {
            } else {
                let outcome = inline_outcome(m.tokens@, content@);
                let added = Seq::new(outcome.0.len(), |k: int| (outcome.0[k], outcome.1));
                done = done + added;
                assert forall|k: int| 0 <= k < done.len() implies reflects_inline(
                    #[trigger] visitor.violations@[k],
                    done[k].0,
                    path@,
                    done[k].1,
                ) by {
                    if k < v0.len() {
                        assert(visitor.violations@[k] == v0[k]);
                    } else {
                        let q = k - v0.len();
                        assert(done[k] == added[q]);
                        assert(added[q] == (outcome.0[q], outcome.1));
                        assert(reflects_inline(
                            visitor.violations@[v0.len() + q],
                            outcome.0[q],
                            path@,
                            outcome.1,
                        ));
                    }
                }
            }
        }
        i = i + 1;
    }
    proof {
        assert(embed_pass(macros@, i as int, visitor.seen_spans@, content@) =~= Seq::<
            (InlineFinding, Option<(int, int, Seq<char>)>),
        >::empty());
        assert(pass =~= done);
    }
    visitor.violations
}

fn find_fmt_token(toks: &Vec<Token>) -> (r: Option<usize>)
    ensures
        match r {
            Some(f) => fmt_token_idx(toks@, 0) == Some(f as int) && f < toks.len(),
            None => fmt_token_idx(toks@, 0) is None,
        },
{
    let mut fi: usize = 0;
    while fi < toks.len()
        invariant
            fi <= toks.len(),
            fmt_token_idx(toks@, 0) == fmt_token_idx(toks@, fi as int),
        decreases toks.len() - fi,
    {
        if matches!(toks[fi].kind, TokenKind::Literal) && text_is_string_literal(
            &toks[fi].text,
        ) {
            return Some(fi);
        }
        fi = fi + 1;
    }
    None
}

fn position_seen(v: &Vec<(usize, usize)>, line: usize, column: usize) -> (r: bool)
    ensures
        r == seen_contains(v@, line, column),
{
    let mut j: usize = 0;
    while j < v.len()
        invariant
            j <= v.len(),
            forall|q: int| 0 <= q < j ==> v@[q] != (line, column),
        decreases v.len() - j,
    {
        let entry = v[j];
        if entry.0 == line && entry.1 == column {
            assert(v@[j as int] == (line, column));
            return true;
        }
        j = j + 1;
    }
    assert(!seen_contains(v@, line, column));
    false
}

} // verus!
