//! General properties of the rules and the patch engine, stated and
//! proved once for all inputs.

use vstd::prelude::*;
use crate::adjacency::{TopItem, AdjFinding, adjacency_findings, adjacency_pass, type_anchors};
use crate::patch::{dedupe_from, same_range, range_seen_before};
use crate::text;

verus! {

/// A type declaration whose inherent implementation block follows within
/// one blank line raises no adjacency finding; one that follows later
/// raises exactly one finding whose gap is the exact blank-line count.
pub proof fn lemma_adjacency_gap(
    name: String,
    decl_end: usize,
    impl_start: usize,
    impl_end: usize,
)
    requires
        impl_start > decl_end,
    ensures
        ({
            let items = seq![
                TopItem::TypeDecl { name, end_line: decl_end },
                TopItem::ImplBlock {
                    target_name: Option::Some(name),
                    is_trait_impl: false,
                    start_line: impl_start,
                    end_line: impl_end,
                },
            ];
            let fs = adjacency_findings(items);
            &&& impl_start <= decl_end + 2 ==> fs.len() == 0
            &&& impl_start > decl_end + 2 ==> fs.len() == 1 && fs[0].gap() == impl_start
                - decl_end - 1 && fs[0].name == name@ && fs[0].start_line == impl_start as int
        }),
{
    let items = seq![
        TopItem::TypeDecl { name, end_line: decl_end },
        TopItem::ImplBlock {
            target_name: Option::Some(name),
            is_trait_impl: false,
            start_line: impl_start,
            end_line: impl_end,
        },
    ];
    let anchors0 = type_anchors(items, 2);
    assert(type_anchors(items, 0) == Seq::<(Seq<char>, int)>::empty());
    assert(type_anchors(items, 1) == Seq::<(Seq<char>, int)>::empty().push(
        (name@, decl_end as int),
    ));
    assert(anchors0 == type_anchors(items, 1));
    assert(crate::adjacency::anchor_lookup(anchors0, name@) == Some(decl_end as int));
    let updated = anchors0.push((name@, impl_end as int));
    assert(adjacency_pass(items, 2, updated) == Seq::<AdjFinding>::empty());
    assert(adjacency_pass(items, 1, anchors0) == if impl_start as int > decl_end + 2 {
        seq![
            AdjFinding {
                name: name@,
                anchor: decl_end as int,
                start_line: impl_start as int,
            },
        ] + adjacency_pass(items, 2, updated)
    } else {
        adjacency_pass(items, 2, updated)
    });
    assert(adjacency_pass(items, 0, anchors0) == adjacency_pass(items, 1, anchors0));
}

/// Implementation blocks that satisfy a trait never trigger the adjacency
/// rule: a file whose implementation blocks are all trait impls yields no
/// findings, wherever those blocks stand.
pub proof fn lemma_trait_impls_never_flagged(items: Seq<TopItem>)
    requires
        forall|j: int|
            0 <= j < items.len() ==> ((#[trigger] items[j]) matches TopItem::ImplBlock {
                is_trait_impl,
                ..
            } ==> is_trait_impl),
    ensures
        adjacency_findings(items).len() == 0,
{
    lemma_trait_pass_empty(items, 0, type_anchors(items, items.len() as int));
}

proof fn lemma_trait_pass_empty(items: Seq<TopItem>, i: int, anchors: Seq<(Seq<char>, int)>)
    requires
        forall|j: int|
            0 <= j < items.len() ==> ((#[trigger] items[j]) matches TopItem::ImplBlock {
                is_trait_impl,
                ..
            } ==> is_trait_impl),
    ensures
        adjacency_pass(items, i, anchors).len() == 0,
    decreases items.len() - i,
{
    if 0 <= i && i < items.len() {
        lemma_trait_pass_empty(items, i + 1, anchors);
    }
}

/// Removing a trait-satisfying implementation block from a file leaves the
/// adjacency findings unchanged: such blocks never trigger the rule,
/// regardless of their position.
pub proof fn lemma_trait_impl_position_irrelevant(items: Seq<TopItem>, i: int)
    requires
        0 <= i < items.len(),
        items[i] matches TopItem::ImplBlock { is_trait_impl, .. } && is_trait_impl,
    ensures
        adjacency_findings(items.remove(i)) == adjacency_findings(items),
{
    let removed = items.remove(i);
    lemma_anchors_remove(items, i, removed.len() as int);
    if removed.len() as int <= i {
        assert(type_anchors(items, items.len() as int) == type_anchors(
            items,
            items.len() - 1,
        ));
    }
    lemma_pass_remove(items, i, 0, type_anchors(items, items.len() as int));
}

proof fn lemma_anchors_remove(items: Seq<TopItem>, i: int, n: int)
    requires
        0 <= i < items.len(),
        !(items[i] is TypeDecl),
        0 <= n <= items.len() - 1,
    ensures
        type_anchors(items.remove(i), n) == type_anchors(items, if n <= i {
            n
        } else {
            n + 1
        }),
    decreases n,
{
    let removed = items.remove(i);
    if n == 0 {
    } else if n <= i {
        lemma_anchors_remove(items, i, n - 1);
        assert(removed[n - 1] == items[n - 1]);
    } else {
        lemma_anchors_remove(items, i, n - 1);
        assert(removed[n - 1] == items[n]);
        if n == i + 1 {
            assert(type_anchors(items, i + 1) == type_anchors(items, i));
        }
    }
}

proof fn lemma_pass_remove(items: Seq<TopItem>, i: int, j: int, anchors: Seq<(Seq<char>, int)>)
    requires
        0 <= i < items.len(),
        items[i] matches TopItem::ImplBlock { is_trait_impl, .. } && is_trait_impl,
        0 <= j,
    ensures
        j <= i ==> adjacency_pass(items.remove(i), j, anchors) == adjacency_pass(
            items,
            j,
            anchors,
        ),
        j > i ==> adjacency_pass(items.remove(i), j - 1, anchors) == adjacency_pass(
            items,
            j,
            anchors,
        ),
    decreases items.len() - j,
{
    let removed = items.remove(i);
    if j < i {
        assert(removed[j] == items[j]);
        match items[j] {
            TopItem::ImplBlock { target_name, is_trait_impl, start_line, end_line } => {
                if is_trait_impl {
                    lemma_pass_remove(items, i, j + 1, anchors);
                } else {
                    match target_name {
                        Option::None => {
                            lemma_pass_remove(items, i, j + 1, anchors);
                        },
                        Option::Some(nm) => {
                            match crate::adjacency::anchor_lookup(anchors, nm@) {
                                Option::None => {
                                    lemma_pass_remove(items, i, j + 1, anchors);
                                },
                                Option::Some(_) => {
                                    lemma_pass_remove(
                                        items,
                                        i,
                                        j + 1,
                                        anchors.push((nm@, end_line as int)),
                                    );
                                },
                            }
                        },
                    }
                }
            },
            _ => {
                lemma_pass_remove(items, i, j + 1, anchors);
            },
        }
    } else if j == i {
        // The removed block is a trait impl: the original pass skips it.
        assert(adjacency_pass(items, i, anchors) == adjacency_pass(items, i + 1, anchors));
        lemma_pass_remove(items, i, i + 1, anchors);
    } else {
        // j > i: item j of the original is item j - 1 of the shortened file.
        if j >= items.len() {
            assert(adjacency_pass(items, j, anchors).len() == 0);
            assert(adjacency_pass(removed, j - 1, anchors).len() == 0);
        } else {
            assert(removed[j - 1] == items[j]);
            match items[j] {
                TopItem::ImplBlock { target_name, is_trait_impl, start_line, end_line } => {
                    if is_trait_impl {
                        lemma_pass_remove(items, i, j + 1, anchors);
                    } else {
                        match target_name {
                            Option::None => {
                                lemma_pass_remove(items, i, j + 1, anchors);
                            },
                            Option::Some(nm) => {
                                match crate::adjacency::anchor_lookup(anchors, nm@) {
                                    Option::None => {
                                        lemma_pass_remove(items, i, j + 1, anchors);
                                    },
                                    Option::Some(_) => {
                                        lemma_pass_remove(
                                            items,
                                            i,
                                            j + 1,
                                            anchors.push((nm@, end_line as int)),
                                        );
                                    },
                                }
                            },
                        }
                    }
                },
                _ => {
                    lemma_pass_remove(items, i, j + 1, anchors);
                },
            }
        }
    }
}

/// A template whose empty-placeholder count differs from its trailing
/// argument count is ambiguous: the inlining rule reports nothing and
/// never guesses.
pub proof fn lemma_count_mismatch_reports_nothing(
    toks: Seq<crate::tokens::Token>,
    content: Seq<char>,
    fi: int,
)
    requires
        crate::inline_rule::fmt_token_idx(toks, 0) == Some(fi),
        crate::placeholders::empty_placeholders(toks[fi].text@).len()
            != crate::inline_rule::collect_args(toks, fi + 1).len(),
    ensures
        crate::inline_rule::inline_outcome(toks, content).0 == Seq::<
            crate::inline_rule::InlineFinding,
        >::empty(),
        crate::inline_rule::inline_outcome(toks, content).1 is None,
{
}

/// The braces that wrap an inlined identifier.
pub open spec fn braced(name: Seq<char>) -> Seq<char> {
    seq!['{'] + name + seq!['}']
}

/// A name the inlining rule writes into a template: non-empty and free of
/// braces, as every simple identifier is.
pub open spec fn brace_free(name: Seq<char>) -> bool {
    name.len() > 0 && forall|j: int| 0 <= j < name.len() ==> name[j] != '{' && name[j] != '}'
}

proof fn lemma_scan_empty_shifted(s: Seq<char>, w: Seq<char>, p: int, j: int, f: bool)
    requires
        0 <= p,
        p + 2 <= s.len(),
        p + 2 <= j,
        crate::placeholders::scan_placeholders(s, j, f).len() == 0,
    ensures
        crate::placeholders::scan_placeholders(
            text::splice_spec(s, p, p + 2, w),
            j + w.len() - 2,
            f,
        ).len() == 0,
    decreases s.len() - j,
{
    let s2 = text::splice_spec(s, p, p + 2, w);
    let d = w.len() - 2;
    assert(s2.len() == s.len() + d);
    if j >= s.len() {
    } else {
        assert(s2[j + d] == s[j]);
        if f {
            lemma_scan_empty_shifted(s, w, p, j + 1, s[j] != '}');
        } else if s[j] == '{' {
            if j + 1 >= s.len() {
            } else {
                assert(s2[j + 1 + d] == s[j + 1]);
                if s[j + 1] == '{' {
                    lemma_scan_empty_shifted(s, w, p, j + 2, false);
                } else if s[j + 1] == '}' {
                    // The scan would record a placeholder here, so the
                    // suffix could not have been empty.
                    assert(false);
                } else {
                    lemma_scan_empty_shifted(s, w, p, j + 1, true);
                }
            }
        } else {
            lemma_scan_empty_shifted(s, w, p, j + 1, false);
        }
    }
}

proof fn lemma_skip_name(s2: Seq<char>, close: int, q: int)
    requires
        0 <= q <= close < s2.len(),
        s2[close] == '}',
        forall|m: int| q <= m < close ==> s2[m] != '}',
    ensures
        crate::placeholders::scan_placeholders(s2, q, true)
            == crate::placeholders::scan_placeholders(s2, close + 1, false),
    decreases close - q,
{
    if q < close {
        lemma_skip_name(s2, close, q + 1);
    }
}

proof fn lemma_replace_last(s: Seq<char>, name: Seq<char>, p: int, i: int, sk: bool)
    requires
        0 <= i,
        brace_free(name),
        crate::placeholders::scan_placeholders(s, i, sk).len() > 0,
        p == crate::placeholders::scan_placeholders(s, i, sk).last(),
    ensures
        crate::placeholders::scan_placeholders(
            text::splice_spec(s, p, p + 2, braced(name)),
            i,
            sk,
        ) == crate::placeholders::scan_placeholders(s, i, sk).drop_last(),
    decreases s.len() - i,
{
    let q = crate::placeholders::scan_placeholders(s, i, sk);
    let w = braced(name);
    let s2 = text::splice_spec(s, p, p + 2, w);
    let d = name.len() as int;
    crate::placeholders::lemma_placeholder_at(s, i, sk, q.len() - 1);
    crate::placeholders::lemma_placeholder_chars(s, i, sk, q.len() - 1);
    assert(i <= p && p + 2 <= s.len() && s[p] == '{' && s[p + 1] == '}');
    assert(w.len() == name.len() + 2);
    assert(s2.len() == s.len() + d);
    assert(forall|m: int| 0 <= m < p ==> s2[m] == s[m]);
    assert(s2[p] == w[0] && w[0] == '{');
    if i >= s.len() {
    } else if sk {
        let rest = crate::placeholders::scan_placeholders(s, i + 1, s[i] != '}');
        assert(q == rest);
        crate::placeholders::lemma_placeholder_at(s, i + 1, s[i] != '}', rest.len() - 1);
        assert(i < p);
        assert(s2[i] == s[i]);
        lemma_replace_last(s, name, p, i + 1, s[i] != '}');
    } else if s[i] == '{' {
        if i + 1 >= s.len() {
            assert(false);
        } else if s[i + 1] == '{' {
            let rest = crate::placeholders::scan_placeholders(s, i + 2, false);
            assert(q == rest);
            crate::placeholders::lemma_placeholder_at(s, i + 2, false, rest.len() - 1);
            assert(i + 1 < p);
            assert(s2[i] == s[i] && s2[i + 1] == s[i + 1]);
            lemma_replace_last(s, name, p, i + 2, false);
        } else if s[i + 1] == '}' {
            let rest = crate::placeholders::scan_placeholders(s, i + 2, false);
            assert(q == seq![i] + rest);
            if rest.len() == 0 {
                assert(p == i);
                // This is the replacement site itself: the scan steps
                // over the inlined `{name}` as a named placeholder and
                // the suffix beyond it holds nothing.
                assert(s2[p + 1] == w[1] && w[1] == name[0]);
                let close = p + 1 + name.len();
                assert(s2[close] == w[w.len() - 1]);
                assert(forall|m: int|
                    p + 1 <= m < close ==> s2[m] == w[m - p] && w[m - p] == name[m - p - 1]);
                assert(crate::placeholders::scan_placeholders(s2, i, sk)
                    == crate::placeholders::scan_placeholders(s2, p + 1, true));
                lemma_skip_name(s2, close, p + 1);
                lemma_scan_empty_shifted(s, w, p, p + 2, false);
                assert(close + 1 == p + 2 + d);
                assert(q.drop_last() =~= Seq::<int>::empty());
            } else {
                assert(p == rest.last());
                crate::placeholders::lemma_placeholder_at(s, i + 2, false, rest.len() - 1);
                assert(i + 1 < p);
                assert(s2[i] == s[i] && s2[i + 1] == s[i + 1]);
                lemma_replace_last(s, name, p, i + 2, false);
                assert(crate::placeholders::scan_placeholders(s2, i, sk) == seq![i]
                    + rest.drop_last());
                assert(seq![i] + rest.drop_last() =~= (seq![i] + rest).drop_last());
            }
        } else {
            let rest = crate::placeholders::scan_placeholders(s, i + 1, true);
            assert(q == rest);
            crate::placeholders::lemma_placeholder_at(s, i + 1, true, rest.len() - 1);
            assert(i < p);
            assert(s2[i] == s[i]);
            if i + 1 < p {
                assert(s2[i + 1] == s[i + 1]);
            } else {
                assert(i + 1 == p);
                assert(s2[i + 1] == '{');
            }
            lemma_replace_last(s, name, p, i + 1, true);
        }
    } else {
        let rest = crate::placeholders::scan_placeholders(s, i + 1, false);
        assert(q == rest);
        assert(i < p);
        assert(s2[i] == s[i]);
        lemma_replace_last(s, name, p, i + 1, false);
    }
}

proof fn lemma_inline_rev_clears(
    cur: Seq<char>,
    ps: Seq<int>,
    args: Seq<(Seq<char>, int)>,
    k: int,
)
    requires
        0 <= k <= ps.len(),
        k <= args.len(),
        forall|j: int| 0 <= j < args.len() ==> brace_free((#[trigger] args[j]).0),
        crate::placeholders::scan_placeholders(cur, 0, false) == ps.subrange(0, k),
    ensures
        crate::placeholders::scan_placeholders(
            crate::inline_rule::inline_rev(cur, ps, args, k),
            0,
            false,
        ).len() == 0,
    decreases k,
{
    if k > 0 {
        let p = ps[k - 1];
        let cur2 = text::splice_spec(cur, p, p + 2, braced(args[k - 1].0));
        assert(ps.subrange(0, k).last() == p);
        lemma_replace_last(cur, args[k - 1].0, p, 0, false);
        assert(ps.subrange(0, k).drop_last() =~= ps.subrange(0, k - 1));
        assert(crate::inline_rule::inline_rev(cur, ps, args, k)
            == crate::inline_rule::inline_rev(cur2, ps, args, k - 1));
        lemma_inline_rev_clears(cur2, ps, args, k - 1);
    }
}

/// Applying a full inlining is stable: the rewritten template holds no
/// empty placeholders, so a second run of the rule finds nothing to
/// inline in it.
pub proof fn lemma_inlined_template_is_stable(fmt: Seq<char>, args: Seq<(Seq<char>, int)>)
    requires
        args.len() == crate::placeholders::empty_placeholders(fmt).len(),
        forall|j: int| 0 <= j < args.len() ==> brace_free((#[trigger] args[j]).0),
    ensures
        crate::placeholders::empty_placeholders(
            crate::inline_rule::inline_rev(
                fmt,
                crate::placeholders::empty_placeholders(fmt),
                args,
                crate::placeholders::empty_placeholders(fmt).len() as int,
            ),
        ).len() == 0,
{
    let ps = crate::placeholders::empty_placeholders(fmt);
    assert(ps.subrange(0, ps.len() as int) =~= ps);
    lemma_inline_rev_clears(fmt, ps, args, ps.len() as int);
}

/// Fixes at identical ranges collapse: after deduplication, no two
/// remaining fixes share a byte range.
pub proof fn lemma_dedupe_ranges_distinct(
    fs: Seq<(int, int, Seq<char>)>,
    i: int,
    a: int,
    b: int,
)
    requires
        0 <= a < b < dedupe_from(fs, i).len(),
    ensures
        !same_range(dedupe_from(fs, i)[a], dedupe_from(fs, i)[b]),
    decreases fs.len() - i,
{
    let dd = dedupe_from(fs, i);
    if i < 0 || i >= fs.len() {
    } else if range_seen_before(fs, i) {
        lemma_dedupe_ranges_distinct(fs, i + 1, a, b);
    } else {
        let rest = dedupe_from(fs, i + 1);
        assert(dd == seq![fs[i]] + rest);
        assert(dd[b] == rest[b - 1]);
        if a > 0 {
            assert(dd[a] == rest[a - 1]);
            lemma_dedupe_ranges_distinct(fs, i + 1, a - 1, b - 1);
        } else {
            lemma_dedupe_elem(fs, i + 1, b - 1);
            let j = choose|j: int|
                i + 1 <= j < fs.len() && rest[b - 1] == fs[j] && !range_seen_before(fs, j);
            if same_range(fs[i], fs[j]) {
                assert(range_seen_before(fs, j));
            }
        }
    }
}

proof fn lemma_dedupe_elem(fs: Seq<(int, int, Seq<char>)>, i: int, a: int)
    requires
        0 <= a < dedupe_from(fs, i).len(),
    ensures
        exists|j: int|
            i <= j < fs.len() && dedupe_from(fs, i)[a] == fs[j] && !range_seen_before(fs, j),
    decreases fs.len() - i,
{
    let dd = dedupe_from(fs, i);
    if i < 0 || i >= fs.len() {
    } else if range_seen_before(fs, i) {
        lemma_dedupe_elem(fs, i + 1, a);
        let j = choose|j: int|
            i + 1 <= j < fs.len() && dedupe_from(fs, i + 1)[a] == fs[j] && !range_seen_before(
                fs,
                j,
            );
        assert(i <= j < fs.len() && dd[a] == fs[j] && !range_seen_before(fs, j));
    } else {
        let rest = dedupe_from(fs, i + 1);
        assert(dd == seq![fs[i]] + rest);
        if a == 0 {
            assert(dd[0] == fs[i] && !range_seen_before(fs, i));
        } else {
            assert(dd[a] == rest[a - 1]);
            lemma_dedupe_elem(fs, i + 1, a - 1);
            let j = choose|j: int|
                i + 1 <= j < fs.len() && rest[a - 1] == fs[j] && !range_seen_before(fs, j);
            assert(i <= j < fs.len() && dd[a] == fs[j] && !range_seen_before(fs, j));
        }
    }
}

/// Every synthesized fix covers one whole source line, so the fixes of two
/// distinct invocations either coincide exactly (same line) or do not
/// overlap at all: overlapping, non-identical ranges cannot arise.
pub proof fn lemma_synth_fixes_never_overlap(
    content: Seq<char>,
    old1: Seq<char>,
    new1: Seq<char>,
    line1: int,
    old2: Seq<char>,
    new2: Seq<char>,
    line2: int,
    f1: (int, int, Seq<char>),
    f2: (int, int, Seq<char>),
)
    requires
        crate::fix_synth::synth_fix_spec(old1, new1, line1, line1, content) == Some(f1),
        crate::fix_synth::synth_fix_spec(old2, new2, line2, line2, content) == Some(f2),
    ensures
        (f1.0 == f2.0 && f1.1 == f2.1) || f1.1 <= f2.0 || f2.1 <= f1.0,
{
    let lines = text::split_lines_spec(content);
    if line1 == line2 {
    } else if line1 < line2 {
        text::lemma_line_start_mono(lines, line1, line2 - 1);
        assert(text::line_start(lines, line2) == text::line_start(lines, line2 - 1) + lines[
            line2 - 1
        ].len() + 1);
        text::lemma_line_start_mono(lines, line1 - 1, line2 - 1);
        assert(f1.1 <= f2.0);
    } else {
        text::lemma_line_start_mono(lines, line2, line1 - 1);
        assert(text::line_start(lines, line1) == text::line_start(lines, line1 - 1) + lines[
            line1 - 1
        ].len() + 1);
        text::lemma_line_start_mono(lines, line2 - 1, line1 - 1);
        assert(f2.1 <= f1.0);
    }
}

} // verus!
