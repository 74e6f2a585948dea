//! Filtering a code-smell report down to its duplication findings: group
//! the report's lines into per-file blocks of indented issues, keep the
//! issues about similar code, and drop every file block without one.

use vstd::prelude::*;
use crate::text;
use crate::manifest_edit::has_sub;

verus! {

/// A file block's header line: non-empty and not indented.
pub open spec fn is_file_header(l: Seq<char>) -> bool {
    l.len() > 0 && l[0] != ' ' && l[0] != '\t'
}

/// An issue's header line: indented by exactly one level (four blanks,
/// not eight), with a payload right after the indent.
pub open spec fn is_issue_header(l: Seq<char>) -> bool {
    &&& text::match_at(l, "    "@, 0)
    &&& !text::match_at(l, "        "@, 0)
    &&& l.len() > 4
    &&& !text::is_space_char(l[4])
}

/// The first line at or after `i` that opens a new issue or file block,
/// or the end of the report.
pub open spec fn issue_end(ls: Seq<Seq<char>>, i: int) -> int
    decreases ls.len() - i,
{
    if i < 0 || i >= ls.len() {
        ls.len() as int
    } else if is_file_header(ls[i]) || is_issue_header(ls[i]) {
        i
    } else {
        issue_end(ls, i + 1)
    }
}

/// The first file-header line at or after `i`, or the end of the report.
pub open spec fn next_file_header(ls: Seq<Seq<char>>, i: int) -> int
    decreases ls.len() - i,
{
    if i < 0 || i >= ls.len() {
        ls.len() as int
    } else if is_file_header(ls[i]) {
        i
    } else {
        next_file_header(ls, i + 1)
    }
}

/// The duplication issues of one file's region, rendered: each kept
/// issue's lines followed by one separating blank line. The region ends
/// at the next file header.
pub open spec fn region_render(ls: Seq<Seq<char>>, i: int) -> Seq<Seq<char>>
    decreases ls.len() - i,
{
    if i < 0 || i >= ls.len() {
        Seq::empty()
    } else if is_file_header(ls[i]) {
        Seq::empty()
    } else if is_issue_header(ls[i]) {
        let e0 = issue_end(ls, i + 1);
        let e = if i < e0 <= ls.len() {
            e0
        } else {
            i + 1
        };
        if has_sub(ls[i], "similar code"@) {
            ls.subrange(i, e) + seq![Seq::<char>::empty()] + region_render(ls, e)
        } else {
            region_render(ls, e)
        }
    } else {
        region_render(ls, i + 1)
    }
}

/// The whole filtered report: for each file block holding at least one
/// duplication issue, its header line and those issues.
pub open spec fn report_render(ls: Seq<Seq<char>>, i: int) -> Seq<Seq<char>>
    decreases ls.len() - i,
{
    if i < 0 || i >= ls.len() {
        Seq::empty()
    } else if is_file_header(ls[i]) {
        let r = region_render(ls, i + 1);
        let nf0 = next_file_header(ls, i + 1);
        let nf = if i < nf0 <= ls.len() {
            nf0
        } else {
            i + 1
        };
        if r.len() > 0 {
            seq![ls[i]] + r + report_render(ls, nf)
        } else {
            report_render(ls, nf)
        }
    } else {
        report_render(ls, i + 1)
    }
}

/// Whether the report holds any duplication issue at all, wherever it
/// stands.
pub open spec fn any_duplication(ls: Seq<Seq<char>>) -> bool {
    exists|j: int|
        0 <= j < ls.len() && is_issue_header(#[trigger] ls[j]) && has_sub(ls[j], "similar code"@)
}

proof fn lemma_nfh_skip(ls: Seq<Seq<char>>, a: int, b: int)
    requires
        0 <= a <= b <= ls.len(),
        forall|m: int| a <= m < b ==> !is_file_header(#[trigger] ls[m]),
    ensures
        next_file_header(ls, a) == next_file_header(ls, b),
    decreases b - a,
{
    if a < b {
        lemma_nfh_skip(ls, a + 1, b);
    }
}

fn line_is_file_header(l: &Vec<char>) -> (r: bool)
    ensures
        r == is_file_header(l@),
{
    l.len() > 0 && l[0] != ' ' && l[0] != '\t'
}

fn line_is_issue_header(l: &Vec<char>) -> (r: bool)
    ensures
        r == is_issue_header(l@),
{
    proof {
        reveal_strlit("    ");
        reveal_strlit("        ");
    }
    let four = text::str_chars("    ");
    let eight = text::str_chars("        ");
    let a = four.len() <= l.len() && text::matches_here(l, &four, 0);
    let b = eight.len() <= l.len() && text::matches_here(l, &eight, 0);
    if a && !b && l.len() > 4 {
        let c = l[4];
        !(c == ' ' || c == '\t' || c == '\r' || c == '\n')
    } else {
        false
    }
}

/// Keep only the duplication findings of a smell report, file block by
/// file block, and say whether any duplication was found at all.
pub fn filter_duplication_report(lines: &Vec<String>) -> (r: (Vec<String>, bool))
    ensures
        ({
            let ls = text::strs_view(lines@);
            &&& r.0@.len() == report_render(ls, 0).len()
            &&& forall|k: int|
                0 <= k < r.0@.len() ==> (#[trigger] r.0@[k])@ == report_render(ls, 0)[k]
            &&& r.1 == any_duplication(ls)
        }),
{
    let ghost ls = text::strs_view(lines@);
    let similar = text::str_chars("similar code");
    proof {
        reveal_strlit("similar code");
    }
    let mut chars: Vec<Vec<char>> = Vec::new();
    let mut i: usize = 0;
    while i < lines.len()
        invariant
            i <= lines.len(),
            ls == text::strs_view(lines@),
            chars@.len() == i,
            forall|k: int| 0 <= k < i ==> (#[trigger] chars@[k])@ == ls[k],
        decreases lines.len() - i,
    {
        chars.push(text::str_chars(lines[i].as_str()));
        i = i + 1;
    }
    // Whether any duplication issue exists, wherever it stands.
    let mut found = false;
    let mut i: usize = 0;
    while i < lines.len()
        invariant
            i <= lines.len(),
            ls == text::strs_view(lines@),
            chars@.len() == lines@.len(),
            forall|k: int| 0 <= k < lines@.len() ==> (#[trigger] chars@[k])@ == ls[k],
            similar@ == "similar code"@,
            found == exists|j: int|
                0 <= j < i && is_issue_header(#[trigger] ls[j]) && has_sub(
                    ls[j],
                    "similar code"@,
                ),
        decreases lines.len() - i,
    {
        if !found {
            if line_is_issue_header(&chars[i]) {
                if match text::find_sub(&chars[i], &similar) {
                    Option::Some(_) => true,
                    Option::None => false,
                } {
                    assert(is_issue_header(ls[i as int]) && has_sub(
                        ls[i as int],
                        "similar code"@,
                    ));
                    found = true;
                }
            }
        }
        i = i + 1;
    }
    // The filtered report itself.
    let mut out: Vec<String> = Vec::new();
    let ghost mut done: Seq<Seq<char>> = Seq::empty();
    let mut i: usize = 0;
    while i < lines.len()
        invariant
            i <= lines.len(),
            ls == text::strs_view(lines@),
            chars@.len() == lines@.len(),
            forall|k: int| 0 <= k < lines@.len() ==> (#[trigger] chars@[k])@ == ls[k],
            similar@ == "similar code"@,
            report_render(ls, 0) == done + report_render(ls, i as int),
            out@.len() == done.len(),
            forall|k: int| 0 <= k < done.len() ==> (#[trigger] out@[k])@ == done[k],
        decreases lines.len() - i,
    {
        if line_is_file_header(&chars[i]) {
            // Render this file's region, then decide whether to keep it.
            let ghost region = region_render(ls, i + 1);
            let mut rendered: Vec<String> = Vec::new();
            let ghost mut rdone: Seq<Seq<char>> = Seq::empty();
            let mut j: usize = i + 1;
            while j < lines.len() && !line_is_file_header(&chars[j])
                invariant
                    i < j <= lines.len(),
                    ls == text::strs_view(lines@),
                    chars@.len() == lines@.len(),
                    forall|k: int| 0 <= k < lines@.len() ==> (#[trigger] chars@[k])@ == ls[k],
                    similar@ == "similar code"@,
                    region == region_render(ls, i + 1),
                    next_file_header(ls, i + 1) == next_file_header(ls, j as int),
                    region == rdone + region_render(ls, j as int),
                    rendered@.len() == rdone.len(),
                    forall|k: int|
                        0 <= k < rdone.len() ==> (#[trigger] rendered@[k])@ == rdone[k],
                decreases lines.len() - j,
            {
                if line_is_issue_header(&chars[j]) {
                    // Find where this issue's lines end.
                    let mut e: usize = j + 1;
                    while e < lines.len() && !line_is_file_header(&chars[e])
                        && !line_is_issue_header(&chars[e])
                        invariant
                            j < e <= lines.len(),
                            ls == text::strs_view(lines@),
                            chars@.len() == lines@.len(),
                            forall|k: int|
                                0 <= k < lines@.len() ==> (#[trigger] chars@[k])@ == ls[k],
                            issue_end(ls, j + 1) == issue_end(ls, e as int),
                            forall|m: int|
                                j < m < e ==> !is_file_header(#[trigger] ls[m])
                                    && !is_issue_header(ls[m]),
                        decreases lines.len() - e,
                    {
                        e = e + 1;
                    }
                    assert(issue_end(ls, j + 1) == e as int);
                    proof {
                        assert(!is_file_header(ls[j as int]));
                        lemma_nfh_skip(ls, j as int, e as int);
                    }
                    let keep = match text::find_sub(&chars[j], &similar) {
                        Option::Some(_) => true,
                        Option::None => false,
                    };
                    if keep {
                        let ghost r0 = rdone;
                        let mut k: usize = j;
                        while k < e
                            invariant
                                j <= k <= e <= lines.len(),
                                ls == text::strs_view(lines@),
                                rendered@.len() == r0.len() + (k - j),
                                forall|q: int|
                                    0 <= q < r0.len() ==> (#[trigger] rendered@[q])@ == r0[q],
                                forall|q: int|
                                    0 <= q < k - j ==> (#[trigger] rendered@[r0.len() + q])@
                                        == ls[j + q],
                            decreases e - k,
                        {
                            rendered.push(lines[k].clone());
                            k = k + 1;
                        }
                        rendered.push(String::new());
                        proof {
                            rdone = rdone + ls.subrange(j as int, e as int) + seq![
                                Seq::<char>::empty(),
                            ];
                            assert forall|q: int| 0 <= q < rdone.len() implies (
                            #[trigger] rendered@[q])@ == rdone[q] by {
                                if q < r0.len() {
                                } else if q < rdone.len() - 1 {
                                    assert(rdone[q] == ls.subrange(j as int, e as int)[q
                                        - r0.len()]);
                                    assert(rendered@[r0.len() + (q - r0.len())]@ == ls[j + (q
                                        - r0.len())]);
                                } else {
                                    assert(rdone[q] == Seq::<char>::empty());
                                }
                            }
                            assert(region =~= rdone + region_render(ls, e as int));
                        }
                    }
                    j = e;
                } else {
                    j = j + 1;
                }
            }
            proof {
                if j < lines.len() {
                    assert(region_render(ls, j as int) =~= Seq::<Seq<char>>::empty());
                } else {
                    assert(region_render(ls, j as int) =~= Seq::<Seq<char>>::empty());
                }
                assert(region =~= rdone);
            }
            assert(next_file_header(ls, i + 1) == j as int);
            let ghost out0 = done;
            if rendered.len() > 0 {
                out.push(lines[i].clone());
                let mut q: usize = 0;
                while q < rendered.len()
                    invariant
                        q <= rendered.len(),
                        region == region_render(ls, i + 1),
                        rendered@.len() == region.len(),
                        forall|k: int|
                            0 <= k < region.len() ==> (#[trigger] rendered@[k])@ == region[k],
                        out@.len() == out0.len() + 1 + q,
                        forall|k: int| 0 <= k < out0.len() ==> (#[trigger] out@[k])@ == out0[k],
                        out@[out0.len() as int]@ == ls[i as int],
                        forall|k: int|
                            0 <= k < q ==> (#[trigger] out@[out0.len() + 1 + k])@ == region[k],
                    decreases rendered.len() - q,
                {
                    out.push(rendered[q].clone());
                    q = q + 1;
                }
                proof {
                    done = done + seq![ls[i as int]] + region;
                    assert forall|k: int| 0 <= k < done.len() implies (#[trigger] out@[k])@
                        == done[k] by {
                        if k < out0.len() {
                        } else if k == out0.len() {
                        } else {
                            assert(done[k] == region[k - out0.len() - 1]);
                            assert(out@[out0.len() + 1 + (k - out0.len() - 1)]@ == region[k
                                - out0.len() - 1]);
                        }
                    }
                    assert(report_render(ls, 0) =~= done + report_render(ls, j as int));
                }
            } else {
                proof {
                    assert(report_render(ls, 0) =~= done + report_render(ls, j as int));
                }
            }
            i = j;
        } else {
            i = i + 1;
        }
    }
    proof {
        assert(report_render(ls, lines@.len() as int) =~= Seq::<Seq<char>>::empty());
        assert(report_render(ls, 0) =~= done);
    }
    (out, found)
}

} // verus!
