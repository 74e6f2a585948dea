//! The fix synthesizer: turn an inlined format template into one
//! text-range replacement covering the whole source line of the
//! invocation, or decline when the rewrite cannot be computed safely.

use vstd::prelude::*;
use crate::text;

verus! {

/// Scan the trailing-argument region after the template: step over string
/// literals (with escapes) and nested delimiters, counting top-level
/// commas, until the invocation's closing parenthesis at nesting depth
/// zero. Yields the offset of that parenthesis (relative to the scan
/// start) and the comma count, or nothing if no closing parenthesis is
/// found.
pub open spec fn region_scan(
    s: Seq<char>,
    i: int,
    depth: int,
    in_string: bool,
    escaped: bool,
) -> Option<(int, int)>
    decreases s.len() - i,
{
    if i < 0 || i >= s.len() {
        None
    } else if escaped {
        region_scan(s, i + 1, depth, in_string, false)
    } else {
        let c = s[i];
        if c == '\\' && in_string {
            region_scan(s, i + 1, depth, in_string, true)
        } else if c == '"' {
            region_scan(s, i + 1, depth, !in_string, false)
        } else if (c == '(' || c == '[' || c == '{') && !in_string {
            region_scan(s, i + 1, depth + 1, in_string, false)
        } else if c == ')' && !in_string {
            if depth == 0 {
                Some((i, 0))
            } else {
                region_scan(s, i + 1, depth - 1, in_string, false)
            }
        } else if (c == ']' || c == '}') && !in_string && depth > 0 {
            region_scan(s, i + 1, depth - 1, in_string, false)
        } else if c == ',' && !in_string && depth == 0 {
            match region_scan(s, i + 1, depth, in_string, false) {
                Some((e, k)) => Some((e, k + 1)),
                None => None,
            }
        } else {
            region_scan(s, i + 1, depth, in_string, false)
        }
    }
}

spec fn add_commas(r: Option<(int, int)>, k: int) -> Option<(int, int)> {
    match r {
        Some((e, c)) => Some((e, c + k)),
        None => None,
    }
}

/// Scan `s` from the start as `region_scan` describes.
fn scan_region(s: &Vec<char>) -> (r: Option<(usize, usize)>)
    ensures
        match r {
            Some((e, k)) => region_scan(s@, 0, 0, false, false) == Some((e as int, k as int)),
            None => region_scan(s@, 0, 0, false, false) is None,
        },
{
    let mut i: usize = 0;
    let mut depth: usize = 0;
    let mut in_string = false;
    let mut escaped = false;
    let mut commas: usize = 0;
    while i < s.len()
        invariant
            i <= s.len(),
            commas <= i,
            depth <= i,
            region_scan(s@, 0, 0, false, false) == add_commas(
                region_scan(s@, i as int, depth as int, in_string, escaped),
                commas as int,
            ),
        decreases s.len() - i,
    {
        let c = s[i];
        if escaped {
            escaped = false;
        } else if c == '\\' && in_string {
            escaped = true;
        } else if c == '"' {
            in_string = !in_string;
        } else if (c == '(' || c == '[' || c == '{') && !in_string {
            depth = depth + 1;
        } else if c == ')' && !in_string {
            if depth == 0 {
                return Some((i, commas));
            }
            depth = depth - 1;
        } else if (c == ']' || c == '}') && !in_string && depth > 0 {
            depth = depth - 1;
        } else if c == ',' && !in_string && depth == 0 {
            commas = commas + 1;
        }
        i = i + 1;
    }
    None
}

/// What synthesizing a fix yields, at the specification level.
///
/// Given the original template `old_fmt` (its quoted source text), the
/// inlined template `new_fmt`, the template's start and end source lines,
/// and the file content, the synthesizer declines unless:
/// the template sits on a single source line that exists in the content;
/// the template text occurs on that line; the region after it up to the
/// invocation's closing parenthesis scans unambiguously; and that region
/// holds exactly one top-level comma per empty placeholder of `old_fmt`.
/// On success the fix replaces the whole line with: everything before the
/// template, then `new_fmt`, then the line's tail from the closing
/// parenthesis on.
pub open spec fn synth_fix_spec(
    old_fmt: Seq<char>,
    new_fmt: Seq<char>,
    fmt_line: int,
    fmt_end_line: int,
    content: Seq<char>,
) -> Option<(int, int, Seq<char>)> {
    let lines = text::split_lines_spec(content);
    if fmt_line != fmt_end_line || fmt_line < 1 || fmt_line > lines.len() {
        None
    } else {
        let line = lines[fmt_line - 1];
        match text::find_spec(line, old_fmt) {
            None => None,
            Some(fmt_pos) => {
                let after = line.subrange(fmt_pos + old_fmt.len(), line.len() as int);
                match region_scan(after, 0, 0, false, false) {
                    None => None,
                    Some((args_end, commas)) => {
                        if commas != crate::placeholders::empty_placeholders(old_fmt).len() {
                            None
                        } else {
                            let start = text::line_start(lines, fmt_line - 1);
                            let new_line = line.subrange(0, fmt_pos) + new_fmt + after.subrange(
                                args_end,
                                after.len() as int,
                            );
                            Some((start, start + line.len(), new_line))
                        }
                    },
                }
            },
        }
    }
}

/// Synthesize the replacement for a fully-inlinable invocation, or
/// decline (`None`) when the rewrite cannot be computed safely.
pub fn create_full_macro_fix(
    old_fmt: &Vec<char>,
    new_fmt: &Vec<char>,
    fmt_line: usize,
    fmt_end_line: usize,
    content: &Vec<char>,
) -> (r: Option<crate::report::Fix>)
    ensures
        match r {
            Some(fix) => {
                &&& synth_fix_spec(old_fmt@, new_fmt@, fmt_line as int, fmt_end_line as int, content@)
                    == Some((fix.start as int, fix.end as int, fix.replacement@))
                &&& fix.start <= fix.end <= content@.len()
            },
            None => synth_fix_spec(
                old_fmt@,
                new_fmt@,
                fmt_line as int,
                fmt_end_line as int,
                content@,
            ) is None,
        },
{
    if fmt_line != fmt_end_line || fmt_line < 1 {
        return None;
    }
    let lines = split_lines_exec(content);
    if fmt_line > lines.len() {
        return None;
    }
    let line = &lines[fmt_line - 1];
    assert(line@ == text::split_lines_spec(content@)[fmt_line - 1]);
    let fmt_pos = match text::find_sub(line, old_fmt) {
        Some(p) => p,
        None => {
            return None;
        },
    };
    proof {
        lemma_match_at_bounds(line@, old_fmt@, fmt_pos as int);
    }
    let mut after: Vec<char> = Vec::new();
    let mut k: usize = fmt_pos + old_fmt.len();
    while k < line.len()
        invariant
            fmt_pos + old_fmt.len() <= k <= line.len(),
            after@ == line@.subrange(fmt_pos + old_fmt@.len(), k as int),
        decreases line.len() - k,
    {
        after.push(line[k]);
        assert(after@ =~= line@.subrange(fmt_pos + old_fmt@.len(), k + 1));
        k = k + 1;
    }
    let (args_end, commas) = match scan_region(&after) {
        Some(ec) => ec,
        None => {
            return None;
        },
    };
    let placeholder_count = crate::placeholders::placeholder_positions(old_fmt).len();
    if commas != placeholder_count {
        return None;
    }
    let total = content.len();
    proof {
        lemma_line_start_within(content@, fmt_line - 1);
    }
    let start = match text::line_start_offset(&lines, fmt_line - 1) {
        Some(o) => o,
        None => {
            assert(false);
            return None;
        },
    };
    assert(start + line@.len() <= total);
    proof {
        lemma_region_scan_bounds(after@, 0, 0, false, false);
    }
    let mut new_line: Vec<char> = Vec::new();
    let mut k: usize = 0;
    while k < fmt_pos
        invariant
            k <= fmt_pos,
            fmt_pos <= line.len(),
            new_line@ == line@.subrange(0, k as int),
        decreases fmt_pos - k,
    {
        new_line.push(line[k]);
        assert(new_line@ =~= line@.subrange(0, k + 1));
        k = k + 1;
    }
    let mut k: usize = 0;
    while k < new_fmt.len()
        invariant
            k <= new_fmt.len(),
            fmt_pos <= line.len(),
            new_line@ == line@.subrange(0, fmt_pos as int) + new_fmt@.subrange(0, k as int),
        decreases new_fmt.len() - k,
    {
        new_line.push(new_fmt[k]);
        assert(new_line@ =~= line@.subrange(0, fmt_pos as int) + new_fmt@.subrange(0, k + 1));
        k = k + 1;
    }
    assert(new_fmt@.subrange(0, new_fmt@.len() as int) =~= new_fmt@);
    let mut k: usize = args_end;
    while k < after.len()
        invariant
            args_end <= k <= after.len(),
            fmt_pos <= line.len(),
            new_line@ == line@.subrange(0, fmt_pos as int) + new_fmt@ + after@.subrange(
                args_end as int,
                k as int,
            ),
        decreases after.len() - k,
    {
        new_line.push(after[k]);
        assert(new_line@ =~= line@.subrange(0, fmt_pos as int) + new_fmt@ + after@.subrange(
            args_end as int,
            k + 1,
        ));
        k = k + 1;
    }
    let end = start + line.len();
    Some(crate::report::Fix { start, end, replacement: new_line })
}

proof fn lemma_match_at_bounds(s: Seq<char>, pat: Seq<char>, i: int)
    requires
        text::first_match_from(s, pat, 0) == Some(i),
    ensures
        0 <= i && i + pat.len() <= s.len(),
{
    lemma_first_match_bounds_pub(s, pat, 0, i);
}

pub proof fn lemma_first_match_bounds_pub(s: Seq<char>, pat: Seq<char>, j: int, i: int)
    requires
        text::first_match_from(s, pat, j) == Some(i),
    ensures
        j <= i && i + pat.len() <= s.len(),
    decreases s.len() + 1 - j,
{
    if !(j < 0 || j + pat.len() > s.len()) && !text::match_at(s, pat, j) {
        lemma_first_match_bounds_pub(s, pat, j + 1, i);
    }
}

proof fn lemma_region_scan_bounds(s: Seq<char>, i: int, d: int, st: bool, e: bool)
    ensures
        match region_scan(s, i, d, st, e) {
            Some((p, k)) => i <= p < s.len() && k >= 0,
            None => true,
        },
    decreases s.len() - i,
{
    if 0 <= i && i < s.len() {
        lemma_region_scan_bounds(s, i + 1, d, st, e);
        lemma_region_scan_bounds(s, i + 1, d, st, false);
        lemma_region_scan_bounds(s, i + 1, d, st, true);
        lemma_region_scan_bounds(s, i + 1, d, !st, false);
        lemma_region_scan_bounds(s, i + 1, d + 1, st, false);
        lemma_region_scan_bounds(s, i + 1, d - 1, st, false);
    }
}

/// The sum of the line lengths bounds every line-start offset by the
/// content's own length.
proof fn lemma_line_start_within(content: Seq<char>, idx: int)
    requires
        0 <= idx < text::split_lines_spec(content).len(),
    ensures
        text::line_start(text::split_lines_spec(content), idx) + text::split_lines_spec(
            content,
        )[idx].len() <= content.len(),
{
    lemma_lines_measure(content, 0, idx);
}

/// Joining the lines of `s[i..]` with newlines gives back exactly
/// `s.len() - i` characters; hence any line's start plus its length stays
/// within the suffix.
proof fn lemma_lines_measure(s: Seq<char>, i: int, idx: int)
    requires
        0 <= i <= s.len(),
        0 <= idx < text::lines_from(s, i).len(),
    ensures
        text::line_start(text::lines_from(s, i), idx) + text::lines_from(s, i)[idx].len()
            <= s.len() - i,
    decreases s.len() - i, idx,
{
    let ls = text::lines_from(s, i);
    if i >= s.len() {
    } else if s[i] == '\n' {
        let rest = text::lines_from(s, i + 1);
        if idx == 0 {
        } else {
            lemma_lines_measure(s, i + 1, idx - 1);
            lemma_line_start_shift_one(s, i, idx);
        }
    } else {
        let rest = text::lines_from(s, i + 1);
        text::lemma_lines_from_nonempty(s, i + 1);
        if idx == 0 {
            lemma_lines_measure(s, i + 1, 0);
        } else {
            lemma_lines_measure(s, i + 1, idx);
            lemma_line_start_extend(s, i, idx);
        }
    }
}

/// After a newline at `i`, line starts shift by one line.
proof fn lemma_line_start_shift_one(s: Seq<char>, i: int, idx: int)
    requires
        0 <= i < s.len(),
        s[i] == '\n',
        1 <= idx < text::lines_from(s, i).len(),
    ensures
        text::line_start(text::lines_from(s, i), idx) == 1 + text::line_start(
            text::lines_from(s, i + 1),
            idx - 1,
        ),
    decreases idx,
{
    let ls = text::lines_from(s, i);
    let rest = text::lines_from(s, i + 1);
    assert(ls == seq![Seq::<char>::empty()] + rest);
    assert(text::line_start(ls, idx) == text::line_start(ls, idx - 1) + ls[idx - 1].len()
        + 1);
    if idx > 1 {
        lemma_line_start_shift_one(s, i, idx - 1);
        assert(ls[idx - 1] == (seq![Seq::<char>::empty()] + rest)[idx - 1]);
        assert((seq![Seq::<char>::empty()] + rest)[idx - 1] == rest[idx - 2]);
        assert(text::line_start(rest, idx - 1) == text::line_start(rest, idx - 2) + rest[idx
            - 2].len() + 1);
    } else {
        assert(ls[0].len() == 0);
        assert(text::line_start(ls, 0) == 0);
        assert(text::line_start(rest, 0) == 0);
    }
}

/// A non-newline character at `i` lengthens the first line by one and
/// leaves the other line starts shifted by one.
proof fn lemma_line_start_extend(s: Seq<char>, i: int, idx: int)
    requires
        0 <= i < s.len(),
        s[i] != '\n',
        1 <= idx < text::lines_from(s, i).len(),
    ensures
        text::line_start(text::lines_from(s, i), idx) == 1 + text::line_start(
            text::lines_from(s, i + 1),
            idx,
        ),
    decreases idx,
{
    text::lemma_lines_from_nonempty(s, i + 1);
    let ls = text::lines_from(s, i);
    let rest = text::lines_from(s, i + 1);
    assert(ls == seq![seq![s[i]] + rest[0]] + rest.drop_first());
    assert(text::line_start(ls, idx) == text::line_start(ls, idx - 1) + ls[idx - 1].len()
        + 1);
    if idx > 1 {
        lemma_line_start_extend(s, i, idx - 1);
        assert(ls[idx - 1] == (seq![seq![s[i]] + rest[0]] + rest.drop_first())[idx - 1]);
        assert((seq![seq![s[i]] + rest[0]] + rest.drop_first())[idx - 1] == rest.drop_first()[
            idx - 2
        ]);
        assert(rest.drop_first()[idx - 2] == rest[idx - 1]);
        assert(text::line_start(rest, idx) == text::line_start(rest, idx - 1) + rest[idx
            - 1].len() + 1);
    } else {
        assert(ls[0] == seq![s[i]] + rest[0]);
        assert(ls[0].len() == 1 + rest[0].len());
        assert(text::line_start(ls, 0) == 0);
        assert(text::line_start(rest, 0) == 0);
        assert(text::line_start(rest, 1) == rest[0].len() + 1);
    }
}

fn split_lines_exec(content: &Vec<char>) -> (r: Vec<Vec<char>>)
    ensures
        r.deep_view() == text::split_lines_spec(content@),
        r.len() >= 1,
        forall|k: int| 0 <= k < r@.len() ==> (#[trigger] r@[k])@ == r.deep_view()[k],
{
    let r = text::split_lines(content);
    proof {
        text::lemma_lines_from_nonempty(content@, 0);
    }
    r
}

} // verus!
