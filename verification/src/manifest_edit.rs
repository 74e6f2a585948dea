//! Pre-release manifest editing: rewrite `path =` dependencies inside the
//! dependency tables of a manifest according to `ga:` directives left in
//! line comments, and comment out lines so marked.

use vstd::prelude::*;
use crate::text;
use crate::labels::next_char;

verus! {

/// `s` ends with `suffix`.
pub open spec fn ends_with(s: Seq<char>, suffix: Seq<char>) -> bool {
    text::match_at(s, suffix, s.len() - suffix.len())
}

/// A dependency-table header: `[` ... `dependencies]` after trimming.
pub open spec fn dep_header(t: Seq<char>) -> bool {
    t.len() > 0 && t[0] == '[' && ends_with(t, "dependencies]"@)
}

/// The last offset of `c` strictly before `j`, if any.
pub open spec fn last_char_before(s: Seq<char>, j: int, c: char) -> Option<int>
    decreases j,
{
    if j <= 0 || j > s.len() {
        None
    } else if s[j - 1] == c {
        Some(j - 1)
    } else {
        last_char_before(s, j - 1, c)
    }
}

/// The comment segment of a line: the text between its first `#` and its
/// second `#` (or the end).
pub open spec fn comment_of(line: Seq<char>) -> Seq<char> {
    let h = next_char(line, 0, '#');
    if h >= line.len() {
        Seq::empty()
    } else {
        line.subrange(h + 1, next_char(line, h + 1, '#'))
    }
}

/// `pat` occurs in `s`.
pub open spec fn has_sub(s: Seq<char>, pat: Seq<char>) -> bool {
    text::find_spec(s, pat) is Some
}

/// The line after applying a `ga:` path directive found in its comment,
/// or nothing when no directive applies (or the line is too malformed to
/// rewrite safely).
pub open spec fn transform_path(line: Seq<char>) -> Option<Seq<char>> {
    let comment = comment_of(line);
    match text::find_spec(line, "path ="@) {
        Option::None => Option::None,
        Option::Some(p) => {
            if has_sub(comment, "ga: sub path"@) || has_sub(comment, "ga: substitute path"@) {
                let h = next_char(line, 0, '#');
                Option::Some(
                    line.subrange(0, p) + line.subrange(h, line.len() as int)
                        + "version = \"*\" #"@ + comment,
                )
            } else if has_sub(comment, "ga: rm path"@) || has_sub(comment, "ga: remove path"@) {
                let abs = next_char(line, p, ',');
                if abs < line.len() {
                    Option::Some(line.subrange(0, p) + line.subrange(abs + 1, line.len() as int))
                } else {
                    let pe = next_char(line, p, '}');
                    match last_char_before(line, p, ',') {
                        Option::Some(sc) => if pe < line.len() {
                            Option::Some(
                                line.subrange(0, sc) + line.subrange(pe, line.len() as int),
                            )
                        } else {
                            Option::None
                        },
                        Option::None => Option::None,
                    }
                }
            } else {
                Option::None
            }
        },
    }
}

/// One line's rewrite: inside a dependency table, apply the path
/// directive if one is present; then comment the line out if so marked.
pub open spec fn transform_line(line: Seq<char>, in_dep: bool) -> (Seq<char>, bool) {
    let base = if in_dep && has_sub(line, "path ="@) {
        match transform_path(line) {
            Option::Some(n) => (n, true),
            Option::None => (line, false),
        }
    } else {
        (line, false)
    };
    if has_sub(base.0, "#ga: comment"@) {
        ("# "@ + base.0, true)
    } else {
        base
    }
}

/// The manifest's lines after the rewrite, with whether anything changed.
pub open spec fn process_lines(ls: Seq<Seq<char>>, i: int, in_dep: bool) -> (
    Seq<Seq<char>>,
    bool,
)
    decreases ls.len() - i,
{
    if i < 0 || i >= ls.len() {
        (Seq::empty(), false)
    } else {
        let t = text::trim_spec(ls[i]);
        if dep_header(t) {
            let rest = process_lines(ls, i + 1, true);
            (seq![ls[i]] + rest.0, rest.1)
        } else {
            let in2 = if in_dep && t.len() > 0 && t[0] == '[' {
                false
            } else {
                in_dep
            };
            let (nl, ch) = transform_line(ls[i], in2);
            let rest = process_lines(ls, i + 1, in2);
            (seq![nl] + rest.0, ch || rest.1)
        }
    }
}

fn last_char_before_exec(s: &Vec<char>, j: usize, c: char) -> (r: Option<usize>)
    requires
        j <= s.len(),
    ensures
        match r {
            Some(k) => last_char_before(s@, j as int, c) == Some(k as int) && k < j,
            None => last_char_before(s@, j as int, c) is None,
        },
{
    let mut q: usize = j;
    while q > 0
        invariant
            q <= j <= s.len(),
            last_char_before(s@, j as int, c) == last_char_before(s@, q as int, c),
        decreases q,
    {
        if s[q - 1] == c {
            return Some(q - 1);
        }
        q = q - 1;
    }
    None
}

fn subrange_chars(s: &Vec<char>, a: usize, b: usize) -> (r: Vec<char>)
    requires
        a <= b <= s.len(),
    ensures
        r@ == s@.subrange(a as int, b as int),
{
    let mut r: Vec<char> = Vec::new();
    let mut k: usize = a;
    while k < b
        invariant
            a <= k <= b <= s.len(),
            r@ == s@.subrange(a as int, k as int),
        decreases b - k,
    {
        r.push(s[k]);
        assert(r@ =~= s@.subrange(a as int, k + 1));
        k = k + 1;
    }
    r
}

fn has_sub_exec(s: &Vec<char>, pat: &Vec<char>) -> (r: bool)
    ensures
        r == has_sub(s@, pat@),
{
    match text::find_sub(s, pat) {
        Option::Some(_) => true,
        Option::None => false,
    }
}

fn transform_path_exec(line: &Vec<char>) -> (r: Option<Vec<char>>)
    ensures
        match r {
            Some(n) => transform_path(line@) == Some(n@),
            None => transform_path(line@) is None,
        },
{
    let h = crate::labels::next_char_exec(line, 0, '#');
    let comment = if h >= line.len() {
        Vec::new()
    } else {
        let second = crate::labels::next_char_exec(line, h + 1, '#');
        subrange_chars(line, h + 1, second)
    };
    proof {
        if h < line.len() {
        } else {
            assert(comment_of(line@) =~= Seq::<char>::empty());
        }
    }
    assert(comment@ == comment_of(line@));
    let path_pat = text::str_chars("path =");
    let p = match text::find_sub(line, &path_pat) {
        Option::Some(p) => p,
        Option::None => {
            return None;
        },
    };
    proof {
        crate::fix_synth::lemma_first_match_bounds_pub(line@, "path ="@, 0, p as int);
    }
    if has_sub_exec(&comment, &text::str_chars("ga: sub path")) || has_sub_exec(
        &comment,
        &text::str_chars("ga: substitute path"),
    ) {
        let mut out = subrange_chars(line, 0, p);
        let tail = subrange_chars(line, h, line.len());
        text::append_chars(&mut out, &tail);
        let marker = text::str_chars("version = \"*\" #");
        text::append_chars(&mut out, &marker);
        text::append_chars(&mut out, &comment);
        return Some(out);
    }
    if has_sub_exec(&comment, &text::str_chars("ga: rm path")) || has_sub_exec(
        &comment,
        &text::str_chars("ga: remove path"),
    ) {
        let abs = crate::labels::next_char_exec(line, p, ',');
        if abs < line.len() {
            let mut out = subrange_chars(line, 0, p);
            let tail = subrange_chars(line, abs + 1, line.len());
            text::append_chars(&mut out, &tail);
            return Some(out);
        }
        let pe = crate::labels::next_char_exec(line, p, '}');
        match last_char_before_exec(line, p, ',') {
            Option::Some(sc) => {
                if pe < line.len() {
                    let mut out = subrange_chars(line, 0, sc);
                    let tail = subrange_chars(line, pe, line.len());
                    text::append_chars(&mut out, &tail);
                    return Some(out);
                }
                return None;
            },
            Option::None => {
                return None;
            },
        }
    }
    None
}

fn transform_line_exec(line: &Vec<char>, in_dep: bool) -> (r: (Vec<char>, bool))
    ensures
        r.0@ == transform_line(line@, in_dep).0,
        r.1 == transform_line(line@, in_dep).1,
{
    let path_pat = text::str_chars("path =");
    let (base, changed): (Vec<char>, bool) = if in_dep && has_sub_exec(line, &path_pat) {
        match transform_path_exec(line) {
            Option::Some(n) => (n, true),
            Option::None => (text::copy_chars(line), false),
        }
    } else {
        (text::copy_chars(line), false)
    };
    let mark = text::str_chars("#ga: comment");
    if has_sub_exec(&base, &mark) {
        let mut out = text::str_chars("# ");
        text::append_chars(&mut out, &base);
        (out, true)
    } else {
        (base, changed)
    }
}

/// Rewrite a manifest's lines according to the `ga:` directives in its
/// dependency tables. Returns the new lines and whether anything changed.
pub fn process_cargo_lines(lines: &Vec<String>) -> (r: (Vec<String>, bool))
    ensures
        ({
            let (out, changed) = process_lines(text::strs_view(lines@), 0, false);
            &&& r.0@.len() == out.len()
            &&& forall|k: int| 0 <= k < out.len() ==> (#[trigger] r.0@[k])@ == out[k]
            &&& r.1 == changed
        }),
{
    let ghost ls = text::strs_view(lines@);
    let mut out: Vec<String> = Vec::new();
    let mut modified = false;
    let mut in_dep = false;
    let mut i: usize = 0;
    let ghost total = process_lines(ls, 0, false);
    while i < lines.len()
        invariant
            i <= lines.len(),
            ls == text::strs_view(lines@),
            total == process_lines(ls, 0, false),
            ({
                let rest = process_lines(ls, i as int, in_dep);
                &&& total.0 == text::strs_view(out@) + rest.0
                &&& total.1 == (modified || rest.1)
            }),
        decreases lines.len() - i,
    {
        let line = text::str_chars(lines[i].as_str());
        let t = text::trim_chars(&line);
        let dep_suffix = text::str_chars("dependencies]");
        let is_header = t.len() > 0 && t[0] == '[' && dep_suffix.len() <= t.len()
            && text::matches_here(&t, &dep_suffix, t.len() - dep_suffix.len());
        assert(is_header == dep_header(text::trim_spec(ls[i as int])));
        let ghost out0 = text::strs_view(out@);
        if is_header {
            out.push(lines[i].clone());
            proof {
                assert(text::strs_view(out@) =~= out0.push(ls[i as int]));
                assert(out0 + (seq![ls[i as int]] + process_lines(ls, i + 1, true).0)
                    =~= text::strs_view(out@) + process_lines(ls, i + 1, true).0);
            }
            in_dep = true;
        } else {
            let in2 = if in_dep && t.len() > 0 && t[0] == '[' {
                false
            } else {
                in_dep
            };
            let (nl, ch) = transform_line_exec(&line, in2);
            let pushed = text::chars_string(&nl);
            out.push(pushed);
            proof {
                assert(text::strs_view(out@) =~= out0.push(
                    transform_line(ls[i as int], in2).0,
                ));
                assert(out0 + (seq![transform_line(ls[i as int], in2).0] + process_lines(
                    ls,
                    i + 1,
                    in2,
                ).0) =~= text::strs_view(out@) + process_lines(ls, i + 1, in2).0);
            }
            modified = modified || ch;
            in_dep = in2;
        }
        i = i + 1;
    }
    proof {
        assert(process_lines(ls, lines@.len() as int, in_dep).0 =~= Seq::<Seq<char>>::empty());
        assert(total.0 =~= text::strs_view(out@));
    }
    (out, modified)
}

} // verus!
