//! Scanning format templates for unnamed empty `{}` placeholders.
//!
//! The scan skips escaped braces (`{{`, `}}`) and steps over named or
//! formatted placeholders (`{name}`, `{:>8}`) without counting their
//! interior, exactly as the inlining rule requires.

use vstd::prelude::*;

verus! {

/// Offsets of the empty placeholders in `s[i..]`, scanning left to right.
/// `skipping` is true while inside a named/formatted placeholder whose
/// interior is stepped over up to its closing `}`.
pub open spec fn scan_placeholders(s: Seq<char>, i: int, skipping: bool) -> Seq<int>
    decreases s.len() - i,
{
    if i < 0 || i >= s.len() {
        Seq::empty()
    } else if skipping {
        if s[i] == '}' {
            scan_placeholders(s, i + 1, false)
        } else {
            scan_placeholders(s, i + 1, true)
        }
    } else if s[i] == '{' {
        if i + 1 >= s.len() {
            Seq::empty()
        } else if s[i + 1] == '{' {
            scan_placeholders(s, i + 2, false)
        } else if s[i + 1] == '}' {
            seq![i] + scan_placeholders(s, i + 2, false)
        } else {
            scan_placeholders(s, i + 1, true)
        }
    } else {
        scan_placeholders(s, i + 1, false)
    }
}

/// Offsets of the `{` of each empty `{}` placeholder in `s`.
pub open spec fn empty_placeholders(s: Seq<char>) -> Seq<int> {
    scan_placeholders(s, 0, false)
}

/// Core scan over a character vector; offsets count characters of `s`.
pub fn placeholder_positions(s: &Vec<char>) -> (r: Vec<usize>)
    ensures
        r@.len() == empty_placeholders(s@).len(),
        forall|k: int| 0 <= k < r@.len() ==> r@[k] as int == empty_placeholders(s@)[k],
{
    let mut r: Vec<usize> = Vec::new();
    let ghost mut gp: Seq<int> = Seq::empty();
    let mut skipping = false;
    let mut i: usize = 0;
    while i < s.len()
        invariant
            i <= s.len(),
            r@.len() == gp.len(),
            forall|k: int| 0 <= k < gp.len() ==> r@[k] as int == gp[k],
            empty_placeholders(s@) == gp + scan_placeholders(s@, i as int, skipping),
        decreases s.len() - i,
    {
        let c = s[i];
        if skipping {
            if c == '}' {
                skipping = false;
            }
            i = i + 1;
        } else if c == '{' {
            if i + 1 >= s.len() {
                i = i + 1;
            } else if s[i + 1] == '{' {
                i = i + 2;
            } else if s[i + 1] == '}' {
                r.push(i);
                proof {
                    assert(gp + (seq![i as int] + scan_placeholders(s@, i + 2, false)) =~= (
                    gp.push(i as int)) + scan_placeholders(s@, i + 2, false));
                    gp = gp.push(i as int);
                }
                i = i + 2;
            } else {
                skipping = true;
                i = i + 1;
            }
        } else {
            i = i + 1;
        }
    }
    proof {
        assert(empty_placeholders(s@) =~= gp);
    }
    r
}

/// Offsets (counting characters) of the empty `{}` placeholders in a
/// format template.
pub fn find_empty_placeholder_positions(format_str: &str) -> (r: Vec<usize>)
    ensures
        r@.len() == empty_placeholders(format_str@).len(),
        forall|k: int|
            0 <= k < r@.len() ==> r@[k] as int == empty_placeholders(format_str@)[k],
{
    let v = crate::text::str_chars(format_str);
    placeholder_positions(&v)
}

/// A placeholder offset lies at or after the scan start and leaves room
/// for its two characters.
pub proof fn lemma_placeholder_at(s: Seq<char>, i: int, skipping: bool, a: int)
    requires
        0 <= i,
        0 <= a < scan_placeholders(s, i, skipping).len(),
    ensures
        i <= scan_placeholders(s, i, skipping)[a],
        scan_placeholders(s, i, skipping)[a] + 2 <= s.len(),
    decreases s.len() - i,
{
    let ps = scan_placeholders(s, i, skipping);
    if i >= s.len() {
    } else if skipping {
        lemma_placeholder_at(s, i + 1, s[i] != '}', a);
    } else if s[i] == '{' {
        if i + 1 >= s.len() {
        } else if s[i + 1] == '{' {
            lemma_placeholder_at(s, i + 2, false, a);
        } else if s[i + 1] == '}' {
            let rest = scan_placeholders(s, i + 2, false);
            assert(ps == seq![i] + rest);
            if a > 0 {
                lemma_placeholder_at(s, i + 2, false, a - 1);
                assert(ps[a] == rest[a - 1]);
            }
        } else {
            lemma_placeholder_at(s, i + 1, true, a);
        }
    } else {
        lemma_placeholder_at(s, i + 1, false, a);
    }
}

/// A placeholder offset points at a literal `{}` pair.
pub proof fn lemma_placeholder_chars(s: Seq<char>, i: int, skipping: bool, a: int)
    requires
        0 <= i,
        0 <= a < scan_placeholders(s, i, skipping).len(),
    ensures
        s[scan_placeholders(s, i, skipping)[a]] == '{',
        s[scan_placeholders(s, i, skipping)[a] + 1] == '}',
    decreases s.len() - i,
{
    let ps = scan_placeholders(s, i, skipping);
    if i >= s.len() {
    } else if skipping {
        lemma_placeholder_chars(s, i + 1, s[i] != '}', a);
    } else if s[i] == '{' {
        if i + 1 >= s.len() {
        } else if s[i + 1] == '{' {
            lemma_placeholder_chars(s, i + 2, false, a);
        } else if s[i + 1] == '}' {
            let rest = scan_placeholders(s, i + 2, false);
            assert(ps == seq![i] + rest);
            if a > 0 {
                lemma_placeholder_chars(s, i + 2, false, a - 1);
                assert(ps[a] == rest[a - 1]);
            }
        } else {
            lemma_placeholder_chars(s, i + 1, true, a);
        }
    } else {
        lemma_placeholder_chars(s, i + 1, false, a);
    }
}

/// Placeholder offsets ascend by at least two: each `{}` occupies two
/// characters, so distinct placeholders cannot overlap.
pub proof fn lemma_placeholders_apart(s: Seq<char>, i: int, skipping: bool, a: int, b: int)
    requires
        0 <= i,
        0 <= a < b < scan_placeholders(s, i, skipping).len(),
    ensures
        scan_placeholders(s, i, skipping)[a] + 2 <= scan_placeholders(s, i, skipping)[b],
    decreases s.len() - i,
{
    let ps = scan_placeholders(s, i, skipping);
    if i >= s.len() {
    } else if skipping {
        lemma_placeholders_apart(s, i + 1, s[i] != '}', a, b);
    } else if s[i] == '{' {
        if i + 1 >= s.len() {
        } else if s[i + 1] == '{' {
            lemma_placeholders_apart(s, i + 2, false, a, b);
        } else if s[i + 1] == '}' {
            let rest = scan_placeholders(s, i + 2, false);
            assert(ps == seq![i] + rest);
            assert(ps[b] == rest[b - 1]);
            if a > 0 {
                lemma_placeholders_apart(s, i + 2, false, a - 1, b - 1);
                assert(ps[a] == rest[a - 1]);
            } else {
                lemma_placeholder_at(s, i + 2, false, b - 1);
            }
        } else {
            lemma_placeholders_apart(s, i + 1, true, a, b);
        }
    } else {
        lemma_placeholders_apart(s, i + 1, false, a, b);
    }
}

/// How many empty `{}` placeholders a format template holds.
pub fn count_empty_placeholders(format_str: &str) -> (n: usize)
    ensures
        n == empty_placeholders(format_str@).len(),
{
    let v = crate::text::str_chars(format_str);
    let positions = placeholder_positions(&v);
    positions.len()
}

} // verus!
