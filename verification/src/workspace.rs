//! Workspace discovery over manifest text: read the `members` list of a
//! `[workspace]` table, one bracketed list per line.

use vstd::prelude::*;
use crate::text;
use crate::labels::next_char;

verus! {

/// `s` without leading `c` characters.
pub open spec fn trim_char_start(s: Seq<char>, c: char) -> Seq<char>
    decreases s.len(),
{
    if s.len() > 0 && s[0] == c {
        trim_char_start(s.drop_first(), c)
    } else {
        s
    }
}

/// `s` without trailing `c` characters.
pub open spec fn trim_char_end(s: Seq<char>, c: char) -> Seq<char>
    decreases s.len(),
{
    if s.len() > 0 && s[s.len() - 1] == c {
        trim_char_end(s.drop_last(), c)
    } else {
        s
    }
}

/// `s` without leading and trailing `c` characters.
pub open spec fn trim_char(s: Seq<char>, c: char) -> Seq<char> {
    trim_char_end(trim_char_start(s, c), c)
}

proof fn lemma_trim_char_start_cut(s: Seq<char>, c: char, a: int)
    requires
        0 <= a <= s.len(),
        forall|k: int| 0 <= k < a ==> s[k] == c,
        a == s.len() || s[a] != c,
    ensures
        trim_char_start(s, c) == s.subrange(a, s.len() as int),
    decreases a,
{
    if a == 0 {
        assert(s.subrange(0, s.len() as int) =~= s);
    } else {
        let t = s.drop_first();
        lemma_trim_char_start_cut(t, c, a - 1);
        assert(t.subrange(a - 1, t.len() as int) =~= s.subrange(a, s.len() as int));
    }
}

proof fn lemma_trim_char_end_cut(s: Seq<char>, c: char, b: int)
    requires
        0 <= b <= s.len(),
        forall|k: int| b <= k < s.len() ==> s[k] == c,
        b == 0 || s[b - 1] != c,
    ensures
        trim_char_end(s, c) == s.subrange(0, b),
    decreases s.len() - b,
{
    if b == s.len() {
        assert(s.subrange(0, s.len() as int) =~= s);
    } else {
        let t = s.drop_last();
        lemma_trim_char_end_cut(t, c, b);
        assert(t.subrange(0, b) =~= s.subrange(0, b));
    }
}

/// Trim `c` from both ends of `s`.
pub fn trim_char_exec(s: &Vec<char>, c: char) -> (r: Vec<char>)
    ensures
        r@ == trim_char(s@, c),
{
    let mut a: usize = 0;
    while a < s.len() && s[a] == c
        invariant
            a <= s.len(),
            forall|k: int| 0 <= k < a ==> s@[k] == c,
        decreases s.len() - a,
    {
        a = a + 1;
    }
    proof {
        lemma_trim_char_start_cut(s@, c, a as int);
    }
    let mut b: usize = s.len();
    while b > a && s[b - 1] == c
        invariant
            a <= b <= s.len(),
            forall|k: int| b <= k < s.len() ==> s@[k] == c,
        decreases b,
    {
        b = b - 1;
    }
    let ghost st = trim_char_start(s@, c);
    proof {
        if b == a {
            lemma_trim_char_end_cut(st, c, 0);
            assert(st.subrange(0, 0) =~= s@.subrange(a as int, b as int));
        } else {
            assert(forall|k: int| b - a <= k < st.len() ==> #[trigger] st[k] == c);
            assert(st[b - a - 1] != c);
            lemma_trim_char_end_cut(st, c, b - a);
            assert(st.subrange(0, b - a) =~= s@.subrange(a as int, b as int));
        }
    }
    let mut r: Vec<char> = Vec::new();
    let mut k: usize = a;
    while k < b
        invariant
            a <= k <= b <= s.len(),
            r@ == s@.subrange(a as int, k as int),
        decreases b - k,
    {
        r.push(s[k]);
        assert(r@ =~= s@.subrange(a as int, k + 1));
        k = k + 1;
    }
    r
}

/// `s` holds the character `c` somewhere.
pub open spec fn has_char(s: Seq<char>, c: char) -> bool {
    next_char(s, 0, c) < s.len()
}

/// One `members` list entry, cleaned: trimmed, then stripped of quote
/// characters at both ends.
pub open spec fn member_of(field: Seq<char>) -> Seq<char> {
    trim_char(trim_char(text::trim_spec(field), '"'), '\'')
}

/// The usable members of one bracketed list: cleaned entries that are
/// non-empty and hold no glob.
pub open spec fn members_of_fields(fields: Seq<Seq<char>>, i: int) -> Seq<Seq<char>>
    decreases fields.len() - i,
{
    if i < 0 || i >= fields.len() {
        Seq::empty()
    } else {
        let m = member_of(fields[i]);
        if m.len() > 0 && !has_char(m, '*') {
            seq![m] + members_of_fields(fields, i + 1)
        } else {
            members_of_fields(fields, i + 1)
        }
    }
}

/// The members named by the manifest lines `ls[i..]`: inside the
/// `[workspace]` table, a line starting (after trimming) with `members`
/// and holding a bracketed list contributes that list's entries. A line
/// whose closing bracket precedes its opening one contributes nothing.
pub open spec fn members_of_lines(ls: Seq<Seq<char>>, i: int, in_ws: bool) -> Seq<Seq<char>>
    decreases ls.len() - i,
{
    if i < 0 || i >= ls.len() {
        Seq::empty()
    } else {
        let line = ls[i];
        let t = text::trim_spec(line);
        if t == "[workspace]"@ {
            members_of_lines(ls, i + 1, true)
        } else if t.len() > 0 && t[0] == '[' {
            members_of_lines(ls, i + 1, false)
        } else if in_ws && text::match_at(t, "members"@, 0) && next_char(line, 0, '[')
            < line.len() {
            let start = next_char(line, 0, '[');
            let end = next_char(line, 0, ']');
            if end < line.len() && start + 1 <= end {
                members_of_fields(
                    text::split_from(line.subrange(start + 1, end), 0, ','),
                    0,
                ) + members_of_lines(ls, i + 1, in_ws)
            } else {
                members_of_lines(ls, i + 1, in_ws)
            }
        } else {
            members_of_lines(ls, i + 1, in_ws)
        }
    }
}

/// All workspace members the manifest names.
pub open spec fn spec_workspace_members(content: Seq<char>) -> Seq<Seq<char>> {
    members_of_lines(text::split_lines_spec(content), 0, false)
}

fn clean_member(field: &Vec<char>) -> (r: Vec<char>)
    ensures
        r@ == member_of(field@),
{
    let t = text::trim_chars(field);
    let q = trim_char_exec(&t, '"');
    trim_char_exec(&q, '\'')
}

fn field_members(fields: &Vec<Vec<char>>) -> (r: Vec<Vec<char>>)
    ensures
        r.deep_view() == members_of_fields(fields.deep_view(), 0),
{
    let ghost fv = fields.deep_view();
    let mut r: Vec<Vec<char>> = Vec::new();
    let mut i: usize = 0;
    while i < fields.len()
        invariant
            i <= fields.len(),
            fv == fields.deep_view(),
            members_of_fields(fv, 0) == r.deep_view() + members_of_fields(fv, i as int),
        decreases fields.len() - i,
    {
        let m = clean_member(&fields[i]);
        proof {
            assert(fv[i as int] =~= fields@[i as int]@);
        }
        assert(m@ == member_of(fv[i as int]));
        let star = crate::labels::next_char_exec(&m, 0, '*');
        let ghost r0 = r.deep_view();
        if m.len() > 0 && star >= m.len() {
            let keep = m;
            r.push(keep);
            proof {
                assert(r.deep_view() =~~= r0.push(member_of(fv[i as int])));
                assert(r0 + (seq![member_of(fv[i as int])] + members_of_fields(fv, i + 1))
                    =~~= r.deep_view() + members_of_fields(fv, i + 1));
            }
        }
        i = i + 1;
    }
    proof {
        assert(members_of_fields(fv, fields@.len() as int) =~~= Seq::<Seq<char>>::empty());
        assert(members_of_fields(fv, 0) =~~= r.deep_view());
    }
    r
}

/// Read the workspace members a manifest names.
pub fn workspace_members(content: &str) -> (r: Vec<String>)
    ensures
        r@.len() == spec_workspace_members(content@).len(),
        forall|k: int|
            0 <= k < r@.len() ==> (#[trigger] r@[k])@ == spec_workspace_members(content@)[k],
{
    let chars = text::str_chars(content);
    let lines = text::split_lines(&chars);
    let ghost ls = text::split_lines_spec(content@);
    let ws_header = text::str_chars("[workspace]");
    let members_kw = text::str_chars("members");
    let mut out: Vec<String> = Vec::new();
    let ghost mut done: Seq<Seq<char>> = Seq::empty();
    let mut in_ws = false;
    let mut i: usize = 0;
    while i < lines.len()
        invariant
            i <= lines.len(),
            lines.deep_view() == ls,
            ls == text::split_lines_spec(content@),
            forall|k: int| 0 <= k < lines@.len() ==> (#[trigger] lines@[k])@ == ls[k],
            ws_header@ == "[workspace]"@,
            members_kw@ == "members"@,
            spec_workspace_members(content@) == done + members_of_lines(ls, i as int, in_ws),
            out@.len() == done.len(),
            forall|k: int| 0 <= k < done.len() ==> (#[trigger] out@[k])@ == done[k],
        decreases lines.len() - i,
    {
        let line = &lines[i];
        let t = text::trim_chars(line);
        if text::chars_eq(&t, &ws_header) {
            in_ws = true;
        } else if t.len() > 0 && t[0] == '[' {
            in_ws = false;
        } else {
            let kw_here = members_kw.len() <= t.len() && text::matches_here(&t, &members_kw, 0);
            let start = crate::labels::next_char_exec(line, 0, '[');
            if in_ws && kw_here && start < line.len() {
                let end = crate::labels::next_char_exec(line, 0, ']');
                if end < line.len() && start + 1 <= end {
                    let mut list: Vec<char> = Vec::new();
                    let mut k: usize = start + 1;
                    while k < end
                        invariant
                            start + 1 <= k <= end <= line@.len(),
                            list@ == line@.subrange(start + 1, k as int),
                        decreases end - k,
                    {
                        list.push(line[k]);
                        assert(list@ =~= line@.subrange(start + 1, k + 1));
                        k = k + 1;
                    }
                    let fields = text::split_chars(&list, ',');
                    let members = field_members(&fields);
                    let mut q: usize = 0;
                    let ghost added = members_of_fields(
                        text::split_from(ls[i as int].subrange(start + 1, end as int), 0, ','),
                        0,
                    );
                    proof {
                        assert(list@ =~= ls[i as int].subrange(start + 1, end as int));
                        assert(members.deep_view() =~~= added);
                    }
                    while q < members.len()
                        invariant
                            q <= members.len(),
                            members.deep_view() == added,
                            forall|kk: int|
                                0 <= kk < members@.len() ==> (#[trigger] members@[kk])@ == added[
                                    kk
                                ],
                            out@.len() == done.len() + q,
                            forall|kk: int|
                                0 <= kk < done.len() ==> (#[trigger] out@[kk])@ == done[kk],
                            forall|kk: int|
                                0 <= kk < q ==> (#[trigger] out@[done.len() + kk])@ == added[kk],
                        decreases members.len() - q,
                    {
                        let m = text::chars_string(&members[q]);
                        out.push(m);
                        q = q + 1;
                    }
                    proof {
                        let done0 = done;
                        done = done + added;
                        assert(spec_workspace_members(content@) =~= done + members_of_lines(
                            ls,
                            i + 1,
                            in_ws,
                        ));
                        assert forall|k: int| 0 <= k < done.len() implies (#[trigger] out@[k])@
                            == done[k] by {
                            if k < done0.len() {
                                assert(out@[k]@ == done0[k]);
                            } else {
                                assert(done[k] == added[k - done0.len()]);
                                assert(out@[done0.len() + (k - done0.len())]@ == added[k
                                    - done0.len()]);
                            }
                        }
                    }
                }
            }
        }
        i = i + 1;
    }
    proof {
        assert(members_of_lines(ls, lines@.len() as int, in_ws) =~~= Seq::<Seq<char>>::empty());
        assert(spec_workspace_members(content@) =~= done);
    }
    out
}

} // verus!
