//! Version bumping over configuration text: reading and rewriting
//! `Var = "x.y.z"` assignments, source and build hashes in the build
//! files, and the hash a failed verification build prints.

use vstd::prelude::*;
use crate::text;

verus! {

/// How a tool managed by the bump flow is installed.
#[derive(Clone, Copy, PartialEq, Eq, Structural, Debug)]
pub enum InstallMode {
    Binstall,
    Source,
}

/// One crate the bump flow manages: its package name, the version
/// variable naming it in the build files, and its install mode.
#[derive(Debug)]
pub struct CrateConfig {
    pub name: String,
    pub version_var: String,
    pub mode: InstallMode,
}

/// Extract `major.minor` from a version string; a string with fewer than
/// two dot-separated fields is returned unchanged.
pub open spec fn spec_partial_semver(s: Seq<char>) -> Seq<char> {
    let parts = text::split_from(s, 0, '.');
    if parts.len() >= 2 {
        parts[0] + seq!['.'] + parts[1]
    } else {
        s
    }
}

/// Extract `major.minor` from a version string.
pub fn to_partial_semver(version: &str) -> (r: String)
    ensures
        r@ == spec_partial_semver(version@),
{
    let chars = text::str_chars(version);
    let parts = text::split_chars(&chars, '.');
    if parts.len() >= 2 {
        let mut out: Vec<char> = Vec::new();
        let mut i: usize = 0;
        while i < parts[0].len()
            invariant
                i <= parts@[0]@.len(),
                parts@.len() >= 2,
                out@ == parts@[0]@.subrange(0, i as int),
            decreases parts[0].len() - i,
        {
            out.push(parts[0][i]);
            assert(out@ =~= parts@[0]@.subrange(0, i + 1));
            i = i + 1;
        }
        out.push('.');
        let mut j: usize = 0;
        while j < parts[1].len()
            invariant
                j <= parts@[1]@.len(),
                parts@.len() >= 2,
                out@ == parts@[0]@ + seq!['.'] + parts@[1]@.subrange(0, j as int),
        decreases parts[1].len() - j,
        {
            out.push(parts[1][j]);
            assert(out@ =~= parts@[0]@ + seq!['.'] + parts@[1]@.subrange(0, j + 1));
            j = j + 1;
        }
        proof {
            assert(parts@[0]@.subrange(0, parts@[0]@.len() as int) =~= parts@[0]@);
            assert(out@.subrange(0, 0) =~= Seq::<char>::empty());
            assert(out@ =~= parts.deep_view()[0] + seq!['.'] + parts.deep_view()[1]);
        }
        text::chars_string(&out)
    } else {
        text::chars_string(&chars)
    }
}

/// The text that introduces a version assignment: `Var = "`.
pub open spec fn needle_of(var: Seq<char>) -> Seq<char> {
    var + " = \""@
}

/// The first `"` at or after `i`, or the end of `s`.
pub open spec fn next_quote(s: Seq<char>, i: int) -> int
    decreases s.len() - i,
{
    if i < 0 || i >= s.len() {
        s.len() as int
    } else if s[i] == '"' {
        i
    } else {
        next_quote(s, i + 1)
    }
}

/// A version assignment `Var = "value"` matching at offset `p`: the value
/// (at least one character, no quote) and the offset of its closing quote.
pub open spec fn version_at(s: Seq<char>, var: Seq<char>, p: int) -> Option<(Seq<char>, int)> {
    let nd = needle_of(var);
    if text::match_at(s, nd, p) {
        let q0 = p + nd.len();
        let q = next_quote(s, q0);
        if q0 < q < s.len() {
            Some((s.subrange(q0, q), q))
        } else {
            None
        }
    } else {
        None
    }
}

/// The leftmost version assignment for `var` at or after `p`.
pub open spec fn find_version_from(s: Seq<char>, var: Seq<char>, p: int) -> Option<
    (Seq<char>, int),
>
    decreases s.len() + 1 - p,
{
    if p < 0 || p > s.len() {
        None
    } else if version_at(s, var, p) is Some {
        version_at(s, var, p)
    } else {
        find_version_from(s, var, p + 1)
    }
}

fn build_needle(var: &Vec<char>) -> (r: Vec<char>)
    ensures
        r@ == needle_of(var@),
{
    let mut r = text::copy_chars(var);
    r.push(' ');
    r.push('=');
    r.push(' ');
    r.push('"');
    proof {
        reveal_strlit(" = \"");
        assert(r@ =~= var@ + " = \""@);
    }
    r
}

fn next_quote_exec(s: &Vec<char>, i: usize) -> (r: usize)
    requires
        i <= s.len(),
    ensures
        r as int == next_quote(s@, i as int),
        i <= r <= s.len(),
        r < s.len() ==> s@[r as int] == '"',
    decreases s.len() - i,
{
    let mut j: usize = i;
    while j < s.len()
        invariant
            i <= j <= s.len(),
            next_quote(s@, i as int) == next_quote(s@, j as int),
        decreases s.len() - j,
    {
        if s[j] == '"' {
            return j;
        }
        j = j + 1;
    }
    j
}

fn version_at_exec(s: &Vec<char>, needle: &Vec<char>, ghost_var: Ghost<Seq<char>>, p: usize) -> (r:
    Option<(usize, usize)>)
    requires
        needle@ == needle_of(ghost_var@),
        p <= s.len(),
    ensures
        match r {
            Some((q0, q)) => version_at(s@, ghost_var@, p as int) == Some(
                (s@.subrange(q0 as int, q as int), q as int),
            ) && p < q0 <= q < s@.len(),
            None => version_at(s@, ghost_var@, p as int) is None,
        },
{
    proof {
        reveal_strlit(" = \"");
    }
    if needle.len() > s.len() - p {
        return None;
    }
    if !text::matches_here(s, needle, p) {
        return None;
    }
    let q0 = p + needle.len();
    let q = next_quote_exec(s, q0);
    if q0 < q && q < s.len() {
        Some((q0, q))
    } else {
        None
    }
}

/// The leftmost recorded version for `var`, if any.
pub open spec fn spec_current_version(s: Seq<char>, var: Seq<char>) -> Option<Seq<char>> {
    match find_version_from(s, var, 0) {
        Option::Some((v, _)) => Option::Some(v),
        Option::None => Option::None,
    }
}

/// Read the current version recorded as `Var = "value"`, taking the
/// leftmost assignment.
pub fn get_current_version(content: &str, version_var: &str) -> (r: Option<String>)
    ensures
        match r {
            Some(v) => spec_current_version(content@, version_var@) == Some(v@),
            None => spec_current_version(content@, version_var@) is None,
        },
{
    let s = text::str_chars(content);
    let var = text::str_chars(version_var);
    let needle = build_needle(&var);
    let mut p: usize = 0;
    while p < s.len()
        invariant
            p <= s.len(),
            s@ == content@,
            var@ == version_var@,
            needle@ == needle_of(version_var@),
            find_version_from(content@, version_var@, 0) == find_version_from(
                content@,
                version_var@,
                p as int,
            ),
        decreases s.len() - p,
    {
        match version_at_exec(&s, &needle, Ghost(version_var@), p) {
            Option::Some((q0, q)) => {
                let mut out: Vec<char> = Vec::new();
                let mut k: usize = q0;
                while k < q
                    invariant
                        q0 <= k <= q <= s.len(),
                        out@ == s@.subrange(q0 as int, k as int),
                    decreases q - k,
                {
                    out.push(s[k]);
                    assert(out@ =~= s@.subrange(q0 as int, k + 1));
                    k = k + 1;
                }
                proof {
                    assert(out@ =~= s@.subrange(q0 as int, q as int));
                    assert(find_version_from(content@, version_var@, 0) == Some(
                        (out@, q as int),
                    ));
                }
                return Some(text::chars_string(&out));
            },
            Option::None => {},
        }
        p = p + 1;
    }
    proof {
        reveal_strlit(" = \"");
        assert(version_at(content@, version_var@, s@.len() as int) is None);
        assert(find_version_from(content@, version_var@, s@.len() as int + 1) is None);
    }
    None
}

/// `s` with every version assignment for `var` rewritten to `nv`,
/// leftmost-first and non-overlapping.
pub open spec fn update_from(s: Seq<char>, var: Seq<char>, nv: Seq<char>, p: int) -> Seq<char>
    decreases s.len() - p,
{
    if p < 0 || p >= s.len() {
        Seq::empty()
    } else {
        match version_at(s, var, p) {
            Option::Some((_, q)) => {
                let next = if p < q + 1 <= s.len() {
                    q + 1
                } else {
                    p + 1
                };
                needle_of(var) + nv + seq!['"'] + update_from(s, var, nv, next)
            },
            Option::None => seq![s[p]] + update_from(s, var, nv, p + 1),
        }
    }
}

/// Rewrite every `Var = "..."` assignment to carry `new_version`.
pub fn update_version(content: &str, version_var: &str, new_version: &str) -> (r: String)
    ensures
        r@ == update_from(content@, version_var@, new_version@, 0),
{
    let s = text::str_chars(content);
    let var = text::str_chars(version_var);
    let nv = text::str_chars(new_version);
    let needle = build_needle(&var);
    let mut out: Vec<char> = Vec::new();
    let mut p: usize = 0;
    while p < s.len()
        invariant
            p <= s.len(),
            s@ == content@,
            var@ == version_var@,
            nv@ == new_version@,
            needle@ == needle_of(version_var@),
            update_from(content@, version_var@, new_version@, 0) == out@ + update_from(
                content@,
                version_var@,
                new_version@,
                p as int,
            ),
        decreases s.len() - p,
    {
        match version_at_exec(&s, &needle, Ghost(version_var@), p) {
            Option::Some((q0, q)) => {
                let ghost out0 = out@;
                let mut k: usize = 0;
                while k < needle.len()
                    invariant
                        k <= needle.len(),
                        out@ == out0 + needle@.subrange(0, k as int),
                    decreases needle.len() - k,
                {
                    out.push(needle[k]);
                    assert(out@ =~= out0 + needle@.subrange(0, k + 1));
                    k = k + 1;
                }
                let ghost out1 = out@;
                let mut k: usize = 0;
                while k < nv.len()
                    invariant
                        k <= nv.len(),
                        out@ == out1 + nv@.subrange(0, k as int),
                    decreases nv.len() - k,
                {
                    out.push(nv[k]);
                    assert(out@ =~= out1 + nv@.subrange(0, k + 1));
                    k = k + 1;
                }
                out.push('"');
                proof {
                    assert(needle@.subrange(0, needle@.len() as int) =~= needle@);
                    assert(nv@.subrange(0, nv@.len() as int) =~= nv@);
                    assert(out@ =~= out0 + (needle_of(version_var@) + new_version@ + seq!['"']));
                    assert(out0 + ((needle_of(version_var@) + new_version@ + seq!['"'])
                        + update_from(content@, version_var@, new_version@, q + 1)) =~= out@
                        + update_from(content@, version_var@, new_version@, q + 1));
                }
                p = q + 1;
            },
            Option::None => {
                let ghost out0 = out@;
                out.push(s[p]);
                proof {
                    assert(out@ =~= out0 + seq![s@[p as int]]);
                    assert(out0 + (seq![s@[p as int]] + update_from(
                        content@,
                        version_var@,
                        new_version@,
                        p + 1,
                    )) =~= out@ + update_from(content@, version_var@, new_version@, p + 1));
                }
                p = p + 1;
            },
        }
    }
    proof {
        assert(update_from(content@, version_var@, new_version@, s@.len() as int) =~= Seq::<
            char,
        >::empty());
        assert(out@ + Seq::<char>::empty() =~= out@);
    }
    text::chars_string(&out)
}

/// The first `;` at or after `i`, or the end of `s`.
pub open spec fn next_semi(s: Seq<char>, i: int) -> int
    decreases s.len() - i,
{
    if i < 0 || i >= s.len() {
        s.len() as int
    } else if s[i] == ';' {
        i
    } else {
        next_semi(s, i + 1)
    }
}

/// The first non-whitespace offset at or after `i`, or the end of `s`.
pub open spec fn skip_ws(s: Seq<char>, i: int) -> int
    decreases s.len() - i,
{
    if i < 0 || i >= s.len() {
        s.len() as int
    } else if text::is_space_char(s[i]) {
        skip_ws(s, i + 1)
    } else {
        i
    }
}

fn next_semi_exec(s: &Vec<char>, i: usize) -> (r: usize)
    requires
        i <= s.len(),
    ensures
        r as int == next_semi(s@, i as int),
        i <= r <= s.len(),
{
    let mut j: usize = i;
    while j < s.len()
        invariant
            i <= j <= s.len(),
            next_semi(s@, i as int) == next_semi(s@, j as int),
        decreases s.len() - j,
    {
        if s[j] == ';' {
            return j;
        }
        j = j + 1;
    }
    j
}

fn skip_ws_exec(s: &Vec<char>, i: usize) -> (r: usize)
    requires
        i <= s.len(),
    ensures
        r as int == skip_ws(s@, i as int),
        i <= r <= s.len(),
{
    let mut j: usize = i;
    while j < s.len()
        invariant
            i <= j <= s.len(),
            skip_ws(s@, i as int) == skip_ws(s@, j as int),
        decreases s.len() - j,
    {
        let c = s[j];
        if !(c == ' ' || c == '\t' || c == '\r' || c == '\n') {
            return j;
        }
        j = j + 1;
    }
    j
}

/// A `fetchCrate` stanza for `name` matching at offset `p`: the half-open
/// range of its source hash value. The stanza reads `pname = "name";`,
/// whitespace, `version = ...;`, whitespace, `hash = "value"`.
pub open spec fn src_hash_at(s: Seq<char>, name: Seq<char>, p: int) -> Option<(int, int)> {
    let n1 = "pname = \""@ + name + "\";"@;
    if !text::match_at(s, n1, p) {
        None
    } else {
        let b = skip_ws(s, p + n1.len());
        if b == p + n1.len() {
            None
        } else if !text::match_at(s, "version = "@, b) {
            None
        } else {
            let c0 = b + "version = "@.len();
            let d = next_semi(s, c0);
            if !(c0 < d < s.len()) {
                None
            } else {
                let f = skip_ws(s, d + 1);
                if f == d + 1 {
                    None
                } else if !text::match_at(s, "hash = \""@, f) {
                    None
                } else {
                    let g0 = f + "hash = \""@.len();
                    let h = next_quote(s, g0);
                    if g0 < h < s.len() {
                        Some((g0, h))
                    } else {
                        None
                    }
                }
            }
        }
    }
}

/// The leftmost `fetchCrate` stanza for `name` at or after `p`.
pub open spec fn find_src_hash_from(s: Seq<char>, name: Seq<char>, p: int) -> Option<(int, int)>
    decreases s.len() + 1 - p,
{
    if p < 0 || p > s.len() {
        None
    } else if src_hash_at(s, name, p) is Some {
        src_hash_at(s, name, p)
    } else {
        find_src_hash_from(s, name, p + 1)
    }
}

/// `s` with the first `fetchCrate` source hash for `name` replaced by
/// `nh`; unchanged when no stanza matches.
pub open spec fn spec_update_src_hash(s: Seq<char>, name: Seq<char>, nh: Seq<char>) -> Seq<
    char,
> {
    match find_src_hash_from(s, name, 0) {
        Option::Some((a, b)) => text::splice_spec(s, a, b, nh),
        Option::None => s,
    }
}

fn src_hash_at_exec(
    s: &Vec<char>,
    n1: &Vec<char>,
    ghost_name: Ghost<Seq<char>>,
    p: usize,
) -> (r: Option<(usize, usize)>)
    requires
        n1@ == "pname = \""@ + ghost_name@ + "\";"@,
        p <= s.len(),
    ensures
        match r {
            Some((a, b)) => src_hash_at(s@, ghost_name@, p as int) == Some((a as int, b as int))
                && p <= a <= b <= s.len(),
            None => src_hash_at(s@, ghost_name@, p as int) is None,
        },
{
    if n1.len() > s.len() - p {
        return None;
    }
    if !text::matches_here(s, n1, p) {
        return None;
    }
    let b = skip_ws_exec(s, p + n1.len());
    if b == p + n1.len() {
        return None;
    }
    let n2 = text::str_chars("version = ");
    if n2.len() > s.len() - b {
        return None;
    }
    if !text::matches_here(s, &n2, b) {
        return None;
    }
    let c0 = b + n2.len();
    let d = next_semi_exec(s, c0);
    if !(c0 < d && d < s.len()) {
        return None;
    }
    let f = skip_ws_exec(s, d + 1);
    if f == d + 1 {
        return None;
    }
    let n3 = text::str_chars("hash = \"");
    if n3.len() > s.len() - f {
        return None;
    }
    if !text::matches_here(s, &n3, f) {
        return None;
    }
    let g0 = f + n3.len();
    let h = next_quote_exec(s, g0);
    if g0 < h && h < s.len() {
        Some((g0, h))
    } else {
        None
    }
}

/// Replace the source hash in the first `fetchCrate` stanza for `name`.
pub fn update_src_hash(content: &str, crate_name: &str, new_hash: &str) -> (r: String)
    ensures
        r@ == spec_update_src_hash(content@, crate_name@, new_hash@),
{
    let s = text::str_chars(content);
    let nh = text::str_chars(new_hash);
    let mut n1 = text::str_chars("pname = \"");
    let name_chars = text::str_chars(crate_name);
    let mut k: usize = 0;
    while k < name_chars.len()
        invariant
            k <= name_chars.len(),
            name_chars@ == crate_name@,
            n1@ == "pname = \""@ + crate_name@.subrange(0, k as int),
        decreases name_chars.len() - k,
    {
        n1.push(name_chars[k]);
        assert(n1@ =~= "pname = \""@ + crate_name@.subrange(0, k + 1));
        k = k + 1;
    }
    n1.push('"');
    n1.push(';');
    proof {
        assert(crate_name@.subrange(0, crate_name@.len() as int) =~= crate_name@);
        reveal_strlit("\";");
        assert(n1@ =~= "pname = \""@ + crate_name@ + "\";"@);
    }
    let mut p: usize = 0;
    while p < s.len()
        invariant
            p <= s.len(),
            s@ == content@,
            nh@ == new_hash@,
            n1@ == "pname = \""@ + crate_name@ + "\";"@,
            find_src_hash_from(content@, crate_name@, 0) == find_src_hash_from(
                content@,
                crate_name@,
                p as int,
            ),
        decreases s.len() - p,
    {
        match src_hash_at_exec(&s, &n1, Ghost(crate_name@), p) {
            Option::Some((a, b)) => {
                let out = text::splice(&s, a, b, &nh);
                return text::chars_string(&out);
            },
            Option::None => {},
        }
        p = p + 1;
    }
    proof {
        reveal_strlit("pname = \"");
        assert(src_hash_at(content@, crate_name@, s@.len() as int) is None);
        assert(find_src_hash_from(content@, crate_name@, s@.len() as int + 1) is None);
    }
    text::chars_string(&s)
}

/// The hash a line of failed-build output offers: the line, trimmed, must
/// read `got:` followed by a `sha256-` hash.
pub open spec fn got_hash_of_line(line: Seq<char>) -> Option<Seq<char>> {
    let t = text::trim_spec(line);
    if t.len() >= 4 && t.subrange(0, 4) == "got:"@ {
        let h = text::trim_spec(t.subrange(4, t.len() as int));
        if h.len() >= 7 && h.subrange(0, 7) == "sha256-"@ {
            Some(h)
        } else {
            None
        }
    } else {
        None
    }
}

/// The first hash offered by the lines `ls[i..]`.
pub open spec fn extract_got_from(ls: Seq<Seq<char>>, i: int) -> Option<Seq<char>>
    decreases ls.len() - i,
{
    if i < 0 || i >= ls.len() {
        None
    } else if got_hash_of_line(ls[i]) is Some {
        got_hash_of_line(ls[i])
    } else {
        extract_got_from(ls, i + 1)
    }
}

fn got_hash_of_line_exec(line: &Vec<char>) -> (r: Option<Vec<char>>)
    ensures
        match r {
            Some(h) => got_hash_of_line(line@) == Some(h@),
            None => got_hash_of_line(line@) is None,
        },
{
    proof {
        reveal_strlit("got:");
        reveal_strlit("sha256-");
    }
    let t = text::trim_chars(line);
    let got = text::str_chars("got:");
    if got.len() > t.len() {
        return None;
    }
    if !text::matches_here(&t, &got, 0) {
        return None;
    }
    let mut rest: Vec<char> = Vec::new();
    let mut k: usize = 4;
    while k < t.len()
        invariant
            4 <= k <= t.len(),
            rest@ == t@.subrange(4, k as int),
        decreases t.len() - k,
    {
        rest.push(t[k]);
        assert(rest@ =~= t@.subrange(4, k + 1));
        k = k + 1;
    }
    let h = text::trim_chars(&rest);
    let sha = text::str_chars("sha256-");
    if sha.len() > h.len() {
        return None;
    }
    if !text::matches_here(&h, &sha, 0) {
        return None;
    }
    Some(h)
}

/// Scan failed-build output for the `got: sha256-...` line that names the
/// hash the build expected.
pub fn get_cargo_hash_from_build_output(stderr: &str) -> (r: Option<String>)
    ensures
        match r {
            Some(h) => extract_got_from(text::split_lines_spec(stderr@), 0) == Some(h@),
            None => extract_got_from(text::split_lines_spec(stderr@), 0) is None,
        },
{
    let chars = text::str_chars(stderr);
    let lines = text::split_lines(&chars);
    let ghost ls = text::split_lines_spec(stderr@);
    let mut i: usize = 0;
    while i < lines.len()
        invariant
            i <= lines.len(),
            lines.deep_view() == ls,
            ls == text::split_lines_spec(stderr@),
            forall|k: int| 0 <= k < lines@.len() ==> (#[trigger] lines@[k])@ == ls[k],
            extract_got_from(ls, 0) == extract_got_from(ls, i as int),
        decreases lines.len() - i,
    {
        match got_hash_of_line_exec(&lines[i]) {
            Option::Some(h) => {
                return Some(text::chars_string(&h));
            },
            Option::None => {},
        }
        i = i + 1;
    }
    None
}

/// A `cargoHash = "value"` assignment matching at offset `p` of a line:
/// the offsets of the value and of its closing quote.
pub open spec fn cargo_at(line: Seq<char>, p: int) -> Option<(int, int)> {
    let nd = "cargoHash = \""@;
    if text::match_at(line, nd, p) {
        let q0 = p + nd.len();
        let q = next_quote(line, q0);
        if q0 < q < line.len() {
            Some((q0, q))
        } else {
            None
        }
    } else {
        None
    }
}

/// The leftmost `cargoHash` assignment at or after `p`.
pub open spec fn find_cargo_at(line: Seq<char>, p: int) -> Option<(int, int)>
    decreases line.len() + 1 - p,
{
    if p < 0 || p > line.len() {
        None
    } else if cargo_at(line, p) is Some {
        cargo_at(line, p)
    } else {
        find_cargo_at(line, p + 1)
    }
}

fn cargo_at_exec(line: &Vec<char>, nd: &Vec<char>, p: usize) -> (r: Option<(usize, usize)>)
    requires
        nd@ == "cargoHash = \""@,
        p <= line.len(),
    ensures
        match r {
            Some((q0, q)) => cargo_at(line@, p as int) == Some((q0 as int, q as int)) && p < q0
                <= q < line@.len(),
            None => cargo_at(line@, p as int) is None,
        },
{
    proof {
        reveal_strlit("cargoHash = \"");
    }
    if nd.len() > line.len() - p {
        return None;
    }
    if !text::matches_here(line, nd, p) {
        return None;
    }
    let q0 = p + nd.len();
    let q = next_quote_exec(line, q0);
    if q0 < q && q < line.len() {
        Some((q0, q))
    } else {
        None
    }
}

fn find_cargo_exec(line: &Vec<char>, nd: &Vec<char>) -> (r: Option<(usize, usize)>)
    requires
        nd@ == "cargoHash = \""@,
    ensures
        match r {
            Some((q0, q)) => find_cargo_at(line@, 0) == Some((q0 as int, q as int)) && 0 < q0
                <= q < line@.len(),
            None => find_cargo_at(line@, 0) is None,
        },
{
    let mut p: usize = 0;
    while p < line.len()
        invariant
            p <= line.len(),
            nd@ == "cargoHash = \""@,
            find_cargo_at(line@, 0) == find_cargo_at(line@, p as int),
        decreases line.len() - p,
    {
        match cargo_at_exec(line, nd, p) {
            Option::Some(qs) => {
                return Some(qs);
            },
            Option::None => {},
        }
        p = p + 1;
    }
    proof {
        reveal_strlit("cargoHash = \"");
        assert(cargo_at(line@, line@.len() as int) is None);
        assert(find_cargo_at(line@, line@.len() as int + 1) is None);
    }
    None
}

/// The `pname = "name"` marker that opens a crate's stanza.
pub open spec fn pname_marker(name: Seq<char>) -> Seq<char> {
    "pname = \""@ + name + "\""@
}

/// Whether `pat` occurs in `s`.
pub open spec fn contains_spec(s: Seq<char>, pat: Seq<char>) -> bool {
    text::find_spec(s, pat) is Some
}

/// The line with its first `cargoHash = "..."` assignment rewritten to
/// `nh`; unchanged when none matches fully.
pub open spec fn replace_cargo_line(line: Seq<char>, nh: Seq<char>) -> Seq<char> {
    match find_cargo_at(line, 0) {
        Option::Some((q0, q)) => text::splice_spec(line, q0, q, nh),
        Option::None => line,
    }
}

/// The lines after rewriting the first `cargoHash` assignment inside the
/// stanza of `name`: lines are copied until the stanza opens, the first
/// `cargoHash` line within it is rewritten, and the rest stay as they are.
pub open spec fn update_cargo_lines(
    ls: Seq<Seq<char>>,
    i: int,
    name: Seq<char>,
    nh: Seq<char>,
    in_block: bool,
) -> Seq<Seq<char>>
    decreases ls.len() - i,
{
    if i < 0 || i >= ls.len() {
        Seq::empty()
    } else {
        let line = ls[i];
        let in2 = in_block || contains_spec(line, pname_marker(name));
        if in2 && contains_spec(line, "cargoHash = "@) {
            seq![replace_cargo_line(line, nh)] + ls.subrange(i + 1, ls.len() as int)
        } else {
            seq![line] + update_cargo_lines(ls, i + 1, name, nh, in2)
        }
    }
}

/// The lines joined with single newlines.
pub open spec fn join_lines(ls: Seq<Seq<char>>, i: int) -> Seq<char>
    decreases ls.len() - i,
{
    if i < 0 || i >= ls.len() {
        Seq::empty()
    } else if i == ls.len() - 1 {
        ls[i]
    } else {
        ls[i] + seq!['\n'] + join_lines(ls, i + 1)
    }
}

fn contains_exec(line: &Vec<char>, pat: &Vec<char>) -> (r: bool)
    ensures
        r == contains_spec(line@, pat@),
{
    match text::find_sub(line, pat) {
        Option::Some(_) => true,
        Option::None => false,
    }
}

fn build_pname_marker(crate_name: &str) -> (r: Vec<char>)
    ensures
        r@ == pname_marker(crate_name@),
{
    let mut m = text::str_chars("pname = \"");
    let name_chars = text::str_chars(crate_name);
    text::append_chars(&mut m, &name_chars);
    m.push('"');
    proof {
        reveal_strlit("\"");
        assert(m@ =~= "pname = \""@ + crate_name@ + "\""@);
    }
    m
}

/// Rewrite the `cargoHash` recorded in the build stanza of `crate_name`.
pub fn update_cargo_hash(content: &str, crate_name: &str, new_hash: &str) -> (r: String)
    ensures
        r@ == join_lines(
            update_cargo_lines(
                text::split_lines_spec(content@),
                0,
                crate_name@,
                new_hash@,
                false,
            ),
            0,
        ),
{
    let chars = text::str_chars(content);
    let lines = text::split_lines(&chars);
    let ghost ls = text::split_lines_spec(content@);
    let nh = text::str_chars(new_hash);
    let marker = build_pname_marker(crate_name);
    let needle = text::str_chars("cargoHash = ");
    let cargo_nd = text::str_chars("cargoHash = \"");
    let mut out: Vec<Vec<char>> = Vec::new();
    let mut in_block = false;
    let mut i: usize = 0;
    let ghost upd = update_cargo_lines(ls, 0, crate_name@, new_hash@, false);
    while i < lines.len()
        invariant
            i <= lines.len(),
            lines.deep_view() == ls,
            forall|k: int| 0 <= k < lines@.len() ==> (#[trigger] lines@[k])@ == ls[k],
            nh@ == new_hash@,
            marker@ == pname_marker(crate_name@),
            needle@ == "cargoHash = "@,
            cargo_nd@ == "cargoHash = \""@,
            upd == update_cargo_lines(ls, 0, crate_name@, new_hash@, false),
            upd == out.deep_view() + update_cargo_lines(
                ls,
                i as int,
                crate_name@,
                new_hash@,
                in_block,
            ),
        decreases lines.len() - i,
    {
        proof {
            reveal_strlit("cargoHash = ");
        }
        let line = &lines[i];
        let here = contains_exec(line, &marker);
        let in2 = in_block || here;
        if in2 && contains_exec(line, &needle) {
            let ghost out0 = out.deep_view();
            let new_line = match find_cargo_exec(line, &cargo_nd) {
                Option::Some((q0, q)) => text::splice(line, q0, q, &nh),
                Option::None => text::copy_chars(line),
            };
            assert(new_line@ == replace_cargo_line(ls[i as int], new_hash@));
            out.push(new_line);
            proof {
                assert(out.deep_view() =~~= out0.push(
                    replace_cargo_line(ls[i as int], new_hash@),
                ));
            }
            let mut j: usize = i + 1;
            while j < lines.len()
                invariant
                    i < j <= lines.len(),
                    lines.deep_view() == ls,
                    forall|k: int| 0 <= k < lines@.len() ==> (#[trigger] lines@[k])@ == ls[k],
                    out.deep_view() == out0.push(
                        replace_cargo_line(ls[i as int], new_hash@),
                    ) + ls.subrange(i + 1, j as int),
                decreases lines.len() - j,
            {
                let ghost outb = out.deep_view();
                let copied = text::copy_chars(&lines[j]);
                out.push(copied);
                proof {
                    assert(out.deep_view() =~~= outb.push(ls[j as int]));
                    assert(ls.subrange(i + 1, j + 1) =~= ls.subrange(i + 1, j as int).push(
                        ls[j as int],
                    ));
                    assert(outb.push(ls[j as int]) =~~= out0.push(
                        replace_cargo_line(ls[i as int], new_hash@),
                    ) + ls.subrange(i + 1, j + 1));
                }
                j = j + 1;
            }
            proof {
                assert(upd =~~= out.deep_view());
            }
            i = lines.len();
        } else {
            let ghost out0 = out.deep_view();
            let copied = text::copy_chars(line);
            out.push(copied);
            proof {
                assert(out.deep_view() =~~= out0.push(ls[i as int]));
                assert(out0 + (seq![ls[i as int]] + update_cargo_lines(
                    ls,
                    i + 1,
                    crate_name@,
                    new_hash@,
                    in2,
                )) =~~= out.deep_view() + update_cargo_lines(
                    ls,
                    i + 1,
                    crate_name@,
                    new_hash@,
                    in2,
                ));
            }
            in_block = in2;
            i = i + 1;
        }
    }
    proof {
        if i == lines.len() {
        }
        assert(update_cargo_lines(ls, lines@.len() as int, crate_name@, new_hash@, in_block)
            =~~= Seq::<Seq<char>>::empty());
    }
    let mut joined: Vec<char> = Vec::new();
    let mut k: usize = 0;
    proof {
        assert(upd =~~= out.deep_view());
    }
    while k < out.len()
        invariant
            k <= out.len(),
            upd == out.deep_view(),
            forall|q: int| 0 <= q < out@.len() ==> (#[trigger] out@[q])@ == upd[q],
            k < out.len() ==> joined@ + join_lines(upd, k as int) == join_lines(upd, 0),
            k == out.len() ==> joined@ == join_lines(upd, 0),
        decreases out.len() - k,
    {
        text::append_chars(&mut joined, &out[k]);
        if k + 1 < out.len() {
            joined.push('\n');
        }
        proof {
            if k + 1 < out.len() {
                assert(joined@ =~= (joined@.subrange(
                    0,
                    joined@.len() - 1 - upd[k as int].len(),
                ) + upd[k as int]) + seq!['\n']);
            }
        }
        k = k + 1;
    }
    text::chars_string(&joined)
}

/// The `cargoHash` value recorded in the stanza of `name`, scanning the
/// lines in order and stopping at the stanza's first `cargoHash` line.
pub open spec fn find_hash_lines(
    ls: Seq<Seq<char>>,
    i: int,
    name: Seq<char>,
    in_block: bool,
) -> Option<Seq<char>>
    decreases ls.len() - i,
{
    if i < 0 || i >= ls.len() {
        None
    } else {
        let line = ls[i];
        let in2 = in_block || contains_spec(line, pname_marker(name));
        if in2 && contains_spec(line, "cargoHash = "@) {
            match find_cargo_at(line, 0) {
                Option::Some((q0, q)) => Some(line.subrange(q0, q)),
                Option::None => None,
            }
        } else {
            find_hash_lines(ls, i + 1, name, in2)
        }
    }
}

/// Read the `cargoHash` recorded in the build stanza of `crate_name`.
pub fn find_cargo_hash(content: &str, crate_name: &str) -> (r: Option<String>)
    ensures
        match r {
            Some(h) => find_hash_lines(
                text::split_lines_spec(content@),
                0,
                crate_name@,
                false,
            ) == Some(h@),
            None => find_hash_lines(
                text::split_lines_spec(content@),
                0,
                crate_name@,
                false,
            ) is None,
        },
{
    let chars = text::str_chars(content);
    let lines = text::split_lines(&chars);
    let ghost ls = text::split_lines_spec(content@);
    let marker = build_pname_marker(crate_name);
    let needle = text::str_chars("cargoHash = ");
    let cargo_nd = text::str_chars("cargoHash = \"");
    let mut in_block = false;
    let mut i: usize = 0;
    while i < lines.len()
        invariant
            i <= lines.len(),
            lines.deep_view() == ls,
            ls == text::split_lines_spec(content@),
            forall|k: int| 0 <= k < lines@.len() ==> (#[trigger] lines@[k])@ == ls[k],
            marker@ == pname_marker(crate_name@),
            needle@ == "cargoHash = "@,
            cargo_nd@ == "cargoHash = \""@,
            find_hash_lines(ls, 0, crate_name@, false) == find_hash_lines(
                ls,
                i as int,
                crate_name@,
                in_block,
            ),
        decreases lines.len() - i,
    {
        proof {
            reveal_strlit("cargoHash = ");
        }
        let line = &lines[i];
        let in2 = in_block || contains_exec(line, &marker);
        if in2 && contains_exec(line, &needle) {
            match find_cargo_exec(line, &cargo_nd) {
                Option::Some((q0, q)) => {
                    let mut out: Vec<char> = Vec::new();
                    let mut k: usize = q0;
                    while k < q
                        invariant
                            q0 <= k <= q <= line@.len(),
                            line@ == ls[i as int],
                            i < lines.len(),
                            out@ == line@.subrange(q0 as int, k as int),
                        decreases q - k,
                    {
                        out.push(line[k]);
                        assert(out@ =~= line@.subrange(q0 as int, k + 1));
                        k = k + 1;
                    }
                    proof {
                        assert(find_hash_lines(ls, i as int, crate_name@, in_block) == Some(
                            ls[i as int].subrange(q0 as int, q as int),
                        ));
                    }
                    return Some(text::chars_string(&out));
                },
                Option::None => {
                    proof {
                        assert(find_hash_lines(ls, i as int, crate_name@, in_block) is None);
                    }
                    return None;
                },
            }
        }
        in_block = in2;
        i = i + 1;
    }
    None
}

/// What one bump decides: nothing to do, or both build files rewritten to
/// the target version.
#[derive(Debug)]
pub enum BumpPlan {
    UpToDate,
    Update { flake_content: String, rs_content: String, version: String },
}

/// The version a bump writes: binstall installs track `major.minor` (the
/// installer resolves the newest matching patch), source builds the exact
/// release.
pub open spec fn spec_target_version(mode: InstallMode, latest_full: Seq<char>) -> Seq<char> {
    if mode is Binstall {
        spec_partial_semver(latest_full)
    } else {
        latest_full
    }
}

/// The error reported when the version variable is missing.
pub open spec fn missing_var_message(var: Seq<char>) -> Seq<char> {
    "Could not find "@ + var + " in flake.nix"@
}

/// Decide one crate's bump from the fetched latest version and the two
/// build files: nothing when the recorded version already matches the
/// target, otherwise both files rewritten; an error when the version
/// variable is absent from the flake.
pub fn bump_crate(cfg: &CrateConfig, flake_content: &str, rs_content: &str, latest_full: &str)
    -> (r: Result<BumpPlan, String>)
    ensures
        ({
            let tgt = spec_target_version(cfg.mode, latest_full@);
            match spec_current_version(flake_content@, cfg.version_var@) {
                Option::None => r matches Err(m) && m@ == missing_var_message(cfg.version_var@),
                Option::Some(cur) => if cur == tgt {
                    r matches Ok(p) && p is UpToDate
                } else {
                    r matches Ok(p) && (p matches BumpPlan::Update {
                        flake_content: f,
                        rs_content: rs,
                        version: v,
                    } && f@ == update_from(flake_content@, cfg.version_var@, tgt, 0) && rs@
                        == update_from(rs_content@, cfg.version_var@, tgt, 0) && v@ == tgt)
                },
            }
        }),
{
    let target = match cfg.mode {
        InstallMode::Binstall => to_partial_semver(latest_full),
        InstallMode::Source => latest_full.to_owned(),
    };
    let current = match get_current_version(flake_content, cfg.version_var.as_str()) {
        Option::Some(c) => c,
        Option::None => {
            let mut m = String::new();
            m.append("Could not find ");
            m.append(cfg.version_var.as_str());
            m.append(" in flake.nix");
            assert(m@ =~= missing_var_message(cfg.version_var@));
            return Err(m);
        },
    };
    if current.eq(&target) {
        Ok(BumpPlan::UpToDate)
    } else {
        let new_flake = update_version(flake_content, cfg.version_var.as_str(), target.as_str());
        let new_rs = update_version(rs_content, cfg.version_var.as_str(), target.as_str());
        Ok(BumpPlan::Update { flake_content: new_flake, rs_content: new_rs, version: target })
    }
}

/// One `--crate` specification: the text before the single colon names
/// the crate, the text after it the install mode.
pub open spec fn spec_parse_crate_spec(s: Seq<char>) -> Result<(Seq<char>, InstallMode), Seq<char>> {
    let parts = text::split_from(s, 0, ':');
    if parts.len() != 2 {
        Result::Err("Invalid crate spec '"@ + s + "': expected 'name:mode'"@)
    } else if parts[1] == "binstall"@ {
        Result::Ok((parts[0], InstallMode::Binstall))
    } else if parts[1] == "source"@ {
        Result::Ok((parts[0], InstallMode::Source))
    } else {
        Result::Err("Unknown mode '"@ + parts[1] + "': expected 'binstall' or 'source'"@)
    }
}

/// Scanning the arguments after the program name: the crates named so
/// far and the postfix, or the first error. `Err("help")` asks for usage.
pub open spec fn scan_args(
    args: Seq<Seq<char>>,
    i: int,
    crates: Seq<(Seq<char>, InstallMode)>,
    postfix: Option<Seq<char>>,
) -> Result<(Seq<(Seq<char>, InstallMode)>, Option<Seq<char>>), Seq<char>>
    decreases args.len() - i,
{
    if i < 0 || i >= args.len() {
        Result::Ok((crates, postfix))
    } else if args[i] == "--help"@ || args[i] == "-h"@ {
        Result::Err("help"@)
    } else if args[i] == "--crate"@ {
        if i + 1 >= args.len() {
            Result::Err("--crate requires an argument"@)
        } else {
            match spec_parse_crate_spec(args[i + 1]) {
                Result::Ok(c) => scan_args(args, i + 2, crates.push(c), postfix),
                Result::Err(m) => Result::Err(m),
            }
        }
    } else if args[i] == "--version-var-postfix"@ {
        if i + 1 >= args.len() {
            Result::Err("--version-var-postfix requires an argument"@)
        } else {
            scan_args(args, i + 2, crates, Some(args[i + 1]))
        }
    } else {
        Result::Err("Unknown argument: "@ + args[i])
    }
}

/// What parsing the whole command line yields: the crate configurations
/// (each version variable is the crate's name with the postfix appended)
/// and the postfix, or the first error.
pub open spec fn spec_parse_args(args: Seq<Seq<char>>) -> Result<
    (Seq<(Seq<char>, Seq<char>, InstallMode)>, Seq<char>),
    Seq<char>,
> {
    match scan_args(args, 1, Seq::empty(), Option::None) {
        Result::Err(m) => Result::Err(m),
        Result::Ok((crates, postfix)) => match postfix {
            Option::None => Result::Err("--version-var-postfix is required"@),
            Option::Some(p) => if crates.len() == 0 {
                Result::Err("At least one --crate argument is required"@)
            } else {
                Result::Ok(
                    (
                        Seq::new(
                            crates.len(),
                            |k: int| (crates[k].0, crates[k].0 + p, crates[k].1),
                        ),
                        p,
                    ),
                )
            },
        },
    }
}

fn parse_crate_spec(s: &String) -> (r: Result<(String, InstallMode), String>)
    ensures
        match r {
            Ok((n, m)) => spec_parse_crate_spec(s@) == Result::<
                (Seq<char>, InstallMode),
                Seq<char>,
            >::Ok((n@, m)),
            Err(e) => spec_parse_crate_spec(s@) == Result::<
                (Seq<char>, InstallMode),
                Seq<char>,
            >::Err(e@),
        },
{
    let chars = text::str_chars(s.as_str());
    let parts = text::split_chars(&chars, ':');
    if parts.len() != 2 {
        let mut m = String::new();
        m.append("Invalid crate spec '");
        m.append(s.as_str());
        m.append("': expected 'name:mode'");
        assert(m@ =~= "Invalid crate spec '"@ + s@ + "': expected 'name:mode'"@);
        return Err(m);
    }
    let name = text::chars_string(&parts[0]);
    if text::chars_eq(&parts[1], &text::str_chars("binstall")) {
        Ok((name, InstallMode::Binstall))
    } else if text::chars_eq(&parts[1], &text::str_chars("source")) {
        Ok((name, InstallMode::Source))
    } else {
        let mut m = String::new();
        m.append("Unknown mode '");
        let other = text::chars_string(&parts[1]);
        m.append(other.as_str());
        m.append("': expected 'binstall' or 'source'");
        assert(m@ =~= "Unknown mode '"@ + parts.deep_view()[1] + "': expected 'binstall' or 'source'"@);
        Err(m)
    }
}

/// Parse the bump command line (the first argument is the program name):
/// `--crate name:mode`, repeatable, and `--version-var-postfix text`.
pub fn parse_args(args: &Vec<String>) -> (r: Result<(Vec<CrateConfig>, String), String>)
    ensures
        ({
            let sv = text::strs_view(args@);
            match r {
                Ok((configs, postfix)) => match spec_parse_args(sv) {
                    Result::Ok((cs, p)) => {
                        &&& postfix@ == p
                        &&& configs@.len() == cs.len()
                        &&& forall|k: int|
                            0 <= k < cs.len() ==> (#[trigger] configs@[k]).name@ == cs[k].0
                                && configs@[k].version_var@ == cs[k].1 && configs@[k].mode
                                == cs[k].2
                    },
                    Result::Err(_) => false,
                },
                Err(m) => spec_parse_args(sv) matches Result::Err(em) && em == m@,
            }
        }),
{
    let ghost sv = text::strs_view(args@);
    let mut crates: Vec<(String, InstallMode)> = Vec::new();
    let ghost mut gcrates: Seq<(Seq<char>, InstallMode)> = Seq::empty();
    let mut postfix: Option<String> = Option::None;
    let ghost mut gpostfix: Option<Seq<char>> = Option::None;
    let mut i: usize = 1;
    while i < args.len()
        invariant
            1 <= i,
            sv == text::strs_view(args@),
            scan_args(sv, 1, Seq::empty(), Option::None) == scan_args(
                sv,
                i as int,
                gcrates,
                gpostfix,
            ),
            crates@.len() == gcrates.len(),
            forall|k: int|
                0 <= k < gcrates.len() ==> (#[trigger] crates@[k]).0@ == gcrates[k].0 && crates@[
                    k
                ].1 == gcrates[k].1,
            match postfix {
                Option::Some(p) => gpostfix matches Option::Some(gp) && gp == p@,
                Option::None => gpostfix is None,
            },
        decreases args.len() - i,
    {
        let arg = &args[i];
        if text::str_eq(arg.as_str(), "--help") || text::str_eq(arg.as_str(), "-h") {
            return Err("help".to_owned());
        } else if text::str_eq(arg.as_str(), "--crate") {
            if i + 1 >= args.len() {
                return Err("--crate requires an argument".to_owned());
            }
            match parse_crate_spec(&args[i + 1]) {
                Ok((name, mode)) => {
                    proof {
                        gcrates = gcrates.push((name@, mode));
                    }
                    crates.push((name, mode));
                    i = i + 2;
                },
                Err(m) => {
                    return Err(m);
                },
            }
        } else if text::str_eq(arg.as_str(), "--version-var-postfix") {
            if i + 1 >= args.len() {
                return Err("--version-var-postfix requires an argument".to_owned());
            }
            let p = args[i + 1].clone();
            proof {
                gpostfix = Option::Some(p@);
            }
            postfix = Option::Some(p);
            i = i + 2;
        } else {
            let mut m = String::new();
            m.append("Unknown argument: ");
            m.append(arg.as_str());
            assert(m@ =~= "Unknown argument: "@ + sv[i as int]);
            return Err(m);
        }
    }
    let p = match postfix {
        Option::Some(p) => p,
        Option::None => {
            return Err("--version-var-postfix is required".to_owned());
        },
    };
    if crates.len() == 0 {
        return Err("At least one --crate argument is required".to_owned());
    }
    let mut configs: Vec<CrateConfig> = Vec::new();
    let mut k: usize = 0;
    while k < crates.len()
        invariant
            k <= crates.len(),
            crates@.len() == gcrates.len(),
            forall|q: int|
                0 <= q < gcrates.len() ==> (#[trigger] crates@[q]).0@ == gcrates[q].0 && crates@[
                    q
                ].1 == gcrates[q].1,
            configs@.len() == k,
            forall|q: int|
                0 <= q < k ==> (#[trigger] configs@[q]).name@ == gcrates[q].0 && configs@[
                    q
                ].version_var@ == gcrates[q].0 + p@ && configs@[q].mode == gcrates[q].1,
        decreases crates.len() - k,
    {
        let name = crates[k].0.clone();
        let mut version_var = String::new();
        version_var.append(name.as_str());
        version_var.append(p.as_str());
        configs.push(CrateConfig { name, version_var, mode: crates[k].1 });
        k = k + 1;
    }
    Ok((configs, p))
}

} // verus!
