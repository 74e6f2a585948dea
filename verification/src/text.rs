//! Text primitives shared by the rules and the patch engine.
//!
//! The engine models a file's text as a vector of characters; every offset
//! in this crate (fix ranges, placeholder positions, line starts) counts
//! characters of that vector.

use vstd::prelude::*;

verus! {

/// Relies on `str::chars`: yields exactly the characters of the string,
/// in order. Bridges `&str` (viewed as `Seq<char>`) into the `Vec<char>`
/// representation the engine computes on.
#[verifier::external_body]
pub fn str_chars(s: &str) -> (r: Vec<char>)
    ensures
        r@ == s@,
{
    s.chars().collect()
}

/// Relies on `String: FromIterator<char>`: collects exactly the given
/// characters, in order. Bridges `Vec<char>` back into `String`.
#[verifier::external_body]
pub fn chars_string(v: &Vec<char>) -> (r: String)
    ensures
        r@ == v@,
{
    v.iter().collect()
}

/// What `char::is_alphabetic` returns; a function of the character alone.
pub uninterp spec fn char_alphabetic(c: char) -> bool;

/// What `char::is_alphanumeric` returns; a function of the character alone.
pub uninterp spec fn char_alphanumeric(c: char) -> bool;

/// Relies on `char::is_alphabetic`: deterministic in the character.
#[verifier::external_body]
pub fn is_alphabetic_char(c: char) -> (r: bool)
    ensures
        r == char_alphabetic(c),
{
    c.is_alphabetic()
}

/// Relies on `char::is_alphanumeric`: deterministic in the character.
#[verifier::external_body]
pub fn is_alphanumeric_char(c: char) -> (r: bool)
    ensures
        r == char_alphanumeric(c),
{
    c.is_alphanumeric()
}

/// Replace the half-open range `[start, end)` of `s` with `repl`.
pub fn splice(s: &Vec<char>, start: usize, end: usize, repl: &Vec<char>) -> (r: Vec<char>)
    requires
        start <= end <= s.len(),
    ensures
        r@ == s@.subrange(0, start as int) + repl@ + s@.subrange(end as int, s@.len() as int),
{
    let mut r: Vec<char> = Vec::new();
    let mut i: usize = 0;
    while i < start
        invariant
            i <= start <= end <= s.len(),
            r@ == s@.subrange(0, i as int),
        decreases start - i,
    {
        r.push(s[i]);
        assert(r@ =~= s@.subrange(0, i + 1));
        i = i + 1;
    }
    let mut j: usize = 0;
    while j < repl.len()
        invariant
            start <= end <= s.len(),
            j <= repl.len(),
            r@ == s@.subrange(0, start as int) + repl@.subrange(0, j as int),
        decreases repl.len() - j,
    {
        r.push(repl[j]);
        assert(r@ =~= s@.subrange(0, start as int) + repl@.subrange(0, j + 1));
        j = j + 1;
    }
    assert(repl@.subrange(0, repl@.len() as int) =~= repl@);
    let mut k: usize = end;
    while k < s.len()
        invariant
            start <= end <= k <= s.len(),
            r@ == s@.subrange(0, start as int) + repl@ + s@.subrange(end as int, k as int),
        decreases s.len() - k,
    {
        r.push(s[k]);
        assert(r@ =~= s@.subrange(0, start as int) + repl@ + s@.subrange(end as int, k + 1));
        k = k + 1;
    }
    r
}

/// The decimal digit character for `d < 10`.
pub open spec fn digit_char(d: nat) -> char {
    if d == 0 { '0' }
    else if d == 1 { '1' }
    else if d == 2 { '2' }
    else if d == 3 { '3' }
    else if d == 4 { '4' }
    else if d == 5 { '5' }
    else if d == 6 { '6' }
    else if d == 7 { '7' }
    else if d == 8 { '8' }
    else { '9' }
}

/// The decimal rendering of `n`, most significant digit first.
pub open spec fn dec_str(n: nat) -> Seq<char>
    decreases n,
{
    if n < 10 { seq![digit_char(n)] } else { dec_str(n / 10) + seq![digit_char(n % 10)] }
}

fn digit_of(d: usize) -> (c: char)
    requires
        d < 10,
    ensures
        c == digit_char(d as nat),
{
    if d == 0 { '0' }
    else if d == 1 { '1' }
    else if d == 2 { '2' }
    else if d == 3 { '3' }
    else if d == 4 { '4' }
    else if d == 5 { '5' }
    else if d == 6 { '6' }
    else if d == 7 { '7' }
    else if d == 8 { '8' }
    else { '9' }
}

fn dec_chars(n: usize) -> (r: Vec<char>)
    ensures
        r@ == dec_str(n as nat),
    decreases n,
{
    if n < 10 {
        let mut r: Vec<char> = Vec::new();
        r.push(digit_of(n));
        assert(r@ =~= dec_str(n as nat));
        r
    } else {
        let mut r = dec_chars(n / 10);
        r.push(digit_of(n % 10));
        assert(r@ =~= dec_str((n / 10) as nat) + seq![digit_char((n % 10) as nat)]);
        r
    }
}

/// The decimal rendering of `n` as a `String`.
pub fn usize_to_string(n: usize) -> (r: String)
    ensures
        r@ == dec_str(n as nat),
{
    let digits = dec_chars(n);
    chars_string(&digits)
}

/// `s` with the half-open range `[a, b)` replaced by `r`.
pub open spec fn splice_spec(s: Seq<char>, a: int, b: int, r: Seq<char>) -> Seq<char> {
    s.subrange(0, a) + r + s.subrange(b, s.len() as int)
}

/// Strings as the specification sees them: their character sequences.
pub open spec fn strs_view(v: Seq<String>) -> Seq<Seq<char>> {
    Seq::new(v.len(), |i: int| v[i]@)
}

/// Append the characters of `piece` to `out`.
pub fn append_chars(out: &mut Vec<char>, piece: &Vec<char>)
    ensures
        final(out)@ == old(out)@ + piece@,
{
    let mut k: usize = 0;
    while k < piece.len()
        invariant
            k <= piece.len(),
            out@ == old(out)@ + piece@.subrange(0, k as int),
        decreases piece.len() - k,
    {
        out.push(piece[k]);
        assert(out@ =~= old(out)@ + piece@.subrange(0, k + 1));
        k = k + 1;
    }
    assert(piece@.subrange(0, piece@.len() as int) =~= piece@);
}

/// An element-wise copy of `v`.
pub fn copy_chars(v: &Vec<char>) -> (r: Vec<char>)
    ensures
        r@ == v@,
{
    let mut r: Vec<char> = Vec::new();
    let mut i: usize = 0;
    while i < v.len()
        invariant
            i <= v.len(),
            r@ == v@.subrange(0, i as int),
        decreases v.len() - i,
    {
        r.push(v[i]);
        assert(r@ =~= v@.subrange(0, i + 1));
        i = i + 1;
    }
    assert(r@ =~= v@);
    r
}

/// Compare two character vectors.
pub fn chars_eq(a: &Vec<char>, b: &Vec<char>) -> (r: bool)
    ensures
        r == (a@ == b@),
{
    if a.len() != b.len() {
        return false;
    }
    let mut i: usize = 0;
    while i < a.len()
        invariant
            a@.len() == b@.len(),
            i <= a.len(),
            forall|k: int| 0 <= k < i ==> a@[k] == b@[k],
        decreases a.len() - i,
    {
        if a[i] != b[i] {
            return false;
        }
        i = i + 1;
    }
    assert(a@ =~= b@);
    true
}

/// Compare two string slices by their characters.
pub fn str_eq(a: &str, b: &str) -> (r: bool)
    ensures
        r == (a@ == b@),
{
    let va = str_chars(a);
    let vb = str_chars(b);
    chars_eq(&va, &vb)
}

/// `pat` occurs in `s` starting at offset `i`.
pub open spec fn match_at(s: Seq<char>, pat: Seq<char>, i: int) -> bool {
    0 <= i && i + pat.len() <= s.len() && s.subrange(i, i + pat.len()) == pat
}

/// The first offset `>= i` at which `pat` occurs in `s`, if any.
pub open spec fn first_match_from(s: Seq<char>, pat: Seq<char>, i: int) -> Option<int>
    decreases s.len() + 1 - i,
{
    if i < 0 || i + pat.len() > s.len() {
        None
    } else if match_at(s, pat, i) {
        Some(i)
    } else {
        first_match_from(s, pat, i + 1)
    }
}

/// The first offset at which `pat` occurs in `s`, if any.
pub open spec fn find_spec(s: Seq<char>, pat: Seq<char>) -> Option<int> {
    first_match_from(s, pat, 0)
}

pub fn matches_here(s: &Vec<char>, pat: &Vec<char>, i: usize) -> (r: bool)
    requires
        i + pat.len() <= s.len(),
    ensures
        r == match_at(s@, pat@, i as int),
{
    let mut j: usize = 0;
    while j < pat.len()
        invariant
            i + pat.len() <= s.len(),
            j <= pat.len(),
            forall|k: int| 0 <= k < j ==> s@[i + k] == pat@[k],
        decreases pat.len() - j,
    {
        if s[i + j] != pat[j] {
            assert(s@.subrange(i as int, i + pat@.len()) != pat@) by {
                assert(s@.subrange(i as int, i + pat@.len())[j as int] != pat@[j as int]);
            }
            return false;
        }
        j = j + 1;
    }
    assert(s@.subrange(i as int, i + pat@.len()) =~= pat@);
    true
}

/// Find the first occurrence of `pat` in `s`, scanning left to right.
pub fn find_sub(s: &Vec<char>, pat: &Vec<char>) -> (r: Option<usize>)
    ensures
        match r {
            Some(p) => find_spec(s@, pat@) == Some(p as int),
            None => find_spec(s@, pat@) is None,
        },
{
    let n = s.len();
    let m = pat.len();
    if m > n {
        return None;
    }
    let last = n - m;
    let mut i: usize = 0;
    while i < last
        invariant
            m <= n,
            n == s.len(),
            m == pat.len(),
            last == n - m,
            i <= last,
            find_spec(s@, pat@) == first_match_from(s@, pat@, i as int),
        decreases last - i,
    {
        if matches_here(s, pat, i) {
            return Some(i);
        }
        i = i + 1;
    }
    if matches_here(s, pat, i) {
        return Some(i);
    }
    proof {
        assert(first_match_from(s@, pat@, last + 1) is None);
    }
    None
}

/// The lines of `s[i..]`, split at `'\n'`; always at least one (possibly
/// empty) line, matching the convention that a final newline ends the last
/// line rather than opening a new one of interest.
pub open spec fn lines_from(s: Seq<char>, i: int) -> Seq<Seq<char>>
    decreases s.len() - i,
{
    if i < 0 || i >= s.len() {
        seq![Seq::<char>::empty()]
    } else if s[i] == '\n' {
        seq![Seq::<char>::empty()] + lines_from(s, i + 1)
    } else {
        let rest = lines_from(s, i + 1);
        seq![seq![s[i]] + rest[0]] + rest.drop_first()
    }
}

/// The lines of `s`, split at `'\n'`.
pub open spec fn split_lines_spec(s: Seq<char>) -> Seq<Seq<char>> {
    lines_from(s, 0)
}

pub proof fn lemma_lines_from_nonempty(s: Seq<char>, i: int)
    ensures
        lines_from(s, i).len() >= 1,
    decreases s.len() - i,
{
    if 0 <= i && i < s.len() && s[i] != '\n' {
        lemma_lines_from_nonempty(s, i + 1);
    }
}

spec fn shift_first(pre: Seq<char>, ls: Seq<Seq<char>>) -> Seq<Seq<char>> {
    seq![pre + ls[0]] + ls.drop_first()
}

/// Split `s` into its `'\n'`-separated lines.
pub fn split_lines(s: &Vec<char>) -> (r: Vec<Vec<char>>)
    ensures
        r.deep_view() == split_lines_spec(s@),
{
    let mut acc: Vec<Vec<char>> = Vec::new();
    let mut cur: Vec<char> = Vec::new();
    let mut i: usize = 0;
    while i < s.len()
        invariant
            i <= s.len(),
            split_lines_spec(s@) == acc.deep_view() + shift_first(cur@, lines_from(s@, i as int)),
        decreases s.len() - i,
    {
        let c = s[i];
        let ghost acc0 = acc.deep_view();
        let ghost cur0 = cur@;
        if c == '\n' {
            acc.push(cur);
            cur = Vec::new();
            proof {
                lemma_lines_from_nonempty(s@, i + 1);
                assert(acc.deep_view() =~~= acc0.push(cur0));
                assert(acc0 + shift_first(cur0, lines_from(s@, i as int)) =~~= acc.deep_view()
                    + shift_first(cur@, lines_from(s@, i + 1)));
            }
        } else {
            cur.push(c);
            proof {
                lemma_lines_from_nonempty(s@, i + 1);
                assert(acc0 + shift_first(cur0, lines_from(s@, i as int)) =~~= acc.deep_view()
                    + shift_first(cur@, lines_from(s@, i + 1)));
            }
        }
        i = i + 1;
    }
    let ghost accf = acc.deep_view();
    let ghost curf = cur@;
    acc.push(cur);
    proof {
        assert(acc.deep_view() =~~= accf.push(curf));
        assert(accf + shift_first(curf, lines_from(s@, i as int)) =~~= acc.deep_view());
    }
    acc
}

/// Offset of the start of line `idx` when the given lines are joined with
/// single `'\n'` separators.
pub open spec fn line_start(lines: Seq<Seq<char>>, idx: int) -> int
    decreases idx,
{
    if idx <= 0 {
        0
    } else {
        line_start(lines, idx - 1) + lines[idx - 1].len() + 1
    }
}

/// Compute `line_start` executably over already-split lines.
pub fn line_start_offset(lines: &Vec<Vec<char>>, idx: usize) -> (r: Option<usize>)
    requires
        idx < lines.len(),
    ensures
        match r {
            Some(o) => o as int == line_start(lines.deep_view(), idx as int),
            None => line_start(lines.deep_view(), idx as int) > usize::MAX,
        },
{
    let mut o: usize = 0;
    let mut k: usize = 0;
    while k < idx
        invariant
            k <= idx < lines.len(),
            o as int == line_start(lines.deep_view(), k as int),
        decreases idx - k,
    {
        let l = lines[k].len();
        if o > usize::MAX - l || o + l > usize::MAX - 1 {
            assert(line_start(lines.deep_view(), k + 1) > usize::MAX);
            proof {
                lemma_line_start_mono(lines.deep_view(), k + 1, idx as int);
            }
            return None;
        }
        o = o + l + 1;
        assert(lines.deep_view()[k as int].len() == lines[k as int]@.len());
        k = k + 1;
    }
    Some(o)
}

/// The whitespace characters the engine trims: blanks, tabs and line ends.
pub open spec fn is_space_char(c: char) -> bool {
    c == ' ' || c == '\t' || c == '\r' || c == '\n'
}

/// `s` without its leading whitespace.
pub open spec fn trim_start_spec(s: Seq<char>) -> Seq<char>
    decreases s.len(),
{
    if s.len() > 0 && is_space_char(s[0]) {
        trim_start_spec(s.drop_first())
    } else {
        s
    }
}

/// `s` without its trailing whitespace.
pub open spec fn trim_end_spec(s: Seq<char>) -> Seq<char>
    decreases s.len(),
{
    if s.len() > 0 && is_space_char(s[s.len() - 1]) {
        trim_end_spec(s.drop_last())
    } else {
        s
    }
}

/// `s` without leading and trailing whitespace.
pub open spec fn trim_spec(s: Seq<char>) -> Seq<char> {
    trim_end_spec(trim_start_spec(s))
}

proof fn lemma_trim_start_cut(s: Seq<char>, a: int)
    requires
        0 <= a <= s.len(),
        forall|k: int| 0 <= k < a ==> is_space_char(s[k]),
        a == s.len() || !is_space_char(s[a]),
    ensures
        trim_start_spec(s) == s.subrange(a, s.len() as int),
    decreases a,
{
    if a == 0 {
        if s.len() > 0 && is_space_char(s[0]) {
            assert(false);
        }
        assert(s.subrange(0, s.len() as int) =~= s);
    } else {
        let t = s.drop_first();
        lemma_trim_start_cut(t, a - 1);
        assert(t.subrange(a - 1, t.len() as int) =~= s.subrange(a, s.len() as int));
    }
}

proof fn lemma_trim_end_cut(s: Seq<char>, b: int)
    requires
        0 <= b <= s.len(),
        forall|k: int| b <= k < s.len() ==> is_space_char(s[k]),
        b == 0 || !is_space_char(s[b - 1]),
    ensures
        trim_end_spec(s) == s.subrange(0, b),
    decreases s.len() - b,
{
    if b == s.len() {
        if s.len() > 0 && is_space_char(s[s.len() - 1]) {
            assert(false);
        }
        assert(s.subrange(0, s.len() as int) =~= s);
    } else {
        let t = s.drop_last();
        lemma_trim_end_cut(t, b);
        assert(t.subrange(0, b) =~= s.subrange(0, b));
    }
}

/// Trim whitespace from both ends of `s`.
pub fn trim_chars(s: &Vec<char>) -> (r: Vec<char>)
    ensures
        r@ == trim_spec(s@),
{
    let mut a: usize = 0;
    while a < s.len() && (s[a] == ' ' || s[a] == '\t' || s[a] == '\r' || s[a] == '\n')
        invariant
            a <= s.len(),
            forall|k: int| 0 <= k < a ==> is_space_char(s@[k]),
        decreases s.len() - a,
    {
        a = a + 1;
    }
    proof {
        lemma_trim_start_cut(s@, a as int);
    }
    let mut b: usize = s.len();
    while b > a && (s[b - 1] == ' ' || s[b - 1] == '\t' || s[b - 1] == '\r' || s[b - 1]
        == '\n')
        invariant
            a <= b <= s.len(),
            forall|k: int| b <= k < s.len() ==> is_space_char(s@[k]),
        decreases b,
    {
        b = b - 1;
    }
    let ghost st = trim_start_spec(s@);
    proof {
        if b == a {
            lemma_trim_end_cut(st, 0);
            assert(st.subrange(0, 0) =~= s@.subrange(a as int, b as int));
        } else {
            assert(st == s@.subrange(a as int, s@.len() as int));
            assert(forall|k: int|
                b - a <= k < st.len() ==> is_space_char(#[trigger] st[k]));
            assert(!is_space_char(st[b - a - 1]));
            lemma_trim_end_cut(st, b - a);
            assert(st.subrange(0, b - a) =~= s@.subrange(a as int, b as int));
        }
    }
    let mut r: Vec<char> = Vec::new();
    let mut k: usize = a;
    while k < b
        invariant
            a <= k <= b <= s.len(),
            r@ == s@.subrange(a as int, k as int),
        decreases b - k,
    {
        r.push(s[k]);
        assert(r@ =~= s@.subrange(a as int, k + 1));
        k = k + 1;
    }
    r
}

/// The fields of `s[i..]`, split at `sep`; always at least one (possibly
/// empty) field.
pub open spec fn split_from(s: Seq<char>, i: int, sep: char) -> Seq<Seq<char>>
    decreases s.len() - i,
{
    if i < 0 || i >= s.len() {
        seq![Seq::<char>::empty()]
    } else if s[i] == sep {
        seq![Seq::<char>::empty()] + split_from(s, i + 1, sep)
    } else {
        let rest = split_from(s, i + 1, sep);
        seq![seq![s[i]] + rest[0]] + rest.drop_first()
    }
}

pub proof fn lemma_split_from_nonempty(s: Seq<char>, i: int, sep: char)
    ensures
        split_from(s, i, sep).len() >= 1,
    decreases s.len() - i,
{
    if 0 <= i && i < s.len() && s[i] != sep {
        lemma_split_from_nonempty(s, i + 1, sep);
    }
}

/// Split `s` into its `sep`-separated fields.
pub fn split_chars(s: &Vec<char>, sep: char) -> (r: Vec<Vec<char>>)
    ensures
        r.deep_view() == split_from(s@, 0, sep),
        r.len() >= 1,
        forall|k: int| 0 <= k < r@.len() ==> (#[trigger] r@[k])@ == r.deep_view()[k],
{
    let mut acc: Vec<Vec<char>> = Vec::new();
    let mut cur: Vec<char> = Vec::new();
    let mut i: usize = 0;
    while i < s.len()
        invariant
            i <= s.len(),
            split_from(s@, 0, sep) == acc.deep_view() + shift_first(
                cur@,
                split_from(s@, i as int, sep),
            ),
        decreases s.len() - i,
    {
        let c = s[i];
        let ghost acc0 = acc.deep_view();
        let ghost cur0 = cur@;
        if c == sep {
            acc.push(cur);
            cur = Vec::new();
            proof {
                lemma_split_from_nonempty(s@, i + 1, sep);
                assert(acc.deep_view() =~~= acc0.push(cur0));
                assert(acc0 + shift_first(cur0, split_from(s@, i as int, sep)) =~~= acc.deep_view()
                    + shift_first(cur@, split_from(s@, i + 1, sep)));
            }
        } else {
            cur.push(c);
            proof {
                lemma_split_from_nonempty(s@, i + 1, sep);
                assert(acc0 + shift_first(cur0, split_from(s@, i as int, sep)) =~~= acc.deep_view()
                    + shift_first(cur@, split_from(s@, i + 1, sep)));
            }
        }
        i = i + 1;
    }
    let ghost accf = acc.deep_view();
    let ghost curf = cur@;
    acc.push(cur);
    proof {
        assert(acc.deep_view() =~~= accf.push(curf));
        assert(accf + shift_first(curf, split_from(s@, i as int, sep)) =~~= acc.deep_view());
        lemma_split_from_nonempty(s@, 0, sep);
    }
    acc
}

/// The ASCII-lowercase counterpart of `c`; other characters unchanged.
pub open spec fn ascii_lower(c: char) -> char {
    if c == 'A' { 'a' }
    else if c == 'B' { 'b' }
    else if c == 'C' { 'c' }
    else if c == 'D' { 'd' }
    else if c == 'E' { 'e' }
    else if c == 'F' { 'f' }
    else if c == 'G' { 'g' }
    else if c == 'H' { 'h' }
    else if c == 'I' { 'i' }
    else if c == 'J' { 'j' }
    else if c == 'K' { 'k' }
    else if c == 'L' { 'l' }
    else if c == 'M' { 'm' }
    else if c == 'N' { 'n' }
    else if c == 'O' { 'o' }
    else if c == 'P' { 'p' }
    else if c == 'Q' { 'q' }
    else if c == 'R' { 'r' }
    else if c == 'S' { 's' }
    else if c == 'T' { 't' }
    else if c == 'U' { 'u' }
    else if c == 'V' { 'v' }
    else if c == 'W' { 'w' }
    else if c == 'X' { 'x' }
    else if c == 'Y' { 'y' }
    else if c == 'Z' { 'z' }
    else { c }
}

/// `s` with its ASCII uppercase letters lowered.
pub open spec fn lower_seq(s: Seq<char>) -> Seq<char> {
    s.map_values(|c: char| ascii_lower(c))
}

fn ascii_lower_char(c: char) -> (r: char)
    ensures
        r == ascii_lower(c),
{
    match c {
        'A' => 'a',
        'B' => 'b',
        'C' => 'c',
        'D' => 'd',
        'E' => 'e',
        'F' => 'f',
        'G' => 'g',
        'H' => 'h',
        'I' => 'i',
        'J' => 'j',
        'K' => 'k',
        'L' => 'l',
        'M' => 'm',
        'N' => 'n',
        'O' => 'o',
        'P' => 'p',
        'Q' => 'q',
        'R' => 'r',
        'S' => 's',
        'T' => 't',
        'U' => 'u',
        'V' => 'v',
        'W' => 'w',
        'X' => 'x',
        'Y' => 'y',
        'Z' => 'z',
        _ => c,
    }
}

/// Lower the ASCII uppercase letters of `s`.
pub fn lower_chars(s: &Vec<char>) -> (r: Vec<char>)
    ensures
        r@ == lower_seq(s@),
{
    let mut r: Vec<char> = Vec::new();
    let mut i: usize = 0;
    while i < s.len()
        invariant
            i <= s.len(),
            r@.len() == i,
            forall|k: int| 0 <= k < i ==> r@[k] == ascii_lower(s@[k]),
        decreases s.len() - i,
    {
        r.push(ascii_lower_char(s[i]));
        i = i + 1;
    }
    assert(r@ =~= lower_seq(s@));
    r
}

/// `line_start` is monotone in the line index.
pub proof fn lemma_line_start_mono(lines: Seq<Seq<char>>, i: int, j: int)
    requires
        0 <= i <= j,
    ensures
        line_start(lines, i) <= line_start(lines, j),
    decreases j - i,
{
    if i < j {
        lemma_line_start_mono(lines, i, j - 1);
    }
}

} // verus!
