//! The token model of a formatting invocation's argument list, and the
//! classification of trailing arguments into bare identifiers and complex
//! expressions.
//!
//! A `Token` carries what the rules read from one token of the invocation:
//! its kind, its textual form (for a group, including the delimiters), and
//! the source lines it spans.

use vstd::prelude::*;

verus! {

#[derive(Clone, Copy, PartialEq, Eq, Structural, Debug)]
pub enum TokenKind {
    Ident,
    Punct,
    Literal,
    Group,
}

#[derive(Clone, Debug)]
pub struct Token {
    pub kind: TokenKind,
    pub text: String,
    pub line: usize,
    pub end_line: usize,
}

/// The token is the punctuation `,`.
pub open spec fn is_comma(t: Token) -> bool {
    t.kind == TokenKind::Punct && t.text@ == seq![',']
}

/// The token is the punctuation `.` or `:`, which glues an identifier into
/// a longer member-access or path expression.
pub open spec fn is_dot_or_colon(t: Token) -> bool {
    t.kind == TokenKind::Punct && (t.text@ == seq!['.'] || t.text@ == seq![':'])
}

fn punct_is(t: &Token, c: char) -> (r: bool)
    ensures
        r == (t.kind == TokenKind::Punct && t.text@ == seq![c]),
{
    if !matches!(t.kind, TokenKind::Punct) {
        return false;
    }
    let v = crate::text::str_chars(t.text.as_str());
    if v.len() != 1 {
        assert(t.text@ != seq![c]);
        return false;
    }
    let r = v[0] == c;
    proof {
        if r {
            assert(t.text@ =~= seq![c]);
        } else {
            assert(t.text@ != seq![c]);
        }
    }
    r
}

/// Whether the token is a top-level comma separating arguments.
pub fn punct_is_comma(t: &Token) -> (r: bool)
    ensures
        r == is_comma(*t),
{
    punct_is(t, ',')
}

/// A bare-identifier trailing argument: alphabetic or `_` first, then
/// alphanumeric or `_` throughout.
pub open spec fn simple_identifier(s: Seq<char>) -> bool {
    &&& s.len() > 0
    &&& (crate::text::char_alphabetic(s[0]) || s[0] == '_')
    &&& forall|k: int| 1 <= k < s.len() ==> crate::text::char_alphanumeric(s[k]) || s[k] == '_'
}

/// Whether `s` is a simple identifier, eligible for inlining into a format
/// template.
pub fn is_simple_identifier(s: &str) -> (r: bool)
    ensures
        r == simple_identifier(s@),
{
    let v = crate::text::str_chars(s);
    if v.len() == 0 {
        return false;
    }
    let first = v[0];
    if !crate::text::is_alphabetic_char(first) && first != '_' {
        return false;
    }
    let mut k: usize = 1;
    while k < v.len()
        invariant
            1 <= k <= v.len(),
            v@ == s@,
            s@.len() > 0,
            crate::text::char_alphabetic(s@[0]) || s@[0] == '_',
            forall|j: int|
                1 <= j < k ==> crate::text::char_alphanumeric(s@[j]) || s@[j] == '_',
        decreases v.len() - k,
    {
        let c = v[k];
        if !crate::text::is_alphanumeric_char(c) && c != '_' {
            return false;
        }
        k = k + 1;
    }
    true
}

/// Index of the first top-level comma at or after `i`, or the end of the
/// token list.
pub open spec fn arg_end(toks: Seq<Token>, i: int) -> int
    decreases toks.len() - i,
{
    if i < 0 || i >= toks.len() {
        toks.len() as int
    } else if is_comma(toks[i]) {
        i
    } else {
        arg_end(toks, i + 1)
    }
}

pub proof fn lemma_arg_end_bounds(toks: Seq<Token>, i: int)
    requires
        0 <= i <= toks.len(),
    ensures
        i <= arg_end(toks, i) <= toks.len(),
    decreases toks.len() - i,
{
    if i < toks.len() && !is_comma(toks[i]) {
        lemma_arg_end_bounds(toks, i + 1);
    }
}

/// The texts of tokens `i..j`, concatenated without separators.
pub open spec fn concat_texts(toks: Seq<Token>, i: int, j: int) -> Seq<char>
    decreases j - i,
{
    if i >= j {
        Seq::empty()
    } else {
        toks[i].text@ + concat_texts(toks, i + 1, j)
    }
}

proof fn lemma_concat_snoc(toks: Seq<Token>, i: int, j: int)
    requires
        i <= j,
    ensures
        concat_texts(toks, i, j + 1) == concat_texts(toks, i, j) + toks[j].text@,
    decreases j - i,
{
    if i < j {
        lemma_concat_snoc(toks, i + 1, j);
        assert(concat_texts(toks, i, j + 1) =~= concat_texts(toks, i, j) + toks[j].text@);
    } else {
        assert(concat_texts(toks, i + 1, i + 1) =~= Seq::<char>::empty());
        assert(concat_texts(toks, i, i + 1) =~= toks[i].text@);
        assert(concat_texts(toks, i, i) + toks[i].text@ =~= toks[i].text@);
    }
}

/// What collecting one complex argument from `i` yields: the trimmed
/// concatenation of the tokens up to the next top-level comma, or nothing
/// if that stretch is empty.
pub open spec fn complex_arg_text(toks: Seq<Token>, i: int) -> Seq<char> {
    crate::text::trim_spec(concat_texts(toks, i, arg_end(toks, i)))
}

/// Collect a complex argument (member access, call, path, ...) starting at
/// `start`: everything up to the next top-level comma, verbatim.
pub fn collect_complex_argument(toks: &Vec<Token>, start: usize) -> (r: Option<
    (String, usize, usize),
>)
    requires
        start <= toks.len(),
    ensures
        match r {
            Some((text, line, next)) => {
                &&& concat_texts(toks@, start as int, arg_end(toks@, start as int)).len() > 0
                &&& text@ == complex_arg_text(toks@, start as int)
                &&& start < toks@.len() && line == toks@[start as int].line
                &&& next as int == arg_end(toks@, start as int)
            },
            None => concat_texts(toks@, start as int, arg_end(toks@, start as int)).len() == 0,
        },
{
    if start >= toks.len() {
        return None;
    }
    let line = toks[start].line;
    let mut acc: Vec<char> = Vec::new();
    let mut i: usize = start;
    proof {
        lemma_arg_end_bounds(toks@, start as int);
    }
    while i < toks.len() && !punct_is(&toks[i], ',')
        invariant
            start <= i <= toks.len(),
            acc@ == concat_texts(toks@, start as int, i as int),
            arg_end(toks@, start as int) == arg_end(toks@, i as int),
        decreases toks.len() - i,
    {
        let chars = crate::text::str_chars(toks[i].text.as_str());
        let mut c: usize = 0;
        while c < chars.len()
            invariant
                c <= chars.len(),
                chars@ == toks@[i as int].text@,
                i < toks.len(),
                acc@ == concat_texts(toks@, start as int, i as int) + chars@.subrange(
                    0,
                    c as int,
                ),
        decreases chars.len() - c,
        {
            acc.push(chars[c]);
            assert(acc@ =~= concat_texts(toks@, start as int, i as int) + chars@.subrange(
                0,
                c + 1,
            ));
            c = c + 1;
        }
        proof {
            lemma_concat_snoc(toks@, start as int, i as int);
            assert(chars@.subrange(0, chars@.len() as int) =~= chars@);
        }
        i = i + 1;
    }
    proof {
        if i < toks.len() {
            assert(arg_end(toks@, i as int) == i as int);
        }
    }
    if acc.len() == 0 {
        return None;
    }
    let trimmed = crate::text::trim_chars(&acc);
    let text = crate::text::chars_string(&trimmed);
    Some((text, line, i))
}

/// The token at `start` is a lone identifier argument: an identifier not
/// glued to a following `.` or `:`.
pub open spec fn lone_ident_at(toks: Seq<Token>, start: int) -> bool {
    &&& 0 <= start < toks.len()
    &&& toks[start].kind == TokenKind::Ident
    &&& !(start + 1 < toks.len() && is_dot_or_colon(toks[start + 1]))
}

/// Collect the argument starting at `start`: a lone identifier yields its
/// own text; anything else is collected as a complex argument.
pub fn collect_argument(toks: &Vec<Token>, start: usize) -> (r: Option<(String, usize, usize)>)
    requires
        start <= toks.len(),
    ensures
        lone_ident_at(toks@, start as int) ==> matches!(r, Some(_)),
        match r {
            Some((text, line, next)) => {
                &&& start < toks@.len()
                &&& line == toks@[start as int].line
                &&& if lone_ident_at(toks@, start as int) {
                    text@ == toks@[start as int].text@ && next == start + 1
                } else {
                    text@ == complex_arg_text(toks@, start as int) && next as int == arg_end(
                        toks@,
                        start as int,
                    ) && concat_texts(toks@, start as int, arg_end(toks@, start as int)).len()
                        > 0
                }
            },
            None => !lone_ident_at(toks@, start as int) && concat_texts(
                toks@,
                start as int,
                arg_end(toks@, start as int),
            ).len() == 0,
        },
{
    if start >= toks.len() {
        return None;
    }
    if matches!(toks[start].kind, TokenKind::Ident) {
        let glued = if start + 1 < toks.len() {
            punct_is(&toks[start + 1], '.') || punct_is(&toks[start + 1], ':')
        } else {
            false
        };
        if !glued {
            let text = toks[start].text.clone();
            return Some((text, toks[start].line, start + 1));
        }
    }
    collect_complex_argument(toks, start)
}

} // verus!
