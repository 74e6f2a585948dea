//! Building the line-count badge payloads: the badge's JSON body and the
//! request body that installs it as a gist file.

use vstd::prelude::*;
use crate::text;

verus! {

fn u64_digit_of(d: u64) -> (c: char)
    requires
        d < 10,
    ensures
        c == text::digit_char(d as nat),
{
    if d == 0 { '0' }
    else if d == 1 { '1' }
    else if d == 2 { '2' }
    else if d == 3 { '3' }
    else if d == 4 { '4' }
    else if d == 5 { '5' }
    else if d == 6 { '6' }
    else if d == 7 { '7' }
    else if d == 8 { '8' }
    else { '9' }
}

fn u64_dec_chars(n: u64) -> (r: Vec<char>)
    ensures
        r@ == text::dec_str(n as nat),
    decreases n,
{
    if n < 10 {
        let mut r: Vec<char> = Vec::new();
        r.push(u64_digit_of(n));
        assert(r@ =~= text::dec_str(n as nat));
        r
    } else {
        let mut r = u64_dec_chars(n / 10);
        r.push(u64_digit_of(n % 10));
        assert(r@ =~= text::dec_str((n / 10) as nat) + seq![
            text::digit_char((n % 10) as nat),
        ]);
        r
    }
}

/// The decimal rendering of a 64-bit count.
pub fn u64_to_string(n: u64) -> (r: String)
    ensures
        r@ == text::dec_str(n as nat),
{
    let digits = u64_dec_chars(n);
    text::chars_string(&digits)
}

/// The badge body reporting `loc` lines of code.
pub open spec fn badge_json(loc: nat) -> Seq<char> {
    "{\"schemaVersion\": 1, \"label\": \"LoC\", \"message\": \""@ + text::dec_str(loc)
        + "\", \"color\": \"lightblue\"}"@
}

/// Build the badge body reporting `loc` lines of code.
pub fn loc_badge_json(loc: u64) -> (r: String)
    ensures
        r@ == badge_json(loc as nat),
{
    let mut m = String::new();
    m.append("{\"schemaVersion\": 1, \"label\": \"LoC\", \"message\": \"");
    let n = u64_to_string(loc);
    m.append(n.as_str());
    m.append("\", \"color\": \"lightblue\"}");
    assert(m@ =~= badge_json(loc as nat));
    m
}

/// The request body that writes `json_content` into the gist under
/// `filename`.
pub open spec fn gist_body(filename: Seq<char>, json_content: Seq<char>) -> Seq<char> {
    "{\"files\": {\""@ + filename + "\": {\"content\": \""@ + json_content + "\"}}}"@
}

/// Build the request body that writes `json_content` under `filename`.
pub fn gist_patch_body(filename: &str, json_content: &str) -> (r: String)
    ensures
        r@ == gist_body(filename@, json_content@),
{
    let mut m = String::new();
    m.append("{\"files\": {\"");
    m.append(filename);
    m.append("\": {\"content\": \"");
    m.append(json_content);
    m.append("\"}}}");
    assert(m@ =~= gist_body(filename@, json_content@));
    m
}

} // verus!
