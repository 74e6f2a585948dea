//! Hook-file editing: insert the shared customization stanza just before
//! the last line of a hook script whose second-to-last line is blank.

use vstd::prelude::*;
use crate::text;

verus! {

/// The first inserted line: resolve the script's own directory.
pub open spec fn custom_line_one() -> Seq<char> {
    "script_dir=$(dirname \"$(realpath \"${BASH_SOURCE[0]}\")\")"@
}

/// The second inserted line: source the customization file beside it.
pub open spec fn custom_line_two() -> Seq<char> {
    "source \"$script_dir\"/custom.sh"@
}

/// A line holding only whitespace.
pub open spec fn is_blank(l: Seq<char>) -> bool {
    text::trim_spec(l).len() == 0
}

/// The file qualifies: more than one line, and the line before the last
/// one is blank.
pub open spec fn wants_custom_code(lines: Seq<Seq<char>>) -> bool {
    lines.len() > 1 && is_blank(lines[lines.len() - 2])
}

/// Insert the customization stanza before the last line of a qualifying
/// file; a file that does not qualify is left untouched (`None`).
pub fn append_custom_lines(lines: &Vec<String>) -> (r: Option<Vec<String>>)
    ensures
        match r {
            Some(out) => {
                &&& wants_custom_code(lines.deep_view())
                &&& out@.len() == lines@.len() + 2
                &&& forall|k: int| 0 <= k < lines@.len() - 1 ==> (#[trigger] out@[k])@ == lines@[k]@
                &&& out@[lines@.len() - 1]@ == custom_line_one()
                &&& out@[lines@.len() as int]@ == custom_line_two()
                &&& out@[lines@.len() as int + 1]@ == lines@[lines@.len() - 1]@
            },
            None => !wants_custom_code(lines.deep_view()),
        },
{
    if lines.len() <= 1 {
        return None;
    }
    let mark = text::str_chars(lines[lines.len() - 2].as_str());
    let trimmed = text::trim_chars(&mark);
    if trimmed.len() != 0 {
        assert(!is_blank(lines.deep_view()[lines@.len() - 2]));
        return None;
    }
    assert(is_blank(lines.deep_view()[lines@.len() - 2]));
    let mut out: Vec<String> = Vec::new();
    let mut k: usize = 0;
    while k + 1 < lines.len()
        invariant
            k < lines.len(),
            out@.len() == k,
            forall|q: int| 0 <= q < k ==> (#[trigger] out@[q])@ == lines@[q]@,
        decreases lines.len() - k,
    {
        out.push(lines[k].clone());
        k = k + 1;
    }
    out.push("script_dir=$(dirname \"$(realpath \"${BASH_SOURCE[0]}\")\")".to_owned());
    out.push("source \"$script_dir\"/custom.sh".to_owned());
    out.push(lines[lines.len() - 1].clone());
    Some(out)
}

} // verus!
