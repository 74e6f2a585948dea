//! Repository label management: parsing `name:color` specifications,
//! rejecting duplicate colors, and planning a sync against the remote
//! label set.

use vstd::prelude::*;
use crate::text;

verus! {

/// The first offset of `c` in `s` at or after `i`, or the end of `s`.
pub open spec fn next_char(s: Seq<char>, i: int, c: char) -> int
    decreases s.len() - i,
{
    if i < 0 || i >= s.len() {
        s.len() as int
    } else if s[i] == c {
        i
    } else {
        next_char(s, i + 1, c)
    }
}

pub fn next_char_exec(s: &Vec<char>, i: usize, c: char) -> (r: usize)
    requires
        i <= s.len(),
    ensures
        r as int == next_char(s@, i as int, c),
        i <= r <= s.len(),
        r < s.len() ==> s@[r as int] == c,
{
    let mut j: usize = i;
    while j < s.len()
        invariant
            i <= j <= s.len(),
            next_char(s@, i as int, c) == next_char(s@, j as int, c),
        decreases s.len() - j,
    {
        if s[j] == c {
            return j;
        }
        j = j + 1;
    }
    j
}

/// The first offset at or after `i` whose character differs from `c`.
pub open spec fn skip_char(s: Seq<char>, i: int, c: char) -> int
    decreases s.len() - i,
{
    if i < 0 || i >= s.len() {
        s.len() as int
    } else if s[i] == c {
        skip_char(s, i + 1, c)
    } else {
        i
    }
}

fn skip_char_exec(s: &Vec<char>, i: usize, c: char) -> (r: usize)
    requires
        i <= s.len(),
    ensures
        r as int == skip_char(s@, i as int, c),
        i <= r <= s.len(),
{
    let mut j: usize = i;
    while j < s.len()
        invariant
            i <= j <= s.len(),
            skip_char(s@, i as int, c) == skip_char(s@, j as int, c),
        decreases s.len() - j,
    {
        if s[j] != c {
            return j;
        }
        j = j + 1;
    }
    j
}

/// An ASCII hexadecimal digit.
pub open spec fn is_hex_digit(c: char) -> bool {
    ('0' <= c && c <= '9') || ('a' <= c && c <= 'f') || ('A' <= c && c <= 'F')
}

/// The message rejecting a specification without a colon.
pub open spec fn bad_format_message(s: Seq<char>) -> Seq<char> {
    "Invalid label format '"@ + s + "', expected 'name:color'"@
}

/// The message rejecting a malformed color.
pub open spec fn bad_color_message(raw: Seq<char>) -> Seq<char> {
    "Invalid color '"@ + raw + "', expected 6-digit hex"@
}

/// What parsing a `name:color` specification yields: the name before the
/// first colon, and the color after it with leading `#` stripped, which
/// must be exactly six hexadecimal digits.
pub open spec fn spec_parse_label(s: Seq<char>) -> Result<(Seq<char>, Seq<char>), Seq<char>> {
    let p = next_char(s, 0, ':');
    if p >= s.len() {
        Result::Err(bad_format_message(s))
    } else {
        let name = s.subrange(0, p);
        let raw = s.subrange(p + 1, s.len() as int);
        let color = raw.subrange(skip_char(raw, 0, '#'), raw.len() as int);
        if color.len() == 6 && (forall|k: int| 0 <= k < color.len() ==> is_hex_digit(color[k])) {
            Result::Ok((name, color))
        } else {
            Result::Err(bad_color_message(raw))
        }
    }
}

/// Parse a `name:color` label specification.
pub fn parse_label(s: &str) -> (r: Result<(String, String), String>)
    ensures
        match r {
            Ok((n, c)) => spec_parse_label(s@) == Result::<(Seq<char>, Seq<char>), Seq<char>>::Ok(
                (n@, c@),
            ),
            Err(m) => spec_parse_label(s@) == Result::<(Seq<char>, Seq<char>), Seq<char>>::Err(
                m@,
            ),
        },
{
    let chars = text::str_chars(s);
    let p = next_char_exec(&chars, 0, ':');
    if p >= chars.len() {
        let mut m = String::new();
        m.append("Invalid label format '");
        m.append(s);
        m.append("', expected 'name:color'");
        assert(m@ =~= bad_format_message(s@));
        return Err(m);
    }
    let mut name: Vec<char> = Vec::new();
    let mut k: usize = 0;
    while k < p
        invariant
            k <= p < chars.len(),
            name@ == chars@.subrange(0, k as int),
        decreases p - k,
    {
        name.push(chars[k]);
        assert(name@ =~= chars@.subrange(0, k + 1));
        k = k + 1;
    }
    let mut raw: Vec<char> = Vec::new();
    let mut k: usize = p + 1;
    while k < chars.len()
        invariant
            p + 1 <= k <= chars.len(),
            raw@ == chars@.subrange(p + 1, k as int),
        decreases chars.len() - k,
    {
        raw.push(chars[k]);
        assert(raw@ =~= chars@.subrange(p + 1, k + 1));
        k = k + 1;
    }
    let start = skip_char_exec(&raw, 0, '#');
    let mut color: Vec<char> = Vec::new();
    let mut k: usize = start;
    while k < raw.len()
        invariant
            start <= k <= raw.len(),
            color@ == raw@.subrange(start as int, k as int),
        decreases raw.len() - k,
    {
        color.push(raw[k]);
        assert(color@ =~= raw@.subrange(start as int, k + 1));
        k = k + 1;
    }
    let mut all_hex = true;
    let mut k: usize = 0;
    while k < color.len()
        invariant
            k <= color.len(),
            all_hex == (forall|q: int| 0 <= q < k ==> is_hex_digit(color@[q])),
        decreases color.len() - k,
    {
        let c = color[k];
        let hex = ('0' <= c && c <= '9') || ('a' <= c && c <= 'f') || ('A' <= c && c <= 'F');
        all_hex = all_hex && hex;
        k = k + 1;
    }
    if color.len() == 6 && all_hex {
        Ok((text::chars_string(&name), text::chars_string(&color)))
    } else {
        let mut m = String::new();
        m.append("Invalid color '");
        let raw_s = text::chars_string(&raw);
        m.append(raw_s.as_str());
        m.append("', expected 6-digit hex");
        assert(m@ =~= bad_color_message(raw@));
        Err(m)
    }
}

/// The lowercase form of a label color, for case-insensitive comparison.
pub open spec fn lower_color(c: Seq<char>) -> Seq<char> {
    text::lower_seq(c)
}

/// The earliest label before `j` sharing `j`'s color, ignoring ASCII case.
pub open spec fn earlier_same_color(ls: Seq<(Seq<char>, Seq<char>)>, j: int, i: int) -> Option<
    int,
>
    decreases j - i,
{
    if i < 0 || i >= j || j >= ls.len() {
        None
    } else if lower_color(ls[i].1) == lower_color(ls[j].1) {
        Some(i)
    } else {
        earlier_same_color(ls, j, i + 1)
    }
}

/// The first duplicated color: the first index `j` such that an earlier
/// label shares its color, with that earlier index.
pub open spec fn first_duplicate(ls: Seq<(Seq<char>, Seq<char>)>, j: int) -> Option<(int, int)>
    decreases ls.len() - j,
{
    if j < 0 || j >= ls.len() {
        None
    } else {
        match earlier_same_color(ls, j, 0) {
            Option::Some(i) => Some((i, j)),
            Option::None => first_duplicate(ls, j + 1),
        }
    }
}

/// The message rejecting a duplicated color.
pub open spec fn duplicate_color_message(
    color: Seq<char>,
    first_name: Seq<char>,
    second_name: Seq<char>,
) -> Seq<char> {
    "Duplicate color #"@ + color + ": '"@ + first_name + "' and '"@ + second_name + "'"@
}

/// Labels as the specification sees them: (name, color) views.
pub open spec fn labels_view(v: Seq<(String, String)>) -> Seq<(Seq<char>, Seq<char>)> {
    Seq::new(v.len(), |i: int| (v[i].0@, v[i].1@))
}

/// Reject a label set in which two labels carry the same color (ignoring
/// ASCII case); the error names the color and both labels.
pub fn check_duplicate_colors(labels: &Vec<(String, String)>) -> (r: Result<(), String>)
    ensures
        match r {
            Ok(()) => first_duplicate(labels_view(labels@), 0) is None,
            Err(m) => match first_duplicate(labels_view(labels@), 0) {
                Option::Some((i, j)) => m@ == duplicate_color_message(
                    labels_view(labels@)[j].1,
                    labels_view(labels@)[i].0,
                    labels_view(labels@)[j].0,
                ),
                Option::None => false,
            },
        },
{
    let ghost lv = labels_view(labels@);
    let mut j: usize = 0;
    while j < labels.len()
        invariant
            j <= labels.len(),
            lv == labels_view(labels@),
            first_duplicate(lv, 0) == first_duplicate(lv, j as int),
        decreases labels.len() - j,
    {
        let cj = text::str_chars(labels[j].1.as_str());
        let lj = text::lower_chars(&cj);
        let mut i: usize = 0;
        while i < j
            invariant
                i <= j < labels.len(),
                lv == labels_view(labels@),
                lj@ == lower_color(lv[j as int].1),
                first_duplicate(lv, 0) == first_duplicate(lv, j as int),
                earlier_same_color(lv, j as int, 0) == earlier_same_color(
                    lv,
                    j as int,
                    i as int,
                ),
            decreases j - i,
        {
            let ci = text::str_chars(labels[i].1.as_str());
            let li = text::lower_chars(&ci);
            if text::chars_eq(&li, &lj) {
                let mut m = String::new();
                m.append("Duplicate color #");
                m.append(labels[j].1.as_str());
                m.append(": '");
                m.append(labels[i].0.as_str());
                m.append("' and '");
                m.append(labels[j].0.as_str());
                m.append("'");
                proof {
                    assert(earlier_same_color(lv, j as int, i as int) == Some(i as int));
                    assert(m@ =~= duplicate_color_message(
                        lv[j as int].1,
                        lv[i as int].0,
                        lv[j as int].0,
                    ));
                }
                return Err(m);
            }
            i = i + 1;
        }
        assert(earlier_same_color(lv, j as int, j as int) is None);
        j = j + 1;
    }
    Ok(())
}

/// The color the remote records for `name`, if any (first occurrence).
pub open spec fn remote_color(rs: Seq<(Seq<char>, Seq<char>)>, i: int, name: Seq<char>) -> Option<
    Seq<char>,
>
    decreases rs.len() - i,
{
    if i < 0 || i >= rs.len() {
        None
    } else if rs[i].0 == name {
        Some(rs[i].1)
    } else {
        remote_color(rs, i + 1, name)
    }
}

/// The labels to create: local labels the remote does not know.
pub open spec fn creates_of(
    local: Seq<(Seq<char>, Seq<char>)>,
    remote: Seq<(Seq<char>, Seq<char>)>,
    i: int,
) -> Seq<(Seq<char>, Seq<char>)>
    decreases local.len() - i,
{
    if i < 0 || i >= local.len() {
        Seq::empty()
    } else if remote_color(remote, 0, local[i].0) is None {
        seq![local[i]] + creates_of(local, remote, i + 1)
    } else {
        creates_of(local, remote, i + 1)
    }
}

/// The labels to update: local labels the remote knows under a different
/// color, ignoring ASCII case.
pub open spec fn updates_of(
    local: Seq<(Seq<char>, Seq<char>)>,
    remote: Seq<(Seq<char>, Seq<char>)>,
    i: int,
) -> Seq<(Seq<char>, Seq<char>)>
    decreases local.len() - i,
{
    if i < 0 || i >= local.len() {
        Seq::empty()
    } else {
        match remote_color(remote, 0, local[i].0) {
            Option::Some(rc) => if lower_color(rc) != lower_color(local[i].1) {
                seq![local[i]] + updates_of(local, remote, i + 1)
            } else {
                updates_of(local, remote, i + 1)
            },
            Option::None => updates_of(local, remote, i + 1),
        }
    }
}

/// The labels to offer for deletion: remote labels absent locally.
pub open spec fn deletes_of(
    local: Seq<(Seq<char>, Seq<char>)>,
    remote: Seq<(Seq<char>, Seq<char>)>,
    i: int,
) -> Seq<Seq<char>>
    decreases remote.len() - i,
{
    if i < 0 || i >= remote.len() {
        Seq::empty()
    } else if remote_color(local, 0, remote[i].0) is None {
        seq![remote[i].0] + deletes_of(local, remote, i + 1)
    } else {
        deletes_of(local, remote, i + 1)
    }
}

/// What a label sync will do, decided from the local configuration and
/// the remote state. Labels are keyed by name; colors compare ignoring
/// ASCII case.
#[derive(Debug)]
pub struct SyncPlan {
    pub creates: Vec<(String, String)>,
    pub updates: Vec<(String, String)>,
    pub deletes: Vec<String>,
}

fn lookup_color(rs: &Vec<(String, String)>, name: &String) -> (r: Option<String>)
    ensures
        match r {
            Some(c) => remote_color(labels_view(rs@), 0, name@) == Some(c@),
            None => remote_color(labels_view(rs@), 0, name@) is None,
        },
{
    let ghost rv = labels_view(rs@);
    let mut i: usize = 0;
    while i < rs.len()
        invariant
            i <= rs.len(),
            rv == labels_view(rs@),
            remote_color(rv, 0, name@) == remote_color(rv, i as int, name@),
        decreases rs.len() - i,
    {
        if rs[i].0.eq(name) {
            return Some(rs[i].1.clone());
        }
        i = i + 1;
    }
    None
}

/// Decide the sync: what to create, what to recolor, and what the remote
/// holds that the local configuration does not.
pub fn plan_label_sync(local: &Vec<(String, String)>, remote: &Vec<(String, String)>) -> (r:
    SyncPlan)
    ensures
        ({
            let lv = labels_view(local@);
            let rv = labels_view(remote@);
            &&& labels_view(r.creates@) == creates_of(lv, rv, 0)
            &&& labels_view(r.updates@) == updates_of(lv, rv, 0)
            &&& r.deletes@.len() == deletes_of(lv, rv, 0).len()
            &&& forall|k: int|
                0 <= k < r.deletes@.len() ==> (#[trigger] r.deletes@[k])@ == deletes_of(
                    lv,
                    rv,
                    0,
                )[k]
        }),
{
    let ghost lv = labels_view(local@);
    let ghost rv = labels_view(remote@);
    let mut creates: Vec<(String, String)> = Vec::new();
    let mut updates: Vec<(String, String)> = Vec::new();
    let ghost mut cdone: Seq<(Seq<char>, Seq<char>)> = Seq::empty();
    let ghost mut udone: Seq<(Seq<char>, Seq<char>)> = Seq::empty();
    let mut i: usize = 0;
    while i < local.len()
        invariant
            i <= local.len(),
            lv == labels_view(local@),
            rv == labels_view(remote@),
            creates_of(lv, rv, 0) == cdone + creates_of(lv, rv, i as int),
            updates_of(lv, rv, 0) == udone + updates_of(lv, rv, i as int),
            labels_view(creates@) == cdone,
            labels_view(updates@) == udone,
        decreases local.len() - i,
    {
        match lookup_color(remote, &local[i].0) {
            Option::Some(rc) => {
                let rc_chars = text::str_chars(rc.as_str());
                let rl = text::lower_chars(&rc_chars);
                let lc_chars = text::str_chars(local[i].1.as_str());
                let ll = text::lower_chars(&lc_chars);
                if !text::chars_eq(&rl, &ll) {
                    let ghost before = labels_view(updates@);
                    updates.push((local[i].0.clone(), local[i].1.clone()));
                    proof {
                        assert(labels_view(updates@) =~= before.push(lv[i as int]));
                        udone = udone.push(lv[i as int]);
                    }
                }
            },
            Option::None => {
                let ghost before = labels_view(creates@);
                creates.push((local[i].0.clone(), local[i].1.clone()));
                proof {
                    assert(labels_view(creates@) =~= before.push(lv[i as int]));
                    cdone = cdone.push(lv[i as int]);
                }
            },
        }
        i = i + 1;
    }
    proof {
        assert(creates_of(lv, rv, local@.len() as int) =~= Seq::<(Seq<char>, Seq<char>)>::empty());
        assert(updates_of(lv, rv, local@.len() as int) =~= Seq::<(Seq<char>, Seq<char>)>::empty());
        assert(cdone =~= creates_of(lv, rv, 0));
        assert(udone =~= updates_of(lv, rv, 0));
    }
    let mut deletes: Vec<String> = Vec::new();
    let ghost mut ddone: Seq<Seq<char>> = Seq::empty();
    let mut i: usize = 0;
    while i < remote.len()
        invariant
            i <= remote.len(),
            lv == labels_view(local@),
            rv == labels_view(remote@),
            deletes_of(lv, rv, 0) == ddone + deletes_of(lv, rv, i as int),
            deletes@.len() == ddone.len(),
            forall|k: int| 0 <= k < ddone.len() ==> (#[trigger] deletes@[k])@ == ddone[k],
        decreases remote.len() - i,
    {
        match lookup_color(local, &remote[i].0) {
            Option::Some(_) => {},
            Option::None => {
                deletes.push(remote[i].0.clone());
                proof {
                    ddone = ddone.push(rv[i as int].0);
                }
            },
        }
        i = i + 1;
    }
    proof {
        assert(deletes_of(lv, rv, remote@.len() as int) =~= Seq::<Seq<char>>::empty());
        assert(ddone =~= deletes_of(lv, rv, 0));
    }
    SyncPlan { creates, updates, deletes }
}

} // verus!
