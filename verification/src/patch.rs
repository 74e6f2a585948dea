//! The patch engine: group fixes by file, collapse duplicates, order them
//! back-to-front, and apply them against one frozen copy of the original
//! content, so that earlier replacements never shift the coordinates of
//! later ones.

use vstd::prelude::*;
use crate::report::{Violation, Fix};
use crate::text;

verus! {

/// The fixes as the specification sees them: (start, end, replacement).
pub open spec fn fix_views(fs: Seq<Fix>) -> Seq<(int, int, Seq<char>)> {
    Seq::new(fs.len(), |i: int| (fs[i].start as int, fs[i].end as int, fs[i].replacement@))
}

/// Two fixes target the same range.
pub open spec fn same_range(a: (int, int, Seq<char>), b: (int, int, Seq<char>)) -> bool {
    a.0 == b.0 && a.1 == b.1
}

/// An earlier fix with the same range exists.
pub open spec fn range_seen_before(fs: Seq<(int, int, Seq<char>)>, i: int) -> bool {
    exists|j: int| 0 <= j < i && same_range(fs[j], fs[i])
}

/// Keep the first fix for each byte range, preserving order.
pub open spec fn dedupe_from(fs: Seq<(int, int, Seq<char>)>, i: int) -> Seq<
    (int, int, Seq<char>),
>
    decreases fs.len() - i,
{
    if i < 0 || i >= fs.len() {
        Seq::empty()
    } else if range_seen_before(fs, i) {
        dedupe_from(fs, i + 1)
    } else {
        seq![fs[i]] + dedupe_from(fs, i + 1)
    }
}

/// Insert `x` into a descending-by-start sequence, after any fix with the
/// same start, so equal starts keep their original order.
pub open spec fn insert_desc(
    x: (int, int, Seq<char>),
    s: Seq<(int, int, Seq<char>)>,
) -> Seq<(int, int, Seq<char>)>
    decreases s.len(),
{
    if s.len() == 0 {
        seq![x]
    } else if x.0 > s[0].0 {
        seq![x] + s
    } else {
        seq![s[0]] + insert_desc(x, s.drop_first())
    }
}

/// Stable sort by descending start offset.
pub open spec fn sort_desc(s: Seq<(int, int, Seq<char>)>) -> Seq<(int, int, Seq<char>)>
    decreases s.len(),
{
    if s.len() == 0 {
        Seq::empty()
    } else {
        insert_desc(s.last(), sort_desc(s.drop_last()))
    }
}

/// Apply the fixes `fs[i..]` in order against the evolving content. A fix
/// whose range is out of order or out of bounds is counted unfixable and
/// skipped. Yields the final content and the (applied, skipped) counts.
pub open spec fn apply_from(content: Seq<char>, fs: Seq<(int, int, Seq<char>)>, i: int) -> (
    Seq<char>,
    int,
    int,
)
    decreases fs.len() - i,
{
    if i < 0 || i >= fs.len() {
        (content, 0, 0)
    } else {
        let f = fs[i];
        if 0 <= f.0 <= f.1 <= content.len() {
            let rest = apply_from(text::splice_spec(content, f.0, f.1, f.2), fs, i + 1);
            (rest.0, rest.1 + 1, rest.2)
        } else {
            let rest = apply_from(content, fs, i + 1);
            (rest.0, rest.1, rest.2 + 1)
        }
    }
}

/// What applying a file's fixes yields: the rewritten content and the
/// (applied, skipped) counts, after deduplication and back-to-front
/// ordering.
pub open spec fn patch_outcome(content: Seq<char>, fs: Seq<(int, int, Seq<char>)>) -> (
    Seq<char>,
    int,
    int,
) {
    apply_from(content, sort_desc(dedupe_from(fs, 0)), 0)
}

fn ranges_equal(a: &Fix, b: &Fix) -> (r: bool)
    ensures
        r == same_range(
            (a.start as int, a.end as int, a.replacement@),
            (b.start as int, b.end as int, b.replacement@),
        ),
{
    a.start == b.start && a.end == b.end
}

fn dedupe_fixes(fixes: &Vec<Fix>) -> (r: Vec<Fix>)
    ensures
        fix_views(r@) == dedupe_from(fix_views(fixes@), 0),
{
    let ghost fvs = fix_views(fixes@);
    let mut r: Vec<Fix> = Vec::new();
    let ghost mut done: Seq<(int, int, Seq<char>)> = Seq::empty();
    let mut i: usize = 0;
    while i < fixes.len()
        invariant
            i <= fixes.len(),
            fvs == fix_views(fixes@),
            dedupe_from(fvs, 0) == done + dedupe_from(fvs, i as int),
            fix_views(r@) == done,
        decreases fixes.len() - i,
    {
        let mut seen = false;
        let mut j: usize = 0;
        while j < i
            invariant
                j <= i < fixes.len(),
                fvs == fix_views(fixes@),
                seen == exists|q: int| 0 <= q < j && same_range(fvs[q], fvs[i as int]),
            decreases i - j,
        {
            proof {
                assert(fvs[j as int] == (fixes@[j as int].start as int, fixes@[
                    j as int
                ].end as int, fixes@[j as int].replacement@));
                assert(fvs[i as int] == (fixes@[i as int].start as int, fixes@[
                    i as int
                ].end as int, fixes@[i as int].replacement@));
            }
            if !seen {
                if ranges_equal(&fixes[j], &fixes[i]) {
                    assert(same_range(fvs[j as int], fvs[i as int]));
                    seen = true;
                }
            }
            j = j + 1;
        }
        let ghost before = fix_views(r@);
        if !seen {
            r.push(fixes[i].duplicate());
            proof {
                assert(fix_views(r@) =~= before.push(fvs[i as int]));
                done = done.push(fvs[i as int]);
            }
        }
        i = i + 1;
    }
    proof {
        assert(dedupe_from(fvs, fixes@.len() as int) =~= Seq::<(int, int, Seq<char>)>::empty());
        assert(dedupe_from(fvs, 0) =~= done);
    }
    r
}

proof fn lemma_insert_desc_at(
    x: (int, int, Seq<char>),
    s: Seq<(int, int, Seq<char>)>,
    j: int,
)
    requires
        0 <= j <= s.len(),
        forall|q: int| 0 <= q < j ==> !(x.0 > (#[trigger] s[q]).0),
        j == s.len() || x.0 > s[j].0,
    ensures
        insert_desc(x, s) == s.subrange(0, j) + seq![x] + s.subrange(j, s.len() as int),
    decreases j,
{
    if j == 0 {
        if s.len() == 0 {
            assert(insert_desc(x, s) =~= s.subrange(0, 0) + seq![x] + s.subrange(
                0,
                s.len() as int,
            ));
        } else {
            assert(s.subrange(0, s.len() as int) =~= s);
            assert(insert_desc(x, s) =~= s.subrange(0, 0) + seq![x] + s.subrange(
                0,
                s.len() as int,
            ));
        }
    } else {
        let t = s.drop_first();
        lemma_insert_desc_at(x, t, j - 1);
        assert(t.subrange(0, j - 1) =~= s.subrange(1, j));
        assert(t.subrange(j - 1, t.len() as int) =~= s.subrange(j, s.len() as int));
        assert(insert_desc(x, s) =~= s.subrange(0, j) + seq![x] + s.subrange(
            j,
            s.len() as int,
        ));
    }
}

fn sort_fixes(fixes: Vec<Fix>) -> (r: Vec<Fix>)
    ensures
        fix_views(r@) == sort_desc(fix_views(fixes@)),
{
    let ghost fvs = fix_views(fixes@);
    let mut r: Vec<Fix> = Vec::new();
    let mut i: usize = 0;
    while i < fixes.len()
        invariant
            i <= fixes.len(),
            fvs == fix_views(fixes@),
            fix_views(r@) == sort_desc(fvs.subrange(0, i as int)),
        decreases fixes.len() - i,
    {
        let x = fixes[i].duplicate();
        let ghost xv = fvs[i as int];
        // Find the insertion point: before the first strictly smaller start.
        let mut j: usize = 0;
        while j < r.len() && r[j].start >= x.start
            invariant
                j <= r.len(),
                x.start == fixes[i as int].start,
                forall|q: int| 0 <= q < j ==> (#[trigger] fix_views(r@)[q]).0 >= x.start as int,
            decreases r.len() - j,
        {
            assert(fix_views(r@)[j as int].0 == r@[j as int].start as int);
            j = j + 1;
        }
        proof {
            if j < r.len() {
                assert(fix_views(r@)[j as int].0 == r@[j as int].start as int);
            }
            lemma_insert_desc_at(xv, fix_views(r@), j as int);
        }
        let ghost before = fix_views(r@);
        r.insert(j, x);
        proof {
            assert(fix_views(r@) =~= before.subrange(0, j as int) + seq![xv] + before.subrange(
                j as int,
                before.len() as int,
            ));
            assert(fvs.subrange(0, i + 1).drop_last() =~= fvs.subrange(0, i as int));
            assert(fvs.subrange(0, i + 1).last() == xv);
        }
        i = i + 1;
    }
    proof {
        assert(fvs.subrange(0, fixes@.len() as int) =~= fvs);
    }
    r
}

/// Apply all of one file's fixes against its original content in a single
/// pass: duplicates at identical ranges collapse to one, the survivors are
/// ordered by descending start offset, and each in-bounds fix rewrites its
/// range. Returns the new content and the (applied, skipped) counts.
pub fn apply_fixes_to_content(content: &Vec<char>, fixes: &Vec<Fix>) -> (r: (
    Vec<char>,
    usize,
    usize,
))
    ensures
        ({
            let outcome = patch_outcome(content@, fix_views(fixes@));
            r.0@ == outcome.0 && r.1 as int == outcome.1 && r.2 as int == outcome.2
        }),
{
    let unique = dedupe_fixes(fixes);
    let sorted = sort_fixes(unique);
    let ghost svs = sort_desc(dedupe_from(fix_views(fixes@), 0));
    let ghost total = apply_from(content@, svs, 0);
    let mut cur = text::copy_chars(content);
    let mut applied: usize = 0;
    let mut skipped: usize = 0;
    let mut i: usize = 0;
    while i < sorted.len()
        invariant
            i <= sorted.len(),
            applied + skipped == i,
            svs == fix_views(sorted@),
            total == apply_from(content@, svs, 0),
            ({
                let rest = apply_from(cur@, svs, i as int);
                total.0 == rest.0 && total.1 == applied + rest.1 && total.2 == skipped + rest.2
            }),
        decreases sorted.len() - i,
    {
        let f = &sorted[i];
        assert(svs[i as int] == (f.start as int, f.end as int, f.replacement@));
        if f.start <= f.end && f.end <= cur.len() {
            let next = text::splice(&cur, f.start, f.end, &f.replacement);
            assert(next@ =~= text::splice_spec(cur@, f.start as int, f.end as int, f.replacement@));
            cur = next;
            applied = applied + 1;
        } else {
            skipped = skipped + 1;
        }
        i = i + 1;
    }
    (cur, applied, skipped)
}

/// How many violations of a run carry no fix: the rule found them but the
/// engine cannot mend them mechanically.
pub open spec fn unfixable_count(vs: Seq<Violation>, i: int) -> int
    decreases vs.len() - i,
{
    if i < 0 || i >= vs.len() {
        0
    } else if vs[i].fix is None {
        1 + unfixable_count(vs, i + 1)
    } else {
        unfixable_count(vs, i + 1)
    }
}

/// Count the violations that carry no fix.
pub fn count_unfixable(violations: &Vec<Violation>) -> (n: usize)
    ensures
        n as int == unfixable_count(violations@, 0),
{
    let mut n: usize = 0;
    let mut i: usize = 0;
    while i < violations.len()
        invariant
            i <= violations.len(),
            n <= i,
            unfixable_count(violations@, 0) == n + unfixable_count(violations@, i as int),
        decreases violations.len() - i,
    {
        if violations[i].fix.is_none() {
            n = n + 1;
        }
        i = i + 1;
    }
    n
}

/// The distinct files, in first-appearance order, of the violations that
/// carry a fix.
pub open spec fn fix_files(vs: Seq<Violation>, i: int) -> Seq<Seq<char>>
    decreases vs.len() - i,
{
    if i < 0 || i >= vs.len() {
        Seq::empty()
    } else if vs[i].fix is Some && !file_seen_before(vs, i) {
        seq![vs[i].file@] + fix_files(vs, i + 1)
    } else {
        fix_files(vs, i + 1)
    }
}

/// An earlier violation with a fix already names this file.
pub open spec fn file_seen_before(vs: Seq<Violation>, i: int) -> bool {
    exists|j: int| 0 <= j < i && vs[j].fix is Some && vs[j].file@ == vs[i].file@
}

/// The fixes of the violations naming `file`, in order.
pub open spec fn fixes_of_file(vs: Seq<Violation>, i: int, file: Seq<char>) -> Seq<
    (int, int, Seq<char>),
>
    decreases vs.len() - i,
{
    if i < 0 || i >= vs.len() {
        Seq::empty()
    } else {
        let rest = fixes_of_file(vs, i + 1, file);
        match vs[i].fix {
            Option::Some(f) => if vs[i].file@ == file {
                seq![(f.start as int, f.end as int, f.replacement@)] + rest
            } else {
                rest
            },
            Option::None => rest,
        }
    }
}

fn collect_fixes_of_file(violations: &Vec<Violation>, file: &String) -> (r: Vec<Fix>)
    ensures
        fix_views(r@) == fixes_of_file(violations@, 0, file@),
{
    let mut r: Vec<Fix> = Vec::new();
    let ghost mut done: Seq<(int, int, Seq<char>)> = Seq::empty();
    let mut i: usize = 0;
    while i < violations.len()
        invariant
            i <= violations.len(),
            fixes_of_file(violations@, 0, file@) == done + fixes_of_file(
                violations@,
                i as int,
                file@,
            ),
            fix_views(r@) == done,
        decreases violations.len() - i,
    {
        let ghost before = fix_views(r@);
        match &violations[i].fix {
            Option::Some(f) => {
                if violations[i].file.eq(file) {
                    r.push(f.duplicate());
                    proof {
                        assert(fix_views(r@) =~= before.push(
                            (f.start as int, f.end as int, f.replacement@),
                        ));
                        done = done.push((f.start as int, f.end as int, f.replacement@));
                    }
                }
            },
            Option::None => {},
        }
        i = i + 1;
    }
    proof {
        assert(fixes_of_file(violations@, violations@.len() as int, file@) =~= Seq::<
            (int, int, Seq<char>),
        >::empty());
        assert(fixes_of_file(violations@, 0, file@) =~= done);
    }
    r
}

/// Group the fixable violations' fixes by file, in first-appearance
/// order; file names are unique across the result.
pub fn group_fixes_by_file(violations: &Vec<Violation>) -> (r: Vec<(String, Vec<Fix>)>)
    ensures
        r@.len() == fix_files(violations@, 0).len(),
        forall|k: int|
            0 <= k < r@.len() ==> (#[trigger] r@[k]).0@ == fix_files(violations@, 0)[k]
                && fix_views(r@[k].1@) == fixes_of_file(
                violations@,
                0,
                fix_files(violations@, 0)[k],
            ),
{
    let ghost files = fix_files(violations@, 0);
    let mut names: Vec<String> = Vec::new();
    let ghost mut done: Seq<Seq<char>> = Seq::empty();
    let mut i: usize = 0;
    while i < violations.len()
        invariant
            i <= violations.len(),
            files == fix_files(violations@, 0),
            files == done + fix_files(violations@, i as int),
            names@.len() == done.len(),
            forall|k: int| 0 <= k < done.len() ==> (#[trigger] names@[k])@ == done[k],
        decreases violations.len() - i,
    {
        if violations[i].fix.is_some() {
            // First appearance of this file among the fixable violations?
            let mut found = false;
            let mut j: usize = 0;
            while j < i
                invariant
                    j <= i < violations.len(),
                    found == exists|q: int|
                        0 <= q < j && (#[trigger] violations@[q]).fix is Some && violations@[
                            q
                        ].file@ == violations@[i as int].file@,
                decreases i - j,
            {
                if !found {
                    if violations[j].fix.is_some() && violations[j].file.eq(
                        &violations[i].file,
                    ) {
                        assert(violations@[j as int].fix is Some && violations@[j as int].file@
                            == violations@[i as int].file@);
                        found = true;
                    }
                }
                j = j + 1;
            }
            assert(found == file_seen_before(violations@, i as int));
            if !found {
                names.push(violations[i].file.clone());
                proof {
                    let done0 = done;
                    done = done.push(violations@[i as int].file@);
                    assert(names@.len() == done.len());
                }
            }
        }
        i = i + 1;
    }
    proof {
        assert(fix_files(violations@, violations@.len() as int) =~= Seq::<Seq<char>>::empty());
        assert(files =~= done);
    }
    let mut r: Vec<(String, Vec<Fix>)> = Vec::new();
    let mut k: usize = 0;
    while k < names.len()
        invariant
            k <= names.len(),
            files == fix_files(violations@, 0),
            names@.len() == files.len(),
            forall|q: int| 0 <= q < files.len() ==> (#[trigger] names@[q])@ == files[q],
            r@.len() == k,
            forall|q: int|
                0 <= q < k ==> (#[trigger] r@[q]).0@ == files[q] && fix_views(r@[q].1@)
                    == fixes_of_file(violations@, 0, files[q]),
        decreases names.len() - k,
    {
        let fixes = collect_fixes_of_file(violations, &names[k]);
        let name = names[k].clone();
        r.push((name, fixes));
        k = k + 1;
    }
    r
}

} // verus!
