//! The declaration/implementation adjacency rule: an inherent
//! implementation block must start at most one blank line below the type
//! it implements (or below the previous implementation block for the same
//! type, so chains of blocks are checked as contiguous).

use vstd::prelude::*;

verus! {

/// One top-level item of a parsed file, reduced to what this rule reads:
/// nominal type declarations and implementation blocks, in file order.
#[derive(Clone, Debug)]
pub enum TopItem {
    /// A named record, sum-type or union declaration ending on `end_line`.
    TypeDecl { name: String, end_line: usize },
    /// An implementation block. `target_name` is the simple name of the
    /// implemented type (its last path segment), if the self type has one;
    /// `is_trait_impl` says whether the block satisfies a named trait.
    ImplBlock { target_name: Option<String>, is_trait_impl: bool, start_line: usize, end_line: usize },
}

/// The anchors table: for each known type name, the line its declaration
/// (or latest implementation block) ends on. Later entries override
/// earlier ones.
pub open spec fn anchor_lookup_upto(m: Seq<(Seq<char>, int)>, j: int, k: Seq<char>) -> Option<
    int,
>
    decreases j,
{
    if j <= 0 || j > m.len() {
        None
    } else if m[j - 1].0 == k {
        Some(m[j - 1].1)
    } else {
        anchor_lookup_upto(m, j - 1, k)
    }
}

/// The latest anchor recorded for `k`, if any.
pub open spec fn anchor_lookup(m: Seq<(Seq<char>, int)>, k: Seq<char>) -> Option<int> {
    anchor_lookup_upto(m, m.len() as int, k)
}

/// Anchors after the first pass over `items[..i]`: each type declaration
/// records the line it ends on, later declarations overriding earlier
/// ones.
pub open spec fn type_anchors(items: Seq<TopItem>, i: int) -> Seq<(Seq<char>, int)>
    decreases i,
{
    if i <= 0 || i > items.len() {
        Seq::empty()
    } else {
        let prev = type_anchors(items, i - 1);
        match items[i - 1] {
            TopItem::TypeDecl { name, end_line } => prev.push((name@, end_line as int)),
            _ => prev,
        }
    }
}

/// One adjacency violation, as the specification sees it: the implemented
/// type's name, the anchor line the block should have followed, and the
/// line the block actually starts on.
pub struct AdjFinding {
    pub name: Seq<char>,
    pub anchor: int,
    pub start_line: int,
}

impl AdjFinding {
    /// Blank lines between the anchor and the block.
    pub open spec fn gap(&self) -> int {
        self.start_line - self.anchor - 1
    }
}

/// Second pass over `items[i..]`: resolve each inherent implementation
/// block against the anchors, report a finding when it starts more than
/// one blank line below its anchor, and move the anchor to the block's own
/// end line.
pub open spec fn adjacency_pass(
    items: Seq<TopItem>,
    i: int,
    anchors: Seq<(Seq<char>, int)>,
) -> Seq<AdjFinding>
    decreases items.len() - i,
{
    if i < 0 || i >= items.len() {
        Seq::empty()
    } else {
        match items[i] {
            TopItem::ImplBlock { target_name, is_trait_impl, start_line, end_line } => {
                if is_trait_impl {
                    adjacency_pass(items, i + 1, anchors)
                } else {
                    match target_name {
                        Option::None => adjacency_pass(items, i + 1, anchors),
                        Option::Some(nm) => match anchor_lookup(anchors, nm@) {
                            Option::None => adjacency_pass(items, i + 1, anchors),
                            Option::Some(anchor) => {
                                let updated = anchors.push((nm@, end_line as int));
                                let rest = adjacency_pass(items, i + 1, updated);
                                if start_line as int > anchor + 2 {
                                    seq![
                                        AdjFinding {
                                            name: nm@,
                                            anchor,
                                            start_line: start_line as int,
                                        },
                                    ] + rest
                                } else {
                                    rest
                                }
                            },
                        },
                    }
                }
            },
            _ => adjacency_pass(items, i + 1, anchors),
        }
    }
}

/// Everything the adjacency rule reports for one file's top-level items.
pub open spec fn adjacency_findings(items: Seq<TopItem>) -> Seq<AdjFinding> {
    adjacency_pass(items, 0, type_anchors(items, items.len() as int))
}

/// A produced violation carries exactly what one adjacency finding says.
pub open spec fn reflects_finding(
    v: crate::report::Violation,
    f: AdjFinding,
    path: Seq<char>,
) -> bool {
    &&& v.rule == crate::report::RuleId::ImplFollowsType
    &&& v.file@ == path
    &&& v.line as int == f.start_line
    &&& v.message@ == crate::report::adjacency_message(f.name, f.anchor as nat, f.gap() as nat)
    &&& v.fix is None
}

spec fn anchors_view(v: Seq<(String, usize)>) -> Seq<(Seq<char>, int)> {
    Seq::new(v.len(), |i: int| (v[i].0@, v[i].1 as int))
}

fn anchor_find(v: &Vec<(String, usize)>, name: &String) -> (r: Option<usize>)
    ensures
        match r {
            Some(a) => anchor_lookup(anchors_view(v@), name@) == Some(a as int),
            None => anchor_lookup(anchors_view(v@), name@) is None,
        },
{
    let mut j: usize = v.len();
    while j > 0
        invariant
            j <= v.len(),
            anchor_lookup(anchors_view(v@), name@) == anchor_lookup_upto(
                anchors_view(v@),
                j as int,
                name@,
            ),
        decreases j,
    {
        let entry = &v[j - 1];
        if entry.0.eq(name) {
            return Some(entry.1);
        }
        j = j - 1;
    }
    None
}

/// Check one file's top-level items. Each finding becomes a violation of
/// the adjacency rule, with no automatic fix: moving a block of code
/// safely would take range-level surgery this rule does not attempt.
pub fn check_impl_follows_type(path: &str, items: &Vec<TopItem>) -> (r: Vec<
    crate::report::Violation,
>)
    ensures
        r@.len() == adjacency_findings(items@).len(),
        forall|k: int|
            0 <= k < r@.len() ==> reflects_finding(
                #[trigger] r@[k],
                adjacency_findings(items@)[k],
                path@,
            ),
{
    let mut anchors: Vec<(String, usize)> = Vec::new();
    let mut i: usize = 0;
    while i < items.len()
        invariant
            i <= items.len(),
            anchors_view(anchors@) == type_anchors(items@, i as int),
        decreases items.len() - i,
    {
        match &items[i] {
            TopItem::TypeDecl { name, end_line } => {
                let ghost before = anchors_view(anchors@);
                anchors.push((name.clone(), *end_line));
                proof {
                    assert(anchors_view(anchors@) =~= before.push((name@, *end_line as int)));
                }
            },
            _ => {},
        }
        i = i + 1;
    }
    let mut out: Vec<crate::report::Violation> = Vec::new();
    let ghost all = adjacency_findings(items@);
    let ghost mut done: Seq<AdjFinding> = Seq::empty();
    let mut i: usize = 0;
    while i < items.len()
        invariant
            i <= items.len(),
            all == adjacency_findings(items@),
            all == done + adjacency_pass(items@, i as int, anchors_view(anchors@)),
            out@.len() == done.len(),
            forall|k: int|
                0 <= k < out@.len() ==> reflects_finding(#[trigger] out@[k], done[k], path@),
        decreases items.len() - i,
    {
        let ghost pre_anchors = anchors_view(anchors@);
        match &items[i] {
            TopItem::ImplBlock { target_name, is_trait_impl, start_line, end_line } => {
                if !*is_trait_impl {
                    match target_name {
                        Option::Some(nm) => {
                            match anchor_find(&anchors, nm) {
                                Option::Some(anchor) => {
                                    if *start_line > anchor && *start_line - anchor > 2 {
                                        let gap = *start_line - anchor - 1;
                                        let message = crate::report::build_adjacency_message(
                                            nm,
                                            anchor,
                                            gap,
                                        );
                                        let v = crate::report::Violation {
                                            rule: crate::report::RuleId::ImplFollowsType,
                                            file: path.to_owned(),
                                            line: *start_line,
                                            message,
                                            fix: Option::None,
                                        };
                                        out.push(v);
                                        proof {
                                            done = done.push(
                                                AdjFinding {
                                                    name: nm@,
                                                    anchor: anchor as int,
                                                    start_line: *start_line as int,
                                                },
                                            );
                                        }
                                    }
                                    let ghost before = anchors_view(anchors@);
                                    anchors.push((nm.clone(), *end_line));
                                    proof {
                                        assert(anchors_view(anchors@) =~= before.push(
                                            (nm@, *end_line as int),
                                        ));
                                        assert(all =~= done + adjacency_pass(
                                            items@,
                                            i + 1,
                                            anchors_view(anchors@),
                                        ));
                                    }
                                },
                                Option::None => {
                                    assert(adjacency_pass(items@, i as int, pre_anchors)
                                        == adjacency_pass(items@, i + 1, pre_anchors));
                                },
                            }
                        },
                        Option::None => {
                            assert(adjacency_pass(items@, i as int, pre_anchors)
                                == adjacency_pass(items@, i + 1, pre_anchors));
                        },
                    }
                } else {
                    assert(adjacency_pass(items@, i as int, pre_anchors) == adjacency_pass(
                        items@,
                        i + 1,
                        pre_anchors,
                    ));
                }
            },
            _ => {
                assert(adjacency_pass(items@, i as int, pre_anchors) == adjacency_pass(
                    items@,
                    i + 1,
                    pre_anchors,
                ));
            },
        }
        i = i + 1;
    }
    out
}

} // verus!
