//! The process tree as the interface shows it: conversion from the sampled
//! hierarchy, focusing on a subtree, filtering by pid or name, and the pids
//! a tree holds.

use std::collections::HashSet;

use vstd::prelude::*;

use crate::dto::{Pid, ProcessHierarchyNodeDTO};
use crate::text::{
    chars_of, contains_sub, dec, dec_chars, vec_contains,
};

verus! {

broadcast use vstd::std_specs::hash::group_hash_axioms;

/// A node of the process tree as the interface holds it.
#[derive(Debug)]
pub struct ProcessHierarchyNodeViewModel {
    pub pid: Pid,
    pub ppid: Pid,
    pub name: String,
    pub children: Vec<ProcessHierarchyNodeViewModel>,
}

/// The mathematical value of a process tree node.
pub struct TreeView {
    pub pid: Pid,
    pub ppid: Pid,
    pub name: Seq<char>,
    pub children: Seq<TreeView>,
}

/// The value of a node of the interface's tree.
pub open spec fn node_view(n: ProcessHierarchyNodeViewModel) -> TreeView
    decreases n,
{
    TreeView { pid: n.pid, ppid: n.ppid, name: n.name@, children: forest_view(n.children@) }
}

/// The values of a sequence of nodes of the interface's tree.
pub open spec fn forest_view(s: Seq<ProcessHierarchyNodeViewModel>) -> Seq<TreeView>
    decreases s,
{
    if s.len() == 0 {
        Seq::empty()
    } else {
        seq![node_view(s[0])] + forest_view(s.subrange(1, s.len() as int))
    }
}

/// The value of a node of the sampled hierarchy.
pub open spec fn dto_view(n: ProcessHierarchyNodeDTO) -> TreeView
    decreases n,
{
    TreeView { pid: n.pid, ppid: n.ppid, name: n.name@, children: dto_forest_view(n.children@) }
}

/// The values of a sequence of nodes of the sampled hierarchy.
pub open spec fn dto_forest_view(s: Seq<ProcessHierarchyNodeDTO>) -> Seq<TreeView>
    decreases s,
{
    if s.len() == 0 {
        Seq::empty()
    } else {
        seq![dto_view(s[0])] + dto_forest_view(s.subrange(1, s.len() as int))
    }
}

/// `forest_view` keeps the length and maps each node to its value.
pub proof fn lemma_forest_view(s: Seq<ProcessHierarchyNodeViewModel>)
    ensures
        forest_view(s).len() == s.len(),
        forall|i: int| 0 <= i < s.len() ==> #[trigger] forest_view(s)[i] == node_view(s[i]),
    decreases s.len(),
{
    if s.len() > 0 {
        let t = s.subrange(1, s.len() as int);
        lemma_forest_view(t);
        assert forall|i: int| 0 <= i < s.len() implies #[trigger] forest_view(s)[i] == node_view(
            s[i],
        ) by {
            if i > 0 {
                assert(forest_view(s)[i] == forest_view(t)[i - 1]);
                assert(t[i - 1] == s[i]);
            }
        }
    }
}

/// `dto_forest_view` keeps the length and maps each node to its value.
pub proof fn lemma_dto_forest_view(s: Seq<ProcessHierarchyNodeDTO>)
    ensures
        dto_forest_view(s).len() == s.len(),
        forall|i: int| 0 <= i < s.len() ==> #[trigger] dto_forest_view(s)[i] == dto_view(s[i]),
    decreases s.len(),
{
    if s.len() > 0 {
        let t = s.subrange(1, s.len() as int);
        lemma_dto_forest_view(t);
        assert forall|i: int| 0 <= i < s.len() implies #[trigger] dto_forest_view(s)[i]
            == dto_view(s[i]) by {
            if i > 0 {
                assert(dto_forest_view(s)[i] == dto_forest_view(t)[i - 1]);
                assert(t[i - 1] == s[i]);
            }
        }
    }
}

/// Two sequences of nodes with the same values element by element have the same value.
proof fn lemma_forest_views_equal(a: Seq<ProcessHierarchyNodeViewModel>, b: Seq<ProcessHierarchyNodeDTO>)
    requires
        a.len() == b.len(),
        forall|i: int| 0 <= i < a.len() ==> node_view(#[trigger] a[i]) == dto_view(b[i]),
    ensures
        forest_view(a) == dto_forest_view(b),
{
    lemma_forest_view(a);
    lemma_dto_forest_view(b);
    assert(forest_view(a) =~= dto_forest_view(b));
}

/// The values of a sequence of nodes, one element at a time.
proof fn lemma_forest_view_of(s: Seq<ProcessHierarchyNodeViewModel>, t: Seq<TreeView>)
    requires
        s.len() == t.len(),
        forall|i: int| 0 <= i < s.len() ==> node_view(#[trigger] s[i]) == t[i],
    ensures
        forest_view(s) == t,
{
    lemma_forest_view(s);
    assert(forest_view(s) =~= t);
}

// ---------------------------------------------------------------------------
// What a tree holds
// ---------------------------------------------------------------------------

/// The pids of a tree.
pub open spec fn tree_pids(t: TreeView) -> Set<Pid>
    decreases t,
{
    set![t.pid].union(forest_pids(t.children))
}

/// The pids of a sequence of trees.
pub open spec fn forest_pids(s: Seq<TreeView>) -> Set<Pid>
    decreases s,
{
    if s.len() == 0 {
        Set::empty()
    } else {
        tree_pids(s[0]).union(forest_pids(s.subrange(1, s.len() as int)))
    }
}

/// The pids of a tree, parents before children and siblings in order.
pub open spec fn tree_preorder(t: TreeView) -> Seq<Pid>
    decreases t,
{
    seq![t.pid] + forest_preorder(t.children)
}

/// The pids of a sequence of trees in preorder.
pub open spec fn forest_preorder(s: Seq<TreeView>) -> Seq<Pid>
    decreases s,
{
    if s.len() == 0 {
        Seq::empty()
    } else {
        tree_preorder(s[0]) + forest_preorder(s.subrange(1, s.len() as int))
    }
}

/// The first subtree, in preorder, whose root has the pid.
pub open spec fn find_tree(t: TreeView, pid: Pid) -> Option<TreeView>
    decreases t,
{
    if t.pid == pid {
        Some(t)
    } else {
        find_forest(t.children, pid)
    }
}

/// The first subtree, in preorder over the sequence, whose root has the pid.
pub open spec fn find_forest(s: Seq<TreeView>, pid: Pid) -> Option<TreeView>
    decreases s,
{
    if s.len() == 0 {
        None
    } else {
        match find_tree(s[0], pid) {
            Some(x) => Some(x),
            None => find_forest(s.subrange(1, s.len() as int), pid),
        }
    }
}

/// The subtree with the pid found in each tree of `s` that has one.
pub open spec fn found_in_each(s: Seq<TreeView>, pid: Pid) -> Seq<TreeView>
    decreases s.len(),
{
    if s.len() == 0 {
        Seq::empty()
    } else {
        (match find_tree(s[0], pid) {
            Some(x) => seq![x],
            None => Seq::empty(),
        }) + found_in_each(s.subrange(1, s.len() as int), pid)
    }
}

/// The lower-case form of a text, as `str::to_lowercase` gives it.
pub uninterp spec fn lowercase_of(s: Seq<char>) -> Seq<char>;

/// A node matches a filter when the filter occurs in its pid's decimal
/// text or in its lower-cased name.
pub open spec fn node_matches(pid: Pid, lowered_name: Seq<char>, filter: Seq<char>) -> bool {
    contains_sub(dec(pid as nat), filter) || contains_sub(lowered_name, filter)
}

/// A tree cut down to the nodes that match the filter and their ancestors;
/// `None` when nothing in it matches.
pub open spec fn filter_tree(t: TreeView, filter: Seq<char>) -> Option<TreeView>
    decreases t,
{
    let kids = filter_forest(t.children, filter);
    if node_matches(t.pid, lowercase_of(t.name), filter) || kids.len() > 0 {
        Some(TreeView { pid: t.pid, ppid: t.ppid, name: t.name, children: kids })
    } else {
        None
    }
}

/// The trees of a sequence cut down by the filter, those with no match dropped.
pub open spec fn filter_forest(s: Seq<TreeView>, filter: Seq<char>) -> Seq<TreeView>
    decreases s,
{
    if s.len() == 0 {
        Seq::empty()
    } else {
        (match filter_tree(s[0], filter) {
            Some(x) => seq![x],
            None => Seq::empty(),
        }) + filter_forest(s.subrange(1, s.len() as int), filter)
    }
}

/// The trees the tree view shows: the focused subtrees (all roots without a
/// focus), cut down by the lower-cased filter when it is not empty.
pub open spec fn visible_forest(roots: Seq<TreeView>, focus: Option<Pid>, filter: Seq<char>) -> Seq<
    TreeView,
> {
    let focused = match focus {
        Some(p) => found_in_each(roots, p),
        None => roots,
    };
    if filter.len() == 0 {
        focused
    } else {
        filter_forest(focused, filter)
    }
}

/// An empty filter hides nothing: the tree comes back whole.
pub proof fn lemma_empty_filter_keeps_tree(t: TreeView)
    ensures
        filter_tree(t, Seq::empty()) == Some(t),
    decreases t,
{
    lemma_empty_filter_keeps_forest(t.children);
    let d = dec(t.pid as nat);
    assert(d.subrange(0, 0) =~= Seq::<char>::empty());
    assert(crate::text::occurs_at(d, Seq::empty(), 0));
}

/// An empty filter hides nothing: every tree of the sequence comes back whole.
pub proof fn lemma_empty_filter_keeps_forest(s: Seq<TreeView>)
    ensures
        filter_forest(s, Seq::empty()) == s,
    decreases s,
{
    if s.len() > 0 {
        lemma_empty_filter_keeps_tree(s[0]);
        lemma_empty_filter_keeps_forest(s.subrange(1, s.len() as int));
        assert(seq![s[0]] + s.subrange(1, s.len() as int) =~= s);
    }
}

/// Filtering keeps no pid that was not in the tree.
pub proof fn lemma_filter_tree_pids(t: TreeView, filter: Seq<char>)
    ensures
        filter_tree(t, filter) matches Some(x) ==> tree_pids(x).subset_of(tree_pids(t)),
    decreases t,
{
    lemma_filter_forest_pids(t.children, filter);
}

/// Filtering keeps no pid that was not in the trees.
pub proof fn lemma_filter_forest_pids(s: Seq<TreeView>, filter: Seq<char>)
    ensures
        forest_pids(filter_forest(s, filter)).subset_of(forest_pids(s)),
    decreases s,
{
    if s.len() > 0 {
        let rest = s.subrange(1, s.len() as int);
        lemma_filter_tree_pids(s[0], filter);
        lemma_filter_forest_pids(rest, filter);
        let head = match filter_tree(s[0], filter) {
            Some(x) => seq![x],
            None => Seq::<TreeView>::empty(),
        };
        let out = head + filter_forest(rest, filter);
        if out.len() > 0 {
            if head.len() > 0 {
                assert(out[0] == head[0]);
                assert(out.subrange(1, out.len() as int) =~= filter_forest(rest, filter));
            } else {
                assert(out =~= filter_forest(rest, filter));
            }
        }
    }
}

/// The subtree found for a pid has that pid at its root and lies in the tree.
pub proof fn lemma_found_subtree_root(t: TreeView, pid: Pid)
    ensures
        find_tree(t, pid) matches Some(x) ==> x.pid == pid && tree_pids(t).contains(pid),
    decreases t,
{
    if t.pid != pid {
        lemma_found_forest_root(t.children, pid);
    }
}

/// The subtree found for a pid in a sequence has that pid at its root and
/// lies in one of the trees.
pub proof fn lemma_found_forest_root(s: Seq<TreeView>, pid: Pid)
    ensures
        find_forest(s, pid) matches Some(x) ==> x.pid == pid && forest_pids(s).contains(pid),
    decreases s,
{
    if s.len() > 0 {
        lemma_found_subtree_root(s[0], pid);
        lemma_found_forest_root(s.subrange(1, s.len() as int), pid);
    }
}

/// `str::to_lowercase`; the result is named by `lowercase_of`.
#[verifier::external_body]
pub(crate) fn to_lowercase(s: &str) -> (r: String)
    ensures
        r@ == lowercase_of(s@),
{
    s.to_lowercase()
}

impl ProcessHierarchyNodeViewModel {
    /// A copy of the node and all below it.
    pub fn copy(&self) -> (r: Self)
        ensures
            node_view(r) == node_view(*self),
        decreases self,
    {
        let mut children: Vec<ProcessHierarchyNodeViewModel> = Vec::new();
        let mut i: usize = 0;
        while i < self.children.len()
            invariant
                i <= self.children@.len(),
                children@.len() == i,
                forall|k: int|
                    0 <= k < i ==> node_view(#[trigger] children@[k]) == node_view(
                        self.children@[k],
                    ),
            decreases self.children@.len() - i,
        {
            proof {
                assert(decreases_to!(*self => self.children@[i as int]));
            }
            let c = self.children[i].copy();
            children.push(c);
            i = i + 1;
        }
        proof {
            lemma_forest_view(self.children@);
            lemma_forest_view_of(children@, forest_view(self.children@));
        }
        ProcessHierarchyNodeViewModel {
            pid: self.pid,
            ppid: self.ppid,
            name: self.name.clone(),
            children,
        }
    }

    /// The interface's copy of a sampled hierarchy node and all below it.
    pub fn from_dto(dto: &ProcessHierarchyNodeDTO) -> (r: Self)
        ensures
            node_view(r) == dto_view(*dto),
        decreases dto,
    {
        let mut children: Vec<ProcessHierarchyNodeViewModel> = Vec::new();
        let mut i: usize = 0;
        while i < dto.children.len()
            invariant
                i <= dto.children@.len(),
                children@.len() == i,
                forall|k: int|
                    0 <= k < i ==> node_view(#[trigger] children@[k]) == dto_view(
                        dto.children@[k],
                    ),
            decreases dto.children@.len() - i,
        {
            proof {
                assert(decreases_to!(*dto => dto.children@[i as int]));
            }
            let c = Self::from_dto(&dto.children[i]);
            children.push(c);
            i = i + 1;
        }
        proof {
            lemma_forest_views_equal(children@, dto.children@);
        }
        ProcessHierarchyNodeViewModel {
            pid: dto.pid,
            ppid: dto.ppid,
            name: dto.name.clone(),
            children,
        }
    }
}

/// The interface's copies of the sampled hierarchy's roots.
pub fn hierarchy_from_dtos(roots: &Vec<ProcessHierarchyNodeDTO>) -> (r: Vec<ProcessHierarchyNodeViewModel>)
    ensures
        forest_view(r@) == dto_forest_view(roots@),
{
    let mut out: Vec<ProcessHierarchyNodeViewModel> = Vec::new();
    let mut i: usize = 0;
    while i < roots.len()
        invariant
            i <= roots@.len(),
            out@.len() == i,
            forall|k: int| 0 <= k < i ==> node_view(#[trigger] out@[k]) == dto_view(roots@[k]),
        decreases roots@.len() - i,
    {
        let c = ProcessHierarchyNodeViewModel::from_dto(&roots[i]);
        out.push(c);
        i = i + 1;
    }
    proof {
        lemma_forest_views_equal(out@, roots@);
    }
    out
}

/// Adds the pids of a tree to `set`.
fn collect_into(node: &ProcessHierarchyNodeViewModel, set: &mut HashSet<Pid>)
    ensures
        final(set)@ == old(set)@.union(tree_pids(node_view(*node))),
    decreases node,
{
    let ghost before = set@;
    let ghost fv = forest_view(node.children@);
    set.insert(node.pid);
    let mut i: usize = 0;
    assert(fv.subrange(0, fv.len() as int) =~= fv);
    proof {
        lemma_forest_view(node.children@);
    }
    while i < node.children.len()
        invariant
            fv == forest_view(node.children@),
            fv.len() == node.children@.len(),
            i <= node.children@.len(),
            set@.union(forest_pids(fv.subrange(i as int, fv.len() as int))) == before.union(
                set![node.pid],
            ).union(forest_pids(fv)),
        decreases node.children@.len() - i,
    {
        proof {
            assert(decreases_to!(*node => node.children@[i as int]));
            lemma_forest_view(node.children@);
            let rest = fv.subrange(i as int, fv.len() as int);
            assert(rest[0] == node_view(node.children@[i as int]));
            assert(rest.subrange(1, rest.len() as int) =~= fv.subrange(i + 1, fv.len() as int));
        }
        let ghost s0 = set@;
        collect_into(&node.children[i], set);
        proof {
            let rest = fv.subrange(i as int, fv.len() as int);
            let tail = fv.subrange(i + 1, fv.len() as int);
            assert(forest_pids(rest) == tree_pids(rest[0]).union(forest_pids(tail)));
            assert(set@.union(forest_pids(tail)) =~= s0.union(forest_pids(rest)));
        }
        i = i + 1;
    }
    proof {
        assert(fv.subrange(i as int, fv.len() as int) =~= Seq::<TreeView>::empty());
        assert(set@.union(Set::<Pid>::empty()) =~= set@);
        assert(before.union(set![node.pid]).union(forest_pids(fv)) =~= before.union(
            tree_pids(node_view(*node)),
        ));
    }
}

/// The pids of all nodes of the trees.
pub fn collect_all_pids(nodes: &Vec<ProcessHierarchyNodeViewModel>) -> (r: HashSet<Pid>)
    ensures
        r@ == forest_pids(forest_view(nodes@)),
{
    let mut set: HashSet<Pid> = HashSet::new();
    let ghost fv = forest_view(nodes@);
    proof {
        lemma_forest_view(nodes@);
    }
    let mut i: usize = 0;
    assert(fv.subrange(0, fv.len() as int) =~= fv);
    while i < nodes.len()
        invariant
            fv == forest_view(nodes@),
            fv.len() == nodes@.len(),
            i <= nodes@.len(),
            set@.union(forest_pids(fv.subrange(i as int, fv.len() as int))) == forest_pids(fv),
        decreases nodes@.len() - i,
    {
        proof {
            lemma_forest_view(nodes@);
            let rest = fv.subrange(i as int, fv.len() as int);
            assert(rest[0] == node_view(nodes@[i as int]));
            assert(rest.subrange(1, rest.len() as int) =~= fv.subrange(i + 1, fv.len() as int));
        }
        let ghost s0 = set@;
        collect_into(&nodes[i], &mut set);
        proof {
            let rest = fv.subrange(i as int, fv.len() as int);
            let tail = fv.subrange(i + 1, fv.len() as int);
            assert(forest_pids(rest) == tree_pids(rest[0]).union(forest_pids(tail)));
            assert(set@.union(forest_pids(tail)) =~= s0.union(forest_pids(rest)));
        }
        i = i + 1;
    }
    proof {
        assert(fv.subrange(i as int, fv.len() as int) =~= Seq::<TreeView>::empty());
        assert(set@.union(Set::<Pid>::empty()) =~= set@);
    }
    set
}

/// The first subtree, in preorder, whose root has the pid; a copy of it.
pub fn find_subtree(node: &ProcessHierarchyNodeViewModel, pid: Pid) -> (r: Option<
    ProcessHierarchyNodeViewModel,
>)
    ensures
        match r {
            Some(x) => find_tree(node_view(*node), pid) == Some(node_view(x)),
            None => find_tree(node_view(*node), pid) is None,
        },
    decreases node,
{
    if node.pid == pid {
        return Some(node.copy());
    }
    let ghost fv = forest_view(node.children@);
    proof {
        lemma_forest_view(node.children@);
    }
    let mut i: usize = 0;
    assert(fv.subrange(0, fv.len() as int) =~= fv);
    while i < node.children.len()
        invariant
            fv == forest_view(node.children@),
            fv.len() == node.children@.len(),
            i <= node.children@.len(),
            node.pid != pid,
            find_forest(fv, pid) == find_forest(fv.subrange(i as int, fv.len() as int), pid),
        decreases node.children@.len() - i,
    {
        proof {
            assert(decreases_to!(*node => node.children@[i as int]));
            lemma_forest_view(node.children@);
            let rest = fv.subrange(i as int, fv.len() as int);
            assert(rest[0] == node_view(node.children@[i as int]));
            assert(rest.subrange(1, rest.len() as int) =~= fv.subrange(i + 1, fv.len() as int));
        }
        match find_subtree(&node.children[i], pid) {
            Some(found) => {
                return Some(found);
            },
            None => {},
        }
        i = i + 1;
    }
    assert(fv.subrange(i as int, fv.len() as int) =~= Seq::<TreeView>::empty());
    None
}

/// Whether a node matches a filter, given its lower-cased name: the filter
/// occurs in the pid's decimal text or in the name.
pub fn node_matches_filter(pid: Pid, lowered_name: &str, filter: &str) -> (r: bool)
    ensures
        r == node_matches(pid, lowered_name@, filter@),
{
    let digits = dec_chars(pid as u64);
    let f = chars_of(filter);
    if vec_contains(&digits, &f) {
        return true;
    }
    let n = chars_of(lowered_name);
    vec_contains(&n, &f)
}

/// The tree cut down to the nodes that match the filter and their
/// ancestors; `None` when nothing in it matches.
pub fn filter_tree_node(node: &ProcessHierarchyNodeViewModel, filter: &str) -> (r: Option<
    ProcessHierarchyNodeViewModel,
>)
    ensures
        match r {
            Some(x) => filter_tree(node_view(*node), filter@) == Some(node_view(x)),
            None => filter_tree(node_view(*node), filter@) is None,
        },
    decreases node,
{
    let lowered = to_lowercase(node.name.as_str());
    let self_match = node_matches_filter(node.pid, lowered.as_str(), filter);
    let ghost fv = forest_view(node.children@);
    proof {
        lemma_forest_view(node.children@);
    }
    let mut kept: Vec<ProcessHierarchyNodeViewModel> = Vec::new();
    let ghost mut acc: Seq<TreeView> = Seq::empty();
    let mut i: usize = 0;
    assert(fv.subrange(0, fv.len() as int) =~= fv);
    assert(acc + filter_forest(fv, filter@) =~= filter_forest(fv, filter@));
    while i < node.children.len()
        invariant
            fv == forest_view(node.children@),
            fv.len() == node.children@.len(),
            i <= node.children@.len(),
            kept@.len() == acc.len(),
            forall|k: int| 0 <= k < kept@.len() ==> node_view(#[trigger] kept@[k]) == acc[k],
            acc + filter_forest(fv.subrange(i as int, fv.len() as int), filter@) == filter_forest(
                fv,
                filter@,
            ),
        decreases node.children@.len() - i,
    {
        proof {
            assert(decreases_to!(*node => node.children@[i as int]));
            lemma_forest_view(node.children@);
            let rest = fv.subrange(i as int, fv.len() as int);
            assert(rest[0] == node_view(node.children@[i as int]));
            assert(rest.subrange(1, rest.len() as int) =~= fv.subrange(i + 1, fv.len() as int));
        }
        let ghost rest = fv.subrange(i as int, fv.len() as int);
        let ghost tail = fv.subrange(i + 1, fv.len() as int);
        match filter_tree_node(&node.children[i], filter) {
            Some(x) => {
                proof {
                    assert(acc.push(node_view(x)) + filter_forest(tail, filter@) =~= acc + (seq![
                        node_view(x),
                    ] + filter_forest(tail, filter@)));
                    acc = acc.push(node_view(x));
                }
                kept.push(x);
            },
            None => {
                proof {
                    assert(Seq::<TreeView>::empty() + filter_forest(tail, filter@) =~= filter_forest(
                        tail,
                        filter@,
                    ));
                }
            },
        }
        i = i + 1;
    }
    proof {
        assert(fv.subrange(i as int, fv.len() as int) =~= Seq::<TreeView>::empty());
        assert(acc + Seq::<TreeView>::empty() =~= acc);
        lemma_forest_view_of(kept@, acc);
    }
    if self_match || kept.len() > 0 {
        Some(
            ProcessHierarchyNodeViewModel {
                pid: node.pid,
                ppid: node.ppid,
                name: node.name.clone(),
                children: kept,
            },
        )
    } else {
        None
    }
}

/// Appends the pids of a tree in preorder to `out`.
fn preorder_into(node: &ProcessHierarchyNodeViewModel, out: &mut Vec<Pid>)
    ensures
        final(out)@ == old(out)@ + tree_preorder(node_view(*node)),
    decreases node,
{
    let ghost before = out@;
    out.push(node.pid);
    let ghost fv = forest_view(node.children@);
    proof {
        lemma_forest_view(node.children@);
    }
    let mut i: usize = 0;
    assert(fv.subrange(0, fv.len() as int) =~= fv);
    while i < node.children.len()
        invariant
            fv == forest_view(node.children@),
            fv.len() == node.children@.len(),
            i <= node.children@.len(),
            out@ + forest_preorder(fv.subrange(i as int, fv.len() as int)) == before + seq![
                node.pid,
            ] + forest_preorder(fv),
        decreases node.children@.len() - i,
    {
        proof {
            assert(decreases_to!(*node => node.children@[i as int]));
            lemma_forest_view(node.children@);
            let rest = fv.subrange(i as int, fv.len() as int);
            assert(rest[0] == node_view(node.children@[i as int]));
            assert(rest.subrange(1, rest.len() as int) =~= fv.subrange(i + 1, fv.len() as int));
        }
        let ghost s0 = out@;
        preorder_into(&node.children[i], out);
        proof {
            let rest = fv.subrange(i as int, fv.len() as int);
            let tail = fv.subrange(i + 1, fv.len() as int);
            assert(forest_preorder(rest) == tree_preorder(rest[0]) + forest_preorder(tail));
            assert(out@ + forest_preorder(tail) =~= s0 + forest_preorder(rest));
        }
        i = i + 1;
    }
    proof {
        assert(fv.subrange(i as int, fv.len() as int) =~= Seq::<TreeView>::empty());
        assert(out@ + Seq::<Pid>::empty() =~= out@);
        assert(before + seq![node.pid] + forest_preorder(fv) =~= before + tree_preorder(
            node_view(*node),
        ));
    }
}

/// The pids below a node, in preorder; the subtree totals of the tree view
/// add up the statistics of these processes.
pub fn descendant_pids(node: &ProcessHierarchyNodeViewModel) -> (r: Vec<Pid>)
    ensures
        r@ == forest_preorder(node_view(*node).children),
{
    let mut out: Vec<Pid> = Vec::new();
    let ghost fv = forest_view(node.children@);
    proof {
        lemma_forest_view(node.children@);
    }
    let mut i: usize = 0;
    assert(fv.subrange(0, fv.len() as int) =~= fv);
    assert(out@ + forest_preorder(fv) =~= forest_preorder(fv));
    while i < node.children.len()
        invariant
            fv == forest_view(node.children@),
            fv.len() == node.children@.len(),
            i <= node.children@.len(),
            out@ + forest_preorder(fv.subrange(i as int, fv.len() as int)) == forest_preorder(fv),
        decreases node.children@.len() - i,
    {
        proof {
            lemma_forest_view(node.children@);
            let rest = fv.subrange(i as int, fv.len() as int);
            assert(rest[0] == node_view(node.children@[i as int]));
            assert(rest.subrange(1, rest.len() as int) =~= fv.subrange(i + 1, fv.len() as int));
        }
        let ghost s0 = out@;
        preorder_into(&node.children[i], &mut out);
        proof {
            let rest = fv.subrange(i as int, fv.len() as int);
            let tail = fv.subrange(i + 1, fv.len() as int);
            assert(forest_preorder(rest) == tree_preorder(rest[0]) + forest_preorder(tail));
            assert(out@ + forest_preorder(tail) =~= s0 + forest_preorder(rest));
        }
        i = i + 1;
    }
    proof {
        assert(fv.subrange(i as int, fv.len() as int) =~= Seq::<TreeView>::empty());
        assert(out@ + Seq::<Pid>::empty() =~= out@);
    }
    out
}

/// The trees the tree view shows for the filter text as typed: the subtree
/// of the focused pid in each root (every root without a focus), cut down
/// by the lower-cased filter when it is not empty.
pub fn visible_roots(
    roots: &Vec<ProcessHierarchyNodeViewModel>,
    focus: Option<Pid>,
    filter_text: &str,
) -> (r: Vec<ProcessHierarchyNodeViewModel>)
    ensures
        forest_view(r@) == visible_forest(forest_view(roots@), focus, lowercase_of(filter_text@)),
{
    let filter = to_lowercase(filter_text);
    let ghost rv = forest_view(roots@);
    proof {
        lemma_forest_view(roots@);
    }
    let mut focused: Vec<ProcessHierarchyNodeViewModel> = Vec::new();
    let ghost mut acc: Seq<TreeView> = Seq::empty();
    let ghost target = match focus {
        Some(p) => found_in_each(rv, p),
        None => rv,
    };
    let mut i: usize = 0;
    assert(rv.subrange(0, rv.len() as int) =~= rv);
    proof {
        if focus is None {
            assert(acc + rv =~= rv);
        } else {
            assert(acc + found_in_each(rv, focus.unwrap()) =~= found_in_each(rv, focus.unwrap()));
        }
    }
    while i < roots.len()
        invariant
            rv == forest_view(roots@),
            rv.len() == roots@.len(),
            i <= roots@.len(),
            target == match focus {
                Some(p) => found_in_each(rv, p),
                None => rv,
            },
            focused@.len() == acc.len(),
            forall|k: int| 0 <= k < focused@.len() ==> node_view(#[trigger] focused@[k]) == acc[k],
            acc + match focus {
                Some(p) => found_in_each(rv.subrange(i as int, rv.len() as int), p),
                None => rv.subrange(i as int, rv.len() as int),
            } == target,
        decreases roots@.len() - i,
    {
        let ghost rest = rv.subrange(i as int, rv.len() as int);
        let ghost tail = rv.subrange(i + 1, rv.len() as int);
        proof {
            lemma_forest_view(roots@);
            assert(rest[0] == node_view(roots@[i as int]));
            assert(rest.subrange(1, rest.len() as int) =~= tail);
        }
        match focus {
            Some(p) => {
                match find_subtree(&roots[i], p) {
                    Some(x) => {
                        proof {
                            assert(acc.push(node_view(x)) + found_in_each(tail, p) =~= acc + (seq![
                                node_view(x),
                            ] + found_in_each(tail, p)));
                            acc = acc.push(node_view(x));
                        }
                        focused.push(x);
                    },
                    None => {
                        proof {
                            assert(Seq::<TreeView>::empty() + found_in_each(tail, p)
                                =~= found_in_each(tail, p));
                        }
                    },
                }
            },
            None => {
                let x = roots[i].copy();
                proof {
                    assert(acc.push(node_view(x)) + tail =~= acc + rest);
                    acc = acc.push(node_view(x));
                }
                focused.push(x);
            },
        }
        i = i + 1;
    }
    proof {
        assert(rv.subrange(i as int, rv.len() as int) =~= Seq::<TreeView>::empty());
        if focus is None {
            assert(acc + Seq::<TreeView>::empty() =~= acc);
        } else {
            assert(acc + Seq::<TreeView>::empty() =~= acc);
        }
        lemma_forest_view_of(focused@, acc);
    }
    if filter.as_str().unicode_len() == 0 {
        return focused;
    }
    let mut out: Vec<ProcessHierarchyNodeViewModel> = Vec::new();
    let ghost mut acc2: Seq<TreeView> = Seq::empty();
    let mut j: usize = 0;
    assert(acc.subrange(0, acc.len() as int) =~= acc);
    assert(acc2 + filter_forest(acc, filter@) =~= filter_forest(acc, filter@));
    proof {
        lemma_forest_view(focused@);
    }
    while j < focused.len()
        invariant
            acc == forest_view(focused@),
            acc.len() == focused@.len(),
            j <= focused@.len(),
            out@.len() == acc2.len(),
            forall|k: int| 0 <= k < out@.len() ==> node_view(#[trigger] out@[k]) == acc2[k],
            acc2 + filter_forest(acc.subrange(j as int, acc.len() as int), filter@) == filter_forest(
                acc,
                filter@,
            ),
        decreases focused@.len() - j,
    {
        let ghost rest = acc.subrange(j as int, acc.len() as int);
        let ghost tail = acc.subrange(j + 1, acc.len() as int);
        proof {
            lemma_forest_view(focused@);
            assert(rest[0] == node_view(focused@[j as int]));
            assert(rest.subrange(1, rest.len() as int) =~= tail);
        }
        match filter_tree_node(&focused[j], filter.as_str()) {
            Some(x) => {
                proof {
                    assert(acc2.push(node_view(x)) + filter_forest(tail, filter@) =~= acc2 + (seq![
                        node_view(x),
                    ] + filter_forest(tail, filter@)));
                    acc2 = acc2.push(node_view(x));
                }
                out.push(x);
            },
            None => {
                proof {
                    assert(Seq::<TreeView>::empty() + filter_forest(tail, filter@) =~= filter_forest(
                        tail,
                        filter@,
                    ));
                }
            },
        }
        j = j + 1;
    }
    proof {
        assert(acc.subrange(j as int, acc.len() as int) =~= Seq::<TreeView>::empty());
        assert(acc2 + Seq::<TreeView>::empty() =~= acc2);
        lemma_forest_view_of(out@, acc2);
    }
    out
}

} // verus!
