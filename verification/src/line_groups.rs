//! Leaked blocks summed up by the place that allocated them: one group per
//! allocation site, with the bytes and blocks of the site, its most severe
//! class and the stack of its first block, largest site first.

use vstd::prelude::*;

use crate::leak_report::{frames, group_key, group_key_of, rank_of, BlockClass};
use crate::order::{is_stable_order, stable_order, stably_before, weak_order};

verus! {

/// A leaked block with what the allocation capture knows of it: the stack
/// that allocated it, when it saw the allocation.
#[derive(Debug, Clone)]
pub struct AttributedBlock {
    pub addr: u64,
    pub size: u64,
    pub class: BlockClass,
    pub stack: Option<Vec<String>>,
}

/// The blocks of one allocation site.
#[derive(Debug, Clone)]
pub struct LineGroup {
    /// The site, or `None` for blocks with no known source line or symbol.
    pub key: Option<String>,
    pub bytes: u64,
    pub count: u64,
    /// The most severe class among the site's blocks.
    pub class: BlockClass,
    /// The stack of the site's first block.
    pub sample_stack: Vec<String>,
}

/// What a group holds, as plain values.
pub struct LineGroupView {
    pub key: Option<Seq<char>>,
    pub bytes: u64,
    pub count: u64,
    pub class: BlockClass,
    pub sample: Seq<Seq<char>>,
}

pub open spec fn text_of(s: Option<String>) -> Option<Seq<char>> {
    match s {
        Some(x) => Some(x@),
        None => None,
    }
}

impl View for LineGroup {
    type V = LineGroupView;

    open spec fn view(&self) -> LineGroupView {
        LineGroupView {
            key: text_of(self.key),
            bytes: self.bytes,
            count: self.count,
            class: self.class,
            sample: frames(self.sample_stack@),
        }
    }
}

/// The frames of a block's stack; none when it has no stack.
pub open spec fn stack_of(b: AttributedBlock) -> Seq<Seq<char>> {
    match b.stack {
        Some(s) => frames(s@),
        None => Seq::empty(),
    }
}

/// The site a block is grouped under.
pub open spec fn site_key(b: AttributedBlock) -> Option<Seq<char>> {
    group_key_of(stack_of(b))
}

/// The sites of the blocks, each once, in the order they first occur.
pub open spec fn first_sites(bs: Seq<AttributedBlock>) -> Seq<Option<Seq<char>>>
    decreases bs.len(),
{
    if bs.len() == 0 {
        Seq::empty()
    } else {
        let p = first_sites(bs.drop_last());
        if p.contains(site_key(bs.last())) {
            p
        } else {
            p.push(site_key(bs.last()))
        }
    }
}

/// The bytes of the blocks of a site.
pub open spec fn site_bytes(bs: Seq<AttributedBlock>, k: Option<Seq<char>>) -> int
    decreases bs.len(),
{
    if bs.len() == 0 {
        0
    } else {
        site_bytes(bs.drop_last(), k) + if site_key(bs.last()) == k {
            bs.last().size as int
        } else {
            0
        }
    }
}

/// The number of blocks of a site.
pub open spec fn site_count(bs: Seq<AttributedBlock>, k: Option<Seq<char>>) -> int
    decreases bs.len(),
{
    if bs.len() == 0 {
        0
    } else {
        site_count(bs.drop_last(), k) + if site_key(bs.last()) == k {
            1int
        } else {
            0
        }
    }
}

/// The most severe class among the blocks of a site; a site with no block
/// counts as still reachable.
pub open spec fn site_class(bs: Seq<AttributedBlock>, k: Option<Seq<char>>) -> BlockClass
    decreases bs.len(),
{
    if bs.len() == 0 {
        BlockClass::StillReachable
    } else {
        let c = site_class(bs.drop_last(), k);
        if site_key(bs.last()) == k && rank_of(bs.last().class) > rank_of(c) {
            bs.last().class
        } else {
            c
        }
    }
}

/// The stack of the first block of a site.
pub open spec fn site_sample(bs: Seq<AttributedBlock>, k: Option<Seq<char>>) -> Seq<Seq<char>>
    decreases bs.len(),
{
    if bs.len() == 0 {
        Seq::empty()
    } else if first_sites(bs.drop_last()).contains(k) {
        site_sample(bs.drop_last(), k)
    } else if site_key(bs.last()) == k {
        stack_of(bs.last())
    } else {
        Seq::empty()
    }
}

/// The group of a site.
pub open spec fn site_group(bs: Seq<AttributedBlock>, k: Option<Seq<char>>) -> LineGroupView {
    LineGroupView {
        key: k,
        bytes: site_bytes(bs, k) as u64,
        count: site_count(bs, k) as u64,
        class: site_class(bs, k),
        sample: site_sample(bs, k),
    }
}

/// The groups of the blocks, in the order their sites first occur.
pub open spec fn site_groups(bs: Seq<AttributedBlock>) -> Seq<LineGroupView> {
    first_sites(bs).map_values(|k: Option<Seq<char>>| site_group(bs, k))
}

/// The bytes of all the blocks.
pub open spec fn total_bytes(bs: Seq<AttributedBlock>) -> int
    decreases bs.len(),
{
    if bs.len() == 0 {
        0
    } else {
        total_bytes(bs.drop_last()) + bs.last().size
    }
}

proof fn lemma_site_bytes_bounded(bs: Seq<AttributedBlock>, k: Option<Seq<char>>)
    ensures
        0 <= site_bytes(bs, k) <= total_bytes(bs),
        0 <= site_count(bs, k) <= bs.len(),
    decreases bs.len(),
{
    if bs.len() > 0 {
        lemma_site_bytes_bounded(bs.drop_last(), k);
    }
}

proof fn lemma_first_sites_cover(bs: Seq<AttributedBlock>, k: Option<Seq<char>>)
    ensures
        first_sites(bs).contains(k) <==> site_count(bs, k) > 0,
        !first_sites(bs).contains(k) ==> site_sample(bs, k) == Seq::<Seq<char>>::empty() && site_class(bs, k) == BlockClass::StillReachable && site_bytes(bs, k) == 0,
        first_sites(bs).no_duplicates(),
    decreases bs.len(),
{
    if bs.len() > 0 {
        let p = bs.drop_last();
        let kl = site_key(bs.last());
        lemma_first_sites_cover(p, k);
        lemma_site_bytes_bounded(p, k);
        if first_sites(p).contains(kl) {
            assert(first_sites(bs) == first_sites(p));
            if kl == k {
                assert(site_count(p, k) > 0);
            }
        } else {
            assert(first_sites(bs) == first_sites(p).push(kl));
            assert(first_sites(bs).last() == kl);
            if first_sites(bs).contains(k) && kl != k {
                let w = choose|w: int| 0 <= w < first_sites(bs).len() && first_sites(bs)[w] == k;
                assert(first_sites(p)[w] == k);
            }
            if first_sites(p).contains(k) {
                let w = choose|w: int| 0 <= w < first_sites(p).len() && first_sites(p)[w] == k;
                assert(first_sites(bs)[w] == k);
            }
            if kl == k {
                assert(first_sites(bs)[first_sites(bs).len() - 1] == k);
            }
            assert forall|a: int, b: int|
                0 <= a < first_sites(bs).len() && 0 <= b < first_sites(bs).len() && a != b implies first_sites(bs)[a] != first_sites(bs)[b] by {
                if b == first_sites(bs).len() - 1 {
                    assert(first_sites(p).contains(first_sites(p)[a]));
                } else if a == first_sites(bs).len() - 1 {
                    assert(first_sites(p).contains(first_sites(p)[b]));
                }
            }
        }
    }
}

/// Whether two optional sites are the same.
fn same_site(a: &Option<String>, b: &Option<String>) -> (r: bool)
    ensures
        r == (text_of(*a) == text_of(*b)),
{
    match (a, b) {
        (Some(x), Some(y)) => *x == *y,
        (None, None) => true,
        _ => false,
    }
}

fn copy_strings(v: &Vec<String>) -> (r: Vec<String>)
    ensures
        frames(r@) == frames(v@),
{
    let mut r: Vec<String> = Vec::new();
    let mut i: usize = 0;
    while i < v.len()
        invariant
            i <= v@.len(),
            r@.len() == i,
            forall|t: int| 0 <= t < i ==> (#[trigger] r@[t])@ == v@[t]@,
        decreases v@.len() - i,
    {
        r.push(v[i].clone());
        i = i + 1;
    }
    assert(frames(r@) =~= frames(v@));
    r
}

fn copy_site(k: &Option<String>) -> (r: Option<String>)
    ensures
        text_of(r) == text_of(*k),
{
    match k {
        Some(s) => Some(s.clone()),
        None => None,
    }
}

/// The blocks grouped by the site that allocated them, one group per site
/// in the order the sites first occur: the bytes and blocks of the site,
/// its most severe class and the stack of its first block. A block without
/// a stack counts as one with an empty stack.
pub fn group_by_line(blocks: &Vec<AttributedBlock>) -> (r: Vec<LineGroup>)
    requires
        total_bytes(blocks@) <= u64::MAX,
    ensures
        r@.map_values(|g: LineGroup| g@) == site_groups(blocks@),
{
    let mut groups: Vec<LineGroup> = Vec::new();
    let mut i: usize = 0;
    while i < blocks.len()
        invariant
            i <= blocks@.len(),
            total_bytes(blocks@) <= u64::MAX,
            groups@.map_values(|g: LineGroup| g@) == site_groups(blocks@.take(i as int)),
        decreases blocks@.len() - i,
    {
        let ghost bs = blocks@.take(i as int);
        let ghost next = blocks@.take(i + 1);
        let b = &blocks[i];
        let stack = match &b.stack {
            Some(s) => copy_strings(s),
            None => Vec::new(),
        };
        let key = group_key(&stack);
        let ghost k = text_of(key);
        proof {
            assert(next.drop_last() =~= bs);
            assert(next.last() == *b);
            assert(frames(stack@) == stack_of(*b));
            assert(k == site_key(*b));
            lemma_total_bytes_prefix(blocks@, i + 1);
            lemma_site_bytes_bounded(next, k);
            lemma_first_sites_cover(bs, k);
            assert forall|q: Option<Seq<char>>| q != k implies #[trigger] site_group(next, q) == site_group(bs, q) by {
                lemma_first_sites_cover(bs, q);
            }
        }
        let mut j: usize = 0;
        let mut found = false;
        while j < groups.len() && !found
            invariant
                j <= groups@.len(),
                k == text_of(key),
                found ==> j < groups@.len() && text_of(groups@[j as int].key) == k,
                forall|t: int| 0 <= t < j ==> text_of((#[trigger] groups@[t]).key) != k,
            decreases groups@.len() - j, if found { 0int } else { 1int },
        {
            if same_site(&groups[j].key, &key) {
                found = true;
            } else {
                j = j + 1;
            }
        }
        let ghost gv = groups@.map_values(|g: LineGroup| g@);
        proof {
            assert(gv.len() == groups@.len());
            assert(gv == site_groups(bs));
            assert(first_sites(bs).len() == groups@.len());
            assert forall|t: int| 0 <= t < groups@.len() implies text_of(#[trigger] groups@[t].key) == first_sites(bs)[t] by {
                assert(gv[t] == groups@[t]@);
                assert(site_groups(bs)[t] == site_group(bs, first_sites(bs)[t]));
            }
        }
        if found {
            proof {
                assert(first_sites(bs)[j as int] == k);
                assert(first_sites(bs).contains(k));
                assert(first_sites(next) == first_sites(bs));
            }
            let old_bytes = groups[j].bytes;
            let old_count = groups[j].count;
            let old_class = groups[j].class;
            let new_class = if crate::leak_report::class_rank(b.class) > crate::leak_report::class_rank(old_class) {
                b.class
            } else {
                old_class
            };
            let sample = copy_strings(&groups[j].sample_stack);
            proof {
                lemma_site_bytes_bounded(bs, k);
                assert(gv[j as int] == site_group(bs, k));
                assert(old_bytes as int == site_bytes(bs, k));
                assert(site_bytes(next, k) == site_bytes(bs, k) + b.size);
                assert(total_bytes(next) <= total_bytes(blocks@));
            }
            let g = LineGroup {
                key: copy_site(&groups[j].key),
                bytes: old_bytes + b.size,
                count: old_count + 1,
                class: new_class,
                sample_stack: sample,
            };
            proof {
                assert(site_count(next, k) == site_count(bs, k) + 1);
                assert(site_class(next, k) == new_class);
                assert(site_sample(next, k) == site_sample(bs, k));
                assert(g@ == site_group(next, k));
            }
            let ghost pre = groups@;
            groups.set(j, g);
            proof {
                assert forall|t: int| 0 <= t < groups@.len() implies groups@.map_values(|g: LineGroup| g@)[t] == site_groups(next)[t] by {
                    let q = first_sites(bs)[t];
                    assert(site_groups(next)[t] == site_group(next, q));
                    if t != j {
                        assert(q != k) by {
                            lemma_first_sites_cover(bs, k);
                        }
                        assert(groups@[t] == pre[t]);
                        assert(gv[t] == pre[t]@);
                        assert(site_groups(bs)[t] == site_group(bs, q));
                    }
                }
                assert(groups@.map_values(|g: LineGroup| g@) =~= site_groups(next));
            }
        } else {
            proof {
                assert forall|t: int| 0 <= t < first_sites(bs).len() implies first_sites(bs)[t] != k by {
                    assert(text_of(groups@[t].key) == first_sites(bs)[t]);
                }
                assert(!first_sites(bs).contains(k));
                assert(first_sites(next) == first_sites(bs).push(k));
                lemma_site_bytes_bounded(next, k);
                lemma_site_bytes_bounded(bs, k);
                assert(site_count(bs, k) == 0);
                assert(site_bytes(next, k) == b.size);
                assert(site_count(next, k) == 1);
                assert(site_sample(next, k) == frames(stack@));
            }
            let ghost new_view = site_group(next, k);
            let g = LineGroup { key, bytes: b.size, count: 1, class: if crate::leak_report::class_rank(b.class) > 0 {
                b.class
            } else {
                BlockClass::StillReachable
            }, sample_stack: stack };
            let ghost pre = groups@;
            groups.push(g);
            proof {
                assert(groups@[groups@.len() - 1]@ == new_view);
                assert forall|t: int| 0 <= t < groups@.len() - 1 implies groups@.map_values(|g: LineGroup| g@)[t] == site_groups(next)[t] by {
                    assert(groups@[t] == pre[t]);
                    assert(gv[t] == pre[t]@);
                    assert(site_groups(bs)[t] == site_group(bs, first_sites(bs)[t]));
                    assert(first_sites(next)[t] == first_sites(bs)[t]);
                    assert(first_sites(bs)[t] != k);
                }
                assert(groups@.map_values(|g: LineGroup| g@) =~= site_groups(next));
            }
        }
        i = i + 1;
    }
    proof {
        assert(blocks@.take(blocks@.len() as int) =~= blocks@);
    }
    groups
}

proof fn lemma_total_bytes_prefix(bs: Seq<AttributedBlock>, i: int)
    requires
        0 <= i <= bs.len(),
    ensures
        total_bytes(bs.take(i)) <= total_bytes(bs),
    decreases bs.len() - i,
{
    if i < bs.len() {
        lemma_total_bytes_prefix(bs, i + 1);
        assert(bs.take(i + 1).drop_last() =~= bs.take(i));
    } else {
        assert(bs.take(i) =~= bs);
    }
}

/// Groups in order of their bytes, largest first.
pub open spec fn bytes_desc(gs: Seq<LineGroupView>) -> spec_fn(int, int) -> bool {
    |i: int, j: int| gs[j].bytes < gs[i].bytes
}

/// In any listing a stable largest-first sort gives, every group has at
/// least the bytes of the groups listed after it.
pub proof fn lemma_groups_largest_first(gs: Seq<LineGroupView>, r: Seq<usize>)
    requires
        is_stable_order(r, bytes_desc(gs), gs.len() as int),
    ensures
        forall|i: int, j: int|
            #![trigger r[i], r[j]]
            0 <= i < j < r.len() ==> gs[r[i] as int].bytes >= gs[r[j] as int].bytes,
{
    assert forall|i: int, j: int|
        #![trigger r[i], r[j]]
        0 <= i < j < r.len() implies gs[r[i] as int].bytes >= gs[r[j] as int].bytes by {
        assert(stably_before(bytes_desc(gs), r[i] as int, r[j] as int));
    }
}


/// The order a list of groups is shown in: largest first, groups with the
/// same bytes keeping their order.
pub fn line_group_order(groups: &Vec<LineGroup>) -> (r: Vec<usize>)
    ensures
        is_stable_order(
            r@,
            bytes_desc(groups@.map_values(|g: LineGroup| g@)),
            groups@.len() as int,
        ),
{
    let n = groups.len();
    let ghost gs = groups@.map_values(|g: LineGroup| g@);
    proof {
        let less = bytes_desc(gs);
        assert forall|a: int, b: int, c: int|
            0 <= a < n && 0 <= b < n && 0 <= c < n && #[trigger] less(a, b) && !less(c, b) implies #[trigger] less(
            a,
            c,
        ) by {}
        assert(weak_order(less, n as int));
    }
    let lt = |a: usize, b: usize| -> (x: bool)
        requires
            a < n,
            b < n,
            n == groups@.len(),
        ensures
            x == bytes_desc(groups@.map_values(|g: LineGroup| g@))(a as int, b as int),
        { groups[b].bytes < groups[a].bytes };
    stable_order(n, lt, Ghost(bytes_desc(gs)))
}


impl LineGroup {
    /// A copy of the group.
    pub fn copy(&self) -> (r: Self)
        ensures
            r@ == self@,
    {
        LineGroup {
            key: copy_site(&self.key),
            bytes: self.bytes,
            count: self.count,
            class: self.class,
            sample_stack: copy_strings(&self.sample_stack),
        }
    }
}

/// The groups of the blocks' sites as the leak report lists them: largest
/// first, groups with the same bytes in the order their sites first occur.
pub fn groups_largest_first(blocks: &Vec<AttributedBlock>) -> (r: Vec<LineGroup>)
    requires
        total_bytes(blocks@) <= u64::MAX,
    ensures
        exists|o: Seq<usize>|
            #![trigger is_stable_order(o, bytes_desc(site_groups(blocks@)), site_groups(blocks@).len() as int)]
            is_stable_order(o, bytes_desc(site_groups(blocks@)), site_groups(blocks@).len() as int)
                && r@.len() == o.len() && forall|k: int|
                0 <= k < o.len() ==> (#[trigger] r@[k])@ == site_groups(blocks@)[o[k] as int],
{
    let groups = group_by_line(blocks);
    let order = line_group_order(&groups);
    let ghost gs = groups@.map_values(|g: LineGroup| g@);
    let mut r: Vec<LineGroup> = Vec::new();
    let mut t: usize = 0;
    while t < order.len()
        invariant
            t <= order@.len(),
            gs == site_groups(blocks@),
            gs == groups@.map_values(|g: LineGroup| g@),
            is_stable_order(order@, bytes_desc(gs), groups@.len() as int),
            r@.len() == t,
            forall|k: int| 0 <= k < t ==> (#[trigger] r@[k])@ == gs[order@[k] as int],
        decreases order@.len() - t,
    {
        let g = groups[order[t]].copy();
        r.push(g);
        t = t + 1;
    }
    proof {
        assert(gs.len() == groups@.len());
        assert(is_stable_order(order@, bytes_desc(site_groups(blocks@)), site_groups(blocks@).len() as int));
    }
    r
}

/// The bytes of the blocks without a stack.
pub open spec fn unattributed_bytes(bs: Seq<AttributedBlock>) -> int
    decreases bs.len(),
{
    if bs.len() == 0 {
        0
    } else {
        unattributed_bytes(bs.drop_last()) + if bs.last().stack is None {
            bs.last().size as int
        } else {
            0
        }
    }
}

/// The number of blocks without a stack.
pub open spec fn unattributed_count(bs: Seq<AttributedBlock>) -> int
    decreases bs.len(),
{
    if bs.len() == 0 {
        0
    } else {
        unattributed_count(bs.drop_last()) + if bs.last().stack is None {
            1int
        } else {
            0
        }
    }
}

proof fn lemma_unattributed_bounded(bs: Seq<AttributedBlock>)
    ensures
        0 <= unattributed_bytes(bs) <= total_bytes(bs),
        0 <= unattributed_count(bs) <= bs.len(),
    decreases bs.len(),
{
    if bs.len() > 0 {
        lemma_unattributed_bounded(bs.drop_last());
    }
}

/// The bytes and the number of the blocks the allocation capture has no
/// stack for.
pub fn unattributed_totals(blocks: &Vec<AttributedBlock>) -> (r: (u64, usize))
    requires
        total_bytes(blocks@) <= u64::MAX,
    ensures
        r.0 == unattributed_bytes(blocks@),
        r.1 == unattributed_count(blocks@),
{
    let mut bytes: u64 = 0;
    let mut count: usize = 0;
    let mut i: usize = 0;
    while i < blocks.len()
        invariant
            i <= blocks@.len(),
            total_bytes(blocks@) <= u64::MAX,
            bytes == unattributed_bytes(blocks@.take(i as int)),
            count == unattributed_count(blocks@.take(i as int)),
        decreases blocks@.len() - i,
    {
        proof {
            let next = blocks@.take(i + 1);
            assert(next.drop_last() =~= blocks@.take(i as int));
            lemma_unattributed_bounded(next);
            lemma_total_bytes_prefix(blocks@, i + 1);
        }
        if blocks[i].stack.is_none() {
            bytes = bytes + blocks[i].size;
            count = count + 1;
        }
        i = i + 1;
    }
    assert(blocks@.take(blocks@.len() as int) =~= blocks@);
    (bytes, count)
}


/// The bytes of the groups of a list of sites.
pub open spec fn bytes_of_sites(bs: Seq<AttributedBlock>, ks: Seq<Option<Seq<char>>>) -> int
    decreases ks.len(),
{
    if ks.len() == 0 {
        0
    } else {
        bytes_of_sites(bs, ks.drop_last()) + site_bytes(bs, ks.last())
    }
}

/// The blocks of the groups of a list of sites.
pub open spec fn count_of_sites(bs: Seq<AttributedBlock>, ks: Seq<Option<Seq<char>>>) -> int
    decreases ks.len(),
{
    if ks.len() == 0 {
        0
    } else {
        count_of_sites(bs, ks.drop_last()) + site_count(bs, ks.last())
    }
}

/// Adding a block changes the sums over distinct sites only at its own site.
proof fn lemma_sums_after_block(p: Seq<AttributedBlock>, b: AttributedBlock, ks: Seq<Option<Seq<char>>>)
    requires
        ks.no_duplicates(),
    ensures
        bytes_of_sites(p.push(b), ks) == bytes_of_sites(p, ks) + if ks.contains(site_key(b)) {
            b.size as int
        } else {
            0
        },
        count_of_sites(p.push(b), ks) == count_of_sites(p, ks) + if ks.contains(site_key(b)) {
            1int
        } else {
            0
        },
    decreases ks.len(),
{
    let bs = p.push(b);
    assert(bs.drop_last() =~= p);
    if ks.len() > 0 {
        let rest = ks.drop_last();
        assert(rest.no_duplicates()) by {
            assert forall|a: int, c: int| 0 <= a < rest.len() && 0 <= c < rest.len() && a != c implies rest[a] != rest[c] by {
                assert(rest[a] == ks[a] && rest[c] == ks[c]);
            }
        }
        lemma_sums_after_block(p, b, rest);
        if ks.contains(site_key(b)) && ks.last() != site_key(b) {
            let w = choose|w: int| 0 <= w < ks.len() && ks[w] == site_key(b);
            assert(rest[w] == site_key(b));
        }
        if rest.contains(site_key(b)) {
            let w = choose|w: int| 0 <= w < rest.len() && rest[w] == site_key(b);
            assert(ks[w] == site_key(b));
            assert(ks.last() != site_key(b)) by {
                assert(ks[ks.len() - 1] != ks[w]);
            }
        }
    }
}

/// Grouping neither loses nor invents blocks: the groups together hold
/// every byte and every block of the report.
pub proof fn lemma_groups_keep_every_block(bs: Seq<AttributedBlock>)
    ensures
        bytes_of_sites(bs, first_sites(bs)) == total_bytes(bs),
        count_of_sites(bs, first_sites(bs)) == bs.len(),
    decreases bs.len(),
{
    if bs.len() > 0 {
        let p = bs.drop_last();
        let b = bs.last();
        assert(p.push(b) =~= bs);
        lemma_groups_keep_every_block(p);
        lemma_first_sites_cover(p, site_key(b));
        lemma_sums_after_block(p, b, first_sites(p));
        if !first_sites(p).contains(site_key(b)) {
            lemma_site_bytes_bounded(p, site_key(b));
            assert(first_sites(bs) == first_sites(p).push(site_key(b)));
            assert(first_sites(bs).drop_last() =~= first_sites(p));
            assert(site_bytes(bs, site_key(b)) == b.size);
            assert(site_count(bs, site_key(b)) == 1);
        }
    }
}

} // verus!
