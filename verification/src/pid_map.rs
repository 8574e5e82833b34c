use vstd::prelude::*;

use crate::dto::Pid;

verus! {

/// The map that a sequence of (key, value) entries denotes: a later entry
/// for a key replaces an earlier one.
pub open spec fn entries_map<V>(s: Seq<(Pid, V)>) -> Map<Pid, V>
    decreases s.len(),
{
    if s.len() == 0 {
        Map::empty()
    } else {
        entries_map(s.drop_last()).insert(s.last().0, s.last().1)
    }
}

/// No key occurs twice among the entries.
pub open spec fn unique_keys<V>(s: Seq<(Pid, V)>) -> bool {
    forall|i: int, j: int| 0 <= i < s.len() && 0 <= j < s.len() && i != j ==> s[i].0 != s[j].0
}

/// In a sequence without repeated keys, the denoted map holds exactly the
/// entries of the sequence.
pub proof fn lemma_entries_map<V>(s: Seq<(Pid, V)>)
    requires
        unique_keys(s),
    ensures
        forall|p: Pid| #[trigger]
            entries_map(s).contains_key(p) <==> exists|i: int| 0 <= i < s.len() && s[i].0 == p,
        forall|i: int| 0 <= i < s.len() ==> #[trigger] entries_map(s).contains_key(s[i].0)
            && entries_map(s)[s[i].0] == s[i].1,
        entries_map(s).dom().finite(),
        entries_map(s).len() == s.len(),
    decreases s.len(),
{
    if s.len() > 0 {
        let t = s.drop_last();
        assert(unique_keys(t));
        lemma_entries_map(t);
        let k = s.last().0;
        assert(!entries_map(t).contains_key(k)) by {
            if entries_map(t).contains_key(k) {
                let i = choose|i: int| 0 <= i < t.len() && t[i].0 == k;
                assert(s[i].0 == s[s.len() - 1].0);
            }
        }
        assert forall|p: Pid| #[trigger]
            entries_map(s).contains_key(p) <==> exists|i: int| 0 <= i < s.len() && s[i].0 == p by {
            if entries_map(s).contains_key(p) && p != k {
                let i = choose|i: int| 0 <= i < t.len() && t[i].0 == p;
                assert(s[i].0 == p);
            }
            if exists|i: int| 0 <= i < s.len() && s[i].0 == p {
                let i = choose|i: int| 0 <= i < s.len() && s[i].0 == p;
                if i < s.len() - 1 {
                    assert(t[i].0 == p);
                }
            }
        }
        assert forall|i: int| 0 <= i < s.len() implies #[trigger] entries_map(s).contains_key(
            s[i].0,
        ) && entries_map(s)[s[i].0] == s[i].1 by {
            if i < s.len() - 1 {
                assert(t[i] == s[i]);
                assert(s[i].0 != k);
            }
        }
    }
}

/// A map from process ids to values, kept as a list of entries in which no
/// process id occurs twice.
pub struct PidMap<V> {
    entries: Vec<(Pid, V)>,
}

impl<V> PidMap<V> {
    /// The entries do not repeat a process id.
    pub closed spec fn wf(&self) -> bool {
        unique_keys(self.entries@)
    }

    /// The map the entries denote.
    pub closed spec fn view(&self) -> Map<Pid, V> {
        entries_map(self.entries@)
    }

    /// The entries in the order they are stored.
    pub closed spec fn entry_seq(&self) -> Seq<(Pid, V)> {
        self.entries@
    }

    pub proof fn lemma_view(&self)
        requires
            self.wf(),
        ensures
            self.view() == entries_map(self.entry_seq()),
            self.view().dom().finite(),
            self.view().len() == self.entry_seq().len(),
            forall|p: Pid| #[trigger]
                self.view().contains_key(p) <==> exists|i: int|
                    0 <= i < self.entry_seq().len() && self.entry_seq()[i].0 == p,
            forall|i: int|
                0 <= i < self.entry_seq().len() ==> #[trigger] self.view().contains_key(
                    self.entry_seq()[i].0,
                ) && self.view()[self.entry_seq()[i].0] == self.entry_seq()[i].1,
            unique_keys(self.entry_seq()),
    {
        lemma_entries_map(self.entries@);
        assert forall|p: Pid| #[trigger]
            self.view().contains_key(p) <==> exists|i: int|
                0 <= i < self.entry_seq().len() && self.entry_seq()[i].0 == p by {
            if self.view().contains_key(p) {
                assert(entries_map(self.entries@).contains_key(p));
                let i = choose|i: int| 0 <= i < self.entries@.len() && self.entries@[i].0 == p;
                assert(self.entry_seq()[i].0 == p);
            }
            if exists|i: int| 0 <= i < self.entry_seq().len() && self.entry_seq()[i].0 == p {
                let i = choose|i: int| 0 <= i < self.entry_seq().len() && self.entry_seq()[i].0 == p;
                assert(self.entries@[i].0 == p);
                assert(entries_map(self.entries@).contains_key(self.entries@[i].0));
            }
        }
    }

    pub fn new() -> (m: Self)
        ensures
            m.wf(),
            m.view() == Map::<Pid, V>::empty(),
            m.entry_seq().len() == 0,
    {
        PidMap { entries: Vec::new() }
    }

    pub fn len(&self) -> (n: usize)
        requires
            self.wf(),
        ensures
            n == self.view().len(),
            n == self.entry_seq().len(),
    {
        proof {
            lemma_entries_map(self.entries@);
        }
        self.entries.len()
    }

    /// The position of the entry for `pid`, if there is one.
    pub fn index_of(&self, pid: Pid) -> (r: Option<usize>)
        requires
            self.wf(),
        ensures
            r is Some <==> self.view().contains_key(pid),
            r matches Some(i) ==> i < self.entry_seq().len() && self.entry_seq()[i as int].0 == pid,
    {
        proof {
            lemma_entries_map(self.entries@);
        }
        let mut i: usize = 0;
        while i < self.entries.len()
            invariant
                i <= self.entries.len(),
                self.wf(),
                forall|j: int| 0 <= j < i ==> self.entries@[j].0 != pid,
            decreases self.entries.len() - i,
        {
            if self.entries[i].0 == pid {
                proof {
                    lemma_entries_map(self.entries@);
                    assert(entries_map(self.entries@).contains_key(self.entries@[i as int].0));
                }
                return Some(i);
            }
            i = i + 1;
        }
        None
    }

    pub fn contains(&self, pid: Pid) -> (r: bool)
        requires
            self.wf(),
        ensures
            r == self.view().contains_key(pid),
    {
        self.index_of(pid).is_some()
    }

    pub fn get(&self, pid: Pid) -> (r: Option<&V>)
        requires
            self.wf(),
        ensures
            r is Some <==> self.view().contains_key(pid),
            r matches Some(v) ==> *v == self.view()[pid],
    {
        proof {
            lemma_entries_map(self.entries@);
        }
        match self.index_of(pid) {
            Some(i) => Some(&self.entries[i].1),
            None => None,
        }
    }

    /// The key and value stored at position `i`.
    pub fn entry_at(&self, i: usize) -> (r: (Pid, &V))
        requires
            self.wf(),
            i < self.entry_seq().len(),
        ensures
            r.0 == self.entry_seq()[i as int].0,
            *r.1 == self.entry_seq()[i as int].1,
    {
        (self.entries[i].0, &self.entries[i].1)
    }

    /// Sets the value of `pid`, replacing any earlier one.
    pub fn insert(&mut self, pid: Pid, v: V)
        requires
            old(self).wf(),
        ensures
            final(self).wf(),
            final(self).view() == old(self).view().insert(pid, v),
    {
        proof {
            lemma_entries_map(self.entries@);
        }
        let ghost before = self.entries@;
        match self.index_of(pid) {
            Some(i) => {
                let _old = self.entries.remove(i);
                self.entries.insert(i, (pid, v));
                proof {
                    assert(self.entries@ =~= before.update(i as int, (pid, v)));
                    assert(unique_keys(self.entries@));
                    lemma_entries_map(self.entries@);
                    assert(entries_map(self.entries@) =~= entries_map(before).insert(pid, v)) by {
                        assert forall|p: Pid|
                            entries_map(before).insert(pid, v).contains_key(p) implies entries_map(
                                self.entries@,
                            ).contains_key(p) by {
                            if p == pid {
                                assert(entries_map(self.entries@).contains_key(
                                    self.entries@[i as int].0,
                                ));
                            } else if entries_map(before).contains_key(p) {
                                let j = choose|j: int| 0 <= j < before.len() && before[j].0 == p;
                                assert(self.entries@[j].0 == p);
                                assert(entries_map(self.entries@).contains_key(self.entries@[j].0));
                            }
                        }
                        assert forall|p: Pid| #[trigger]
                            entries_map(self.entries@).contains_key(p) implies entries_map(
                            before,
                        ).insert(pid, v).contains_key(p) && entries_map(self.entries@)[p]
                            == entries_map(before).insert(pid, v)[p] by {
                            let j = choose|j: int|
                                0 <= j < self.entries@.len() && self.entries@[j].0 == p;
                            if j != i {
                                assert(before[j] == self.entries@[j]);
                            }
                        }
                    }
                }
            },
            None => {
                self.entries.push((pid, v));
                proof {
                    assert(self.entries@ =~= before.push((pid, v)));
                    assert(unique_keys(self.entries@)) by {
                        assert forall|a: int, b: int|
                            0 <= a < self.entries@.len() && 0 <= b < self.entries@.len() && a
                                != b implies self.entries@[a].0 != self.entries@[b].0 by {
                            if a < before.len() && b < before.len() {
                                assert(before[a] == self.entries@[a]);
                                assert(before[b] == self.entries@[b]);
                            } else if a < before.len() {
                                assert(before[a].0 != pid);
                            } else if b < before.len() {
                                assert(before[b].0 != pid);
                            }
                        }
                    }
                    assert(self.entries@.drop_last() =~= before);
                }
            },
        }
    }

    /// Removes the entry of `pid` and returns its value.
    pub fn remove(&mut self, pid: Pid) -> (r: Option<V>)
        requires
            old(self).wf(),
        ensures
            final(self).wf(),
            final(self).view() == old(self).view().remove(pid),
            r is Some <==> old(self).view().contains_key(pid),
            r matches Some(v) ==> v == old(self).view()[pid],
    {
        proof {
            lemma_entries_map(self.entries@);
        }
        let ghost before = self.entries@;
        match self.index_of(pid) {
            Some(i) => {
                let (_, v) = self.entries.remove(i);
                proof {
                    assert(self.entries@ =~= before.remove(i as int));
                    assert(unique_keys(self.entries@)) by {
                        assert forall|a: int, b: int|
                            0 <= a < self.entries@.len() && 0 <= b < self.entries@.len() && a
                                != b implies self.entries@[a].0 != self.entries@[b].0 by {
                            let a0 = if a < i {
                                a
                            } else {
                                a + 1
                            };
                            let b0 = if b < i {
                                b
                            } else {
                                b + 1
                            };
                            assert(self.entries@[a] == before[a0]);
                            assert(self.entries@[b] == before[b0]);
                        }
                    }
                    lemma_entries_map(self.entries@);
                    assert(entries_map(self.entries@) =~= entries_map(before).remove(pid)) by {
                        assert forall|p: Pid|
                            entries_map(before).remove(pid).contains_key(p) implies entries_map(
                                self.entries@,
                            ).contains_key(p) by {
                            if p != pid && entries_map(before).contains_key(p) {
                                let j = choose|j: int| 0 <= j < before.len() && before[j].0 == p;
                                if j < i {
                                    assert(self.entries@[j] == before[j]);
                                } else {
                                    assert(j != i);
                                    assert(self.entries@[j - 1] == before[j]);
                                }
                            }
                        }
                        assert forall|p: Pid| #[trigger]
                            entries_map(self.entries@).contains_key(p) implies entries_map(
                            before,
                        ).remove(pid).contains_key(p) && entries_map(self.entries@)[p]
                            == entries_map(before).remove(pid)[p] by {
                            let j = choose|j: int|
                                0 <= j < self.entries@.len() && self.entries@[j].0 == p;
                            let j0 = if j < i {
                                j
                            } else {
                                j + 1
                            };
                            assert(self.entries@[j] == before[j0]);
                            assert(j0 != i);
                            assert(before[j0].0 != before[i as int].0);
                            assert(entries_map(before).contains_key(before[j0].0));
                            assert(entries_map(self.entries@).contains_key(self.entries@[j].0));
                        }
                    }
                }
                Some(v)
            },
            None => {
                proof {
                    assert(entries_map(before) =~= entries_map(before).remove(pid));
                }
                None
            },
        }
    }

    /// The process ids of the map, each once.
    pub fn keys(&self) -> (r: Vec<Pid>)
        requires
            self.wf(),
        ensures
            r@.len() == self.entry_seq().len(),
            forall|i: int| 0 <= i < r@.len() ==> r@[i] == self.entry_seq()[i].0,
            r@.no_duplicates(),
            forall|p: Pid| r@.contains(p) <==> self.view().contains_key(p),
    {
        proof {
            lemma_entries_map(self.entries@);
        }
        let mut r: Vec<Pid> = Vec::new();
        let mut i: usize = 0;
        while i < self.entries.len()
            invariant
                i <= self.entries.len(),
                r@.len() == i,
                forall|j: int| 0 <= j < i ==> r@[j] == self.entries@[j].0,
            decreases self.entries.len() - i,
        {
            r.push(self.entries[i].0);
            i = i + 1;
        }
        proof {
            assert forall|p: Pid| r@.contains(p) <==> self.view().contains_key(p) by {
                if r@.contains(p) {
                    let j = choose|j: int| 0 <= j < r@.len() && r@[j] == p;
                    assert(self.entries@[j].0 == p);
                }
                if self.view().contains_key(p) {
                    let j = choose|j: int| 0 <= j < self.entries@.len() && self.entries@[j].0 == p;
                    assert(r@[j] == p);
                }
            }
        }
        r
    }

    /// The entries, in the order they are stored.
    /// Keeps only the entries whose pid `other` also holds.
    pub fn retain_in<W>(&mut self, other: &PidMap<W>)
        requires
            old(self).wf(),
            other.wf(),
        ensures
            final(self).wf(),
            final(self).view() == old(self).view().restrict(other.view().dom()),
    {
        let ks = self.keys();
        let ghost start = self.view();
        let mut i: usize = 0;
        assert forall|p: Pid| #[trigger] self.view().contains_key(p) implies exists|j: int|
            0 <= j < ks@.len() && ks@[j] == p by {
            assert(ks@.contains(p));
        }
        while i < ks.len()
            invariant
                self.wf(),
                other.wf(),
                i <= ks@.len(),
                ks@.no_duplicates(),
                forall|p: Pid| ks@.contains(p) <==> start.contains_key(p),
                forall|p: Pid|
                    #[trigger] self.view().contains_key(p) <==> (start.contains_key(p) && (
                    other.view().contains_key(p) || exists|j: int|
                        i <= j < ks@.len() && ks@[j] == p)),
                forall|p: Pid| #[trigger] self.view().contains_key(p) ==> self.view()[p] == start[p],
            decreases ks@.len() - i,
        {
            let p = ks[i];
            if !other.contains(p) {
                self.remove(p);
            }
            proof {
                assert forall|q: Pid|
                    #[trigger] self.view().contains_key(q) <==> (start.contains_key(q) && (
                    other.view().contains_key(q) || exists|j: int|
                        i + 1 <= j < ks@.len() && ks@[j] == q)) by {
                    if self.view().contains_key(q) && !other.view().contains_key(q) {
                        let j = choose|j: int| i <= j < ks@.len() && ks@[j] == q;
                        if j == i {
                            assert(q == p);
                        }
                    }
                    if start.contains_key(q) && exists|j: int| i + 1 <= j < ks@.len() && ks@[j] == q {
                        let j = choose|j: int| i + 1 <= j < ks@.len() && ks@[j] == q;
                        assert(ks@[j] != ks@[i as int]);
                    }
                }
            }
            i = i + 1;
        }
        assert(self.view() =~= start.restrict(other.view().dom()));
    }

    pub fn into_entries(self) -> (r: Vec<(Pid, V)>)
        ensures
            r@ == self.entry_seq(),
    {
        self.entries
    }

    /// The map whose entries are `entries`, none of whose keys repeats.
    pub fn from_entries(entries: Vec<(Pid, V)>) -> (m: Self)
        requires
            unique_keys(entries@),
        ensures
            m.wf(),
            m.entry_seq() == entries@,
            m.view() == entries_map(entries@),
    {
        PidMap { entries }
    }
}

/// Entries with the same keys in the same order, whose values agree under
/// `f` and `g`, denote maps that agree under `f` and `g`.
pub proof fn lemma_entries_map_values<V, W, X>(
    s: Seq<(Pid, V)>,
    t: Seq<(Pid, W)>,
    f: spec_fn(V) -> X,
    g: spec_fn(W) -> X,
)
    requires
        unique_keys(s),
        s.len() == t.len(),
        forall|i: int| 0 <= i < s.len() ==> #[trigger] t[i].0 == s[i].0 && g(t[i].1) == f(s[i].1),
    ensures
        unique_keys(t),
        entries_map(t).map_values(g) == entries_map(s).map_values(f),
{
    assert(unique_keys(t)) by {
        assert forall|a: int, b: int|
            0 <= a < t.len() && 0 <= b < t.len() && a != b implies t[a].0 != t[b].0 by {
            assert(t[a].0 == s[a].0);
            assert(t[b].0 == s[b].0);
        }
    }
    lemma_entries_map(s);
    lemma_entries_map(t);
    assert(entries_map(t).map_values(g) =~= entries_map(s).map_values(f)) by {
        assert forall|p: Pid| entries_map(t).contains_key(p) <==> entries_map(s).contains_key(p) by {
            if entries_map(t).contains_key(p) {
                let i = choose|i: int| 0 <= i < t.len() && t[i].0 == p;
                assert(t[i].0 == s[i].0);
                assert(entries_map(s).contains_key(s[i].0));
            }
            if entries_map(s).contains_key(p) {
                let i = choose|i: int| 0 <= i < s.len() && s[i].0 == p;
                assert(t[i].0 == s[i].0);
                assert(entries_map(t).contains_key(t[i].0));
            }
        }
        assert forall|p: Pid| #[trigger] entries_map(t).contains_key(p) implies g(
            entries_map(t)[p],
        ) == f(entries_map(s)[p]) by {
            let i = choose|i: int| 0 <= i < t.len() && t[i].0 == p;
            assert(t[i].0 == s[i].0 && g(t[i].1) == f(s[i].1));
            assert(entries_map(t).contains_key(t[i].0));
            assert(entries_map(s).contains_key(s[i].0));
        }
    }
}

/// Entries drawn from `s` (agreeing under `f`), one for each key of `s` in
/// `keys`, denote the map of `s` restricted to `keys`.
pub proof fn lemma_entries_map_filter<V, X>(
    s: Seq<(Pid, V)>,
    t: Seq<(Pid, V)>,
    f: spec_fn(V) -> X,
    keys: Set<Pid>,
)
    requires
        unique_keys(s),
        unique_keys(t),
        forall|j: int| #![trigger t[j]] 0 <= j < t.len() ==> exists|i: int| #![trigger s[i]]
            0 <= i < s.len() && s[i].0 == t[j].0 && f(s[i].1) == f(t[j].1),
        forall|i: int| #![trigger s[i]] 0 <= i < s.len() ==> (keys.contains(s[i].0) <==> exists|
            j: int,
        | #![trigger t[j]] 0 <= j < t.len() && t[j].0 == s[i].0),
        forall|j: int| 0 <= j < t.len() ==> keys.contains(#[trigger] t[j].0),
    ensures
        entries_map(t).map_values(f) == entries_map(s).map_values(f).restrict(keys),
{
    lemma_entries_map(s);
    lemma_entries_map(t);
    assert(entries_map(t).map_values(f) =~= entries_map(s).map_values(f).restrict(keys)) by {
        assert forall|p: Pid|
            entries_map(t).contains_key(p) <==> entries_map(s).restrict(keys).contains_key(p) by {
            if entries_map(t).contains_key(p) {
                let j = choose|j: int| 0 <= j < t.len() && t[j].0 == p;
                let i = choose|i: int| #![trigger s[i]]
                    0 <= i < s.len() && s[i].0 == t[j].0 && f(s[i].1) == f(t[j].1);
                assert(entries_map(s).contains_key(s[i].0));
                assert(keys.contains(t[j].0));
            }
            if entries_map(s).restrict(keys).contains_key(p) {
                let i = choose|i: int| 0 <= i < s.len() && s[i].0 == p;
                assert(keys.contains(s[i].0));
                let j = choose|j: int| #![trigger t[j]] 0 <= j < t.len() && t[j].0 == s[i].0;
                assert(entries_map(t).contains_key(t[j].0));
            }
        }
        assert forall|p: Pid| #[trigger] entries_map(t).contains_key(p) implies f(
            entries_map(t)[p],
        ) == f(entries_map(s)[p]) by {
            let j = choose|j: int| 0 <= j < t.len() && t[j].0 == p;
            let i = choose|i: int| #![trigger s[i]]
                0 <= i < s.len() && s[i].0 == t[j].0 && f(s[i].1) == f(t[j].1);
            assert(entries_map(t).contains_key(t[j].0));
            assert(entries_map(s).contains_key(s[i].0));
        }
    }
}

} // verus!
