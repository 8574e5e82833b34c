//! Restart counting: a process name seen under a new pid has restarted.
//!
//! Between snapshots the tracker remembers the last pid of each name, and
//! forgets the names whose pid is no longer among the shown rows.

use vstd::prelude::*;

use crate::dto::Pid;
use crate::leaks::samples_view;

verus! {

/// The map a list of named entries stands for; a later entry of a name
/// overrides an earlier one.
pub open spec fn entries_map<V>(e: Seq<(String, V)>) -> Map<Seq<char>, V>
    decreases e.len(),
{
    if e.len() == 0 {
        Map::empty()
    } else {
        entries_map(e.drop_last()).insert(e.last().0@, e.last().1)
    }
}

/// No name occurs twice among the entries.
pub open spec fn distinct_names<V>(e: Seq<(String, V)>) -> bool {
    forall|i: int, j: int| 0 <= i < j < e.len() ==> e[i].0@ != e[j].0@
}

/// The count of a name, zero when it has none.
pub open spec fn count_in(counts: Map<Seq<char>, u32>, name: Seq<char>) -> int {
    if counts.contains_key(name) {
        counts[name] as int
    } else {
        0
    }
}

/// One sample: a name last seen under another pid counts one restart more;
/// the name's last pid becomes the sample's.
pub open spec fn observe_name(
    last: Map<Seq<char>, Pid>,
    counts: Map<Seq<char>, u32>,
    name: Seq<char>,
    pid: Pid,
) -> (Map<Seq<char>, Pid>, Map<Seq<char>, u32>) {
    let counts2 = if last.contains_key(name) && last[name] != pid {
        counts.insert(name, (count_in(counts, name) + 1) as u32)
    } else {
        counts
    };
    (last.insert(name, pid), counts2)
}

/// The samples of a snapshot, one after the other.
pub open spec fn observe_names(
    last: Map<Seq<char>, Pid>,
    counts: Map<Seq<char>, u32>,
    samples: Seq<(Pid, Seq<char>)>,
) -> (Map<Seq<char>, Pid>, Map<Seq<char>, u32>)
    decreases samples.len(),
{
    if samples.len() == 0 {
        (last, counts)
    } else {
        let prev = observe_names(last, counts, samples.drop_last());
        observe_name(prev.0, prev.1, samples.last().1, samples.last().0)
    }
}

/// The last pids of the names whose pid is among the live ones.
pub open spec fn keep_live(last: Map<Seq<char>, Pid>, live: Seq<Pid>) -> Map<Seq<char>, Pid> {
    last.restrict(last.dom().filter(|k: Seq<char>| live.contains(last[k])))
}

/// The names whose counts stay representable through the samples.
pub open spec fn counts_have_room(counts: Map<Seq<char>, u32>, extra: int) -> bool {
    &&& extra <= u32::MAX
    &&& forall|k: Seq<char>| #[trigger] counts.contains_key(k) ==> counts[k] + extra <= u32::MAX
}

proof fn lemma_entries_lookup<V>(e: Seq<(String, V)>, i: int)
    requires
        distinct_names(e),
        0 <= i < e.len(),
    ensures
        entries_map(e).contains_key(e[i].0@),
        entries_map(e)[e[i].0@] == e[i].1,
    decreases e.len(),
{
    if i < e.len() - 1 {
        lemma_entries_lookup(e.drop_last(), i);
    }
}

proof fn lemma_entries_keys<V>(e: Seq<(String, V)>, k: Seq<char>)
    requires
        entries_map(e).contains_key(k),
    ensures
        exists|i: int| 0 <= i < e.len() && e[i].0@ == k,
    decreases e.len(),
{
    if e.last().0@ != k {
        lemma_entries_keys(e.drop_last(), k);
        let i = choose|i: int| 0 <= i < e.drop_last().len() && e.drop_last()[i].0@ == k;
        assert(e[i].0@ == k);
    }
}

proof fn lemma_entries_update<V>(e: Seq<(String, V)>, i: int, s: String, v: V)
    requires
        distinct_names(e),
        0 <= i < e.len(),
        e[i].0@ == s@,
    ensures
        entries_map(e.update(i, (s, v))) == entries_map(e).insert(s@, v),
        distinct_names(e.update(i, (s, v))),
    decreases e.len(),
{
    let u = e.update(i, (s, v));
    if i == e.len() - 1 {
        assert(u.drop_last() =~= e.drop_last());
        assert(entries_map(e).insert(s@, v) =~= entries_map(e.drop_last()).insert(s@, v));
    } else {
        lemma_entries_update(e.drop_last(), i, s, v);
        assert(u.drop_last() =~= e.drop_last().update(i, (s, v)));
        assert(e.last().0@ != s@);
        assert(entries_map(u) =~= entries_map(e).insert(s@, v));
    }
}

proof fn lemma_entries_push<V>(e: Seq<(String, V)>, s: String, v: V)
    requires
        distinct_names(e),
        !entries_map(e).contains_key(s@),
    ensures
        entries_map(e.push((s, v))) == entries_map(e).insert(s@, v),
        distinct_names(e.push((s, v))),
{
    assert(e.push((s, v)).drop_last() =~= e);
    assert forall|i: int| 0 <= i < e.len() implies e[i].0@ != s@ by {
        lemma_entries_lookup(e, i);
    }
}

/// What the tracker holds between snapshots.
pub struct RestartTracker {
    pub last_pid_by_name: Vec<(String, Pid)>,
    pub restart_count_by_name: Vec<(String, u32)>,
}

impl RestartTracker {
    /// No name occurs twice in either list.
    pub open spec fn wf(&self) -> bool {
        &&& distinct_names(self.last_pid_by_name@)
        &&& distinct_names(self.restart_count_by_name@)
    }

    /// The last pid of each name.
    pub open spec fn last_pids(&self) -> Map<Seq<char>, Pid> {
        entries_map(self.last_pid_by_name@)
    }

    /// The restarts counted for each name.
    pub open spec fn counts(&self) -> Map<Seq<char>, u32> {
        entries_map(self.restart_count_by_name@)
    }

    /// A tracker that has seen nothing.
    pub fn new() -> (r: Self)
        ensures
            r.wf(),
            r.last_pids() == Map::<Seq<char>, Pid>::empty(),
            r.counts() == Map::<Seq<char>, u32>::empty(),
    {
        RestartTracker { last_pid_by_name: Vec::new(), restart_count_by_name: Vec::new() }
    }

    /// The restarts counted for a name; zero for a name never restarted.
    pub fn restart_count(&self, name: &String) -> (r: u32)
        requires
            self.wf(),
        ensures
            r == count_in(self.counts(), name@),
    {
        match find_entry(&self.restart_count_by_name, name) {
            Some(i) => {
                proof {
                    lemma_entries_lookup(self.restart_count_by_name@, i as int);
                }
                self.restart_count_by_name[i].1
            },
            None => 0,
        }
    }

    /// Takes a snapshot's samples: first forgets the names whose last pid
    /// is not among the live pids (those of the rows shown until now), then
    /// counts, sample by sample, a restart for each name seen under another
    /// pid than the last one, and records the pid.
    pub fn apply_snapshot(&mut self, live_pids: &Vec<Pid>, samples: &Vec<(Pid, String)>)
        requires
            old(self).wf(),
            counts_have_room(old(self).counts(), samples@.len() as int),
        ensures
            final(self).wf(),
            (final(self).last_pids(), final(self).counts()) == observe_names(
                keep_live(old(self).last_pids(), live_pids@),
                old(self).counts(),
                samples_view(samples@),
            ),
    {
        self.keep_live_names(live_pids);
        let ghost last0 = self.last_pids();
        let ghost counts0 = self.counts();
        let mut t: usize = 0;
        while t < samples.len()
            invariant
                t <= samples@.len(),
                self.wf(),
                counts_have_room(counts0, samples@.len() as int),
                forall|k: Seq<char>| #[trigger] self.counts().contains_key(k) ==> count_in(self.counts(), k) <= count_in(counts0, k) + t,
                (self.last_pids(), self.counts()) == observe_names(
                    last0,
                    counts0,
                    samples_view(samples@).take(t as int),
                ),
            decreases samples@.len() - t,
        {
            let pid = samples[t].0;
            let name = &samples[t].1;
            let ghost before_last = self.last_pids();
            let ghost before_counts = self.counts();
            let restarted = match find_entry(&self.last_pid_by_name, name) {
                Some(i) => {
                    proof {
                        lemma_entries_lookup(self.last_pid_by_name@, i as int);
                    }
                    let prev = self.last_pid_by_name[i].1;
                    let ghost e = self.last_pid_by_name@;
                    self.last_pid_by_name.set(i, (name.clone(), pid));
                    proof {
                        lemma_entries_update(e, i as int, *name, pid);
                    }
                    prev != pid
                },
                None => {
                    let ghost e = self.last_pid_by_name@;
                    self.last_pid_by_name.push((name.clone(), pid));
                    proof {
                        lemma_entries_push(e, *name, pid);
                    }
                    false
                },
            };
            if restarted {
                match find_entry(&self.restart_count_by_name, name) {
                    Some(i) => {
                        proof {
                            lemma_entries_lookup(self.restart_count_by_name@, i as int);
                            assert(count_in(before_counts, name@) <= count_in(counts0, name@) + t);
                        }
                        let c = self.restart_count_by_name[i].1;
                        let ghost e = self.restart_count_by_name@;
                        self.restart_count_by_name.set(i, (name.clone(), c + 1));
                        proof {
                            lemma_entries_update(e, i as int, *name, (c + 1) as u32);
                        }
                    },
                    None => {
                        let ghost e = self.restart_count_by_name@;
                        self.restart_count_by_name.push((name.clone(), 1));
                        proof {
                            lemma_entries_push(e, *name, 1u32);
                        }
                    },
                }
            }
            proof {
                let s = samples_view(samples@);
                assert(s.take(t + 1).drop_last() =~= s.take(t as int));
                assert(s.take(t + 1).last() == (pid, name@));
                assert(self.last_pids() =~= before_last.insert(name@, pid));
                if restarted {
                    assert(self.counts() =~= before_counts.insert(
                        name@,
                        (count_in(before_counts, name@) + 1) as u32,
                    ));
                } else {
                    assert(self.counts() =~= before_counts);
                }
            }
            t = t + 1;
        }
        proof {
            assert(samples_view(samples@).take(samples@.len() as int) =~= samples_view(samples@));
        }
    }

    /// Forgets the names whose last pid is not among the live pids.
    fn keep_live_names(&mut self, live_pids: &Vec<Pid>)
        requires
            old(self).wf(),
        ensures
            final(self).wf(),
            final(self).last_pids() == keep_live(old(self).last_pids(), live_pids@),
            final(self).restart_count_by_name@ == old(self).restart_count_by_name@,
    {
        let ghost old_last = self.last_pids();
        let ghost old_e = self.last_pid_by_name@;
        let mut kept: Vec<(String, Pid)> = Vec::new();
        let mut i: usize = 0;
        while i < self.last_pid_by_name.len()
            invariant
                i <= old_e.len(),
                self.last_pid_by_name@ == old_e,
                distinct_names(old_e),
                old_last == entries_map(old_e),
                distinct_names(kept@),
                forall|k: int| 0 <= k < kept@.len() ==> exists|j: int| 0 <= j < i && old_e[j] == #[trigger] kept@[k],
                entries_map(kept@) == keep_live(entries_map(old_e.take(i as int)), live_pids@),
            decreases old_e.len() - i,
        {
            let entry = &self.last_pid_by_name[i];
            let ghost before = kept@;
            proof {
                assert(old_e.take(i + 1).drop_last() =~= old_e.take(i as int));
                assert(old_e.take(i + 1).last() == old_e[i as int]);
                assert forall|j: int| 0 <= j < i implies old_e.take(i as int)[j].0@ != old_e[i as int].0@ by {}
                assert(!entries_map(old_e.take(i as int)).contains_key(old_e[i as int].0@)) by {
                    if entries_map(old_e.take(i as int)).contains_key(old_e[i as int].0@) {
                        lemma_entries_keys(old_e.take(i as int), old_e[i as int].0@);
                    }
                }
            }
            if vec_has_pid(live_pids, entry.1) {
                kept.push((entry.0.clone(), entry.1));
                proof {
                    assert(kept@.drop_last() =~= before);
                    assert forall|a: int, b: int| 0 <= a < b < kept@.len() implies kept@[a].0@ != kept@[b].0@ by {
                        if b == kept@.len() - 1 {
                            let j = choose|j: int| 0 <= j < i && old_e[j] == #[trigger] before[a];
                            assert(old_e[j].0@ != old_e[i as int].0@);
                        }
                    }
                    assert forall|k: int| 0 <= k < kept@.len() implies exists|j: int| 0 <= j < i + 1 && old_e[j] == #[trigger] kept@[k] by {
                        if k == kept@.len() - 1 {
                            assert(old_e[i as int] == kept@[k]);
                        } else {
                            assert(kept@[k] == before[k]);
                        }
                    }
                    assert(entries_map(kept@) =~= keep_live(entries_map(old_e.take(i + 1)), live_pids@));
                }
            } else {
                proof {
                    assert(entries_map(kept@) =~= keep_live(entries_map(old_e.take(i + 1)), live_pids@));
                }
            }
            i = i + 1;
        }
        proof {
            assert(old_e.take(old_e.len() as int) =~= old_e);
        }
        self.last_pid_by_name = kept;
    }
}

/// The place of a name among the entries, if it has one.
fn find_entry<V>(e: &Vec<(String, V)>, name: &String) -> (r: Option<usize>)
    ensures
        match r {
            Some(i) => i < e@.len() && e@[i as int].0@ == name@,
            None => !entries_map(e@).contains_key(name@),
        },
{
    let mut i: usize = 0;
    while i < e.len()
        invariant
            i <= e@.len(),
            forall|j: int| 0 <= j < i ==> e@[j].0@ != name@,
        decreases e@.len() - i,
    {
        if e[i].0 == *name {
            return Some(i);
        }
        i = i + 1;
    }
    proof {
        if entries_map(e@).contains_key(name@) {
            lemma_entries_keys(e@, name@);
        }
    }
    None
}

fn vec_has_pid(v: &Vec<Pid>, pid: Pid) -> (r: bool)
    ensures
        r == v@.contains(pid),
{
    let mut i: usize = 0;
    while i < v.len()
        invariant
            i <= v@.len(),
            forall|j: int| 0 <= j < i ==> v@[j] != pid,
        decreases v@.len() - i,
    {
        if v[i] == pid {
            return true;
        }
        i = i + 1;
    }
    false
}

/// Restart counts only grow: a snapshot never lowers the count of a name.
pub proof fn lemma_counts_never_drop(
    last: Map<Seq<char>, Pid>,
    counts: Map<Seq<char>, u32>,
    samples: Seq<(Pid, Seq<char>)>,
    name: Seq<char>,
)
    requires
        counts_have_room(counts, samples.len() as int),
    ensures
        count_in(observe_names(last, counts, samples).1, name) >= count_in(counts, name),
        forall|k: Seq<char>| #[trigger] observe_names(last, counts, samples).1.contains_key(k) ==> count_in(
            observe_names(last, counts, samples).1,
            k,
        ) <= count_in(counts, k) + samples.len(),
    decreases samples.len(),
{
    if samples.len() > 0 {
        let s = samples.drop_last();
        lemma_counts_never_drop(last, counts, s, name);
        lemma_counts_never_drop(last, counts, s, samples.last().1);
    }
}

/// A name seen only under the pid it was last seen with, or first seen in
/// the snapshot under one pid throughout, counts no restart.
pub proof fn lemma_steady_pid_counts_nothing(
    last: Map<Seq<char>, Pid>,
    counts: Map<Seq<char>, u32>,
    samples: Seq<(Pid, Seq<char>)>,
    name: Seq<char>,
    pid: Pid,
)
    requires
        last.contains_key(name) ==> last[name] == pid,
        forall|k: int| 0 <= k < samples.len() && (#[trigger] samples[k]).1 == name ==> samples[k].0 == pid,
    ensures
        count_in(observe_names(last, counts, samples).1, name) == count_in(counts, name),
        observe_names(last, counts, samples).0.contains_key(name) ==> observe_names(last, counts, samples).0[name] == pid,
    decreases samples.len(),
{
    if samples.len() > 0 {
        let s = samples.drop_last();
        assert forall|k: int| 0 <= k < s.len() && (#[trigger] s[k]).1 == name implies s[k].0 == pid by {
            assert(s[k] == samples[k]);
        }
        lemma_steady_pid_counts_nothing(last, counts, s, name, pid);
    }
}

/// After a snapshot, a name's last pid is that of its last sample.
pub proof fn lemma_last_pid_is_latest(
    last: Map<Seq<char>, Pid>,
    counts: Map<Seq<char>, u32>,
    samples: Seq<(Pid, Seq<char>)>,
    k: int,
)
    requires
        0 <= k < samples.len(),
        forall|j: int| k < j < samples.len() ==> (#[trigger] samples[j]).1 != samples[k].1,
    ensures
        observe_names(last, counts, samples).0.contains_key(samples[k].1),
        observe_names(last, counts, samples).0[samples[k].1] == samples[k].0,
    decreases samples.len(),
{
    if k < samples.len() - 1 {
        let s = samples.drop_last();
        assert forall|j: int| k < j < s.len() implies (#[trigger] s[j]).1 != s[k].1 by {
            assert(s[j] == samples[j]);
        }
        lemma_last_pid_is_latest(last, counts, s, k);
    }
}

} // verus!
