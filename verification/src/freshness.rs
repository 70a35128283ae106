//! Which files an agent has read have changed since.
//!
//! When a tool reads a file for an agent, the modification time of the
//! file is recorded under the agent and the file's canonical path. Before
//! the next user turn, the files whose modification time differs now are
//! reported as modified, and those that can no longer be found as removed,
//! so the model re-reads them instead of answering from an old copy.
use vstd::prelude::*;

use crate::paths::{ComponentView, FsPath};
use crate::text::{owned, str_equal};

verus! {

broadcast use vstd::string::group_string_axioms;

/// Why a file that was read is out of date.
#[derive(Debug, Clone, Copy, PartialEq, Eq, Structural)]
pub enum StaleReason {
    /// Its modification time differs from the one recorded at the read.
    Modified,
    /// It can no longer be found at its canonical path.
    Removed,
}

/// A file that was read and is out of date.
pub struct StaleEntry {
    pub path: FsPath,
    pub reason: StaleReason,
}

/// One recorded read.
pub struct ReadRecord {
    pub agent_id: String,
    pub path: FsPath,
    /// Modification time at the read, in nanoseconds since the epoch.
    pub mtime: i128,
}

/// The recorded reads, at most one per agent and file.
pub struct FreshnessTracker {
    reads: Vec<ReadRecord>,
}

/// A recorded read as plain values: agent, path, modification time.
pub type ReadView = (Seq<char>, Seq<ComponentView>, i128);

/// The plain values of recorded reads.
pub open spec fn reads_view(v: Seq<ReadRecord>) -> Seq<ReadView> {
    v.map_values(|r: ReadRecord| (r.agent_id@, r.path@, r.mtime))
}

/// No agent and file occur twice.
pub open spec fn keys_unique(s: Seq<ReadView>) -> bool {
    forall|i: int, j: int| 0 <= i < j < s.len() ==> (s[i].0, s[i].1) != (s[j].0, s[j].1)
}

/// The position of the read of `path` by `agent`, or -1.
pub open spec fn read_index(s: Seq<ReadView>, agent: Seq<char>, path: Seq<ComponentView>) -> int
    decreases s.len(),
{
    if s.len() == 0 {
        -1
    } else if s[0].0 == agent && s[0].1 == path {
        0
    } else {
        let r = read_index(s.drop_first(), agent, path);
        if r < 0 {
            -1
        } else {
            r + 1
        }
    }
}

/// The recorded modification time of `path` as read by `agent`.
pub open spec fn recorded_mtime(s: Seq<ReadView>, agent: Seq<char>, path: Seq<ComponentView>) -> Option<
    i128,
> {
    let i = read_index(s, agent, path);
    if i >= 0 {
        Some(s[i].2)
    } else {
        None
    }
}

/// The reads after recording `path` read by `agent` at modification time
/// `mtime`: an earlier record of the same file by the same agent is
/// replaced, else the record is added.
pub open spec fn recorded(s: Seq<ReadView>, agent: Seq<char>, path: Seq<ComponentView>, mtime: i128) -> Seq<
    ReadView,
> {
    let i = read_index(s, agent, path);
    if i >= 0 {
        s.update(i, (agent, path, mtime))
    } else {
        s.push((agent, path, mtime))
    }
}

/// The reads of one agent, in record order, as path and time.
pub open spec fn reads_of(s: Seq<ReadView>, agent: Seq<char>) -> Seq<(Seq<ComponentView>, i128)>
    decreases s.len(),
{
    if s.len() == 0 {
        Seq::empty()
    } else {
        let rest = reads_of(s.drop_last(), agent);
        if s.last().0 == agent {
            rest.push((s.last().1, s.last().2))
        } else {
            rest
        }
    }
}

/// How a read file stands, given its current modification time (`None`
/// when it can no longer be read).
pub open spec fn staleness(recorded: i128, current: Option<i128>) -> Option<StaleReason> {
    match current {
        None => Some(StaleReason::Removed),
        Some(t) => if t != recorded {
            Some(StaleReason::Modified)
        } else {
            None
        },
    }
}

/// The stale files among `reads`, in order, given the current modification
/// time of each.
pub open spec fn stale_of(
    reads: Seq<(Seq<ComponentView>, i128)>,
    current: Seq<Option<i128>>,
) -> Seq<(Seq<ComponentView>, StaleReason)>
    decreases reads.len(),
{
    if reads.len() == 0 {
        Seq::empty()
    } else {
        let rest = stale_of(reads.drop_last(), current.drop_last());
        match staleness(reads.last().1, current.last()) {
            Some(why) => rest.push((reads.last().0, why)),
            None => rest,
        }
    }
}

/// The plain values of stale entries.
pub open spec fn stale_view(v: Seq<StaleEntry>) -> Seq<(Seq<ComponentView>, StaleReason)> {
    v.map_values(|e: StaleEntry| (e.path@, e.reason))
}

proof fn lemma_read_index(s: Seq<ReadView>, agent: Seq<char>, path: Seq<ComponentView>)
    ensures
        -1 <= read_index(s, agent, path) < s.len(),
        read_index(s, agent, path) >= 0 ==> s[read_index(s, agent, path)].0 == agent && s[read_index(
            s,
            agent,
            path,
        )].1 == path,
        read_index(s, agent, path) < 0 <==> forall|i: int|
            0 <= i < s.len() ==> !(#[trigger] s[i].0 == agent && s[i].1 == path),
        forall|i: int|
            0 <= i < read_index(s, agent, path) ==> !(#[trigger] s[i].0 == agent && s[i].1 == path),
    decreases s.len(),
{
    if s.len() > 0 {
        lemma_read_index(s.drop_first(), agent, path);
        assert forall|i: int| 0 < i < s.len() implies #[trigger] s[i] == s.drop_first()[i - 1] by {}
    }
}

impl FreshnessTracker {
    /// The plain values of the recorded reads.
    pub closed spec fn view(&self) -> Seq<ReadView> {
        reads_view(self.reads@)
    }

    /// The tracker keeps one record per agent and file.
    pub closed spec fn wf(&self) -> bool {
        keys_unique(reads_view(self.reads@))
    }

    /// No reads recorded.
    pub fn new() -> (t: FreshnessTracker)
        ensures
            t.wf(),
            t.view() == Seq::<ReadView>::empty(),
    {
        let t = FreshnessTracker { reads: Vec::new() };
        assert(reads_view(t.reads@) =~= Seq::<ReadView>::empty());
        t
    }

    /// The position of the read of `path` by `agent`, if recorded.
    fn find(&self, agent_id: &str, path: &FsPath) -> (r: Option<usize>)
        ensures
            match r {
                Some(i) => read_index(self.view(), agent_id@, path@) == i,
                None => read_index(self.view(), agent_id@, path@) < 0,
            },
    {
        let ghost s = reads_view(self.reads@);
        let mut i: usize = 0;
        assert(s.skip(0) =~= s);
        while i < self.reads.len()
            invariant
                i <= self.reads.len(),
                s == reads_view(self.reads@),
                read_index(s, agent_id@, path@) == if read_index(
                    s.skip(i as int),
                    agent_id@,
                    path@,
                ) < 0 {
                    -1
                } else {
                    i + read_index(s.skip(i as int), agent_id@, path@)
                },
            decreases self.reads.len() - i,
        {
            let r = &self.reads[i];
            assert(s.skip(i as int)[0] == s[i as int]);
            if str_equal(r.agent_id.as_str(), agent_id) && r.path.equals(path) {
                return Some(i);
            }
            assert(s.skip(i as int).drop_first() =~= s.skip(i + 1));
            i = i + 1;
        }
        None
    }

    /// Record that `agent_id` read a file, given its canonical path and
    /// modification time; when either could not be had the read is not
    /// recorded.
    pub fn record_read(&mut self, agent_id: &str, observed: Option<(FsPath, i128)>)
        requires
            old(self).wf(),
        ensures
            final(self).wf(),
            match observed {
                None => final(self).view() == old(self).view(),
                Some((p, t)) => final(self).view() == recorded(old(self).view(), agent_id@, p@, t),
            },
    {
        let ghost s = self.view();
        match observed {
            None => {},
            Some((path, mtime)) => {
                proof {
                    lemma_read_index(s, agent_id@, path@);
                }
                match self.find(agent_id, &path) {
                    Some(i) => {
                        let ghost pv = path@;
                        self.reads.set(i, ReadRecord { agent_id: owned(agent_id), path, mtime });
                        assert(reads_view(self.reads@) =~= s.update(i as int, (agent_id@, pv, mtime)));
                    },
                    None => {
                        let ghost pv = path@;
                        self.reads.push(ReadRecord { agent_id: owned(agent_id), path, mtime });
                        assert(reads_view(self.reads@) =~= s.push((agent_id@, pv, mtime)));
                    },
                }
            },
        }
    }

    /// The files `agent_id` has read, in record order, with the
    /// modification time recorded for each.
    pub fn reads_for(&self, agent_id: &str) -> (r: Vec<(FsPath, i128)>)
        ensures
            r@.map_values(|e: (FsPath, i128)| (e.0@, e.1)) == reads_of(self.view(), agent_id@),
    {
        let ghost s = self.view();
        let mut out: Vec<(FsPath, i128)> = Vec::new();
        let mut i: usize = 0;
        assert(out@.map_values(|e: (FsPath, i128)| (e.0@, e.1)) =~= reads_of(s.take(0), agent_id@));
        while i < self.reads.len()
            invariant
                i <= self.reads.len(),
                s == reads_view(self.reads@),
                out@.map_values(|e: (FsPath, i128)| (e.0@, e.1)) == reads_of(s.take(i as int), agent_id@),
            decreases self.reads.len() - i,
        {
            let r = &self.reads[i];
            assert(s.take(i + 1).drop_last() =~= s.take(i as int));
            assert(s.take(i + 1).last() == s[i as int]);
            if str_equal(r.agent_id.as_str(), agent_id) {
                let ghost before = out@.map_values(|e: (FsPath, i128)| (e.0@, e.1));
                out.push((r.path.duplicate(), r.mtime));
                assert(out@.map_values(|e: (FsPath, i128)| (e.0@, e.1)) =~= before.push(
                    (s[i as int].1, s[i as int].2),
                ));
            }
            i = i + 1;
        }
        assert(s.take(self.reads.len() as int) =~= s);
        out
    }
}

/// How a read file stands, given its current modification time.
pub fn classify(recorded: i128, current: Option<i128>) -> (r: Option<StaleReason>)
    ensures
        r == staleness(recorded, current),
{
    match current {
        None => Some(StaleReason::Removed),
        Some(t) => if t != recorded {
            Some(StaleReason::Modified)
        } else {
            None
        },
    }
}

/// The stale files among `reads` (as `reads_for` gives them), given the
/// current modification time of each file, `None` when it can no longer be
/// read.
pub fn stale_paths(reads: &Vec<(FsPath, i128)>, current: &Vec<Option<i128>>) -> (r: Vec<StaleEntry>)
    requires
        current.len() == reads.len(),
    ensures
        stale_view(r@) == stale_of(reads@.map_values(|e: (FsPath, i128)| (e.0@, e.1)), current@),
{
    let ghost rv = reads@.map_values(|e: (FsPath, i128)| (e.0@, e.1));
    let mut out: Vec<StaleEntry> = Vec::new();
    let mut i: usize = 0;
    assert(stale_view(out@) =~= stale_of(rv.take(0), current@.take(0)));
    while i < reads.len()
        invariant
            i <= reads.len(),
            current.len() == reads.len(),
            rv == reads@.map_values(|e: (FsPath, i128)| (e.0@, e.1)),
            stale_view(out@) == stale_of(rv.take(i as int), current@.take(i as int)),
        decreases reads.len() - i,
    {
        assert(rv.take(i + 1).drop_last() =~= rv.take(i as int));
        assert(current@.take(i + 1).drop_last() =~= current@.take(i as int));
        assert(rv.take(i + 1).last() == rv[i as int]);
        assert(current@.take(i + 1).last() == current@[i as int]);
        match classify(reads[i].1, current[i]) {
            Some(reason) => {
                let ghost before = stale_view(out@);
                out.push(StaleEntry { path: reads[i].0.duplicate(), reason });
                assert(stale_view(out@) =~= before.push((rv[i as int].0, reason)));
            },
            None => {},
        }
        i = i + 1;
    }
    assert(rv.take(reads.len() as int) =~= rv);
    assert(current@.take(reads.len() as int) =~= current@);
    out
}

/// Whether a file read at `recorded` is stale now: it can no longer be read,
/// or its modification time differs.
pub open spec fn is_stale(recorded: i128, current: Option<i128>) -> bool {
    current is None || current != Some(recorded)
}

/// The number of stale reads.
pub open spec fn stale_count(reads: Seq<(Seq<ComponentView>, i128)>, current: Seq<Option<i128>>) -> nat
    decreases reads.len(),
{
    if reads.len() == 0 {
        0
    } else {
        stale_count(reads.drop_last(), current.drop_last()) + if is_stale(reads.last().1, current.last()) {
            1nat
        } else {
            0nat
        }
    }
}

/// Every stale read is reported and nothing else: a read whose file is gone
/// appears as removed, a read whose file's time differs from the recorded
/// one (later or earlier) appears as modified; each reported entry is such
/// a read, and there is one entry per stale read.
pub proof fn lemma_stale_reports_every_stale_read(
    reads: Seq<(Seq<ComponentView>, i128)>,
    current: Seq<Option<i128>>,
)
    requires
        current.len() == reads.len(),
    ensures
        forall|i: int|
            0 <= i < reads.len() && #[trigger] current[i] is None ==> stale_of(reads, current).contains(
                (reads[i].0, StaleReason::Removed),
            ),
        forall|i: int|
            0 <= i < reads.len() && #[trigger] current[i] is Some && current[i]->Some_0 != reads[i].1
                ==> stale_of(reads, current).contains((reads[i].0, StaleReason::Modified)),
        forall|j: int|
            0 <= j < stale_of(reads, current).len() ==> exists|i: int|
                0 <= i < reads.len() && #[trigger] stale_of(reads, current)[j] == (
                    reads[i].0,
                    if current[i] is None {
                        StaleReason::Removed
                    } else {
                        StaleReason::Modified
                    },
                ) && is_stale(reads[i].1, current[i]),
        stale_of(reads, current).len() == stale_count(reads, current),
    decreases reads.len(),
{
    if reads.len() > 0 {
        let r0 = reads.drop_last();
        let c0 = current.drop_last();
        lemma_stale_reports_every_stale_read(r0, c0);
        let prev = stale_of(r0, c0);
        let out = stale_of(reads, current);
        let n = reads.len() - 1;
        assert forall|i: int| 0 <= i < n implies r0[i] == reads[i] && c0[i] == current[i] by {}
        match staleness(reads.last().1, current.last()) {
            Some(why) => {
                assert(out == prev.push((reads.last().0, why)));
                assert forall|k: int| 0 <= k < prev.len() implies out[k] == prev[k] by {}
            },
            None => {
                assert(out == prev);
            },
        }
        assert forall|i: int| 0 <= i < reads.len() && #[trigger] current[i] is None implies out.contains(
            (reads[i].0, StaleReason::Removed),
        ) by {
            if i < n {
                assert(c0[i] == current[i]);
                let k = choose|k: int| 0 <= k < prev.len() && prev[k] == (r0[i].0, StaleReason::Removed);
                assert(out[k] == prev[k]);
            } else {
                assert(out[out.len() - 1] == (reads[i].0, StaleReason::Removed));
            }
        }
        assert forall|i: int|
            0 <= i < reads.len() && #[trigger] current[i] is Some && current[i]->Some_0 != reads[i].1
                implies out.contains((reads[i].0, StaleReason::Modified)) by {
            if i < n {
                assert(c0[i] == current[i]);
                assert(r0[i] == reads[i]);
                let k = choose|k: int| 0 <= k < prev.len() && prev[k] == (r0[i].0, StaleReason::Modified);
                assert(out[k] == prev[k]);
            } else {
                assert(out[out.len() - 1] == (reads[i].0, StaleReason::Modified));
            }
        }
        assert forall|j: int| 0 <= j < out.len() implies exists|i: int|
            0 <= i < reads.len() && #[trigger] out[j] == (
                reads[i].0,
                if current[i] is None {
                    StaleReason::Removed
                } else {
                    StaleReason::Modified
                },
            ) && is_stale(reads[i].1, current[i]) by {
            if j < prev.len() {
                let i = choose|i: int|
                    0 <= i < r0.len() && #[trigger] prev[j] == (
                        r0[i].0,
                        if c0[i] is None {
                            StaleReason::Removed
                        } else {
                            StaleReason::Modified
                        },
                    ) && is_stale(r0[i].1, c0[i]);
                assert(out[j] == prev[j]);
                assert(r0[i] == reads[i] && c0[i] == current[i]);
            } else {
                assert(out[j] == (reads[n].0, if current[n] is None {
                    StaleReason::Removed
                } else {
                    StaleReason::Modified
                }));
            }
        }
    }
}

/// After a read is recorded, the agent's record of that file holds the
/// new modification time, and every other record is unchanged.
pub proof fn lemma_record_then_lookup(
    s: Seq<ReadView>,
    agent: Seq<char>,
    path: Seq<ComponentView>,
    mtime: i128,
    other_agent: Seq<char>,
    other_path: Seq<ComponentView>,
)
    requires
        keys_unique(s),
    ensures
        keys_unique(recorded(s, agent, path, mtime)),
        recorded_mtime(recorded(s, agent, path, mtime), agent, path) == Some(mtime),
        !(other_agent == agent && other_path == path) ==> recorded_mtime(
            recorded(s, agent, path, mtime),
            other_agent,
            other_path,
        ) == recorded_mtime(s, other_agent, other_path),
{
    let r = recorded(s, agent, path, mtime);
    lemma_read_index(s, agent, path);
    lemma_read_index(r, agent, path);
    lemma_read_index(s, other_agent, other_path);
    lemma_read_index(r, other_agent, other_path);
    let i = read_index(s, agent, path);
    if i >= 0 {
        assert(r[i].0 == agent && r[i].1 == path);
        assert(read_index(r, agent, path) == i) by {
            let q = read_index(r, agent, path);
            if 0 <= q < i {
                assert(r[q] == s[q]);
            }
        }
        if !(other_agent == agent && other_path == path) {
            let j = read_index(s, other_agent, other_path);
            let k = read_index(r, other_agent, other_path);
            if j >= 0 {
                assert(r[j] == s[j]);
                if k < j && k >= 0 {
                    assert(r[k] == s[k] || k == i);
                }
            }
            if k >= 0 {
                assert(k != i);
                assert(r[k] == s[k]);
            }
        }
    } else {
        assert(r[s.len() as int].0 == agent && r[s.len() as int].1 == path);
        assert(read_index(r, agent, path) == s.len()) by {
            let q = read_index(r, agent, path);
            if 0 <= q < s.len() {
                assert(r[q] == s[q]);
            }
        }
        if !(other_agent == agent && other_path == path) {
            let j = read_index(s, other_agent, other_path);
            let k = read_index(r, other_agent, other_path);
            if j >= 0 {
                assert(r[j] == s[j]);
            }
            if k >= 0 {
                assert(k != s.len());
                assert(r[k] == s[k]);
            }
        }
    }
}


proof fn lemma_reads_of_update(s: Seq<ReadView>, i: int, x: ReadView, b: Seq<char>)
    requires
        0 <= i < s.len(),
        s[i].0 != b,
        x.0 != b,
    ensures
        reads_of(s.update(i, x), b) == reads_of(s, b),
    decreases s.len(),
{
    let u = s.update(i, x);
    if i == s.len() - 1 {
        assert(u.drop_last() =~= s.drop_last());
    } else {
        assert(u.drop_last() =~= s.drop_last().update(i, x));
        lemma_reads_of_update(s.drop_last(), i, x, b);
    }
}

/// Reads recorded for one agent are never reported for another.
pub proof fn lemma_agents_isolated(
    s: Seq<ReadView>,
    agent: Seq<char>,
    path: Seq<ComponentView>,
    mtime: i128,
    other: Seq<char>,
)
    requires
        other != agent,
    ensures
        reads_of(recorded(s, agent, path, mtime), other) == reads_of(s, other),
{
    lemma_read_index(s, agent, path);
    let i = read_index(s, agent, path);
    if i >= 0 {
        lemma_reads_of_update(s, i, (agent, path, mtime), other);
    } else {
        assert(s.push((agent, path, mtime)).drop_last() =~= s);
    }
}

/// A file is reported only when it changed: one whose modification time
/// is still the recorded one is not stale, any other time (later, or earlier
/// as after a restore) is modified, and
/// one that can no longer be read is removed.
pub proof fn lemma_staleness_cases(recorded_time: i128, current: Option<i128>)
    ensures
        current == Some(recorded_time) ==> staleness(recorded_time, current) is None,
        (current matches Some(t) && t != recorded_time) ==> staleness(recorded_time, current)
            == Some(StaleReason::Modified),
        current is None ==> staleness(recorded_time, current) == Some(StaleReason::Removed),
{
}

} // verus!
