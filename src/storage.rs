use vstd::prelude::*;

verus! {

/// What a slot of the log holds: an application value or the stop-sign that
/// ends a configuration epoch.
#[derive(Clone, Copy, Debug, PartialEq, Eq)]
pub enum Proposal<T> {
    Value(T),
    StopSign,
}

/// A log position as the application reads it.
#[derive(Clone, Copy, Debug, PartialEq, Eq)]
pub enum LogEntry<T> {
    /// Proposed, not yet confirmed by a quorum.
    Undecided(T),
    /// Confirmed by a quorum; never changes again.
    Decided(T),
    /// Discarded prefix; holds the trim index.
    Trimmed(usize),
    /// Terminal marker of the configuration epoch.
    StopSign,
}

/// Errors of a trim request.
#[derive(Clone, Copy, Debug, PartialEq, Eq)]
pub enum TrimError {
    /// Only the leader may start a trim.
    NotLeader,
    /// The requested index lies beyond the decided index, which is carried.
    UndecidedIndex(usize),
}

/// Mathematical model of a log store: the trim and decided boundaries and the
/// slots from the trim boundary to the end of the log.
pub struct LogModel<T> {
    pub trim_idx: nat,
    pub decided_idx: nat,
    pub items: Seq<Proposal<T>>,
}

impl<T> LogModel<T> {
    /// Length of the log, trimmed prefix included.
    pub open spec fn len(self) -> nat {
        self.trim_idx + self.items.len()
    }

    pub open spec fn wf(self) -> bool {
        &&& self.trim_idx <= self.decided_idx <= self.len()
        &&& self.len() <= usize::MAX
    }

    /// The entry that a read of position `i` returns.
    pub open spec fn entry(self, i: int) -> LogEntry<T> {
        if i < self.trim_idx {
            LogEntry::Trimmed(self.trim_idx as usize)
        } else {
            match self.items[i - self.trim_idx] {
                Proposal::Value(v) => if i < self.decided_idx {
                    LogEntry::Decided(v)
                } else {
                    LogEntry::Undecided(v)
                },
                Proposal::StopSign => LogEntry::StopSign,
            }
        }
    }

    /// The entries of positions `from .. to`, cut at the end of the log.
    pub open spec fn entries(self, from: nat, to: nat) -> Seq<LogEntry<T>> {
        let end = if to <= self.len() { to } else { self.len() };
        if from < end {
            Seq::new((end - from) as nat, |k: int| self.entry(from + k))
        } else {
            Seq::empty()
        }
    }

    /// All entries from `from` to the end of the log, where a trimmed prefix
    /// reads as one `Trimmed` marker.
    pub open spec fn decided_suffix(self, from: nat) -> Seq<LogEntry<T>> {
        if from < self.trim_idx {
            seq![LogEntry::Trimmed(self.trim_idx as usize)] + self.entries(
                self.trim_idx,
                self.len(),
            )
        } else {
            self.entries(from, self.len())
        }
    }

    pub open spec fn ends_with_stopsign(self) -> bool {
        self.items.len() > 0 && self.items.last() == Proposal::<T>::StopSign
    }

    /// The log after trimming to `idx`: a no-op at or below the trim boundary.
    pub open spec fn trimmed(self, idx: nat) -> LogModel<T> {
        if idx <= self.trim_idx {
            self
        } else {
            LogModel {
                trim_idx: idx,
                decided_idx: self.decided_idx,
                items: self.items.subrange(idx - self.trim_idx, self.items.len() as int),
            }
        }
    }

    /// The log after learning that everything below `idx` is decided.
    pub open spec fn decided_to(self, idx: nat) -> LogModel<T> {
        let d = if idx <= self.len() { idx } else { self.len() };
        if d <= self.decided_idx {
            self
        } else {
            LogModel { trim_idx: self.trim_idx, decided_idx: d, items: self.items }
        }
    }

    /// The log after adopting `suffix` from position `start` on, where
    /// everything below `start` is decided elsewhere. The local decided prefix
    /// is kept; a gap before `start` becomes trimmed.
    pub open spec fn spliced(self, start: nat, suffix: Seq<Proposal<T>>) -> LogModel<T> {
        if start > self.len() {
            LogModel { trim_idx: start, decided_idx: start, items: suffix }
        } else {
            let keep = if start < self.decided_idx { self.decided_idx } else { start };
            let tail = if keep - start <= suffix.len() {
                suffix.subrange(keep - start, suffix.len() as int)
            } else {
                Seq::empty()
            };
            LogModel {
                trim_idx: self.trim_idx,
                decided_idx: self.decided_idx,
                items: self.items.subrange(0, keep - self.trim_idx) + tail,
            }
        }
    }

    /// `newer` keeps every decided slot of `self` that it has not trimmed, and
    /// moves neither boundary back.
    pub open spec fn extends_decided(self, newer: LogModel<T>) -> bool {
        &&& self.trim_idx <= newer.trim_idx
        &&& self.decided_idx <= newer.decided_idx
        &&& forall|i: int|
            newer.trim_idx <= i < self.decided_idx ==> #[trigger] newer.items[i - newer.trim_idx]
                == self.items[i - self.trim_idx]
    }
}

/// Log of one replica: the slots from the trim boundary on, with the trim and
/// decided indices and the ballots that must survive a restart.
pub struct LogStore<T> {
    entries: Vec<Proposal<T>>,
    trim_idx: usize,
    decided_idx: usize,
    promise: crate::ballot::Ballot,
    accepted_round: crate::ballot::Ballot,
}

impl<T> View for LogStore<T> {
    type V = LogModel<T>;

    closed spec fn view(&self) -> LogModel<T> {
        LogModel {
            trim_idx: self.trim_idx as nat,
            decided_idx: self.decided_idx as nat,
            items: self.entries@,
        }
    }
}

/// Copies `v[from..to]`.
fn copy_range<T: Copy>(v: &Vec<Proposal<T>>, from: usize, to: usize) -> (r: Vec<Proposal<T>>)
    requires
        from <= to <= v@.len(),
    ensures
        r@ == v@.subrange(from as int, to as int),
{
    let mut r: Vec<Proposal<T>> = Vec::new();
    let mut k: usize = from;
    while k < to
        invariant
            from <= k <= to <= v@.len(),
            r@ == v@.subrange(from as int, k as int),
        decreases to - k,
    {
        r.push(v[k]);
        k = k + 1;
        assert(r@ =~= v@.subrange(from as int, k as int));
    }
    r
}

impl<T: Copy> LogStore<T> {
    pub closed spec fn promise_spec(&self) -> crate::ballot::Ballot {
        self.promise
    }

    pub closed spec fn accepted_round_spec(&self) -> crate::ballot::Ballot {
        self.accepted_round
    }

    /// An empty log.
    pub fn new() -> (r: LogStore<T>)
        ensures
            r@.wf(),
            r@.trim_idx == 0,
            r@.decided_idx == 0,
            r@.items.len() == 0,
            r.promise_spec() == crate::ballot::Ballot::zero_spec(),
            r.accepted_round_spec() == crate::ballot::Ballot::zero_spec(),
    {
        LogStore {
            entries: Vec::new(),
            trim_idx: 0,
            decided_idx: 0,
            promise: crate::ballot::Ballot::zero(),
            accepted_round: crate::ballot::Ballot::zero(),
        }
    }

    pub fn len(&self) -> (r: usize)
        requires
            self@.wf(),
        ensures
            r == self@.len(),
    {
        self.trim_idx + self.entries.len()
    }

    pub fn get_trim_idx(&self) -> (r: usize)
        ensures
            r == self@.trim_idx,
    {
        self.trim_idx
    }

    pub fn get_decided_idx(&self) -> (r: usize)
        ensures
            r == self@.decided_idx,
    {
        self.decided_idx
    }

    /// Highest ballot promised.
    pub fn get_promise(&self) -> (r: crate::ballot::Ballot)
        ensures
            r == self.promise_spec(),
    {
        self.promise
    }

    /// Ballot under which the log was last accepted.
    pub fn get_accepted_round(&self) -> (r: crate::ballot::Ballot)
        ensures
            r == self.accepted_round_spec(),
    {
        self.accepted_round
    }

    pub fn set_promise(&mut self, b: crate::ballot::Ballot)
        ensures
            final(self)@ == old(self)@,
            final(self).promise_spec() == b,
            final(self).accepted_round_spec() == old(self).accepted_round_spec(),
    {
        self.promise = b;
    }

    pub fn set_accepted_round(&mut self, b: crate::ballot::Ballot)
        ensures
            final(self)@ == old(self)@,
            final(self).promise_spec() == old(self).promise_spec(),
            final(self).accepted_round_spec() == b,
    {
        self.accepted_round = b;
    }

    pub fn ends_with_stopsign(&self) -> (r: bool)
        ensures
            r == self@.ends_with_stopsign(),
    {
        let n = self.entries.len();
        n > 0 && match self.entries[n - 1] {
            Proposal::StopSign => true,
            Proposal::Value(_) => false,
        }
    }

    /// Reads position `i`; `None` at or beyond the end of the log.
    pub fn read_entry(&self, i: usize) -> (r: Option<LogEntry<T>>)
        requires
            self@.wf(),
        ensures
            r == (if i < self@.len() {
                Some(self@.entry(i as int))
            } else {
                None
            }),
    {
        if i < self.trim_idx {
            Some(LogEntry::Trimmed(self.trim_idx))
        } else if i - self.trim_idx < self.entries.len() {
            match self.entries[i - self.trim_idx] {
                Proposal::Value(v) => if i < self.decided_idx {
                    Some(LogEntry::Decided(v))
                } else {
                    Some(LogEntry::Undecided(v))
                },
                Proposal::StopSign => Some(LogEntry::StopSign),
            }
        } else {
            None
        }
    }

    /// The entries of positions `from .. to`, cut at the end of the log.
    pub fn read_entries(&self, from: usize, to: usize) -> (r: Vec<LogEntry<T>>)
        requires
            self@.wf(),
        ensures
            r@ == self@.entries(from as nat, to as nat),
    {
        let len = self.len();
        let end = if to <= len { to } else { len };
        let mut r: Vec<LogEntry<T>> = Vec::new();
        if from < end {
            let mut i: usize = from;
            while i < end
                invariant
                    self@.wf(),
                    from <= i <= end <= self@.len(),
                    r@ =~= Seq::new((i - from) as nat, |k: int| self@.entry(from + k)),
                decreases end - i,
            {
                let e = self.read_entry(i);
                r.push(e.unwrap());
                i = i + 1;
                assert(r@ =~= Seq::new((i - from) as nat, |k: int| self@.entry(from + k)));
            }
        }
        assert(r@ =~= self@.entries(from as nat, to as nat));
        r
    }

    /// All entries from `from` to the end of the log; a trimmed prefix that
    /// `from` falls in reads as one leading `Trimmed` marker.
    pub fn read_decided_suffix(&self, from: usize) -> (r: Vec<LogEntry<T>>)
        requires
            self@.wf(),
        ensures
            r@ == self@.decided_suffix(from as nat),
    {
        if from < self.trim_idx {
            let mut r: Vec<LogEntry<T>> = Vec::new();
            r.push(LogEntry::Trimmed(self.trim_idx));
            let mut rest = self.read_entries(self.trim_idx, self.len());
            r.append(&mut rest);
            assert(r@ =~= self@.decided_suffix(from as nat));
            r
        } else {
            self.read_entries(from, self.len())
        }
    }

    /// The slots of positions `from ..` to the end of the log, for sending.
    pub fn suffix_from(&self, from: usize) -> (r: Vec<Proposal<T>>)
        requires
            self@.wf(),
            self@.trim_idx <= from <= self@.len(),
        ensures
            r@ == self@.items.subrange(from - self@.trim_idx, self@.items.len() as int),
    {
        copy_range(&self.entries, from - self.trim_idx, self.entries.len())
    }

    /// Appends one slot at the end of the log.
    pub fn append(&mut self, p: Proposal<T>)
        requires
            old(self)@.wf(),
            old(self)@.len() < usize::MAX,
        ensures
            final(self)@ == (LogModel {
                trim_idx: old(self)@.trim_idx,
                decided_idx: old(self)@.decided_idx,
                items: old(self)@.items.push(p),
            }),
            final(self)@.wf(),
            old(self)@.extends_decided(final(self)@),
            final(self).promise_spec() == old(self).promise_spec(),
            final(self).accepted_round_spec() == old(self).accepted_round_spec(),
    {
        self.entries.push(p);
    }

    /// Marks every position below `idx` as decided, as far as the log reaches.
    pub fn decide_to(&mut self, idx: usize)
        requires
            old(self)@.wf(),
        ensures
            final(self)@ == old(self)@.decided_to(idx as nat),
            final(self)@.wf(),
            old(self)@.extends_decided(final(self)@),
            final(self).promise_spec() == old(self).promise_spec(),
            final(self).accepted_round_spec() == old(self).accepted_round_spec(),
    {
        let len = self.len();
        let d = if idx <= len { idx } else { len };
        if d > self.decided_idx {
            self.decided_idx = d;
        }
    }

    /// Replaces every position below `idx` by the marker `Trimmed(idx)`.
    /// Fails when `idx` lies beyond the decided index; at or below the current
    /// trim index it changes nothing.
    pub fn trim(&mut self, idx: usize) -> (r: Result<(), TrimError>)
        requires
            old(self)@.wf(),
        ensures
            r == (if idx <= old(self)@.decided_idx {
                Ok(())
            } else {
                Err(TrimError::UndecidedIndex(old(self)@.decided_idx as usize))
            }),
            r is Ok ==> final(self)@ == old(self)@.trimmed(idx as nat),
            r is Err ==> final(self)@ == old(self)@,
            final(self)@.wf(),
            old(self)@.extends_decided(final(self)@),
            final(self).promise_spec() == old(self).promise_spec(),
            final(self).accepted_round_spec() == old(self).accepted_round_spec(),
    {
        if idx > self.decided_idx {
            return Err(TrimError::UndecidedIndex(self.decided_idx));
        }
        if idx > self.trim_idx {
            let kept = copy_range(&self.entries, idx - self.trim_idx, self.entries.len());
            self.entries = kept;
            self.trim_idx = idx;
        }
        Ok(())
    }

    /// Adopts `suffix` from position `start` on, where every position below
    /// `start` is decided elsewhere: the local decided prefix stays, and a gap
    /// before `start` becomes trimmed.
    pub fn splice(&mut self, start: usize, suffix: Vec<Proposal<T>>)
        requires
            old(self)@.wf(),
            start + suffix@.len() <= usize::MAX,
        ensures
            final(self)@ == old(self)@.spliced(start as nat, suffix@),
            final(self)@.wf(),
            old(self)@.extends_decided(final(self)@),
            final(self).promise_spec() == old(self).promise_spec(),
            final(self).accepted_round_spec() == old(self).accepted_round_spec(),
    {
        let len = self.len();
        if start > len {
            self.entries = suffix;
            self.trim_idx = start;
            self.decided_idx = start;
        } else {
            let keep = if start < self.decided_idx { self.decided_idx } else { start };
            let mut kept = copy_range(&self.entries, 0, keep - self.trim_idx);
            if keep - start <= suffix.len() {
                let mut tail = copy_range(&suffix, keep - start, suffix.len());
                kept.append(&mut tail);
            }
            self.entries = kept;
            assert(self@.items =~= old(self)@.spliced(start as nat, suffix@).items);
        }
    }
}

/// After a successful trim every position below the trim index reads as the
/// marker of that index, and the trim index has not moved back.
pub proof fn lemma_trim_monotonic<T>(m: LogModel<T>, idx: nat, i: int)
    requires
        m.wf(),
        idx <= m.decided_idx,
        0 <= i < m.trimmed(idx).trim_idx,
    ensures
        m.trim_idx <= m.trimmed(idx).trim_idx,
        m.trimmed(idx).wf(),
        m.trimmed(idx).entries(i as nat, (i + 1) as nat) == seq![
            LogEntry::<T>::Trimmed(m.trimmed(idx).trim_idx as usize),
        ],
{
    let t = m.trimmed(idx);
    assert(t.entries(i as nat, (i + 1) as nat) =~= seq![LogEntry::<T>::Trimmed(t.trim_idx as usize)]);
}

/// Along a run of states of one log, where each step keeps the decided
/// slots of the step before (as every change of the log does), the trim index
/// never moves back, and every position below the later trim index reads as
/// that index's marker.
pub proof fn lemma_trim_monotonic_run<T>(run: Seq<LogModel<T>>, i: int, j: int)
    requires
        forall|k: int| 0 <= k < run.len() - 1 ==> #[trigger] run[k].extends_decided(run[k + 1]),
        0 <= i <= j < run.len(),
    ensures
        run[i].trim_idx <= run[j].trim_idx,
        forall|p: int|
            0 <= p < run[j].trim_idx ==> #[trigger] run[j].entry(p) == LogEntry::<T>::Trimmed(
                run[j].trim_idx as usize,
            ),
    decreases j - i,
{
    if i < j {
        lemma_trim_monotonic_run(run, i, j - 1);
        let k = j - 1;
        assert(run[k].extends_decided(run[k + 1]));
    }
}

/// With `n` decided positions, after trimming to `t > 0` a read of the
/// decided suffix from 0 gives `n - t + 1` entries: one marker for the trimmed
/// prefix and the `n - t` decided entries after it.
pub proof fn lemma_decided_suffix_len<T>(m: LogModel<T>, t: nat)
    requires
        m.wf(),
        m.decided_idx == m.len(),
        m.trim_idx <= t <= m.decided_idx,
        0 < t,
    ensures
        m.trimmed(t).decided_suffix(0).len() == m.len() - t + 1,
{
}

/// Trimming to `t1` and then to a larger `t2` gives the log that trimming to
/// `t2` gives at once; a second trim to a smaller index changes nothing.
pub proof fn lemma_double_trim<T>(m: LogModel<T>, t1: nat, t2: nat)
    requires
        m.wf(),
        t1 <= m.decided_idx,
        t2 <= m.decided_idx,
    ensures
        t1 < t2 ==> m.trimmed(t1).trimmed(t2) == m.trimmed(t2),
        t2 <= t1 ==> m.trimmed(t1).trimmed(t2) == m.trimmed(t1),
{
    if t1 < t2 && m.trim_idx < t2 {
        assert(m.trimmed(t1).trimmed(t2).items =~= m.trimmed(t2).items);
    }
}

} // verus!
