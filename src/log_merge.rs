use crate::tentacle::LogLine;
use vstd::prelude::*;
use vstd::pervasive::VecAdditionalExecFns;
use vstd::string::StringExecFns;

verus! {

/// The error that ends a merged stream.
#[derive(Debug, Clone, Copy, PartialEq, Eq, Structural)]
pub enum LogStreamError {
    DefaultError,
}

impl LogStreamError {
    /// A human-readable description of the error.
    pub fn message(&self) -> (r: String)
        ensures
            r@ == "Failed stream."@,
    {
        proof {
            reveal_strlit("Failed stream.");
        }
        String::from_str("Failed stream.")
    }
}

/// Where one input of a merge stands.
#[derive(Debug, Clone, Copy, PartialEq, Eq, Structural)]
pub enum SourceState {
    /// The source has to be asked for its next line.
    NeedsPoll,
    /// The source's line waits in the buffer.
    Delivered,
    /// The source has ended.
    Finished,
}

/// A buffered line together with the input it came from.
#[derive(Debug)]
pub struct BufferEntry {
    pub log_line: LogLine,
    pub source_idx: usize,
}

/// What one poll of an input source produced.
pub enum SourcePoll {
    Line(LogLine),
    Exhausted,
    NotReady,
    Failed(LogStreamError),
}

/// What one step of the merge produced.
#[derive(Debug)]
pub enum MergePoll {
    Line(LogLine),
    Exhausted,
    NotReady,
}

/// The decisions of a k-way ordered merge. The caller owns the input sources:
/// it polls each source for which `needs_poll` holds, hands the outcome to
/// `poll_source`, and then asks `poll` for the next merged line.
pub struct LogMerge {
    source_state: Vec<SourceState>,
    buffer: Vec<BufferEntry>,
    failure: Option<LogStreamError>,
}

pub open spec fn ts(e: BufferEntry) -> i64 {
    e.log_line.timestamp
}

/// Buffer entries in non-decreasing timestamp order.
pub open spec fn ts_sorted(b: Seq<BufferEntry>) -> bool {
    forall|i: int, j: int| 0 <= i < j < b.len() ==> ts(b[i]) <= ts(b[j])
}

/// Some buffer entry came from input `s`.
pub open spec fn holds_source(b: Seq<BufferEntry>, s: int) -> bool {
    exists|k: int| 0 <= k < b.len() && b[k].source_idx == s
}

/// The place where a line with timestamp `t` enters the buffer: after every
/// entry whose timestamp is not larger.
pub open spec fn insert_slot(b: Seq<BufferEntry>, t: i64, k: int) -> bool {
    &&& 0 <= k <= b.len()
    &&& forall|m: int| 0 <= m < k ==> ts(b[m]) <= t
    &&& forall|m: int| k <= m < b.len() ==> t < ts(b[m])
}

impl LogMerge {
    /// The state of each input.
    pub closed spec fn states(&self) -> Seq<SourceState> {
        self.source_state@
    }

    /// The buffered lines, in the order in which they will be emitted.
    pub closed spec fn entries(&self) -> Seq<BufferEntry> {
        self.buffer@
    }

    /// The error of the input that failed, if one did; the merge yields
    /// nothing but that error from then on.
    pub closed spec fn failure(&self) -> Option<LogStreamError> {
        self.failure
    }

    pub open spec fn has_failed(&self) -> bool {
        self.failure() is Some
    }

    /// The input `s` is to be polled next.
    pub open spec fn awaits(&self, s: int) -> bool {
        !self.has_failed() && 0 <= s < self.states().len() && self.states()[s]
            == SourceState::NeedsPoll
    }

    /// No input is waiting to be polled: each has a buffered line or has ended.
    pub open spec fn gate_open(&self) -> bool {
        forall|s: int| 0 <= s < self.states().len() ==> self.states()[s] != SourceState::NeedsPoll
    }

    pub closed spec fn wf(&self) -> bool {
        &&& ts_sorted(self.buffer@)
        &&& forall|k: int|
            #![trigger self.buffer@[k]]
            0 <= k < self.buffer@.len() ==> self.buffer@[k].source_idx < self.source_state@.len()
                && self.source_state@[self.buffer@[k].source_idx as int] == SourceState::Delivered
        &&& forall|k1: int, k2: int|
            0 <= k1 < k2 < self.buffer@.len() ==> self.buffer@[k1].source_idx
                != self.buffer@[k2].source_idx
        &&& forall|s: int|
            0 <= s < self.source_state@.len() && self.source_state@[s] == SourceState::Delivered
                ==> holds_source(self.buffer@, s)
    }

    /// A merge of `num_sources` inputs, each waiting to be polled.
    pub fn new(num_sources: usize) -> (r: LogMerge)
        ensures
            r.wf(),
            r.states() == Seq::new(num_sources as nat, |i: int| SourceState::NeedsPoll),
            r.entries().len() == 0,
            !r.has_failed(),
    {
        let mut source_state: Vec<SourceState> = Vec::with_capacity(num_sources);
        let mut i: usize = 0;
        while i < num_sources
            invariant
                i <= num_sources,
                source_state@ == Seq::new(i as nat, |j: int| SourceState::NeedsPoll),
            decreases num_sources - i,
        {
            source_state.push(SourceState::NeedsPoll);
            i = i + 1;
            assert(source_state@ =~= Seq::new(i as nat, |j: int| SourceState::NeedsPoll));
        }
        LogMerge { source_state, buffer: Vec::with_capacity(num_sources), failure: None }
    }

    /// The number of inputs.
    pub fn num_sources(&self) -> (r: usize)
        ensures
            r == self.states().len(),
    {
        self.source_state.len()
    }

    /// Whether input `source_idx` is to be polled now.
    pub fn needs_poll(&self, source_idx: usize) -> (r: bool)
        ensures
            r == self.awaits(source_idx as int),
    {
        self.failure.is_none() && source_idx < self.source_state.len() && self.source_state[source_idx]
            == SourceState::NeedsPoll
    }

    /// Removes and returns the entry with the smallest timestamp.
    fn next_entry(&mut self) -> (e: BufferEntry)
        requires
            old(self).buffer@.len() > 0,
        ensures
            e == old(self).buffer@[0],
            final(self).buffer@ == old(self).buffer@.drop_first(),
            final(self).source_state == old(self).source_state,
            final(self).failure == old(self).failure,
    {
        self.buffer.remove(0)
    }

    /// Inserts a line after every buffered line whose timestamp is not larger.
    fn insert_into_buffer(&mut self, log_line: LogLine, source_idx: usize) -> (k: Ghost<int>)
        requires
            ts_sorted(old(self).buffer@),
        ensures
            insert_slot(old(self).buffer@, log_line.timestamp, k@),
            final(self).buffer@ == old(self).buffer@.insert(
                k@,
                BufferEntry { log_line, source_idx },
            ),
            final(self).source_state == old(self).source_state,
            final(self).failure == old(self).failure,
    {
        let line = BufferEntry { log_line, source_idx };
        let buffer_size = self.buffer.len();
        let mut insert_at: usize = 0;
        while insert_at < buffer_size
            invariant
                buffer_size == self.buffer@.len(),
                insert_at <= buffer_size,
                forall|m: int| 0 <= m < insert_at ==> ts(self.buffer@[m]) <= line.log_line.timestamp,
            ensures
                insert_at <= buffer_size,
                forall|m: int| 0 <= m < insert_at ==> ts(self.buffer@[m]) <= line.log_line.timestamp,
                insert_at == buffer_size || line.log_line.timestamp < ts(self.buffer@[insert_at as int]),
            decreases buffer_size - insert_at,
        {
            if line.log_line.timestamp < self.buffer[insert_at].log_line.timestamp {
                break;
            }
            insert_at = insert_at + 1;
        }
        self.buffer.insert(insert_at, line);
        Ghost(insert_at as int)
    }

    /// Hands the merge what polling input `source_idx` produced.
    pub fn poll_source(&mut self, source_idx: usize, polled: SourcePoll) -> (r: Result<
        (),
        LogStreamError,
    >)
        requires
            old(self).wf(),
            old(self).awaits(source_idx as int),
        ensures
            final(self).wf(),
            match polled {
                SourcePoll::Line(line) => {
                    &&& r is Ok
                    &&& final(self).failure() == old(self).failure()
                    &&& final(self).states() == old(self).states().update(
                        source_idx as int,
                        SourceState::Delivered,
                    )
                    &&& exists|k: int|
                        insert_slot(old(self).entries(), line.timestamp, k)
                            && final(self).entries() == old(self).entries().insert(
                            k,
                            (BufferEntry { log_line: line, source_idx }),
                        )
                },
                SourcePoll::Exhausted => {
                    &&& r is Ok
                    &&& final(self).failure() == old(self).failure()
                    &&& final(self).states() == old(self).states().update(
                        source_idx as int,
                        SourceState::Finished,
                    )
                    &&& final(self).entries() == old(self).entries()
                },
                SourcePoll::NotReady => {
                    &&& r is Ok
                    &&& final(self).failure() == old(self).failure()
                    &&& final(self).states() == old(self).states()
                    &&& final(self).entries() == old(self).entries()
                },
                SourcePoll::Failed(e) => {
                    &&& r == Err::<(), LogStreamError>(e)
                    &&& final(self).failure() == Some(e)
                    &&& final(self).states() == old(self).states()
                    &&& final(self).entries() == old(self).entries()
                },
            },
    {
        match polled {
            SourcePoll::Line(line) => {
                let ghost pre = self.buffer@;
                let ghost e = BufferEntry { log_line: line, source_idx };
                let k = self.insert_into_buffer(line, source_idx);
                self.source_state.set(source_idx, SourceState::Delivered);
                proof {
                    let b = self.buffer@;
                    assert forall|m: int| 0 <= m < pre.len() implies pre[m].source_idx
                        != source_idx by {
                        assert(self.source_state@[pre[m].source_idx as int]
                            == SourceState::Delivered || pre[m].source_idx != source_idx);
                    }
                    assert forall|m: int| 0 <= m < b.len() implies (m < k@ && b[m] == pre[m]) || (
                    m == k@ && b[m] == e) || (m > k@ && b[m] == pre[m - 1]) by {}
                    assert forall|s: int|
                        0 <= s < self.source_state@.len() && self.source_state@[s]
                            == SourceState::Delivered implies holds_source(b, s) by {
                        if s == source_idx {
                            assert(b[k@].source_idx == s);
                        } else {
                            assert(holds_source(pre, s));
                            let m = choose|m: int| 0 <= m < pre.len() && pre[m].source_idx == s;
                            if m < k@ {
                                assert(b[m].source_idx == s);
                            } else {
                                assert(b[m + 1].source_idx == s);
                            }
                        }
                    }
                    assert(insert_slot(old(self).entries(), e.log_line.timestamp, k@)
                        && self.entries() == old(self).entries().insert(k@, e));
                }
                Ok(())
            },
            SourcePoll::Exhausted => {
                self.source_state.set(source_idx, SourceState::Finished);
                proof {
                    assert forall|m: int| 0 <= m < self.buffer@.len() implies self.buffer@[m].source_idx
                        != source_idx by {
                        assert(old(self).source_state@[self.buffer@[m].source_idx as int]
                            == SourceState::Delivered);
                    }
                }
                Ok(())
            },
            SourcePoll::NotReady => Ok(()),
            SourcePoll::Failed(e) => {
                self.failure = Some(e);
                Err(e)
            },
        }
    }

    /// One step of the merge. A line is released only when every input has
    /// either a buffered line or has ended; it is then the buffered line with
    /// the smallest timestamp, and its input is to be polled again.
    pub fn poll(&mut self) -> (r: Result<MergePoll, LogStreamError>)
        requires
            old(self).wf(),
        ensures
            final(self).wf(),
            final(self).failure() == old(self).failure(),
            old(self).failure() matches Some(e) ==> r == Err::<MergePoll, LogStreamError>(e),
            old(self).failure() is None && !old(self).gate_open() ==> r matches Ok(
                MergePoll::NotReady,
            ),
            old(self).failure() is None && old(self).gate_open() && old(self).entries().len() == 0
                ==> {
                &&& r matches Ok(MergePoll::Exhausted)
                &&& forall|s: int|
                    0 <= s < old(self).states().len() ==> old(self).states()[s]
                        == SourceState::Finished
            },
            old(self).failure() is None && old(self).gate_open() && old(self).entries().len() > 0
                ==> {
                let first = old(self).entries()[0];
                &&& r == Ok::<MergePoll, LogStreamError>(MergePoll::Line(first.log_line))
                &&& forall|m: int|
                    0 <= m < old(self).entries().len() ==> first.log_line.timestamp <= ts(
                        old(self).entries()[m],
                    )
                &&& final(self).entries() == old(self).entries().drop_first()
                &&& final(self).states() == old(self).states().update(
                    first.source_idx as int,
                    SourceState::NeedsPoll,
                )
            },
            old(self).failure() is None && (forall|s: int|
                0 <= s < old(self).states().len() ==> old(self).states()[s]
                    == SourceState::Finished) ==> r matches Ok(MergePoll::Exhausted),
            !(old(self).failure() is None && old(self).gate_open() && old(self).entries().len()
                > 0) ==> final(self).entries() == old(self).entries() && final(self).states()
                == old(self).states(),
    {
        if let Some(e) = self.failure {
            return Err(e);
        }
        proof {
            if forall|t: int|
                0 <= t < self.source_state@.len() ==> self.source_state@[t]
                    == SourceState::Finished {
                if self.buffer@.len() > 0 {
                    assert(self.source_state@[self.buffer@[0].source_idx as int]
                        == SourceState::Delivered);
                }
            }
        }
        let n = self.source_state.len();
        let mut s: usize = 0;
        while s < n
            invariant
                n == self.source_state@.len(),
                s <= n,
                *self == *old(self),
                self.wf(),
                self.failure is None,
                forall|t: int| 0 <= t < s ==> self.source_state@[t] != SourceState::NeedsPoll,
            decreases n - s,
        {
            if self.source_state[s] == SourceState::NeedsPoll {
                return Ok(MergePoll::NotReady);
            }
            s = s + 1;
        }
        if self.buffer.len() == 0 {
            proof {
                assert forall|t: int| 0 <= t < n implies self.source_state@[t]
                    == SourceState::Finished by {
                    if self.source_state@[t] == SourceState::Delivered {
                        assert(holds_source(self.buffer@, t));
                    }
                }
            }
            return Ok(MergePoll::Exhausted);
        }
        let ghost pre = self.buffer@;
        let entry = self.next_entry();
        self.source_state.set(entry.source_idx, SourceState::NeedsPoll);
        proof {
            let b = self.buffer@;
            assert forall|m: int| 0 <= m < b.len() implies b[m] == pre[m + 1] && b[m].source_idx
                != entry.source_idx by {}
            assert forall|t: int|
                0 <= t < self.source_state@.len() && self.source_state@[t]
                    == SourceState::Delivered implies holds_source(b, t) by {
                assert(holds_source(pre, t));
                let m = choose|m: int| 0 <= m < pre.len() && pre[m].source_idx == t;
                assert(m != 0);
                assert(b[m - 1].source_idx == t);
            }
        }
        Ok(MergePoll::Line(entry.log_line))
    }
}


/// What one poll of a source held in memory answers: a line
/// (`Ok(Some(_))`), "not yet" (`Ok(None)`), or a failure (`Err`).
pub type SourceStep = Result<Option<LogLine>, LogStreamError>;

/// A source held in memory: the answers it gives to successive polls; after
/// the last one it has ended.
pub type SourceItems = Seq<SourceStep>;

/// The line an answer carries, if it carries one.
pub open spec fn step_line(r: SourceStep) -> Option<LogLine> {
    match r {
        Ok(Some(l)) => Some(l),
        _ => None,
    }
}

/// No answer of the source is a failure.
pub open spec fn clean(s: SourceItems) -> bool {
    forall|k: int| 0 <= k < s.len() ==> s[k] is Ok
}

/// The lines among the answers of a source, in order.
pub open spec fn lines_of(s: SourceItems) -> Seq<LogLine>
    decreases s.len(),
{
    if s.len() == 0 {
        Seq::empty()
    } else {
        let rest = lines_of(s.drop_last());
        match step_line(s.last()) {
            Some(l) => rest.push(l),
            None => rest,
        }
    }
}

/// Lines in non-decreasing timestamp order.
pub open spec fn line_ordered(s: Seq<LogLine>) -> bool {
    forall|i: int, j: int| 0 <= i < j < s.len() ==> s[i].timestamp <= s[j].timestamp
}

/// The lines of a source in non-decreasing timestamp order.
pub open spec fn source_ordered(s: SourceItems) -> bool {
    forall|i: int, j: int|
        0 <= i < j < s.len() && step_line(s[i]) is Some && step_line(s[j]) is Some
            ==> step_line(s[i])->Some_0.timestamp <= step_line(s[j])->Some_0.timestamp
}

/// The lines of `out` whose tag is `i`, in order.
pub open spec fn project(out: Seq<LogLine>, tags: Seq<int>, i: int) -> Seq<LogLine>
    decreases out.len(),
{
    if out.len() == 0 {
        Seq::empty()
    } else {
        let rest = project(out.drop_last(), tags.drop_last(), i);
        if tags.last() == i {
            rest.push(out.last())
        } else {
            rest
        }
    }
}

/// `out` is made of the sequences in `parts`, each kept in its own order:
/// the tag of each line of `out` names the part that it comes from.
pub open spec fn interleaving(out: Seq<LogLine>, tags: Seq<int>, parts: Seq<Seq<LogLine>>) -> bool {
    &&& tags.len() == out.len()
    &&& forall|k: int| 0 <= k < tags.len() ==> 0 <= #[trigger] tags[k] < parts.len()
    &&& forall|i: int| 0 <= i < parts.len() ==> #[trigger] project(out, tags, i) == parts[i]
}

/// The lines of each source.
pub open spec fn all_lines(srcs: Seq<SourceItems>) -> Seq<Seq<LogLine>> {
    Seq::new(srcs.len(), |i: int| lines_of(srcs[i]))
}

/// The lines of each source up to its cut.
pub open spec fn lines_up_to(srcs: Seq<SourceItems>, cut: Seq<int>) -> Seq<Seq<LogLine>> {
    Seq::new(srcs.len(), |i: int| lines_of(srcs[i].take(cut[i])))
}

/// Each cut stands before the first error of its source.
pub open spec fn clean_cuts(srcs: Seq<SourceItems>, cut: Seq<int>) -> bool {
    &&& cut.len() == srcs.len()
    &&& forall|i: int|
        0 <= i < srcs.len() ==> 0 <= #[trigger] cut[i] <= srcs[i].len() && clean(
            srcs[i].take(cut[i]),
        )
}

/// `out` interleaves the lines of all sources.
pub open spec fn merged_from(out: Seq<LogLine>, srcs: Seq<SourceItems>) -> bool {
    exists|tags: Seq<int>| #[trigger] interleaving(out, tags, all_lines(srcs))
}

/// `out` interleaves, for each source, its lines up to some point before its
/// first error.
pub open spec fn merged_before_failure(out: Seq<LogLine>, srcs: Seq<SourceItems>) -> bool {
    exists|tags: Seq<int>, cut: Seq<int>|
        #[trigger] interleaving(out, tags, lines_up_to(srcs, cut)) && clean_cuts(srcs, cut)
}

/// The items of each source.
pub open spec fn item_views(v: Seq<Vec<SourceStep>>) -> Seq<SourceItems> {
    v.map_values(|s: Vec<SourceStep>| s@)
}

/// How many items the first `upto` sources still hold after their first `pos[i]`.
spec fn unread(srcs: Seq<SourceItems>, pos: Seq<int>, upto: int) -> int
    decreases upto,
{
    if upto <= 0 {
        0
    } else {
        unread(srcs, pos, upto - 1) + (srcs[upto - 1].len() - pos[upto - 1])
    }
}

proof fn lemma_unread_step(srcs: Seq<SourceItems>, pos: Seq<int>, j: int, upto: int)
    requires
        0 <= j < pos.len(),
        0 <= upto <= pos.len(),
    ensures
        unread(srcs, pos.update(j, pos[j] + 1), upto) == unread(srcs, pos, upto) - (if j < upto {
            1int
        } else {
            0int
        }),
    decreases upto,
{
    if upto > 0 {
        lemma_unread_step(srcs, pos, j, upto - 1);
    }
}

proof fn lemma_unread_nonneg(srcs: Seq<SourceItems>, pos: Seq<int>, upto: int)
    requires
        0 <= upto <= pos.len() <= srcs.len(),
        forall|i: int| 0 <= i < upto ==> pos[i] <= srcs[i].len(),
    ensures
        unread(srcs, pos, upto) >= 0,
    decreases upto,
{
    if upto > 0 {
        lemma_unread_nonneg(srcs, pos, upto - 1);
    }
}

/// Appending a line tagged `j` extends the projection on `j` by that line and
/// leaves every other projection as it was.
pub proof fn lemma_project_push(out: Seq<LogLine>, tags: Seq<int>, x: LogLine, j: int, i: int)
    requires
        tags.len() == out.len(),
    ensures
        project(out.push(x), tags.push(j), i) == if j == i {
            project(out, tags, i).push(x)
        } else {
            project(out, tags, i)
        },
{
    assert(out.push(x).drop_last() =~= out);
    assert(tags.push(j).drop_last() =~= tags);
}

proof fn lemma_lines_take_succ(s: SourceItems, p: int)
    requires
        0 <= p < s.len(),
    ensures
        lines_of(s.take(p + 1)) == match step_line(s[p]) {
            Some(l) => lines_of(s.take(p)).push(l),
            None => lines_of(s.take(p)),
        },
{
    assert(s.take(p + 1).drop_last() =~= s.take(p));
}

/// What holds of a merge of sources held in memory between its polls: `pos[i]`
/// answers of source `i` have been taken, `inputs` holds the rest, each
/// source's emitted lines (and its buffered one) are its lines so far, and,
/// for ordered sources, nothing emitted is later than what is still to come.
spec fn round_inv(
    srcs: Seq<SourceItems>,
    ordered: bool,
    n: int,
    inputs: Seq<Vec<SourceStep>>,
    merge: LogMerge,
    out: Seq<LogLine>,
    tags: Seq<int>,
    pos: Seq<int>,
) -> bool {
    &&& n == inputs.len() == srcs.len() == merge.states().len() == pos.len()
    &&& merge.wf()
    &&& !merge.has_failed()
    &&& forall|i: int|
        0 <= i < n ==> 0 <= #[trigger] pos[i] <= srcs[i].len() && inputs[i]@
            == srcs[i].skip(pos[i]) && clean(srcs[i].take(pos[i]))
    &&& forall|i: int|
        0 <= i < n && #[trigger] merge.states()[i] == SourceState::Finished ==> pos[i]
            == srcs[i].len()
    &&& forall|i: int|
        0 <= i < n && #[trigger] merge.states()[i] != SourceState::Delivered ==> project(
            out,
            tags,
            i,
        ) == lines_of(srcs[i].take(pos[i]))
    &&& forall|k: int|
        0 <= k < merge.entries().len() ==> {
            let i = #[trigger] merge.entries()[k].source_idx as int;
            pos[i] > 0 && srcs[i][pos[i] - 1] == Ok::<Option<LogLine>, LogStreamError>(
                Some(merge.entries()[k].log_line),
            ) && project(out, tags, i).push(merge.entries()[k].log_line)
                == lines_of(srcs[i].take(pos[i]))
        }
    &&& tags.len() == out.len()
    &&& forall|k: int| 0 <= k < tags.len() ==> 0 <= #[trigger] tags[k] < n
    &&& ordered ==> line_ordered(out)
    &&& ordered && out.len() > 0 ==> forall|k: int|
        0 <= k < merge.entries().len() ==> out.last().timestamp <= ts(
            #[trigger] merge.entries()[k],
        )
    &&& ordered && out.len() > 0 ==> forall|i: int, m: int|
        0 <= i < n && merge.states()[i] == SourceState::NeedsPoll && pos[i] <= m
            < srcs[i].len() && step_line(#[trigger] srcs[i][m]) is Some
            ==> out.last().timestamp <= step_line(srcs[i][m])->Some_0.timestamp
    &&& unread(srcs, pos, n) >= 0
}

/// Merges sources held in memory, polling each when the merge asks for it,
/// until every source has ended or one fails. Returns the lines emitted and
/// how the merge ended.
pub fn merge_streams(sources: Vec<Vec<SourceStep>>) -> (r: (
    Vec<LogLine>,
    Result<(), LogStreamError>,
))
    ensures
        ({
            let srcs = item_views(sources@);
            &&& (forall|i: int| 0 <= i < srcs.len() ==> source_ordered(#[trigger] srcs[i]))
                ==> line_ordered(r.0@)
            &&& r.1 is Ok <==> forall|i: int| 0 <= i < srcs.len() ==> clean(#[trigger] srcs[i])
            &&& r.1 is Ok ==> merged_from(r.0@, srcs)
            &&& r.1 matches Err(e) ==> exists|i: int, k: int|
                0 <= i < srcs.len() && 0 <= k < srcs[i].len() && srcs[i][k] == Err::<
                    Option<LogLine>,
                    LogStreamError,
                >(e)
            &&& r.1 is Err ==> merged_before_failure(r.0@, srcs)
        }),
{
    let ghost srcs = item_views(sources@);
    let ghost ordered = forall|i: int| 0 <= i < srcs.len() ==> source_ordered(#[trigger] srcs[i]);
    let mut inputs = sources;
    let n = inputs.len();
    let mut merge = LogMerge::new(n);
    let mut out: Vec<LogLine> = Vec::new();
    let ghost mut tags: Seq<int> = Seq::empty();
    let ghost mut pos: Seq<int> = Seq::new(n as nat, |i: int| 0int);
    proof {
        assert forall|i: int| 0 <= i < n implies #[trigger] inputs@[i]@ == srcs[i].skip(pos[i])
            by {
            assert(srcs[i].skip(0) =~= srcs[i]);
        }
        assert forall|i: int| 0 <= i < n implies project(out@, tags, i) == lines_of(
            #[trigger] srcs[i].take(pos[i]),
        ) by {
            assert(lines_of(srcs[i].take(0)) =~= Seq::<LogLine>::empty());
        }
        lemma_unread_nonneg(srcs, pos, n as int);
    }
    loop
        invariant
            srcs == item_views(sources@),
            ordered == (forall|i: int| 0 <= i < srcs.len() ==> source_ordered(#[trigger] srcs[i])),
            round_inv(srcs, ordered, n as int, inputs@, merge, out@, tags, pos),
        decreases 2 * unread(srcs, pos, n as int) + merge.entries().len(),
    {
        let ghost measure = 2 * unread(srcs, pos, n as int) + merge.entries().len();
        let mut s: usize = 0;
        while s < n
            invariant
                srcs == item_views(sources@),
            ordered == (forall|i: int| 0 <= i < srcs.len() ==> source_ordered(#[trigger] srcs[i])),
            round_inv(srcs, ordered, n as int, inputs@, merge, out@, tags, pos),
                s <= n,
                2 * unread(srcs, pos, n as int) + merge.entries().len() == measure || (2 * unread(
                    srcs,
                    pos,
                    n as int,
                ) + merge.entries().len() < measure),
                2 * unread(srcs, pos, n as int) + merge.entries().len() == measure ==> forall|t: int|
                    0 <= t < s ==> merge.states()[t] != SourceState::NeedsPoll,
            decreases n - s,
        {
            if merge.needs_poll(s) {
                let mut items: Vec<SourceStep> = Vec::new();
                inputs.set_and_swap(s, &mut items);
                if items.len() == 0 {
                    inputs.set_and_swap(s, &mut items);
                    let ghost pre = merge;
                    let _ = merge.poll_source(s, SourcePoll::Exhausted);
                    proof {
                        assert(srcs[s as int].skip(pos[s as int]).len() == 0);
                        assert forall|k: int| 0 <= k < merge.entries().len() implies #[trigger] merge.entries()[k].source_idx != s by {
                            assert(pre.entries()[k] == merge.entries()[k]);
                        }
                    }
                } else {
                    let item = items.remove(0);
                    inputs.set_and_swap(s, &mut items);
                    let ghost p = pos[s as int];
                    proof {
                        assert(item == srcs[s as int][p]);
                        assert(srcs[s as int].skip(p).drop_first() =~= srcs[s as int].skip(p + 1));
                    }
                    match item {
                        Ok(None) => {
                            proof {
                                lemma_unread_step(srcs, pos, s as int, n as int);
                                pos = pos.update(s as int, p + 1);
                                lemma_lines_take_succ(srcs[s as int], p);
                                assert(srcs[s as int].take(p + 1) =~= srcs[s as int].take(p).push(item));
                                lemma_unread_nonneg(srcs, pos, n as int);
                            }
                            let _ = merge.poll_source(s, SourcePoll::NotReady);
                        },
                        Ok(Some(line)) => {
                            let ghost pre = merge;
                            let ghost pre_pos = pos;
                            proof {
                                lemma_unread_step(srcs, pos, s as int, n as int);
                                pos = pos.update(s as int, p + 1);
                                lemma_lines_take_succ(srcs[s as int], p);
                                assert(srcs[s as int].take(p + 1) =~= srcs[s as int].take(p).push(item));
                                lemma_unread_nonneg(srcs, pos, n as int);
                            }
                            let _ = merge.poll_source(s, SourcePoll::Line(line));
                            proof {
                                let e = BufferEntry { log_line: line, source_idx: s };
                                let k = choose|k: int|
                                    insert_slot(pre.entries(), line.timestamp, k)
                                        && merge.entries() == pre.entries().insert(k, e);
                                assert forall|m: int| 0 <= m < merge.entries().len() implies (m < k
                                    && merge.entries()[m] == pre.entries()[m]) || (m == k
                                    && merge.entries()[m] == e) || (m > k && merge.entries()[m]
                                    == pre.entries()[m - 1]) by {}
                                assert forall|m: int| 0 <= m < pre.entries().len() implies #[trigger] pre.entries()[m].source_idx != s by {}
                            }
                        },
                        Err(e) => {
                            proof {
                                let cut = Seq::new(
                                    n as nat,
                                    |i: int|
                                        if merge.states()[i] == SourceState::Delivered {
                                            pos[i] - 1
                                        } else {
                                            pos[i]
                                        },
                                );
                                assert forall|i: int| 0 <= i < n implies #[trigger] project(out@, tags, i) == lines_up_to(srcs, cut)[i] && 0 <= cut[i] <= srcs[i].len() && clean(srcs[i].take(cut[i])) by {
                                    if merge.states()[i] == SourceState::Delivered {
                                        assert(holds_source(merge.entries(), i));
                                        let k = choose|k: int| 0 <= k < merge.entries().len() && merge.entries()[k].source_idx == i;
                                        assert(merge.entries()[k].source_idx as int == i);
                                        assert(srcs[i].take(pos[i] - 1) =~= srcs[i].take(pos[i]).drop_last());
                                        lemma_lines_take_succ(srcs[i], pos[i] - 1);
                                        assert(srcs[i].take(pos[i] - 1 + 1) =~= srcs[i].take(pos[i]));
                                        assert(project(out@, tags, i) =~= project(out@, tags, i).push(merge.entries()[k].log_line).drop_last());
                                    }
                                }
                                assert(clean_cuts(srcs, cut));
                                assert(interleaving(out@, tags, lines_up_to(srcs, cut)));
                                assert(srcs[s as int][p] == Err::<Option<LogLine>, LogStreamError>(e));
                                assert(merged_before_failure(out@, srcs));
                            }
                            return (out, Err(e));
                        },
                    }
                }
            }
            s = s + 1;
        }
        let ghost pre = merge;
        let ghost first = if merge.entries().len() > 0 { merge.entries()[0] } else { arbitrary() };
        match merge.poll() {
            Ok(MergePoll::Line(line)) => {
                let ghost j = first.source_idx as int;
                proof {
                    assert(pre.buffer@[0].source_idx < n);
                }
                let ghost pre_out = out@;
                let ghost pre_tags = tags;
                out.push(line);
                proof {
                    tags = tags.push(j);
                    assert forall|i: int| 0 <= i < n implies #[trigger] project(out@, tags, i) == if j == i { project(pre_out, pre_tags, i).push(line) } else { project(pre_out, pre_tags, i) } by {
                        lemma_project_push(pre_out, pre_tags, line, j, i);
                    }
                    assert forall|m: int| 0 <= m < merge.entries().len() implies merge.entries()[m] == pre.entries()[m + 1] && #[trigger] merge.entries()[m].source_idx != j by {
                        assert(pre.entries()[m + 1].source_idx != pre.entries()[0].source_idx);
                    }
                    if ordered {
                        assert(line.timestamp == ts(first));
                        let q = pos[j];
                        assert(step_line(srcs[j][q - 1]) == Some(line));
                        assert(source_ordered(srcs[j]));
                        assert forall|k: int| 0 <= k < out@.len() - 1 implies out@[k].timestamp <= line.timestamp by {
                            if pre_out.len() > 0 {
                                assert(pre_out.last().timestamp <= ts(first));
                                assert(out@[k] == pre_out[k]);
                            }
                        }
                    }
                }
            },
            Ok(MergePoll::NotReady) => {},
            _ => {
                proof {
                    assert(pre.gate_open());
                    assert(pre.entries().len() == 0);
                    assert forall|i: int| 0 <= i < n implies clean(srcs[i]) && #[trigger] project(out@, tags, i) == all_lines(srcs)[i] by {
                        assert(pre.states()[i] == SourceState::Finished);
                        assert(merge.states()[i] == SourceState::Finished);
                        assert(pos[i] == srcs[i].len());
                        assert(srcs[i].take(srcs[i].len() as int) =~= srcs[i]);
                        assert(clean(srcs[i].take(pos[i])));
                        assert(project(out@, tags, i) == lines_of(srcs[i].take(pos[i])));
                    }
                    assert(interleaving(out@, tags, all_lines(srcs)));
                    assert(merged_from(out@, srcs));
                    assert forall|i: int| 0 <= i < n implies #[trigger] clean(srcs[i]) by {
                        assert(project(out@, tags, i) == all_lines(srcs)[i]);
                    }
                }
                return (out, Ok(()));
            },
        }
    }
}

} // verus!
