use std::collections::VecDeque;
use vstd::prelude::*;

verus! {

/// The byte that ends a line.
pub const NEWLINE: u8 = 10;

/// Why tailing a file stopped early.
#[derive(Debug, Clone, Copy, PartialEq, Eq, Structural)]
pub enum TailError {
    /// A line is longer than the limit.
    LineTooLong,
    /// Reading the file failed.
    ReadFailed,
}

/// What the consumer of a channel finds.
#[derive(Debug)]
pub enum Received {
    Line(Vec<u8>),
    /// Nothing yet: the producer has not sent the next line.
    Pending,
    /// Every line has been received and the producer is done.
    Closed,
    /// Every line sent before the failure has been received.
    Failed(TailError),
}

/// A bounded single-producer, single-consumer channel of lines. A full
/// channel refuses a line, and the producer waits until the consumer has
/// taken one: the channel never holds more than its capacity.
pub struct LineChannel {
    capacity: usize,
    queue: VecDeque<Vec<u8>>,
    closed: bool,
    failure: Option<TailError>,
    sent: Ghost<Seq<Seq<u8>>>,
    delivered: Ghost<Seq<Seq<u8>>>,
}

pub open spec fn line_views(q: Seq<Vec<u8>>) -> Seq<Seq<u8>> {
    q.map_values(|l: Vec<u8>| l@)
}

impl LineChannel {
    /// The lines sent and not yet received, oldest first.
    pub closed spec fn pending(&self) -> Seq<Seq<u8>> {
        line_views(self.queue@)
    }

    pub closed spec fn bound(&self) -> nat {
        self.capacity as nat
    }

    /// The producer will send no more.
    pub closed spec fn is_closed(&self) -> bool {
        self.closed
    }

    pub closed spec fn failure(&self) -> Option<TailError> {
        self.failure
    }

    /// Every line the producer has sent, in order.
    pub closed spec fn sent(&self) -> Seq<Seq<u8>> {
        self.sent@
    }

    /// Every line the consumer has received, in order.
    pub closed spec fn delivered(&self) -> Seq<Seq<u8>> {
        self.delivered@
    }

    pub closed spec fn wf(&self) -> bool {
        &&& self.capacity > 0
        &&& self.queue@.len() <= self.capacity
        &&& self.delivered@ + line_views(self.queue@) == self.sent@
        &&& self.failure is Some ==> self.closed
    }

    /// An empty open channel that holds at most `capacity` lines.
    pub fn new(capacity: usize) -> (r: LineChannel)
        requires
            capacity > 0,
        ensures
            r.wf(),
            r.bound() == capacity,
            r.pending().len() == 0,
            r.sent().len() == 0,
            r.delivered().len() == 0,
            !r.is_closed(),
            r.failure() is None,
    {
        let r = LineChannel {
            capacity,
            queue: VecDeque::new(),
            closed: false,
            failure: None,
            sent: Ghost(Seq::empty()),
            delivered: Ghost(Seq::empty()),
        };
        proof {
            assert(line_views(r.queue@) =~= Seq::empty());
        }
        r
    }

    /// The number of lines the channel can hold.
    pub fn capacity(&self) -> (r: usize)
        ensures
            r == self.bound(),
    {
        self.capacity
    }

    /// The number of lines waiting for the consumer.
    pub fn len(&self) -> (r: usize)
        ensures
            r == self.pending().len(),
    {
        self.queue.len()
    }

    /// Whether a line sent now would be refused.
    pub fn is_full(&self) -> (r: bool)
        requires
            self.wf(),
        ensures
            r == (self.pending().len() == self.bound()),
    {
        self.queue.len() >= self.capacity
    }

    /// Offers a line. A full channel hands it back unchanged; otherwise it
    /// joins the end of the queue.
    pub fn try_send(&mut self, line: Vec<u8>) -> (r: Result<(), Vec<u8>>)
        requires
            old(self).wf(),
            !old(self).is_closed(),
        ensures
            final(self).wf(),
            final(self).bound() == old(self).bound(),
            final(self).is_closed() == old(self).is_closed(),
            final(self).failure() == old(self).failure(),
            final(self).delivered() == old(self).delivered(),
            old(self).pending().len() == old(self).bound() ==> {
                &&& r == Err::<(), Vec<u8>>(line)
                &&& final(self).pending() == old(self).pending()
                &&& final(self).sent() == old(self).sent()
            },
            old(self).pending().len() < old(self).bound() ==> {
                &&& r is Ok
                &&& final(self).pending() == old(self).pending().push(line@)
                &&& final(self).sent() == old(self).sent().push(line@)
            },
    {
        if self.queue.len() >= self.capacity {
            return Err(line);
        }
        let ghost l = line@;
        self.queue.push_back(line);
        proof {
            self.sent@ = self.sent@.push(l);
            assert(line_views(self.queue@) =~= line_views(old(self).queue@).push(l));
            assert(self.delivered@ + line_views(self.queue@) =~= self.sent@);
        }
        Ok(())
    }

    /// Takes the oldest waiting line; with none waiting, says whether the
    /// producer failed, is done, or may still send.
    pub fn recv(&mut self) -> (r: Received)
        requires
            old(self).wf(),
        ensures
            final(self).wf(),
            final(self).bound() == old(self).bound(),
            final(self).is_closed() == old(self).is_closed(),
            final(self).failure() == old(self).failure(),
            final(self).sent() == old(self).sent(),
            old(self).pending().len() > 0 ==> {
                &&& r matches Received::Line(l) && l@ == old(self).pending()[0]
                &&& final(self).pending() == old(self).pending().drop_first()
                &&& final(self).delivered() == old(self).delivered().push(old(self).pending()[0])
            },
            old(self).pending().len() == 0 ==> {
                &&& final(self).pending() == old(self).pending()
                &&& final(self).delivered() == old(self).delivered()
                &&& final(self).delivered() == final(self).sent()
                &&& match old(self).failure() {
                    Some(e) => r == Received::Failed(e),
                    None => if old(self).is_closed() {
                        r is Closed
                    } else {
                        r is Pending
                    },
                }
            },
    {
        match self.queue.pop_front() {
            Some(line) => {
                proof {
                    let l = line@;
                    self.delivered@ = self.delivered@.push(l);
                    assert(line_views(self.queue@) =~= line_views(old(self).queue@).drop_first());
                    assert(self.delivered@ + line_views(self.queue@) =~= self.sent@);
                }
                Received::Line(line)
            },
            None => {
                proof {
                    assert(line_views(self.queue@) =~= Seq::empty());
                    assert(self.delivered@ + line_views(self.queue@) =~= self.delivered@);
                }
                match self.failure {
                    Some(e) => Received::Failed(e),
                    None => if self.closed {
                        Received::Closed
                    } else {
                        Received::Pending
                    },
                }
            },
        }
    }

    /// The producer is done: once the waiting lines are taken the consumer
    /// finds the channel closed.
    pub fn close(&mut self)
        requires
            old(self).wf(),
        ensures
            final(self).wf(),
            final(self).is_closed(),
            final(self).bound() == old(self).bound(),
            final(self).failure() == old(self).failure(),
            final(self).pending() == old(self).pending(),
            final(self).sent() == old(self).sent(),
            final(self).delivered() == old(self).delivered(),
    {
        self.closed = true;
    }

    /// The producer failed: once the waiting lines are taken the consumer
    /// finds the error.
    pub fn fail(&mut self, e: TailError)
        requires
            old(self).wf(),
        ensures
            final(self).wf(),
            final(self).is_closed(),
            final(self).failure() == Some(e),
            final(self).bound() == old(self).bound(),
            final(self).pending() == old(self).pending(),
            final(self).sent() == old(self).sent(),
            final(self).delivered() == old(self).delivered(),
    {
        self.closed = true;
        self.failure = Some(e);
    }
}

/// A channel never holds more lines than its capacity, and what the consumer
/// has received followed by what waits is exactly what the producer sent.
pub proof fn lemma_channel_bounded_and_ordered(c: LineChannel)
    requires
        c.wf(),
    ensures
        c.pending().len() <= c.bound(),
        c.delivered() + c.pending() == c.sent(),
{
}

/// Lines, each followed by a newline, as one run of bytes.
pub open spec fn joined(lines: Seq<Seq<u8>>) -> Seq<u8>
    decreases lines.len(),
{
    if lines.len() == 0 {
        Seq::empty()
    } else {
        joined(lines.drop_last()) + lines.last().push(NEWLINE)
    }
}

pub open spec fn no_newline(s: Seq<u8>) -> bool {
    forall|k: int| 0 <= k < s.len() ==> s[k] != NEWLINE
}

/// `s` holds more than `max` bytes in a row without a newline.
pub open spec fn has_long_run(s: Seq<u8>, max: nat) -> bool {
    exists|a: int| 0 <= a && a + max + 1 <= s.len() && #[trigger] no_newline(s.subrange(a, a + max + 1))
}

/// Cuts a byte stream, fed in chunks, into lines of at most `max_len` bytes.
pub struct LineSplitter {
    partial: Vec<u8>,
    max_len: usize,
}

impl LineSplitter {
    /// The bytes of the line begun and not yet ended.
    pub closed spec fn partial_line(&self) -> Seq<u8> {
        self.partial@
    }

    pub closed spec fn limit(&self) -> nat {
        self.max_len as nat
    }

    pub closed spec fn wf(&self) -> bool {
        self.partial@.len() <= self.max_len && no_newline(self.partial@)
    }

    /// A splitter that accepts lines of at most `max_len` bytes.
    pub fn new(max_len: usize) -> (r: LineSplitter)
        ensures
            r.wf(),
            r.limit() == max_len,
            r.partial_line().len() == 0,
    {
        LineSplitter { partial: Vec::new(), max_len }
    }

    /// Takes the next chunk of the stream and returns the lines it ends, in
    /// order and without their newlines. A line longer than the limit is an
    /// error.
    pub fn feed(&mut self, chunk: &Vec<u8>) -> (r: Result<Vec<Vec<u8>>, TailError>)
        requires
            old(self).wf(),
        ensures
            final(self).limit() == old(self).limit(),
            r matches Ok(lines) ==> {
                &&& final(self).wf()
                &&& joined(line_views(lines@)) + final(self).partial_line() == old(self).partial_line()
                    + chunk@
                &&& forall|i: int|
                    0 <= i < lines@.len() ==> no_newline(#[trigger] lines@[i]@) && lines@[i]@.len()
                        <= old(self).limit()
            },
            r matches Err(e) ==> e == TailError::LineTooLong && has_long_run(
                old(self).partial_line() + chunk@,
                old(self).limit(),
            ),
    {
        let ghost input = self.partial@ + chunk@;
        let ghost start = self.partial@;
        let mut lines: Vec<Vec<u8>> = Vec::new();
        let mut i: usize = 0;
        proof {
            assert(joined(line_views(lines@)) =~= Seq::empty());
            assert(start + chunk@.take(0) =~= start);
        }
        while i < chunk.len()
            invariant
                input == start + chunk@,
                start == old(self).partial@,
                self.max_len == old(self).max_len,
                i <= chunk@.len(),
                self.wf(),
                joined(line_views(lines@)) + self.partial@ == start + chunk@.take(i as int),
                forall|j: int|
                    0 <= j < lines@.len() ==> no_newline(#[trigger] lines@[j]@) && lines@[j]@.len()
                        <= self.max_len,
            decreases chunk@.len() - i,
        {
            let b = chunk[i];
            let ghost before = joined(line_views(lines@));
            let ghost part = self.partial@;
            proof {
                assert(chunk@.take(i + 1) =~= chunk@.take(i as int).push(b));
                assert(start + chunk@.take(i + 1) =~= (start + chunk@.take(i as int)).push(b));
                assert(before + part.push(b) =~= (before + part).push(b));
            }
            if b == NEWLINE {
                let mut line: Vec<u8> = Vec::new();
                std::mem::swap(&mut line, &mut self.partial);
                let ghost pre_lines = lines@;
                lines.push(line);
                proof {
                    assert(line_views(lines@) =~= line_views(pre_lines).push(line@));
                    assert(line_views(lines@).drop_last() =~= line_views(pre_lines));
                    assert(joined(line_views(lines@)) =~= before + line@.push(NEWLINE));
                    assert(self.partial@ =~= Seq::<u8>::empty());
                    assert(joined(line_views(lines@)) + self.partial@ =~= start + chunk@.take(i + 1));
                }
            } else {
                if self.partial.len() >= self.max_len {
                    proof {
                        let a = before.len() as int;
                        let run = part.push(b);
                        let m = self.max_len as int;
                        assert(before + run =~= start + chunk@.take(i + 1));
                        assert(input.subrange(a, a + m + 1) =~= run) by {
                            assert forall|k: int| 0 <= k < m + 1 implies input[a + k] == run[k] by {
                                assert((start + chunk@.take(i + 1))[a + k] == input[a + k]);
                            }
                        }
                        assert(no_newline(run));
                        assert(has_long_run(input, m as nat));
                    }
                    return Err(TailError::LineTooLong);
                }
                self.partial.push(b);
                proof {
                    assert(before + self.partial@ =~= start + chunk@.take(i + 1));
                }
            }
            i = i + 1;
        }
        proof {
            assert(chunk@.take(i as int) =~= chunk@);
        }
        Ok(lines)
    }

    /// Ends the stream: the last line, if the stream did not end with a newline.
    pub fn finish(self) -> (r: Option<Vec<u8>>)
        ensures
            self.partial_line().len() == 0 ==> r is None,
            self.partial_line().len() > 0 ==> (r matches Some(l) && l@ == self.partial_line()),
    {
        if self.partial.len() == 0 {
            None
        } else {
            Some(self.partial)
        }
    }
}

} // verus!
