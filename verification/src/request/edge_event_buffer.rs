//! The bookkeeping of a buffer of edge events read from a request.
use vstd::prelude::*;

verus! {

/// The state of a buffer of edge events: the part of the buffer, in u64
/// words, filled by the last read and the part of that already returned.
///
/// Events are returned from the buffer in order, and the buffer is refilled
/// from the request once all have been returned.
#[derive(Clone, Copy, Debug, PartialEq, Eq, Structural)]
pub struct EventBufferState {
    event_size: usize,
    buf_len: usize,
    filled: usize,
    read: usize,
}

impl EventBufferState {
    /// The state is consistent: whole events, read within filled within the
    /// buffer.
    pub closed spec fn wf(&self) -> bool {
        &&& self.event_size > 0
        &&& self.read <= self.filled <= self.buf_len
        &&& self.read % self.event_size == 0
        &&& self.filled % self.event_size == 0
        &&& self.buf_len % self.event_size == 0
        &&& self.buf_len > 0
    }

    /// The size of an event, in u64 words.
    pub closed spec fn event_words(&self) -> usize {
        self.event_size
    }

    /// The length of the buffer, in u64 words.
    pub closed spec fn buffer_words(&self) -> usize {
        self.buf_len
    }

    /// The words of the buffer holding events not yet returned.
    pub closed spec fn pending_range(&self) -> (usize, usize) {
        (self.read, self.filled)
    }

    /// The state for a buffer that holds `capacity` events of `event_size`
    /// words, or one event for a zero capacity, initially empty.
    pub fn new(event_size: usize, capacity: usize) -> (s: EventBufferState)
        requires
            event_size > 0,
            (if capacity > 1 {
                capacity
            } else {
                1
            }) * event_size <= usize::MAX,
        ensures
            s.wf(),
            s.event_words() == event_size,
            s.buffer_words() == (if capacity > 1 {
                capacity
            } else {
                1
            }) * event_size,
            s.pending_range() == (0usize, 0usize),
    {
        let cap = if capacity > 1 {
            capacity
        } else {
            1
        };
        let buf_len = cap * event_size;
        assert(buf_len % event_size == 0) by (nonlinear_arith)
            requires
                buf_len == cap * event_size,
                event_size > 0,
        ;
        assert(buf_len > 0) by (nonlinear_arith)
            requires
                buf_len == cap * event_size,
                event_size > 0,
                cap > 0,
        ;
        EventBufferState { event_size, buf_len, filled: 0, read: 0 }
    }

    /// The length of the buffer, in u64 words.
    pub fn buffer_len(&self) -> (n: usize)
        ensures
            n == self.buffer_words(),
    {
        self.buf_len
    }

    /// The number of events the buffer can hold.
    pub fn capacity(&self) -> (n: usize)
        requires
            self.wf(),
        ensures
            n == self.buffer_words() / self.event_words(),
    {
        self.buf_len / self.event_size
    }

    /// The number of events in the buffer not yet returned.
    pub fn len(&self) -> (n: usize)
        requires
            self.wf(),
        ensures
            n == (self.pending_range().1 - self.pending_range().0) / self.event_words() as int,
    {
        (self.filled - self.read) / self.event_size
    }

    /// Return true if every event in the buffer has been returned.
    pub fn is_empty(&self) -> (r: bool)
        ensures
            r == (self.pending_range().0 >= self.pending_range().1),
    {
        self.read >= self.filled
    }

    /// The range of words of the next event in the buffer, which is then
    /// returned, or `None` if all have been.
    pub fn next_buffered(&mut self) -> (r: Option<(usize, usize)>)
        requires
            old(self).wf(),
        ensures
            final(self).wf(),
            final(self).event_words() == old(self).event_words(),
            final(self).buffer_words() == old(self).buffer_words(),
            old(self).pending_range().0 >= old(self).pending_range().1 ==> r is None && *final(self)
                == *old(self),
            old(self).pending_range().0 < old(self).pending_range().1 ==> {
                let start = old(self).pending_range().0;
                &&& r == Some(((start, (start + old(self).event_words()) as usize)))
                &&& start + old(self).event_words() <= old(self).pending_range().1
                &&& final(self).pending_range() == (
                    (start + old(self).event_words()) as usize,
                    old(self).pending_range().1,
                )
            },
    {
        if self.read >= self.filled {
            return None;
        }
        let start = self.read;
        proof {
            lemma_next_multiple(self.read as int, self.filled as int, self.event_size as int);
        }
        let end = start + self.event_size;
        self.read = end;
        proof {
            lemma_add_multiple(start as int, self.event_size as int);
        }
        Some((start, end))
    }

    /// Record that the buffer was refilled with `n` words read from the
    /// request, and return the range of words of the first event, which is
    /// then returned.
    pub fn refill(&mut self, n: usize) -> (r: (usize, usize))
        requires
            old(self).wf(),
            0 < n <= old(self).buffer_words(),
            n % old(self).event_words() == 0,
        ensures
            final(self).wf(),
            final(self).event_words() == old(self).event_words(),
            final(self).buffer_words() == old(self).buffer_words(),
            r == (0usize, old(self).event_words()),
            final(self).pending_range() == (old(self).event_words(), n),
    {
        proof {
            lemma_next_multiple(0, n as int, self.event_size as int);
            assert(self.event_size % self.event_size == 0) by (nonlinear_arith)
                requires
                    self.event_size > 0,
            ;
        }
        self.filled = n;
        self.read = self.event_size;
        (0, self.event_size)
    }
}

/// Between two multiples of the size, the next multiple after the first is
/// within the second.
proof fn lemma_next_multiple(a: int, b: int, size: int)
    requires
        size > 0,
        0 <= a < b,
        a % size == 0,
        b % size == 0,
    ensures
        a + size <= b,
{
    assert(a + size <= b) by (nonlinear_arith)
        requires
            size > 0,
            0 <= a < b,
            a % size == 0,
            b % size == 0,
    ;
}

/// Adding the size to a multiple of it gives a multiple of it.
proof fn lemma_add_multiple(a: int, size: int)
    requires
        size > 0,
        a % size == 0,
    ensures
        (a + size) % size == 0,
{
    assert((a + size) % size == 0) by (nonlinear_arith)
        requires
            size > 0,
            a % size == 0,
    ;
}

} // verus!
