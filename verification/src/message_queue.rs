//! A log of messages that subscribers read by cursor.
//!
//! The cursor of the queue is the number of messages pushed so far. A
//! subscriber that holds the cursor `since` is owed the messages from
//! position `since` on. Waiting for the next message is the caller's part:
//! the queue says whether there is something to deliver.

use vstd::prelude::*;

verus! {

/// The messages pushed so far, in order.
pub struct MessageQueue<T> {
    messages: Vec<T>,
}

/// What a subscriber that holds the cursor `since` is owed from the log
/// `log`: the messages from position `since` on, and nothing where `since`
/// lies beyond the log.
pub open spec fn delivered<T>(log: Seq<T>, since: int) -> Seq<T> {
    if 0 <= since <= log.len() {
        log.subrange(since, log.len() as int)
    } else {
        Seq::empty()
    }
}

/// The messages that a list of references refers to.
pub open spec fn referents<T>(v: Seq<&T>) -> Seq<T> {
    Seq::new(v.len(), |i: int| *v[i])
}

/// Whether `earlier` is the beginning of `later`.
pub open spec fn extends<T>(later: Seq<T>, earlier: Seq<T>) -> bool {
    earlier.len() <= later.len() && later.subrange(0, earlier.len() as int) == earlier
}

/// A subscriber that reads at cursor `since`, and reads again at the cursor
/// that the first answer gave, has received exactly what one read of the
/// later log from `since` gives: nothing is missing and nothing comes
/// twice.
pub proof fn lemma_successive_deliveries<T>(earlier: Seq<T>, later: Seq<T>, since: int)
    requires
        extends(later, earlier),
        0 <= since <= earlier.len(),
    ensures
        delivered(earlier, since) + delivered(later, earlier.len() as int) == delivered(
            later,
            since,
        ),
{
    let a = delivered(earlier, since);
    let b = delivered(later, earlier.len() as int);
    let c = delivered(later, since);
    assert forall|i: int| 0 <= i < a.len() implies a[i] == c[i] by {
        assert(later.subrange(0, earlier.len() as int)[since + i] == earlier[since + i]);
    }
    assert(a + b =~= c);
}

/// Reading from cursor 0 gives the whole log: the messages delivered, in
/// cursor order, are the messages pushed.
pub proof fn lemma_delivery_from_start<T>(log: Seq<T>)
    ensures
        delivered(log, 0) == log,
{
    assert(delivered(log, 0) =~= log);
}

impl<T> View for MessageQueue<T> {
    type V = Seq<T>;

    closed spec fn view(&self) -> Seq<T> {
        self.messages@
    }
}

impl<T> MessageQueue<T> {
    /// The cursor fits the type of cursors.
    pub closed spec fn wf(&self) -> bool {
        self.messages.len() <= u32::MAX
    }

    /// Creates an empty queue.
    pub fn new() -> (r: MessageQueue<T>)
        ensures
            r.wf(),
            r@ == Seq::<T>::empty(),
    {
        MessageQueue { messages: Vec::new() }
    }

    /// Returns the cursor: the number of messages pushed so far.
    pub fn cursor(&self) -> (r: u32)
        requires
            self.wf(),
        ensures
            r == self@.len(),
    {
        self.messages.len() as u32
    }

    /// Appends a message. Returns whether it was appended: it is not where
    /// the cursors are used up. The cursor grows by one with each message
    /// appended, and never shrinks.
    pub fn push(&mut self, message: T) -> (r: bool)
        requires
            old(self).wf(),
        ensures
            final(self).wf(),
            r == (old(self)@.len() < u32::MAX),
            r ==> final(self)@ == old(self)@.push(message),
            !r ==> final(self)@ == old(self)@,
            extends(final(self)@, old(self)@),
    {
        if self.messages.len() >= u32::MAX as usize {
            assert(self@.subrange(0, self@.len() as int) =~= self@);
            return false;
        }
        let ghost before = self.messages@;
        self.messages.push(message);
        assert(self.messages@.subrange(0, before.len() as int) =~= before);
        true
    }

    /// Returns the cursor and the messages owed to a subscriber that holds
    /// the cursor `since`.
    pub fn get_messages_since(&self, since: u32) -> (r: (u32, Vec<&T>))
        requires
            self.wf(),
        ensures
            r.0 == self@.len(),
            referents(r.1@) == delivered(self@, since as int),
    {
        let mut out: Vec<&T> = Vec::new();
        let n = self.messages.len();
        let mut i: usize = since as usize;
        if i > n {
            assert(referents(out@) =~= delivered(self@, since as int));
            return (n as u32, out);
        }
        while i < n
            invariant
                since <= i <= n,
                n == self.messages.len(),
                out.len() == i - since,
                forall|j: int| 0 <= j < out.len() ==> *out@[j] == self.messages@[since + j],
            decreases n - i,
        {
            out.push(&self.messages[i]);
            i = i + 1;
        }
        assert(referents(out@) =~= delivered(self@, since as int));
        (n as u32, out)
    }

    /// Answers a subscriber that holds the cursor `since`.
    ///
    /// Where messages are owed, returns the cursor and the messages. Where
    /// `since` lies beyond the cursor, the subscriber comes from another
    /// session: returns the cursor and no message, at once. Where `since` is
    /// the cursor, returns nothing: the subscriber waits until the next
    /// push.
    pub fn subscribe(&self, since: u32) -> (r: Option<(u32, Vec<&T>)>)
        requires
            self.wf(),
        ensures
            r.is_none() <==> since == self@.len(),
            r matches Some(answer) ==> answer.0 == self@.len() && referents(answer.1@)
                == delivered(self@, since as int),
    {
        if since as usize == self.messages.len() {
            None
        } else {
            Some(self.get_messages_since(since))
        }
    }
}

} // verus!
