//! The append-only in-memory message log kept by the master and by every
//! secondary, together with the message record itself.

use vstd::prelude::*;

verus! {

/// A payload written by a client.
pub struct Message {
    pub content: String,
}

impl Message {
    /// The text of the message, as a sequence of characters.
    pub open spec fn view(self) -> Seq<char> {
        self.content@
    }
}

/// An append-only sequence of messages, in insertion order.
pub struct MessageLog {
    messages: Vec<Message>,
}

impl MessageLog {
    /// The contents of the log, in insertion order.
    pub closed spec fn view(self) -> Seq<Seq<char>> {
        self.messages@.map(|i: int, m: Message| m@)
    }

    pub fn new() -> (log: Self)
        ensures
            log@ == Seq::<Seq<char>>::empty(),
    {
        let log = Self { messages: Vec::new() };
        proof {
            assert(log@ =~= Seq::<Seq<char>>::empty());
        }
        log
    }

    /// Appends one message at the end; nothing already present moves.
    pub fn add(&mut self, msg: Message)
        ensures
            final(self)@ == old(self)@.push(msg@),
    {
        self.messages.push(msg);
        proof {
            assert(self@ =~= old(self)@.push(msg@));
        }
    }

    /// Returns a copy of every message, in insertion order.
    pub fn get_all(&self) -> (r: Vec<Message>)
        ensures
            r@.map(|i: int, m: Message| m@) == self@,
            r@.len() == self@.len(),
    {
        let mut out: Vec<Message> = Vec::new();
        let mut i: usize = 0;
        while i < self.messages.len()
            invariant
                i <= self.messages.len(),
                out@.len() == i,
                forall|j: int| 0 <= j < i ==> out@[j]@ == self.messages@[j]@,
            decreases self.messages.len() - i,
        {
            let m = Message { content: self.messages[i].content.clone() };
            out.push(m);
            i = i + 1;
        }
        proof {
            assert(out@.map(|i: int, m: Message| m@) =~= self@);
        }
        out
    }

    /// The number of messages in the log.
    pub fn len(&self) -> (n: usize)
        ensures
            n == self@.len(),
    {
        self.messages.len()
    }
}

} // verus!
