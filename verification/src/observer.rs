//! The plain observer: an engine that keeps every message it is handed.

use vstd::prelude::*;

verus! {

/// A raw message with the time at which it was observed.
#[derive(Debug)]
pub struct ObservedMessage {
    /// The bytes of the message.
    pub data: Vec<u8>,
    /// Microseconds.
    pub timestamp: u64,
}

/// Keeps the messages that pass, in the order in which they came.
#[derive(Debug)]
pub struct MidiEngine {
    pub messages: Vec<ObservedMessage>,
}

/// The observation of `data` at `timestamp`.
pub open spec fn observed(message: ObservedMessage, data: Seq<u8>, timestamp: u64) -> bool {
    message.data@ == data && message.timestamp == timestamp
}

impl MidiEngine {
    /// An engine that has seen nothing.
    pub fn new() -> (engine: Self)
        ensures
            engine.messages@.len() == 0,
    {
        MidiEngine { messages: Vec::new() }
    }

    /// Keeps a copy of one message.
    pub fn process_message(&mut self, data: &[u8], timestamp: u64)
        ensures
            final(self).messages@.len() == old(self).messages@.len() + 1,
            final(self).messages@.drop_last() == old(self).messages@,
            observed(final(self).messages@.last(), data@, timestamp),
    {
        let mut copy: Vec<u8> = Vec::new();
        let mut i: usize = 0;
        while i < data.len()
            invariant
                i <= data.len(),
                copy@ == data@.take(i as int),
            decreases data.len() - i,
        {
            copy.push(data[i]);
            proof {
                assert(copy@ =~= data@.take(i + 1));
            }
            i = i + 1;
        }
        proof {
            assert(data@.take(i as int) =~= data@);
        }
        let ghost before = self.messages@;
        self.messages.push(ObservedMessage { data: copy, timestamp });
        proof {
            assert(self.messages@.drop_last() =~= before);
        }
    }

    /// Forgets every message.
    pub fn clear(&mut self)
        ensures
            final(self).messages@.len() == 0,
    {
        self.messages.clear();
    }
}

} // verus!
