use vstd::prelude::*;

use crate::events::Event;
use std::collections::HashMap;

verus! {

broadcast use vstd::std_specs::hash::group_hash_axioms;

/// The events recorded for the client stored under `key`: its stream if
/// one exists, the empty history otherwise.
pub open spec fn stream_of(streams: Map<u64, Seq<Event>>, key: u64) -> Seq<Event> {
    if streams.contains_key(key) {
        streams[key]
    } else {
        Seq::<Event>::empty()
    }
}

/// Append-only per-client event streams: the system of record, ordered
/// by arrival.
pub struct EventStore {
    streams: HashMap<u64, Vec<Event>>,
}

impl View for EventStore {
    type V = Map<u64, Seq<Event>>;

    closed spec fn view(&self) -> Map<u64, Seq<Event>> {
        self.streams@.map_values(|events: Vec<Event>| events@)
    }
}

impl Default for EventStore {
    /// An empty store: no client has a stream yet.
    fn default() -> (store: EventStore)
        ensures
            store@ == Map::<u64, Seq<Event>>::empty(),
    {
        let store = EventStore { streams: HashMap::new() };
        proof {
            assert(store@ =~= Map::<u64, Seq<Event>>::empty());
        }
        store
    }
}

impl EventStore {
    /// Appends an event to the client's stream, initializing the stream
    /// if the client has none yet.
    pub fn apply(&mut self, client_id: u16, event: Event)
        ensures
            final(self)@ == old(self)@.insert(
                client_id as u64,
                stream_of(old(self)@, client_id as u64).push(event),
            ),
    {
        let key = client_id as u64;
        match self.streams.remove(&key) {
            Some(mut events) => {
                events.push(event);
                self.streams.insert(key, events);
            },
            None => {
                let mut events: Vec<Event> = Vec::new();
                events.push(event);
                self.streams.insert(key, events);
            },
        }
        proof {
            assert(self@ =~= old(self)@.insert(
                key,
                stream_of(old(self)@, key).push(event),
            ));
        }
    }

    /// The stream of events recorded for the given client, in arrival
    /// order; empty if the client has none.
    pub fn stream(&self, client_id: u16) -> (events: Vec<Event>)
        ensures
            events@ == stream_of(self@, client_id as u64),
    {
        let key = client_id as u64;
        match self.streams.get(&key) {
            Some(stored) => {
                let mut events: Vec<Event> = Vec::new();
                let n = stored.len();
                let mut i: usize = 0;
                while i < n
                    invariant
                        0 <= i <= n,
                        n == stored@.len(),
                        events@ == stored@.subrange(0, i as int),
                    decreases n - i,
                {
                    events.push(stored[i]);
                    proof {
                        assert(events@ =~= stored@.subrange(0, i + 1));
                    }
                    i = i + 1;
                }
                proof {
                    assert(stored@.subrange(0, n as int) =~= stored@);
                }
                events
            },
            None => Vec::new(),
        }
    }
}

} // verus!
