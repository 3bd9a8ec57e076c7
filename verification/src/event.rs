//! Captured events, the unit that the analyzers take and give.

use crate::json::{Json, JsonValue};
use vstd::prelude::*;

verus! {

/// What an event holds.
pub struct EventModel {
    pub timestamp: u64,
    pub source: Seq<char>,
    pub pid: u32,
    pub comm: Seq<char>,
    pub data: Json,
}

/// A captured event: when and where it was seen, and what was seen as JSON.
#[derive(Debug, PartialEq, Eq)]
pub struct Event {
    pub timestamp: u64,
    pub source: String,
    pub pid: u32,
    pub comm: String,
    pub data: JsonValue,
}

impl View for Event {
    type V = EventModel;

    open spec fn view(&self) -> EventModel {
        EventModel {
            timestamp: self.timestamp,
            source: self.source@,
            pid: self.pid,
            comm: self.comm@,
            data: self.data@,
        }
    }
}

impl Event {
    pub fn new_with_timestamp(
        timestamp: u64,
        source: String,
        pid: u32,
        comm: String,
        data: JsonValue,
    ) -> (r: Event)
        ensures
            r@ == (EventModel { timestamp, source: source@, pid, comm: comm@, data: data@ }),
    {
        Event { timestamp, source, pid, comm, data }
    }
}

impl Clone for Event {
    fn clone(&self) -> (r: Event)
        ensures
            r@ == self@,
    {
        Event {
            timestamp: self.timestamp,
            source: self.source.clone(),
            pid: self.pid,
            comm: self.comm.clone(),
            data: self.data.clone(),
        }
    }
}

} // verus!
