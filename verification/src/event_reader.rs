//! A placeholder row source kept for display-layer experiments: it
//! fabricates a row for any index instead of consulting the pipeline.
use vstd::prelude::*;

use crate::fake_communication::decimal_digits;

verus! {

/// One fabricated row.
pub struct Event {
    pub id: u64,
    pub timestamp: u64,
    pub name: Vec<u16>,
}

/// Fabricates rows on demand.
pub struct EventReader {}

impl EventReader {
    /// Always yields a row: the index as id and name, a fixed timestamp.
    pub fn get(&self, index: usize) -> (r: Option<Event>)
        ensures
            r matches Some(event) && event.id == index && event.timestamp == 1234 && event.name@
                == decimal_digits(index as u64),
    {
        let mut name: Vec<u16> = Vec::new();
        crate::fake_communication::push_decimal(&mut name, index as u64);
        proof {
            assert(name@ =~= decimal_digits(index as u64));
        }
        Some(Event { id: index as u64, timestamp: 1234, name })
    }
}

} // verus!
