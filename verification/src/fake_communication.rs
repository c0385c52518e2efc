//! A stand-in event source: answers name lookups synthetically and
//! fabricates random event batches, so the whole pipeline runs without a
//! kernel driver.
//!
//! Randomness comes from the process-wide generator of the `rand` crate;
//! nothing is promised about a drawn value, and every contract here states
//! only what holds of every outcome. Timestamps are the caller's business:
//! the generator stamps each fabricated batch with the instant handed in.
use vstd::prelude::*;

use crate::communication::CommunicationInterface;
use crate::framing::CommunicationError;
use crate::messages::{
    EventClass, EventCompoent, EventFileSystemOperation, EventProcessOperation,
    EventRegistryOperation, EventStack, KmMessage, KmReplyMessage, SerializableNtString,
    SimpleProcessDetails, UmSendMessage,
};

verus! {

/// Relies on rand::random: draws one value from the thread-local
/// generator. Nothing holds of the result beyond its type.
pub assume_specification<T>[ rand::random::<T> ]() -> (r: T)
    where
        rand::distributions::Standard: rand::distributions::Distribution<T>,
;

/// Draws a value below `bound`.
fn random_below(bound: u64) -> (r: u64)
    requires
        bound > 0,
    ensures
        r < bound,
{
    rand::random::<u64>() % bound
}

/// The decimal digits of `n`, as UTF-16 code units, most significant
/// first.
pub open spec fn decimal_digits(n: u64) -> Seq<u16>
    decreases n,
{
    if n < 10 {
        seq![(48 + n) as u16]
    } else {
        decimal_digits(n / 10).push((48 + n % 10) as u16)
    }
}

/// Appends the decimal digits of `n`.
pub fn push_decimal(out: &mut Vec<u16>, n: u64)
    ensures
        final(out)@ == old(out)@ + decimal_digits(n),
    decreases n,
{
    if n < 10 {
        out.push((48 + n) as u16);
        proof {
            assert(out@ =~= old(out)@ + decimal_digits(n));
        }
    } else {
        push_decimal(out, n / 10);
        out.push((48 + n % 10) as u16);
        proof {
            assert(out@ =~= old(out)@ + decimal_digits(n));
        }
    }
}

/// The name the fake source reports for process instance `uid`.
pub open spec fn fake_exe_name(uid: u64) -> Seq<u16> {
    seq![80u16, 114u16, 111u16, 99u16, 101u16, 115u16, 115u16] + decimal_digits(uid) + seq![
        46u16,
        101u16,
        120u16,
        101u16,
    ]
}

/// Builds the synthetic executable name for `uid`.
fn build_fake_exe_name(uid: u64) -> (r: SerializableNtString)
    ensures
        r@ == fake_exe_name(uid),
{
    let mut units: Vec<u16> = Vec::new();
    units.push(80);
    units.push(114);
    units.push(111);
    units.push(99);
    units.push(101);
    units.push(115);
    units.push(115);
    push_decimal(&mut units, uid);
    units.push(46);
    units.push(101);
    units.push(120);
    units.push(101);
    proof {
        assert(units@ =~= fake_exe_name(uid));
    }
    SerializableNtString(units)
}

/// The driverless event source.
pub struct FakeCommunication {
    stop_signal: bool,
}

impl FakeCommunication {
    /// Whether `stop` was called.
    pub closed spec fn stopped(&self) -> bool {
        self.stop_signal
    }

    /// A fresh, running source.
    pub fn new() -> (r: Self)
        ensures
            !r.stopped(),
    {
        FakeCommunication { stop_signal: false }
    }

    /// Whether the generation loop should exit.
    pub fn is_stopped(&self) -> (r: bool)
        ensures
            r == self.stopped(),
    {
        self.stop_signal
    }

    /// Fabricates one batch of random events, all stamped `now`. Every
    /// batch holds 100 to 500 events, each naming a pid below 400 (with
    /// `unique_id` equal to it), and every event fits on the wire.
    pub fn generate_random_events(&self, now: u64) -> (r: Vec<KmMessage>)
        ensures
            100 <= r@.len() <= 500,
            forall|k: int|
                0 <= k < r@.len() ==> {
                    let m = #[trigger] r@[k];
                    &&& m.event.date == now
                    &&& m.process.pid < 400
                    &&& m.process.unique_id == m.process.pid
                    &&& (m.event.result == -1 || m.event.result == 0 || m.event.result == 1)
                    &&& m.event.path@.len() > 0
                    &&& crate::codec::msg_encodable(m@)
                },
    {
        let num_events = 100 + random_below(401);
        let mut events: Vec<KmMessage> = Vec::new();
        let mut k: u64 = 0;
        while k < num_events
            invariant
                events@.len() == k,
                k <= num_events,
                num_events <= 500,
                forall|j: int|
                    0 <= j < events@.len() ==> {
                        let m = #[trigger] events@[j];
                        &&& m.event.date == now
                        &&& m.process.pid < 400
                        &&& m.process.unique_id == m.process.pid
                        &&& (m.event.result == -1 || m.event.result == 0 || m.event.result == 1)
                        &&& m.event.path@.len() > 0
                        &&& crate::codec::msg_encodable(m@)
                    },
            decreases num_events - k,
        {
            let pid = random_below(400);
            let mut path: Vec<u16> = Vec::new();
            path.push(83);
            path.push(111);
            path.push(109);
            path.push(101);
            path.push(32);
            path.push(112);
            path.push(97);
            path.push(116);
            path.push(104);
            let result_pick = random_below(3);
            let result: i32 = if result_pick == 0 {
                -1
            } else if result_pick == 1 {
                0
            } else {
                1
            };
            let event = KmMessage {
                event: EventCompoent {
                    date: now,
                    thread: 1 + random_below(99),
                    operation: generate_random_event_class(),
                    result,
                    path: SerializableNtString(path),
                    duration: rand::random::<u64>(),
                },
                process: SimpleProcessDetails { pid, unique_id: pid },
                stack: EventStack {  },
            };
            events.push(event);
            k = k + 1;
        }
        events
    }
}

/// Draws a random operation. Whatever comes out fits on the wire: a
/// fabricated process operation never carries a command line.
fn generate_random_event_class() -> (r: EventClass)
    ensures
        crate::codec::class_encodable(r@),
{
    let pick = random_below(3);
    if pick == 0 {
        EventClass::Process(generate_random_process_operation())
    } else if pick == 1 {
        EventClass::FileSystem(generate_random_filesystem_operation())
    } else {
        EventClass::Registry(EventRegistryOperation::Open())
    }
}

/// Draws a random process lifecycle operation on a pid between 1 and 30,
/// without a command line.
fn generate_random_process_operation() -> (r: EventProcessOperation)
    ensures
        crate::codec::process_op_encodable(r@),
{
    let pid = 1 + random_below(30);
    if random_below(2) == 0 {
        EventProcessOperation::ProcessCreate { pid, cmd: None }
    } else {
        EventProcessOperation::ProcessDestroy { pid }
    }
}

/// Draws a random file-system operation.
fn generate_random_filesystem_operation() -> (r: EventFileSystemOperation) {
    let pick = random_below(4);
    if pick == 0 {
        EventFileSystemOperation::Create { attribute: (rand::random::<u64>() % 65536) as u16 }
    } else if pick == 1 {
        EventFileSystemOperation::Read {
            length: rand::random::<u64>(),
            offset: rand::random::<u64>() as i64,
        }
    } else if pick == 2 {
        EventFileSystemOperation::Write {
            length: rand::random::<u64>(),
            offset: rand::random::<u64>() as i64,
        }
    } else {
        EventFileSystemOperation::Close {  }
    }
}

impl CommunicationInterface for FakeCommunication {
    /// Answers a name lookup synthetically; metadata lookups fail with a
    /// port error, as the original driverless source does.
    fn send_message_blocking(&mut self, message: &UmSendMessage) -> (r: Result<
        Option<KmReplyMessage>,
        CommunicationError,
    >)
        ensures
            match *message {
                UmSendMessage::GetExeName(uid) => (r matches Ok(reply) && reply matches Some(km)
                    && (km matches KmReplyMessage::ExeName(name) && name@ == fake_exe_name(uid))),
                UmSendMessage::GetProcessInfo(_) => r == Err::<
                    Option<KmReplyMessage>,
                    CommunicationError,
                >(CommunicationError::Port),
            },
            *final(self) == *old(self),
    {
        match message {
            UmSendMessage::GetExeName(uid) => Ok(
                Some(KmReplyMessage::ExeName(build_fake_exe_name(*uid))),
            ),
            UmSendMessage::GetProcessInfo(_) => Err(CommunicationError::Port),
        }
    }

    /// Tells the generation loop to exit.
    fn stop(&mut self) {
        self.stop_signal = true;
    }
}

} // verus!
