//! The data model of the kernel-to-user event stream.
//!
//! A `KmMessage` is the unit of ingest: one observed operation of a process,
//! stamped with a FILETIME date, the acting thread, an NTSTATUS result, a
//! UTF-16 path and a duration. Paths travel as plain sequences of UTF-16 code
//! units and may be ill-formed; no message is ever rejected on encoding
//! grounds.
use vstd::prelude::*;

verus! {

/// Ceiling for one ingest batch received from the kernel, in bytes.
pub const MAX_KM_MESSAGE_RECEIVE_SIZE: usize = 32768;

/// Ceiling for one reply sent back to the kernel, in bytes.
pub const MAX_UM_REPLY_MESSAGE_SIZE: usize = 32768;

/// Ceiling for one request sent to the kernel, in bytes.
pub const MAX_UM_SEND_MESSAGE_BUFFER_SIZE: usize = 32768;

/// The well-known name of the kernel communication port, as UTF-16 code
/// units.
pub fn get_communication_port_name() -> (r: Vec<u16>)
    ensures
        r@ == seq![
            92u16,
            80u16,
            82u16,
            79u16,
            67u16,
            77u16,
            79u16,
            78u16,
            80u16,
            79u16,
            82u16,
            84u16,
        ],
{
    let mut name: Vec<u16> = Vec::new();
    name.push(92);
    name.push(80);
    name.push(82);
    name.push(79);
    name.push(67);
    name.push(77);
    name.push(79);
    name.push(78);
    name.push(80);
    name.push(79);
    name.push(82);
    name.push(84);
    proof {
        assert(name@ =~= seq![
            92u16,
            80u16,
            82u16,
            79u16,
            67u16,
            77u16,
            79u16,
            78u16,
            80u16,
            79u16,
            82u16,
            84u16,
        ]);
    }
    name
}

/// A UTF-16 string as it travels on the wire: a plain sequence of code
/// units, possibly ill-formed (unpaired surrogates are kept, never rejected).
#[derive(Debug, PartialEq, Eq)]
pub struct SerializableNtString(pub Vec<u16>);

impl View for SerializableNtString {
    type V = Seq<u16>;

    open spec fn view(&self) -> Seq<u16> {
        self.0@
    }
}

impl SerializableNtString {
    /// Wraps a sequence of UTF-16 code units.
    pub fn new(units: Vec<u16>) -> (r: Self)
        ensures
            r@ == units@,
    {
        SerializableNtString(units)
    }

    /// The empty string: a zero-length sequence, no sentinel.
    pub fn empty() -> (r: Self)
        ensures
            r@ == Seq::<u16>::empty(),
    {
        SerializableNtString(Vec::new())
    }

    /// Number of UTF-16 code units.
    pub fn len(&self) -> (r: usize)
        ensures
            r == self@.len(),
    {
        self.0.len()
    }
}

impl Clone for SerializableNtString {
    fn clone(&self) -> (r: Self)
        ensures
            r@ == self@,
    {
        let mut units: Vec<u16> = Vec::new();
        let mut i: usize = 0;
        while i < self.0.len()
            invariant
                i <= self.0.len(),
                units@ == self.0@.subrange(0, i as int),
            decreases self.0.len() - i,
        {
            units.push(self.0[i]);
            i = i + 1;
        }
        proof {
            assert(units@ =~= self.0@);
        }
        SerializableNtString(units)
    }
}

/// The process that produced an event. `pid` is the OS identifier, which the
/// system recycles; `unique_id` is assigned monotonically by the kernel
/// collector and tags one process instance for its whole lifetime.
#[derive(Clone, Copy, PartialEq, Eq, Structural, Debug)]
pub struct SimpleProcessDetails {
    pub pid: u64,
    pub unique_id: u64,
}

/// Reserved placeholder for a captured call stack.
#[derive(Clone, Copy, PartialEq, Eq, Structural, Debug)]
pub struct EventStack {}

/// A process lifecycle operation.
#[derive(Debug, PartialEq, Eq, Clone)]
pub enum EventProcessOperation {
    ProcessCreate { pid: u64, cmd: Option<SerializableNtString> },
    ProcessDestroy { pid: u64 },
}

/// A file-system operation.
#[derive(Clone, Copy, PartialEq, Eq, Structural, Debug)]
#[allow(inconsistent_fields)]
pub enum EventFileSystemOperation {
    Create { attribute: u16 },
    Read { length: u64, offset: i64 },
    Write { length: u64, offset: i64 },
    Cleanup {},
    Close {},
    QueryFileInfo { info_class: u32, buffer_len: u32 },
    SetFileInfo { info_class: u32, length: u32 },
    AcquireForSectionSync {
        sync_type: u32,
        page_protection: u32,
        flags: u32,
        allocation_attributes: u32,
    },
}

/// A registry operation.
#[derive(Clone, Copy, PartialEq, Eq, Structural, Debug)]
pub enum EventRegistryOperation {
    Open(),
}

/// The tagged union of all operations an event can report.
#[derive(Debug, PartialEq, Eq, Clone)]
pub enum EventClass {
    Process(EventProcessOperation),
    FileSystem(EventFileSystemOperation),
    Registry(EventRegistryOperation),
}

/// The event itself: when, which thread, what operation, with what result,
/// on which path, and how long it took. `date` and `duration` are in
/// 100-nanosecond FILETIME ticks; `result` is an NTSTATUS.
#[derive(Debug, PartialEq, Eq, Clone)]
pub struct EventCompoent {
    pub date: u64,
    pub thread: u64,
    pub operation: EventClass,
    pub result: i32,
    pub path: SerializableNtString,
    pub duration: u64,
}

/// The unit of ingest: one kernel-observed event together with the details
/// of the process that produced it.
#[derive(Debug, PartialEq, Eq, Clone)]
pub struct KmMessage {
    pub event: EventCompoent,
    pub process: SimpleProcessDetails,
    pub stack: EventStack,
}

/// Metadata for one process instance, as the kernel reports it. End of life
/// is recorded by setting `end_time`; an entry is never removed.
#[derive(Clone, Debug, PartialEq, Eq)]
pub struct ProcessInformation {
    pub path: SerializableNtString,
    pub cmd: Option<SerializableNtString>,
    pub pid: u64,
    pub parent_pid: u64,
    pub start_time: u64,
    pub end_time: Option<u64>,
    pub unique_id: u64,
}

/// Requests user space sends to the kernel over the request/reply channel.
#[derive(Clone, Copy, PartialEq, Eq, Structural, Debug)]
pub enum UmSendMessage {
    GetProcessInfo(u64),
    GetExeName(u64),
}

/// Replies the kernel sends back for a `UmSendMessage`.
#[derive(Debug, PartialEq, Eq, Clone)]
pub enum KmReplyMessage {
    ProcessInfo(ProcessInformation),
    ExeName(SerializableNtString),
}

/// The message a client presents when it connects to the port.
#[derive(Clone, Copy, PartialEq, Eq, Structural, Debug)]
pub enum ClientConnectMessage {
    Any,
    Testing { filter_pid: u64 },
}

/// Mathematical value of an `EventProcessOperation`: the path payloads are
/// taken as plain sequences.
pub ghost enum EventProcessOperationV {
    ProcessCreate { pid: u64, cmd: Option<Seq<u16>> },
    ProcessDestroy { pid: u64 },
}

/// Mathematical value of an `EventClass`.
pub ghost enum EventClassV {
    Process(EventProcessOperationV),
    FileSystem(EventFileSystemOperation),
    Registry(EventRegistryOperation),
}

/// Mathematical value of an `EventCompoent`.
pub ghost struct EventCompoentV {
    pub date: u64,
    pub thread: u64,
    pub operation: EventClassV,
    pub result: i32,
    pub path: Seq<u16>,
    pub duration: u64,
}

/// Mathematical value of a `KmMessage`.
pub ghost struct KmMessageV {
    pub event: EventCompoentV,
    pub process: SimpleProcessDetails,
}

/// Mathematical value of a `ProcessInformation`.
pub ghost struct ProcessInformationV {
    pub path: Seq<u16>,
    pub cmd: Option<Seq<u16>>,
    pub pid: u64,
    pub parent_pid: u64,
    pub start_time: u64,
    pub end_time: Option<u64>,
    pub unique_id: u64,
}

/// Mathematical value of a `KmReplyMessage`.
pub ghost enum KmReplyMessageV {
    ProcessInfo(ProcessInformationV),
    ExeName(Seq<u16>),
}

impl View for EventProcessOperation {
    type V = EventProcessOperationV;

    open spec fn view(&self) -> EventProcessOperationV {
        match self {
            EventProcessOperation::ProcessCreate { pid, cmd } => {
                EventProcessOperationV::ProcessCreate {
                    pid: *pid,
                    cmd: match cmd {
                        Some(c) => Some(c@),
                        None => None,
                    },
                }
            },
            EventProcessOperation::ProcessDestroy { pid } => {
                EventProcessOperationV::ProcessDestroy { pid: *pid }
            },
        }
    }
}

impl View for EventClass {
    type V = EventClassV;

    open spec fn view(&self) -> EventClassV {
        match self {
            EventClass::Process(op) => EventClassV::Process(op@),
            EventClass::FileSystem(op) => EventClassV::FileSystem(*op),
            EventClass::Registry(op) => EventClassV::Registry(*op),
        }
    }
}

impl View for EventCompoent {
    type V = EventCompoentV;

    open spec fn view(&self) -> EventCompoentV {
        EventCompoentV {
            date: self.date,
            thread: self.thread,
            operation: self.operation@,
            result: self.result,
            path: self.path@,
            duration: self.duration,
        }
    }
}

impl View for KmMessage {
    type V = KmMessageV;

    open spec fn view(&self) -> KmMessageV {
        KmMessageV { event: self.event@, process: self.process }
    }
}

impl View for ProcessInformation {
    type V = ProcessInformationV;

    open spec fn view(&self) -> ProcessInformationV {
        ProcessInformationV {
            path: self.path@,
            cmd: match &self.cmd {
                Some(c) => Some(c@),
                None => None,
            },
            pid: self.pid,
            parent_pid: self.parent_pid,
            start_time: self.start_time,
            end_time: self.end_time,
            unique_id: self.unique_id,
        }
    }
}

impl View for KmReplyMessage {
    type V = KmReplyMessageV;

    open spec fn view(&self) -> KmReplyMessageV {
        match self {
            KmReplyMessage::ProcessInfo(info) => KmReplyMessageV::ProcessInfo(info@),
            KmReplyMessage::ExeName(name) => KmReplyMessageV::ExeName(name@),
        }
    }
}

} // verus!
