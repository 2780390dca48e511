//! Performance timeline recording: an enable switch, a recording session,
//! and the events, memory snapshots and frame timings recorded in it.
//!
//! Times given by a client are carried as the bit patterns of their
//! floating-point values; times read from the clock are whole microseconds.

use vstd::prelude::*;
use crate::clock;
use crate::profiler_types::{CallFrame, TimelineEventCategory};
use crate::protocol::ProtocolError;
use crate::text::{lowercase, owned, str_eq, to_lower};

verus! {

/// The category a lowercase name stands for.
pub open spec fn category_of(lower: Seq<char>) -> TimelineEventCategory {
    if lower == "scripting"@ {
        TimelineEventCategory::Scripting
    } else if lower == "rendering"@ {
        TimelineEventCategory::Rendering
    } else if lower == "painting"@ {
        TimelineEventCategory::Painting
    } else if lower == "loading"@ {
        TimelineEventCategory::Loading
    } else {
        TimelineEventCategory::Other
    }
}

/// The category named by an already lowercased name; unknown names are
/// `Other`.
pub fn category_for_lowercase(lower: &str) -> (c: TimelineEventCategory)
    ensures
        c == category_of(lower@),
{
    if str_eq(lower, "scripting") {
        TimelineEventCategory::Scripting
    } else if str_eq(lower, "rendering") {
        TimelineEventCategory::Rendering
    } else if str_eq(lower, "painting") {
        TimelineEventCategory::Painting
    } else if str_eq(lower, "loading") {
        TimelineEventCategory::Loading
    } else {
        TimelineEventCategory::Other
    }
}

/// The category a client names, in any letter case.
pub fn parse_category(name: &str) -> (c: TimelineEventCategory)
    ensures
        c == category_of(lowercase(name@)),
{
    let lower = to_lower(name);
    category_for_lowercase(lower.as_str())
}

/// One recorded event.
#[derive(Debug)]
pub struct TimelineEvent {
    pub event_type: String,
    pub category: TimelineEventCategory,
    /// Bits of the start time in microseconds.
    pub start_time_bits: u64,
    /// Bits of the duration in microseconds.
    pub duration_bits: u64,
    pub thread_id: Option<u32>,
    pub frame_id: Option<String>,
    pub stack_trace: Option<Vec<CallFrame>>,
    /// Free-form event data, as JSON text.
    pub data: Option<String>,
}

fn copy_trace(v: &Vec<CallFrame>) -> (r: Vec<CallFrame>)
    ensures
        r@ == v@,
{
    let r = v.clone();
    proof {
        assert(r@ =~= v@);
    }
    r
}

impl Clone for TimelineEvent {
    /// A copy; the copy of a stack trace holds the same frames.
    fn clone(&self) -> (r: Self)
        ensures
            self.stack_trace is None ==> r == *self,
            r.event_type == self.event_type,
            r.category == self.category,
            r.start_time_bits == self.start_time_bits,
            r.duration_bits == self.duration_bits,
            r.thread_id == self.thread_id,
            r.frame_id == self.frame_id,
            r.data == self.data,
            match (r.stack_trace, self.stack_trace) {
                (Some(a), Some(b)) => a@ == b@,
                (None, None) => true,
                _ => false,
            },
    {
        TimelineEvent {
            event_type: self.event_type.clone(),
            category: self.category,
            start_time_bits: self.start_time_bits,
            duration_bits: self.duration_bits,
            thread_id: self.thread_id,
            frame_id: match &self.frame_id {
                Some(f) => Some(f.clone()),
                None => None,
            },
            stack_trace: match &self.stack_trace {
                Some(t) => Some(copy_trace(t)),
                None => None,
            },
            data: match &self.data {
                Some(d) => Some(d.clone()),
                None => None,
            },
        }
    }
}

impl TimelineEvent {
    /// An instant event (zero duration) with nothing else set.
    pub fn new(event_type: String, category: TimelineEventCategory, start_time_bits: u64) -> (e: Self)
        ensures
            e.event_type == event_type,
            e.category == category,
            e.start_time_bits == start_time_bits,
            e.duration_bits == 0,
            e.thread_id is None,
            e.frame_id is None,
            e.stack_trace is None,
            e.data is None,
    {
        TimelineEvent {
            event_type,
            category,
            start_time_bits,
            duration_bits: 0,
            thread_id: None,
            frame_id: None,
            stack_trace: None,
            data: None,
        }
    }

    /// The event with a duration.
    pub fn with_duration(self, duration_bits: u64) -> (e: Self)
        ensures
            e == (TimelineEvent { duration_bits, ..self }),
    {
        TimelineEvent { duration_bits, ..self }
    }

    /// The event with a thread id.
    pub fn with_thread_id(self, thread_id: u32) -> (e: Self)
        ensures
            e == (TimelineEvent { thread_id: Some(thread_id), ..self }),
    {
        TimelineEvent { thread_id: Some(thread_id), ..self }
    }

    /// The event with a frame id.
    pub fn with_frame_id(self, frame_id: String) -> (e: Self)
        ensures
            e == (TimelineEvent { frame_id: Some(frame_id), ..self }),
    {
        TimelineEvent { frame_id: Some(frame_id), ..self }
    }

    /// The event with data (JSON text).
    pub fn with_data(self, data: String) -> (e: Self)
        ensures
            e == (TimelineEvent { data: Some(data), ..self }),
    {
        TimelineEvent { data: Some(data), ..self }
    }

    /// The event with a stack trace.
    pub fn with_stack_trace(self, stack_trace: Vec<CallFrame>) -> (e: Self)
        ensures
            e == (TimelineEvent { stack_trace: Some(stack_trace), ..self }),
    {
        TimelineEvent { stack_trace: Some(stack_trace), ..self }
    }
}

/// A memory reading taken during a recording.
#[derive(Debug, Clone, Copy, PartialEq, Eq, Structural)]
pub struct TimelineMemorySnapshot {
    /// Microseconds since the epoch.
    pub timestamp: u128,
    pub js_heap_size_used: u64,
    pub js_heap_size_total: u64,
    pub documents: u32,
    pub nodes: u32,
    pub listeners: u32,
}

impl Default for TimelineMemorySnapshot {
    /// A reading of zero everywhere.
    fn default() -> (s: Self)
        ensures
            s == (TimelineMemorySnapshot {
                timestamp: 0,
                js_heap_size_used: 0,
                js_heap_size_total: 0,
                documents: 0,
                nodes: 0,
                listeners: 0,
            }),
    {
        TimelineMemorySnapshot {
            timestamp: 0,
            js_heap_size_used: 0,
            js_heap_size_total: 0,
            documents: 0,
            nodes: 0,
            listeners: 0,
        }
    }
}

/// The timing of one frame; its duration is the end minus the start.
#[derive(Debug)]
pub struct FrameTiming {
    pub frame_id: String,
    /// Bits of the start time in microseconds.
    pub start_time_bits: u64,
    /// Bits of the end time in microseconds.
    pub end_time_bits: u64,
    /// Bits of the CPU time in microseconds.
    pub cpu_time_bits: u64,
    pub dropped: bool,
}

impl Clone for FrameTiming {
    fn clone(&self) -> (r: Self)
        ensures
            r == *self,
    {
        FrameTiming {
            frame_id: self.frame_id.clone(),
            start_time_bits: self.start_time_bits,
            end_time_bits: self.end_time_bits,
            cpu_time_bits: self.cpu_time_bits,
            dropped: self.dropped,
        }
    }
}

impl FrameTiming {
    /// A frame that starts and ends at `start_time_bits`, not dropped.
    pub fn new(frame_id: String, start_time_bits: u64) -> (f: Self)
        ensures
            f.frame_id == frame_id,
            f.start_time_bits == start_time_bits,
            f.end_time_bits == start_time_bits,
            f.cpu_time_bits == 0,
            !f.dropped,
    {
        FrameTiming { frame_id, start_time_bits, end_time_bits: start_time_bits, cpu_time_bits: 0, dropped: false }
    }

    /// Marks the frame complete: its end, CPU time and whether it was
    /// dropped.
    pub fn complete(&mut self, end_time_bits: u64, cpu_time_bits: u64, dropped: bool)
        ensures
            final(self).frame_id == old(self).frame_id,
            final(self).start_time_bits == old(self).start_time_bits,
            final(self).end_time_bits == end_time_bits,
            final(self).cpu_time_bits == cpu_time_bits,
            final(self).dropped == dropped,
    {
        self.end_time_bits = end_time_bits;
        self.cpu_time_bits = cpu_time_bits;
        self.dropped = dropped;
    }
}

/// Recording settings.
#[derive(Debug)]
pub struct TimelineConfig {
    pub max_events: usize,
    pub capture_memory: bool,
    /// Bits of the memory sampling interval in microseconds.
    pub memory_interval_bits: u64,
    pub capture_stacks: bool,
    pub max_stack_depth: u32,
    /// The categories to record; empty records all.
    pub categories: Vec<TimelineEventCategory>,
}

/// The bits of `100000.0`, the default memory interval.
pub const DEFAULT_MEMORY_INTERVAL_BITS: u64 = 0x40F8_6A00_0000_0000;

impl Default for TimelineConfig {
    /// Ten thousand events, memory and stacks captured, stacks sixteen deep,
    /// every category.
    fn default() -> (c: Self)
        ensures
            c.max_events == 10000,
            c.capture_memory,
            c.memory_interval_bits == DEFAULT_MEMORY_INTERVAL_BITS,
            c.capture_stacks,
            c.max_stack_depth == 16,
            c.categories@.len() == 0,
    {
        TimelineConfig {
            max_events: 10000,
            capture_memory: true,
            memory_interval_bits: DEFAULT_MEMORY_INTERVAL_BITS,
            capture_stacks: true,
            max_stack_depth: 16,
            categories: Vec::new(),
        }
    }
}

/// What a finished recording holds.
#[derive(Debug)]
pub struct TimelineRecording {
    /// Microseconds since the epoch.
    pub start_time: u128,
    /// Microseconds since the epoch.
    pub end_time: u128,
    pub events: Vec<TimelineEvent>,
    pub memory_snapshots: Vec<TimelineMemorySnapshot>,
    pub frames: Vec<FrameTiming>,
}

/// The parameters of `recordEvent`, the times already defaulted (start to
/// now, duration to zero).
#[derive(Debug)]
pub struct RecordEventParams {
    pub event_type: Option<String>,
    pub category: Option<String>,
    pub start_time_bits: u64,
    pub duration_bits: u64,
    pub thread_id: Option<u64>,
    pub frame_id: Option<String>,
    pub data: Option<String>,
}

/// The parameters of `recordFrame`, the times already defaulted (start
/// and end to now, CPU time to zero).
#[derive(Debug)]
pub struct RecordFrameParams {
    pub frame_id: Option<String>,
    pub start_time_bits: u64,
    pub end_time_bits: u64,
    pub cpu_time_bits: u64,
    pub dropped: Option<bool>,
}

/// Whether a category passes a category filter (an empty one passes all).
pub open spec fn category_allowed(filter: Seq<TimelineEventCategory>, c: TimelineEventCategory) -> bool {
    filter.len() == 0 || filter.contains(c)
}

/// The snapshot recorded at a time: the simulated heap of 50 MB used out of
/// 100 MB, one document, 500 nodes and 100 listeners.
pub open spec fn simulated_snapshot(s: TimelineMemorySnapshot, at: u128) -> bool {
    &&& s.timestamp == at
    &&& s.js_heap_size_used == 50_000_000
    &&& s.js_heap_size_total == 100_000_000
    &&& s.documents == 1
    &&& s.nodes == 500
    &&& s.listeners == 100
}

/// The Timeline domain.
#[derive(Debug)]
pub struct TimelineDomain {
    enabled: bool,
    recording: bool,
    config: TimelineConfig,
    events: Vec<TimelineEvent>,
    memory_snapshots: Vec<TimelineMemorySnapshot>,
    frames: Vec<FrameTiming>,
    start_time: u128,
    last_memory_snapshot: u128,
    event_counter: u64,
    frame_counter: u64,
}

impl TimelineDomain {
    /// Recorded events carry no stack trace.
    #[verifier::type_invariant]
    spec fn inv(&self) -> bool {
        forall|i: int| 0 <= i < self.events@.len() ==> (#[trigger] self.events@[i]).stack_trace is None
    }

    pub closed spec fn is_on(&self) -> bool {
        self.enabled
    }

    pub closed spec fn is_rec(&self) -> bool {
        self.recording
    }

    pub closed spec fn event_seq(&self) -> Seq<TimelineEvent> {
        self.events@
    }

    pub closed spec fn snapshot_seq(&self) -> Seq<TimelineMemorySnapshot> {
        self.memory_snapshots@
    }

    pub closed spec fn frame_seq(&self) -> Seq<FrameTiming> {
        self.frames@
    }

    pub closed spec fn max_events(&self) -> usize {
        self.config.max_events
    }

    pub closed spec fn category_filter(&self) -> Seq<TimelineEventCategory> {
        self.config.categories@
    }

    pub closed spec fn stack_depth(&self) -> u32 {
        self.config.max_stack_depth
    }

    pub closed spec fn counters_memory(&self) -> bool {
        self.config.capture_memory
    }

    pub closed spec fn started_at(&self) -> u128 {
        self.start_time
    }

    /// The domain's settings.
    pub closed spec fn settings(&self) -> TimelineConfig {
        self.config
    }

    /// How many events and frames were numbered since the recording began.
    pub closed spec fn counters(&self) -> (u64, u64) {
        (self.event_counter, self.frame_counter)
    }

    /// When the last memory snapshot was taken.
    pub closed spec fn last_snapshot_at(&self) -> u128 {
        self.last_memory_snapshot
    }

    /// A disabled domain with the default settings and nothing recorded.
    pub fn new() -> (d: Self)
        ensures
            !d.is_on(),
            !d.is_rec(),
            d.event_seq().len() == 0,
            d.snapshot_seq().len() == 0,
            d.frame_seq().len() == 0,
            d.max_events() == 10000,
            d.category_filter().len() == 0,
            d.stack_depth() == 16,
            d.counters_memory(),
            d.settings().capture_stacks,
            d.settings().memory_interval_bits == DEFAULT_MEMORY_INTERVAL_BITS,
            d.started_at() == 0,
            d.last_snapshot_at() == 0,
            d.counters() == (0u64, 0u64),
    {
        TimelineDomain {
            enabled: false,
            recording: false,
            config: TimelineConfig::default(),
            events: Vec::new(),
            memory_snapshots: Vec::new(),
            frames: Vec::new(),
            start_time: 0,
            last_memory_snapshot: 0,
            event_counter: 0,
            frame_counter: 0,
        }
    }

    /// The domain's name.
    pub fn name(&self) -> (n: &'static str)
        ensures
            n@ == "Timeline"@,
    {
        "Timeline"
    }

    /// Whether a recording is running.
    pub fn is_recording(&self) -> (r: bool)
        ensures
            r == self.is_rec(),
    {
        self.recording
    }

    /// Whether the domain is enabled.
    pub fn is_enabled(&self) -> (r: bool)
        ensures
            r == self.is_on(),
    {
        self.enabled
    }

    /// The recording settings.
    pub fn get_config(&self) -> (c: &TimelineConfig)
        ensures
            c.max_events == self.max_events(),
            c.categories@ == self.category_filter(),
            c.max_stack_depth == self.stack_depth(),
            c.capture_memory == self.counters_memory(),
            *c == self.settings(),
    {
        &self.config
    }

    /// Enables the domain.
    pub fn enable(&mut self)
        ensures
            final(self).is_on(),
            final(self).is_rec() == old(self).is_rec(),
            final(self).event_seq() == old(self).event_seq(),
            final(self).snapshot_seq() == old(self).snapshot_seq(),
            final(self).frame_seq() == old(self).frame_seq(),
            final(self).max_events() == old(self).max_events(),
            final(self).category_filter() == old(self).category_filter(),
    {
        proof {
            use_type_invariant(&*self);
        }
        self.enabled = true;
    }

    /// Disables the domain, which also ends a running recording.
    pub fn disable(&mut self)
        ensures
            !final(self).is_on(),
            !final(self).is_rec(),
            final(self).event_seq() == old(self).event_seq(),
            final(self).snapshot_seq() == old(self).snapshot_seq(),
            final(self).frame_seq() == old(self).frame_seq(),
            final(self).max_events() == old(self).max_events(),
            final(self).category_filter() == old(self).category_filter(),
    {
        proof {
            use_type_invariant(&*self);
        }
        self.enabled = false;
        self.recording = false;
    }

    /// Starts a recording, taking the stack depth (truncated to 32 bits)
    /// and whether to capture counters where given. Refused when disabled
    /// or already recording; otherwise clears what an earlier recording
    /// left.
    pub fn start(&mut self, max_call_stack_depth: Option<u64>, include_counters: Option<bool>) -> (r: Result<(), ProtocolError>)
        ensures
            !old(self).is_on() || old(self).is_rec() ==> (r matches Err(ProtocolError::InvalidRequest)
                && *final(self) == *old(self)),
            old(self).is_on() && !old(self).is_rec() ==> {
                &&& r is Ok
                &&& final(self).is_on()
                &&& final(self).is_rec()
                &&& final(self).event_seq().len() == 0
                &&& final(self).snapshot_seq().len() == 0
                &&& final(self).frame_seq().len() == 0
                &&& final(self).stack_depth() == match max_call_stack_depth {
                    Some(d) => d as u32,
                    None => old(self).stack_depth(),
                }
                &&& final(self).counters_memory() == match include_counters {
                    Some(b) => b,
                    None => old(self).counters_memory(),
                }
                &&& final(self).max_events() == old(self).max_events()
                &&& final(self).category_filter() == old(self).category_filter()
            },
    {
        proof {
            use_type_invariant(&*self);
        }
        if !self.enabled {
            return Err(ProtocolError::InvalidRequest);
        }
        if self.recording {
            return Err(ProtocolError::InvalidRequest);
        }
        match max_call_stack_depth {
            Some(d) => {
                self.config.max_stack_depth = d as u32;
            },
            None => {},
        }
        match include_counters {
            Some(b) => {
                self.config.capture_memory = b;
            },
            None => {},
        }
        self.events = Vec::new();
        self.memory_snapshots = Vec::new();
        self.frames = Vec::new();
        self.event_counter = 0;
        self.frame_counter = 0;
        let now = clock::now().as_micros();
        self.start_time = now;
        self.last_memory_snapshot = now;
        self.recording = true;
        Ok(())
    }

    /// A copy of the recorded events.
    fn copy_events(&self) -> (r: Vec<TimelineEvent>)
        ensures
            r@ == self.events@,
    {
        proof {
            use_type_invariant(self);
        }
        let mut r: Vec<TimelineEvent> = Vec::new();
        let mut i: usize = 0;
        while i < self.events.len()
            invariant
                i <= self.events@.len(),
                forall|j: int| 0 <= j < self.events@.len() ==> (#[trigger] self.events@[j]).stack_trace is None,
                r@ == self.events@.take(i as int),
            decreases self.events@.len() - i,
        {
            r.push(self.events[i].clone());
            i = i + 1;
            proof {
                assert(r@ =~= self.events@.take(i as int));
            }
        }
        proof {
            assert(self.events@.take(i as int) =~= self.events@);
        }
        r
    }

    /// A copy of the recorded frames.
    fn copy_frames(&self) -> (r: Vec<FrameTiming>)
        ensures
            r@ == self.frames@,
    {
        let mut r: Vec<FrameTiming> = Vec::new();
        let mut i: usize = 0;
        while i < self.frames.len()
            invariant
                i <= self.frames@.len(),
                r@ == self.frames@.take(i as int),
            decreases self.frames@.len() - i,
        {
            r.push(self.frames[i].clone());
            i = i + 1;
            proof {
                assert(r@ =~= self.frames@.take(i as int));
            }
        }
        proof {
            assert(self.frames@.take(i as int) =~= self.frames@);
        }
        r
    }

    /// A copy of the recorded snapshots.
    fn copy_snapshots(&self) -> (r: Vec<TimelineMemorySnapshot>)
        ensures
            r@ == self.memory_snapshots@,
    {
        let mut r: Vec<TimelineMemorySnapshot> = Vec::new();
        let mut i: usize = 0;
        while i < self.memory_snapshots.len()
            invariant
                i <= self.memory_snapshots@.len(),
                r@ == self.memory_snapshots@.take(i as int),
            decreases self.memory_snapshots@.len() - i,
        {
            r.push(self.memory_snapshots[i]);
            i = i + 1;
            proof {
                assert(r@ =~= self.memory_snapshots@.take(i as int));
            }
        }
        proof {
            assert(self.memory_snapshots@.take(i as int) =~= self.memory_snapshots@);
        }
        r
    }

    /// Stops the recording and hands out what it holds (which stays
    /// readable). Refused when no recording runs.
    pub fn stop(&mut self) -> (r: Result<TimelineRecording, ProtocolError>)
        ensures
            !old(self).is_rec() ==> (r matches Err(ProtocolError::InvalidRequest) && *final(self)
                == *old(self)),
            old(self).is_rec() ==> {
                &&& !final(self).is_rec()
                &&& final(self).is_on() == old(self).is_on()
                &&& final(self).event_seq() == old(self).event_seq()
                &&& final(self).snapshot_seq() == old(self).snapshot_seq()
                &&& final(self).frame_seq() == old(self).frame_seq()
                &&& final(self).max_events() == old(self).max_events()
                &&& final(self).category_filter() == old(self).category_filter()
                &&& r matches Ok(rec) && {
                    &&& rec.start_time == old(self).started_at()
                    &&& rec.events@ == old(self).event_seq()
                    &&& rec.memory_snapshots@ == old(self).snapshot_seq()
                    &&& rec.frames@ == old(self).frame_seq()
                }
            },
    {
        proof {
            use_type_invariant(&*self);
        }
        if !self.recording {
            return Err(ProtocolError::InvalidRequest);
        }
        self.recording = false;
        let end_time = clock::now().as_micros();
        Ok(
            TimelineRecording {
                start_time: self.start_time,
                end_time,
                events: self.copy_events(),
                memory_snapshots: self.copy_snapshots(),
                frames: self.copy_frames(),
            },
        )
    }

    /// Records an event given by a client. Refused (invalid request) when
    /// no recording runs, and (invalid parameters) without parameters or
    /// without a type. An event whose category the filter excludes, or one
    /// beyond the event limit, is accepted and dropped. The category name
    /// is read in any letter case (unknown or absent: `Other`); a thread id
    /// is truncated to 32 bits.
    pub fn record_event(&mut self, params: Option<RecordEventParams>) -> (r: Result<(), ProtocolError>)
        ensures
            !old(self).is_rec() ==> (r matches Err(ProtocolError::InvalidRequest) && *final(self)
                == *old(self)),
            old(self).is_rec() ==> match params {
                None => r matches Err(ProtocolError::InvalidParams(m)) && m@ == "Missing parameters"@
                    && *final(self) == *old(self),
                Some(p) => match p.event_type {
                    None => r matches Err(ProtocolError::InvalidParams(m)) && m@ == "Missing type parameter"@
                        && *final(self) == *old(self),
                    Some(event_type) => {
                        let category = match p.category {
                            Some(c) => category_of(lowercase(c@)),
                            None => TimelineEventCategory::Other,
                        };
                        let kept = category_allowed(old(self).category_filter(), category)
                            && old(self).event_seq().len() < old(self).max_events();
                        &&& r is Ok
                        &&& final(self).is_rec()
                        &&& final(self).is_on() == old(self).is_on()
                        &&& final(self).snapshot_seq() == old(self).snapshot_seq()
                        &&& final(self).frame_seq() == old(self).frame_seq()
                        &&& final(self).max_events() == old(self).max_events()
                        &&& final(self).category_filter() == old(self).category_filter()
                        &&& !kept ==> final(self).event_seq() == old(self).event_seq()
                        &&& kept ==> final(self).event_seq() == old(self).event_seq().push(
                            TimelineEvent {
                                event_type,
                                category,
                                start_time_bits: p.start_time_bits,
                                duration_bits: p.duration_bits,
                                thread_id: match p.thread_id {
                                    Some(t) => Some(t as u32),
                                    None => None,
                                },
                                frame_id: p.frame_id,
                                stack_trace: None,
                                data: p.data,
                            },
                        )
                    },
                },
            },
    {
        proof {
            use_type_invariant(&*self);
        }
        if !self.recording {
            return Err(ProtocolError::InvalidRequest);
        }
        let p = match params {
            Some(p) => p,
            None => {
                return Err(ProtocolError::InvalidParams(owned("Missing parameters")));
            },
        };
        let RecordEventParams {
            event_type,
            category,
            start_time_bits,
            duration_bits,
            thread_id,
            frame_id,
            data,
        } = p;
        let event_type = match event_type {
            Some(t) => t,
            None => {
                return Err(ProtocolError::InvalidParams(owned("Missing type parameter")));
            },
        };
        let category = match &category {
            Some(c) => parse_category(c.as_str()),
            None => TimelineEventCategory::Other,
        };
        if self.config.categories.len() > 0 && !contains_category(&self.config.categories, category) {
            return Ok(());
        }
        if self.events.len() >= self.config.max_events {
            return Ok(());
        }
        let mut event = TimelineEvent::new(event_type, category, start_time_bits).with_duration(
            duration_bits,
        );
        match thread_id {
            Some(t) => {
                event = event.with_thread_id(t as u32);
            },
            None => {},
        }
        match frame_id {
            Some(f) => {
                event = event.with_frame_id(f);
            },
            None => {},
        }
        match data {
            Some(d) => {
                event = event.with_data(d);
            },
            None => {},
        }
        let mut events: Vec<TimelineEvent> = Vec::new();
        std::mem::swap(&mut events, &mut self.events);
        events.push(event);
        self.events = events;
        self.event_counter = self.event_counter.wrapping_add(1);
        Ok(())
    }

    /// Takes a memory snapshot now and keeps it. Refused when no recording
    /// runs.
    pub fn take_memory_snapshot(&mut self) -> (r: Result<TimelineMemorySnapshot, ProtocolError>)
        ensures
            !old(self).is_rec() ==> (r matches Err(ProtocolError::InvalidRequest) && *final(self)
                == *old(self)),
            old(self).is_rec() ==> (r matches Ok(s) && simulated_snapshot(s, s.timestamp)
                && final(self).snapshot_seq() == old(self).snapshot_seq().push(s)
                && final(self).event_seq() == old(self).event_seq()
                && final(self).frame_seq() == old(self).frame_seq()
                && final(self).is_rec() && final(self).is_on() == old(self).is_on()
                && final(self).max_events() == old(self).max_events()
                && final(self).category_filter() == old(self).category_filter()),
    {
        proof {
            use_type_invariant(&*self);
        }
        if !self.recording {
            return Err(ProtocolError::InvalidRequest);
        }
        let snapshot = self.create_memory_snapshot();
        let mut snapshots: Vec<TimelineMemorySnapshot> = Vec::new();
        std::mem::swap(&mut snapshots, &mut self.memory_snapshots);
        snapshots.push(snapshot);
        self.memory_snapshots = snapshots;
        Ok(snapshot)
    }

    /// The simulated memory reading, taken now.
    fn create_memory_snapshot(&mut self) -> (s: TimelineMemorySnapshot)
        ensures
            simulated_snapshot(s, s.timestamp),
            final(self).last_memory_snapshot == s.timestamp,
            *final(self) == (TimelineDomain { last_memory_snapshot: s.timestamp, ..*old(self) }),
    {
        proof {
            use_type_invariant(&*self);
        }
        let timestamp = clock::now().as_micros();
        self.last_memory_snapshot = timestamp;
        TimelineMemorySnapshot {
            timestamp,
            js_heap_size_used: 50_000_000,
            js_heap_size_total: 100_000_000,
            documents: 1,
            nodes: 500,
            listeners: 100,
        }
    }

    /// Records a frame's timing (frame id `frame-auto` when none is given,
    /// not dropped unless said). Refused when no recording runs, and
    /// without parameters.
    pub fn record_frame(&mut self, params: Option<RecordFrameParams>) -> (r: Result<FrameTiming, ProtocolError>)
        ensures
            !old(self).is_rec() ==> (r matches Err(ProtocolError::InvalidRequest) && *final(self)
                == *old(self)),
            old(self).is_rec() ==> match params {
                None => r matches Err(ProtocolError::InvalidParams(m)) && m@ == "Missing parameters"@
                    && *final(self) == *old(self),
                Some(p) => r matches Ok(f) && {
                    &&& f.frame_id@ == match p.frame_id {
                        Some(id) => id@,
                        None => "frame-auto"@,
                    }
                    &&& f.start_time_bits == p.start_time_bits
                    &&& f.end_time_bits == p.end_time_bits
                    &&& f.cpu_time_bits == p.cpu_time_bits
                    &&& f.dropped == match p.dropped {
                        Some(d) => d,
                        None => false,
                    }
                    &&& final(self).frame_seq() == old(self).frame_seq().push(f)
                    &&& final(self).event_seq() == old(self).event_seq()
                    &&& final(self).snapshot_seq() == old(self).snapshot_seq()
                    &&& final(self).is_rec()
                },
            },
    {
        proof {
            use_type_invariant(&*self);
        }
        if !self.recording {
            return Err(ProtocolError::InvalidRequest);
        }
        let p = match params {
            Some(p) => p,
            None => {
                return Err(ProtocolError::InvalidParams(owned("Missing parameters")));
            },
        };
        let frame_id = match p.frame_id {
            Some(f) => f,
            None => owned("frame-auto"),
        };
        let dropped = match p.dropped {
            Some(d) => d,
            None => false,
        };
        let frame = FrameTiming {
            frame_id,
            start_time_bits: p.start_time_bits,
            end_time_bits: p.end_time_bits,
            cpu_time_bits: p.cpu_time_bits,
            dropped,
        };
        let mut frames: Vec<FrameTiming> = Vec::new();
        std::mem::swap(&mut frames, &mut self.frames);
        frames.push(frame.clone());
        self.frames = frames;
        self.frame_counter = self.frame_counter.wrapping_add(1);
        Ok(frame)
    }

    /// The recorded events.
    pub fn get_events(&self) -> (r: &[TimelineEvent])
        ensures
            r@ == self.event_seq(),
    {
        self.events.as_slice()
    }

    /// The recorded memory snapshots.
    pub fn get_memory_snapshots(&self) -> (r: &[TimelineMemorySnapshot])
        ensures
            r@ == self.snapshot_seq(),
    {
        self.memory_snapshots.as_slice()
    }

    /// The recorded frames.
    pub fn get_frames(&self) -> (r: &[FrameTiming])
        ensures
            r@ == self.frame_seq(),
    {
        self.frames.as_slice()
    }

    /// Records an event of a category at a time, while a recording runs.
    fn record_category_event(
        &mut self,
        event_type: &str,
        category: TimelineEventCategory,
        start_time_bits: u64,
        duration_bits: u64,
        data: Option<String>,
    )
        ensures
            !old(self).is_rec() ==> *final(self) == *old(self),
            old(self).is_rec() ==> {
                &&& final(self).event_seq().len() == old(self).event_seq().len() + 1
                &&& final(self).event_seq().drop_last() == old(self).event_seq()
                &&& final(self).event_seq().last().event_type@ == event_type@
                &&& final(self).event_seq().last().category == category
                &&& final(self).event_seq().last().start_time_bits == start_time_bits
                &&& final(self).event_seq().last().duration_bits == duration_bits
                &&& final(self).event_seq().last().data == data
            },
            final(self).is_rec() == old(self).is_rec(),
            final(self).is_on() == old(self).is_on(),
            final(self).snapshot_seq() == old(self).snapshot_seq(),
            final(self).frame_seq() == old(self).frame_seq(),
    {
        proof {
            use_type_invariant(&*self);
        }
        if !self.recording {
            return;
        }
        let mut event = TimelineEvent::new(owned(event_type), category, start_time_bits).with_duration(
            duration_bits,
        );
        match data {
            Some(d) => {
                event = event.with_data(d);
            },
            None => {},
        }
        let mut events: Vec<TimelineEvent> = Vec::new();
        std::mem::swap(&mut events, &mut self.events);
        events.push(event);
        self.events = events;
        proof {
            assert(self.events@.drop_last() =~= old(self).events@);
        }
    }

    /// Records a scripting event starting at `now_bits`, while a recording
    /// runs (no limit or filter applies).
    pub fn record_scripting_event(&mut self, event_type: &str, now_bits: u64, duration_bits: u64, data: Option<String>)
        ensures
            !old(self).is_rec() ==> *final(self) == *old(self),
            old(self).is_rec() ==> {
                &&& final(self).event_seq().drop_last() == old(self).event_seq()
                &&& final(self).event_seq().len() == old(self).event_seq().len() + 1
                &&& final(self).event_seq().last().category == TimelineEventCategory::Scripting
                &&& final(self).event_seq().last().event_type@ == event_type@
                &&& final(self).event_seq().last().start_time_bits == now_bits
                &&& final(self).event_seq().last().duration_bits == duration_bits
                &&& final(self).event_seq().last().data == data
            },
            final(self).is_rec() == old(self).is_rec(),
    {
        proof {
            use_type_invariant(&*self);
        }
        self.record_category_event(event_type, TimelineEventCategory::Scripting, now_bits, duration_bits, data);
    }

    /// Records a rendering event starting at `now_bits`, while a recording
    /// runs.
    pub fn record_rendering_event(&mut self, event_type: &str, now_bits: u64, duration_bits: u64, data: Option<String>)
        ensures
            !old(self).is_rec() ==> *final(self) == *old(self),
            old(self).is_rec() ==> {
                &&& final(self).event_seq().drop_last() == old(self).event_seq()
                &&& final(self).event_seq().len() == old(self).event_seq().len() + 1
                &&& final(self).event_seq().last().category == TimelineEventCategory::Rendering
                &&& final(self).event_seq().last().event_type@ == event_type@
                &&& final(self).event_seq().last().start_time_bits == now_bits
                &&& final(self).event_seq().last().duration_bits == duration_bits
                &&& final(self).event_seq().last().data == data
            },
            final(self).is_rec() == old(self).is_rec(),
    {
        proof {
            use_type_invariant(&*self);
        }
        self.record_category_event(event_type, TimelineEventCategory::Rendering, now_bits, duration_bits, data);
    }

    /// Records a painting event starting at `now_bits`, while a recording
    /// runs.
    pub fn record_painting_event(&mut self, event_type: &str, now_bits: u64, duration_bits: u64, data: Option<String>)
        ensures
            !old(self).is_rec() ==> *final(self) == *old(self),
            old(self).is_rec() ==> {
                &&& final(self).event_seq().drop_last() == old(self).event_seq()
                &&& final(self).event_seq().len() == old(self).event_seq().len() + 1
                &&& final(self).event_seq().last().category == TimelineEventCategory::Painting
                &&& final(self).event_seq().last().event_type@ == event_type@
                &&& final(self).event_seq().last().start_time_bits == now_bits
                &&& final(self).event_seq().last().duration_bits == duration_bits
                &&& final(self).event_seq().last().data == data
            },
            final(self).is_rec() == old(self).is_rec(),
    {
        proof {
            use_type_invariant(&*self);
        }
        self.record_category_event(event_type, TimelineEventCategory::Painting, now_bits, duration_bits, data);
    }

    /// Records a loading event starting at `now_bits`, while a recording
    /// runs; its data is the URL object when a URL is given (as JSON text).
    pub fn record_loading_event(&mut self, event_type: &str, now_bits: u64, duration_bits: u64, url_data: Option<String>)
        ensures
            !old(self).is_rec() ==> *final(self) == *old(self),
            old(self).is_rec() ==> {
                &&& final(self).event_seq().drop_last() == old(self).event_seq()
                &&& final(self).event_seq().len() == old(self).event_seq().len() + 1
                &&& final(self).event_seq().last().category == TimelineEventCategory::Loading
                &&& final(self).event_seq().last().event_type@ == event_type@
                &&& final(self).event_seq().last().start_time_bits == now_bits
                &&& final(self).event_seq().last().duration_bits == duration_bits
                &&& final(self).event_seq().last().data == url_data
            },
            final(self).is_rec() == old(self).is_rec(),
    {
        proof {
            use_type_invariant(&*self);
        }
        self.record_category_event(event_type, TimelineEventCategory::Loading, now_bits, duration_bits, url_data);
    }

    /// The number of recorded events.
    pub fn event_count(&self) -> (n: usize)
        ensures
            n == self.event_seq().len(),
    {
        self.events.len()
    }

    /// The number of recorded frames.
    pub fn frame_count(&self) -> (n: usize)
        ensures
            n == self.frame_seq().len(),
    {
        self.frames.len()
    }

    /// The number of memory snapshots.
    pub fn memory_snapshot_count(&self) -> (n: usize)
        ensures
            n == self.snapshot_seq().len(),
    {
        self.memory_snapshots.len()
    }
}

/// Whether a category occurs in a list.
fn contains_category(list: &Vec<TimelineEventCategory>, c: TimelineEventCategory) -> (r: bool)
    ensures
        r == list@.contains(c),
{
    let mut i: usize = 0;
    while i < list.len()
        invariant
            i <= list@.len(),
            forall|k: int| 0 <= k < i ==> list@[k] != c,
        decreases list@.len() - i,
    {
        if list[i] == c {
            return true;
        }
        i = i + 1;
    }
    false
}

impl Default for TimelineDomain {
    /// The same as `new`.
    fn default() -> (d: Self)
        ensures
            !d.is_on(),
            !d.is_rec(),
            d.event_seq().len() == 0,
            d.snapshot_seq().len() == 0,
            d.frame_seq().len() == 0,
            d.max_events() == 10000,
    {
        TimelineDomain::new()
    }
}

} // verus!
