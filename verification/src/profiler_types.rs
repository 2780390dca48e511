//! Data shared by the profilers: call frames, profile nodes, samples,
//! coverage records and timeline categories.
//!
//! Times are whole microseconds since the UNIX epoch; durations and other
//! fractional quantities are left to the protocol layer.

use vstd::prelude::*;
use crate::text::owned;

verus! {

/// One frame of a sampled call stack.
#[derive(Debug)]
pub struct CallFrame {
    pub function_name: String,
    pub script_id: String,
    pub url: String,
    pub line_number: i32,
    pub column_number: i32,
}

impl Clone for CallFrame {
    fn clone(&self) -> (r: Self)
        ensures
            r == *self,
    {
        CallFrame {
            function_name: self.function_name.clone(),
            script_id: self.script_id.clone(),
            url: self.url.clone(),
            line_number: self.line_number,
            column_number: self.column_number,
        }
    }
}

impl Default for CallFrame {
    /// An anonymous frame of script `0`.
    fn default() -> (r: Self)
        ensures
            r.function_name@ == Seq::<char>::empty(),
            r.script_id@ == "0"@,
            r.url@ == Seq::<char>::empty(),
            r.line_number == 0,
            r.column_number == 0,
    {
        CallFrame {
            function_name: String::new(),
            script_id: owned("0"),
            url: String::new(),
            line_number: 0,
            column_number: 0,
        }
    }
}

/// How many samples landed on one source line of a node.
#[derive(Debug, Clone, Copy, PartialEq, Eq, Structural)]
pub struct PositionTickInfo {
    pub line: u32,
    pub ticks: u32,
}

/// A node of the sampled call tree, as the profile format lists them.
#[derive(Debug)]
pub struct EnhancedProfileNode {
    pub id: u32,
    pub call_frame: CallFrame,
    pub hit_count: Option<u32>,
    pub children: Option<Vec<u32>>,
    pub deopt_reason: Option<String>,
    pub position_ticks: Option<Vec<PositionTickInfo>>,
}

/// What a profile node holds, with its lists as sequences.
pub struct NodeView {
    pub id: u32,
    pub frame: CallFrame,
    pub hit_count: Option<u32>,
    pub children: Option<Seq<u32>>,
    pub deopt_reason: Option<Seq<char>>,
    pub ticks: Option<Seq<PositionTickInfo>>,
}

impl View for EnhancedProfileNode {
    type V = NodeView;

    open spec fn view(&self) -> NodeView {
        NodeView {
            id: self.id,
            frame: self.call_frame,
            hit_count: self.hit_count,
            children: match self.children {
                Some(c) => Some(c@),
                None => None,
            },
            deopt_reason: match self.deopt_reason {
                Some(d) => Some(d@),
                None => None,
            },
            ticks: match self.position_ticks {
                Some(t) => Some(t@),
                None => None,
            },
        }
    }
}

/// A copy of a list of integers.
pub fn copy_ids(v: &Vec<u32>) -> (r: Vec<u32>)
    ensures
        r@ == v@,
{
    let mut r: Vec<u32> = Vec::new();
    let mut i: usize = 0;
    while i < v.len()
        invariant
            i <= v.len(),
            r@ == v@.take(i as int),
        decreases v.len() - i,
    {
        r.push(v[i]);
        i = i + 1;
        proof {
            assert(r@ =~= v@.take(i as int));
        }
    }
    proof {
        assert(v@.take(v@.len() as int) =~= v@);
    }
    r
}

/// A copy of a list of position ticks.
pub fn copy_ticks(v: &Vec<PositionTickInfo>) -> (r: Vec<PositionTickInfo>)
    ensures
        r@ == v@,
{
    let mut r: Vec<PositionTickInfo> = Vec::new();
    let mut i: usize = 0;
    while i < v.len()
        invariant
            i <= v.len(),
            r@ == v@.take(i as int),
        decreases v.len() - i,
    {
        r.push(v[i]);
        i = i + 1;
        proof {
            assert(r@ =~= v@.take(i as int));
        }
    }
    proof {
        assert(v@.take(v@.len() as int) =~= v@);
    }
    r
}

impl Clone for EnhancedProfileNode {
    fn clone(&self) -> (r: Self)
        ensures
            r@ == self@,
    {
        EnhancedProfileNode {
            id: self.id,
            call_frame: self.call_frame.clone(),
            hit_count: self.hit_count,
            children: match &self.children {
                Some(c) => Some(copy_ids(c)),
                None => None,
            },
            deopt_reason: match &self.deopt_reason {
                Some(d) => Some(d.clone()),
                None => None,
            },
            position_ticks: match &self.position_ticks {
                Some(t) => Some(copy_ticks(t)),
                None => None,
            },
        }
    }
}

/// One CPU sample: the node it landed on and when, in microseconds since
/// the epoch.
#[derive(Debug, Clone, Copy, PartialEq, Eq, Structural)]
pub struct CpuSample {
    pub node_id: u32,
    pub timestamp: u128,
}

/// A node of the call tree built from a profile. The time columns (hit
/// count times the sampling interval, and that plus the children's) are
/// computed by the protocol layer in floating point.
#[derive(Debug)]
pub struct CallTreeNode {
    pub function_name: String,
    pub hit_count: u32,
    pub children: Vec<CallTreeNode>,
    pub url: String,
    pub line_number: i32,
}

/// A finished CPU profile.
#[derive(Debug)]
pub struct ExportableProfile {
    pub nodes: Vec<EnhancedProfileNode>,
    /// Microseconds since the epoch.
    pub start_time: u128,
    /// Microseconds since the epoch.
    pub end_time: u128,
    pub samples: Option<Vec<u32>>,
    pub time_deltas: Option<Vec<u32>>,
    pub title: Option<String>,
}

/// A covered byte range of a function.
#[derive(Debug, Clone, Copy, PartialEq, Eq, Structural)]
pub struct CoverageRange {
    pub start_offset: u32,
    pub end_offset: u32,
    pub count: u32,
}

/// The coverage of one function.
#[derive(Debug, Clone)]
pub struct FunctionCoverage {
    pub function_name: String,
    pub ranges: Vec<CoverageRange>,
    pub is_block_coverage: bool,
}

/// The coverage of one script.
#[derive(Debug, Clone)]
pub struct ScriptCoverage {
    pub script_id: String,
    pub url: String,
    pub functions: Vec<FunctionCoverage>,
}

/// The category of a timeline event.
#[derive(Debug, Clone, Copy, PartialEq, Eq, Structural)]
pub enum TimelineEventCategory {
    Scripting,
    Rendering,
    Painting,
    Loading,
    Other,
}

/// The lowercase name of a category.
pub open spec fn category_name(c: TimelineEventCategory) -> Seq<char> {
    match c {
        TimelineEventCategory::Scripting => "scripting"@,
        TimelineEventCategory::Rendering => "rendering"@,
        TimelineEventCategory::Painting => "painting"@,
        TimelineEventCategory::Loading => "loading"@,
        TimelineEventCategory::Other => "other"@,
    }
}

impl TimelineEventCategory {
    /// The lowercase name of the category.
    pub fn to_string(&self) -> (s: String)
        ensures
            s@ == category_name(*self),
    {
        match self {
            TimelineEventCategory::Scripting => owned("scripting"),
            TimelineEventCategory::Rendering => owned("rendering"),
            TimelineEventCategory::Painting => owned("painting"),
            TimelineEventCategory::Loading => owned("loading"),
            TimelineEventCategory::Other => owned("other"),
        }
    }
}

impl Default for TimelineEventCategory {
    fn default() -> (c: Self)
        ensures
            c == TimelineEventCategory::Other,
    {
        TimelineEventCategory::Other
    }
}

/// One sampled allocation of a heap snapshot.
#[derive(Debug, Clone, Copy, PartialEq, Eq, Structural)]
pub struct HeapSnapshotSample {
    pub size: u64,
    pub node_id: u32,
    pub ordinal: u32,
}

/// A heap statistics update: triplets of index, count and size.
#[derive(Debug)]
pub struct HeapStatsUpdate {
    pub stats_update: Vec<u64>,
}

/// The last object id seen, with its timestamp in microseconds as the
/// bits of a float.
#[derive(Debug, Clone, Copy, PartialEq, Eq, Structural)]
pub struct LastSeenObjectId {
    pub last_seen_object_id: u32,
    pub timestamp_bits: u64,
}

/// A piece of a streamed heap snapshot.
#[derive(Debug)]
pub struct HeapSnapshotChunk {
    pub chunk: String,
}

/// How far a heap snapshot has got.
#[derive(Debug, Clone, Copy, PartialEq, Eq, Structural)]
pub struct HeapSnapshotProgress {
    pub done: u32,
    pub total: u32,
    pub finished: Option<bool>,
}

} // verus!
