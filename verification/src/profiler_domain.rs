//! The Profiler domain: switches for profiling and precise coverage over
//! the sampling CPU profiler, with simulated data where nothing was
//! recorded.

use vstd::prelude::*;
use crate::clock;
use crate::cpu_profiler::CpuProfiler;
use crate::profiler_types::{
    CallFrame, CoverageRange, EnhancedProfileNode, ExportableProfile, FunctionCoverage, NodeView,
    ScriptCoverage,
};
use crate::protocol::ProtocolError;
use crate::text::owned;

verus! {

/// Whether a range is `start..end` run `count` times.
pub open spec fn is_range(r: CoverageRange, start: u32, end: u32, count: u32) -> bool {
    r.start_offset == start && r.end_offset == end && r.count == count
}

/// The simulated coverage: `main` of script 1 (`script.js`) with ranges
/// 0..100 run five times and 100..200 run three times, and `helper` of
/// script 2 (`utils.js`) with 0..50 run ten times; block coverage.
pub open spec fn simulated_coverage(c: Seq<ScriptCoverage>) -> bool {
    &&& c.len() == 2
    &&& c[0].script_id@ == "1"@
    &&& c[0].url@ == "http://example.com/script.js"@
    &&& c[0].functions@.len() == 1
    &&& c[0].functions@[0].function_name@ == "main"@
    &&& c[0].functions@[0].is_block_coverage
    &&& c[0].functions@[0].ranges@.len() == 2
    &&& is_range(c[0].functions@[0].ranges@[0], 0, 100, 5)
    &&& is_range(c[0].functions@[0].ranges@[1], 100, 200, 3)
    &&& c[1].script_id@ == "2"@
    &&& c[1].url@ == "http://example.com/utils.js"@
    &&& c[1].functions@.len() == 1
    &&& c[1].functions@[0].function_name@ == "helper"@
    &&& c[1].functions@[0].is_block_coverage
    &&& c[1].functions@[0].ranges@.len() == 1
    &&& is_range(c[1].functions@[0].ranges@[0], 0, 50, 10)
}

/// Whether a node has a frame with these fields.
pub open spec fn has_frame(n: NodeView, name: Seq<char>, script: Seq<char>, url: Seq<char>, line: i32, column: i32) -> bool {
    &&& n.frame.function_name@ == name
    &&& n.frame.script_id@ == script
    &&& n.frame.url@ == url
    &&& n.frame.line_number == line
    &&& n.frame.column_number == column
}

/// The simulated profile between two times: a root node 1 with the child
/// `main` (node 2, ten hits), eleven samples (the root, then `main` ten
/// times) a thousand then a hundred microseconds apart.
pub open spec fn simulated_profile(p: ExportableProfile, start: u128, end: u128) -> bool {
    let nodes = p.nodes@.map_values(|n: EnhancedProfileNode| n@);
    &&& nodes.len() == 2
    &&& nodes[0].id == 1
    &&& has_frame(nodes[0], "(root)"@, "0"@, ""@, 0, 0)
    &&& nodes[0].hit_count == Some(0u32)
    &&& nodes[0].children == Some(seq![2u32])
    &&& nodes[0].deopt_reason is None
    &&& nodes[0].ticks is None
    &&& nodes[1].id == 2
    &&& has_frame(nodes[1], "main"@, "1"@, "http://example.com/script.js"@, 10, 5)
    &&& nodes[1].hit_count == Some(10u32)
    &&& nodes[1].children is None
    &&& nodes[1].deopt_reason is None
    &&& nodes[1].ticks is None
    &&& p.start_time == start
    &&& p.end_time == end
    &&& p.samples matches Some(s) && s@ == seq![1u32, 2, 2, 2, 2, 2, 2, 2, 2, 2, 2]
    &&& p.time_deltas matches Some(d) && d@ == seq![1000u32, 100, 100, 100, 100, 100, 100, 100, 100, 100, 100]
    &&& p.title is None
}

fn frame(name: &str, script: &str, url: &str, line: i32, column: i32) -> (f: CallFrame)
    ensures
        f.function_name@ == name@,
        f.script_id@ == script@,
        f.url@ == url@,
        f.line_number == line,
        f.column_number == column,
{
    CallFrame {
        function_name: owned(name),
        script_id: owned(script),
        url: owned(url),
        line_number: line,
        column_number: column,
    }
}

fn function_coverage(name: &str, ranges: Vec<CoverageRange>) -> (f: FunctionCoverage)
    ensures
        f.function_name@ == name@,
        f.ranges@ == ranges@,
        f.is_block_coverage,
{
    FunctionCoverage { function_name: owned(name), ranges, is_block_coverage: true }
}

fn script_coverage(id: &str, url: &str, f: FunctionCoverage) -> (s: ScriptCoverage)
    ensures
        s.script_id@ == id@,
        s.url@ == url@,
        s.functions@ == seq![f],
{
    let mut functions: Vec<FunctionCoverage> = Vec::new();
    functions.push(f);
    proof {
        assert(functions@ =~= seq![f]);
    }
    ScriptCoverage { script_id: owned(id), url: owned(url), functions }
}

/// The simulated coverage data.
pub fn generate_mock_coverage() -> (c: Vec<ScriptCoverage>)
    ensures
        simulated_coverage(c@),
{
    let mut main_ranges: Vec<CoverageRange> = Vec::new();
    main_ranges.push(CoverageRange { start_offset: 0, end_offset: 100, count: 5 });
    main_ranges.push(CoverageRange { start_offset: 100, end_offset: 200, count: 3 });
    let mut helper_ranges: Vec<CoverageRange> = Vec::new();
    helper_ranges.push(CoverageRange { start_offset: 0, end_offset: 50, count: 10 });
    let mut c: Vec<ScriptCoverage> = Vec::new();
    c.push(script_coverage("1", "http://example.com/script.js", function_coverage("main", main_ranges)));
    c.push(script_coverage("2", "http://example.com/utils.js", function_coverage("helper", helper_ranges)));
    c
}

/// The simulated profile between two times.
pub fn generate_mock_profile(start_time: u128, end_time: u128) -> (p: ExportableProfile)
    ensures
        simulated_profile(p, start_time, end_time),
{
    let mut root_children: Vec<u32> = Vec::new();
    root_children.push(2);
    let mut nodes: Vec<EnhancedProfileNode> = Vec::new();
    nodes.push(
        EnhancedProfileNode {
            id: 1,
            call_frame: frame("(root)", "0", "", 0, 0),
            hit_count: Some(0),
            children: Some(root_children),
            deopt_reason: None,
            position_ticks: None,
        },
    );
    nodes.push(
        EnhancedProfileNode {
            id: 2,
            call_frame: frame("main", "1", "http://example.com/script.js", 10, 5),
            hit_count: Some(10),
            children: None,
            deopt_reason: None,
            position_ticks: None,
        },
    );
    let mut samples: Vec<u32> = Vec::new();
    let mut deltas: Vec<u32> = Vec::new();
    samples.push(1);
    deltas.push(1000);
    let mut k: usize = 0;
    while k < 10
        invariant
            k <= 10,
            samples@ == seq![1u32] + Seq::new(k as nat, |i: int| 2u32),
            deltas@ == seq![1000u32] + Seq::new(k as nat, |i: int| 100u32),
        decreases 10 - k,
    {
        samples.push(2);
        deltas.push(100);
        k = k + 1;
        proof {
            assert(samples@ =~= seq![1u32] + Seq::new(k as nat, |i: int| 2u32));
            assert(deltas@ =~= seq![1000u32] + Seq::new(k as nat, |i: int| 100u32));
        }
    }
    proof {
        assert(samples@ =~= seq![1u32, 2, 2, 2, 2, 2, 2, 2, 2, 2, 2]);
        assert(deltas@ =~= seq![1000u32, 100, 100, 100, 100, 100, 100, 100, 100, 100, 100]);
        reveal_strlit("");
    }
    let p = ExportableProfile {
        nodes,
        start_time,
        end_time,
        samples: Some(samples),
        time_deltas: Some(deltas),
        title: None,
    };
    proof {
        let v = p.nodes@.map_values(|n: EnhancedProfileNode| n@);
        assert(v[0] == p.nodes@[0]@);
        assert(v[1] == p.nodes@[1]@);
        assert(v[0].children == Some(seq![2u32]));
    }
    p
}

/// The Profiler domain.
#[derive(Debug)]
pub struct ProfilerDomain {
    profiling_active: bool,
    coverage_active: bool,
    coverage_data: Vec<ScriptCoverage>,
    profile_start_time: u128,
    enabled: bool,
    sampling_interval: u32,
    cpu_profiler: CpuProfiler,
}

impl ProfilerDomain {
    pub closed spec fn is_on(&self) -> bool {
        self.enabled
    }

    pub closed spec fn profiling(&self) -> bool {
        self.profiling_active
    }

    pub closed spec fn covering(&self) -> bool {
        self.coverage_active
    }

    pub closed spec fn interval(&self) -> u32 {
        self.sampling_interval
    }

    /// When profiling last started, in microseconds since the epoch.
    pub closed spec fn started_at(&self) -> u128 {
        self.profile_start_time
    }

    pub closed spec fn profiler(&self) -> CpuProfiler {
        self.cpu_profiler
    }

    /// The domain's invariant: its CPU profiler is well formed.
    pub closed spec fn wf(&self) -> bool {
        self.cpu_profiler.wf()
    }

    /// A disabled domain sampling every 100 microseconds.
    pub fn new() -> (d: Self)
        ensures
            d.wf(),
            !d.is_on(),
            !d.profiling(),
            !d.covering(),
            d.interval() == 100,
            !d.profiler().active(),
            d.profiler().interval() == 100,
            d.profiler().node_seq().len() == 0,
            d.profiler().sample_seq().len() == 0,
    {
        ProfilerDomain {
            profiling_active: false,
            coverage_active: false,
            coverage_data: Vec::new(),
            profile_start_time: 0,
            enabled: false,
            sampling_interval: 100,
            cpu_profiler: CpuProfiler::new(),
        }
    }

    /// The domain's name.
    pub fn name(&self) -> (n: &'static str)
        ensures
            n@ == "Profiler"@,
    {
        "Profiler"
    }

    /// Whether profiling is on.
    pub fn is_profiling(&self) -> (r: bool)
        ensures
            r == self.profiling(),
    {
        self.profiling_active
    }

    /// Whether precise coverage is on.
    pub fn is_coverage_active(&self) -> (r: bool)
        ensures
            r == self.covering(),
    {
        self.coverage_active
    }

    /// The sampling interval in microseconds.
    pub fn get_sampling_interval(&self) -> (r: u32)
        ensures
            r == self.interval(),
    {
        self.sampling_interval
    }

    /// The CPU profiler.
    pub fn cpu_profiler(&self) -> (p: &CpuProfiler)
        ensures
            *p == self.profiler(),
    {
        &self.cpu_profiler
    }

    /// The CPU profiler, to record samples into.
    pub fn cpu_profiler_mut(&mut self) -> (p: &mut CpuProfiler)
        ensures
            *p == old(self).profiler(),
            *final(p) == final(self).profiler(),
            final(self).is_on() == old(self).is_on(),
            final(self).profiling() == old(self).profiling(),
            final(self).covering() == old(self).covering(),
            final(self).interval() == old(self).interval(),
    {
        &mut self.cpu_profiler
    }

    /// Enables the domain.
    pub fn enable(&mut self)
        requires
            old(self).wf(),
        ensures
            final(self).wf(),
            final(self).is_on(),
            final(self).profiling() == old(self).profiling(),
            final(self).covering() == old(self).covering(),
            final(self).profiler() == old(self).profiler(),
    {
        self.enabled = true;
    }

    /// Disables the domain, ending profiling and coverage.
    pub fn disable(&mut self)
        requires
            old(self).wf(),
        ensures
            final(self).wf(),
            !final(self).is_on(),
            !final(self).profiling(),
            !final(self).covering(),
            final(self).profiler() == old(self).profiler(),
    {
        self.enabled = false;
        self.profiling_active = false;
        self.coverage_active = false;
    }

    /// Sets the sampling interval (truncated to 32 bits), here and in the
    /// CPU profiler.
    pub fn set_sampling_interval(&mut self, interval: u64)
        requires
            old(self).wf(),
        ensures
            final(self).wf(),
            final(self).interval() == interval as u32,
            final(self).profiler().interval() == interval as u32,
            final(self).profiler().active() == old(self).profiler().active(),
            final(self).profiler().node_seq() == old(self).profiler().node_seq(),
            final(self).profiler().sample_seq() == old(self).profiler().sample_seq(),
            final(self).is_on() == old(self).is_on(),
            final(self).profiling() == old(self).profiling(),
    {
        self.sampling_interval = interval as u32;
        self.cpu_profiler.set_sampling_interval(interval as u32);
    }

    /// Starts profiling (and the CPU profiler, unless it already runs).
    /// Refused while disabled.
    pub fn start(&mut self) -> (r: Result<(), ProtocolError>)
        requires
            old(self).wf(),
        ensures
            final(self).wf(),
            !old(self).is_on() ==> (r matches Err(ProtocolError::InvalidRequest) && *final(self) == *old(self)),
            old(self).is_on() ==> {
                &&& r is Ok
                &&& final(self).profiling()
                &&& final(self).profiler().active()
                &&& old(self).profiler().active() ==> final(self).profiler() == old(self).profiler()
                &&& !old(self).profiler().active() ==> final(self).profiler().sample_seq().len() == 0
            },
    {
        if !self.enabled {
            return Err(ProtocolError::InvalidRequest);
        }
        let _ = self.cpu_profiler.start();
        self.profiling_active = true;
        self.profile_start_time = clock::now_micros();
        Ok(())
    }

    /// Stops profiling and gives the recorded profile, or the simulated one
    /// from the start time to now when the CPU profiler was idle. Refused
    /// while not profiling.
    pub fn stop(&mut self) -> (r: Result<ExportableProfile, ProtocolError>)
        requires
            old(self).wf(),
        ensures
            final(self).wf(),
            !old(self).profiling() ==> (r matches Err(ProtocolError::InvalidRequest) && *final(self)
                == *old(self)),
            old(self).profiling() ==> {
                &&& !final(self).profiling()
                &&& !final(self).profiler().active()
                &&& old(self).profiler().active() ==> (r matches Ok(p) && p.nodes@.map_values(
                    |n: EnhancedProfileNode| n@,
                ) == old(self).profiler().node_seq() && p.title is None == old(self).profiler().title_view() is None)
                &&& !old(self).profiler().active() ==> (r matches Ok(p) && simulated_profile(
                    p,
                    old(self).started_at(),
                    p.end_time,
                ))
            },
    {
        if !self.profiling_active {
            return Err(ProtocolError::InvalidRequest);
        }
        self.profiling_active = false;
        match self.cpu_profiler.stop() {
            Ok(p) => Ok(p),
            Err(_) => {
                let end_time = clock::now_micros();
                Ok(generate_mock_profile(self.profile_start_time, end_time))
            },
        }
    }

    /// Starts precise coverage, clearing what was collected. Refused while
    /// disabled.
    pub fn start_precise_coverage(&mut self) -> (r: Result<(), ProtocolError>)
        requires
            old(self).wf(),
        ensures
            final(self).wf(),
            !old(self).is_on() ==> (r matches Err(ProtocolError::InvalidRequest) && *final(self) == *old(self)),
            old(self).is_on() ==> r is Ok && final(self).covering() && final(self).profiler() == old(self).profiler() && final(self).profiling() == old(self).profiling(),
    {
        if !self.enabled {
            return Err(ProtocolError::InvalidRequest);
        }
        self.coverage_active = true;
        self.coverage_data = Vec::new();
        Ok(())
    }

    /// Stops precise coverage.
    pub fn stop_precise_coverage(&mut self)
        requires
            old(self).wf(),
        ensures
            final(self).wf(),
            !final(self).covering(),
            final(self).profiler() == old(self).profiler(),
            final(self).is_on() == old(self).is_on(),
            final(self).profiling() == old(self).profiling(),
    {
        self.coverage_active = false;
        self.coverage_data = Vec::new();
    }

    /// The simulated coverage and the time now. Refused while precise
    /// coverage is off.
    pub fn take_precise_coverage(&self) -> (r: Result<(Vec<ScriptCoverage>, u128), ProtocolError>)
        ensures
            !self.covering() ==> r matches Err(ProtocolError::InvalidRequest),
            self.covering() ==> (r matches Ok(c) && simulated_coverage(c.0@)),
    {
        if !self.coverage_active {
            return Err(ProtocolError::InvalidRequest);
        }
        let coverage = generate_mock_coverage();
        let timestamp = clock::now_micros();
        Ok((coverage, timestamp))
    }

    /// The simulated best-effort coverage.
    pub fn get_best_effort_coverage(&self) -> (c: Vec<ScriptCoverage>)
        ensures
            simulated_coverage(c@),
    {
        generate_mock_coverage()
    }
}

} // verus!
