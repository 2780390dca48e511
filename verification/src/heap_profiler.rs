//! The HeapProfiler domain: allocation sampling over the memory profiler,
//! sampling profiles built from call-site summaries, and the bookkeeping of
//! heap object tracking.

use vstd::prelude::*;
use vstd::string::StringSliceAdditionalSpecFns;
use vstd::utf8::{decode_utf8, valid_utf8};
use crate::memory_profiler::{
    summaries, summary_view, AllocView, AllocationSummary, MemoryProfiler, MemorySnapshot, SummaryView,
};
use crate::profiler_types::{CallFrame, HeapSnapshotChunk};
use crate::protocol::ProtocolError;
use crate::source_map::utf8_to_string;
use crate::text::{chars_of, concat_str, owned, split_chars, split_on, string_from_chars, views_of};

verus! {

// ---------------------------------------------------------------------------
// Integer text
// ---------------------------------------------------------------------------

/// Whether a character is an ASCII digit.
pub open spec fn is_digit(c: char) -> bool {
    '0' <= c <= '9'
}

/// The value of a string of decimal digits.
pub open spec fn digits_value(s: Seq<char>) -> int
    decreases s.len(),
{
    if s.len() == 0 {
        0
    } else {
        digits_value(s.drop_last()) * 10 + (s.last() as int - '0' as int)
    }
}

/// The text after an optional sign.
pub open spec fn unsigned_part(s: Seq<char>) -> Seq<char> {
    if s.len() > 0 && (s[0] == '-' || s[0] == '+') {
        s.drop_first()
    } else {
        s
    }
}

/// Whether every character is an ASCII digit.
pub open spec fn all_digits(b: Seq<char>) -> bool {
    forall|k: int| 0 <= k < b.len() ==> is_digit(#[trigger] b[k])
}

/// A signed decimal integer as `str::parse::<i32>` reads it: an optional
/// `+` or `-`, then one or more ASCII digits, with the value in range.
pub open spec fn parse_i32(s: Seq<char>) -> Option<i32> {
    let negative = s.len() > 0 && s[0] == '-';
    let body = unsigned_part(s);
    let value = if negative {
        -digits_value(body)
    } else {
        digits_value(body)
    };
    if body.len() == 0 || !all_digits(body) {
        None
    } else if value < i32::MIN || value > i32::MAX {
        None
    } else {
        Some(value as i32)
    }
}

proof fn lemma_digits_value_grows(s: Seq<char>, n: int)
    requires
        0 <= n <= s.len(),
        forall|k: int| 0 <= k < s.len() ==> is_digit(#[trigger] s[k]),
    ensures
        0 <= digits_value(s.take(n)) <= digits_value(s),
    decreases s.len() - n,
{
    if n < s.len() {
        lemma_digits_value_grows(s.drop_last(), n);
        assert(s.drop_last().take(n) =~= s.take(n));
        assert(is_digit(s.last()));
    } else {
        assert(s.take(n) =~= s);
    }
    lemma_digits_value_nonneg(s);
}

proof fn lemma_digits_value_nonneg(s: Seq<char>)
    requires
        forall|k: int| 0 <= k < s.len() ==> is_digit(#[trigger] s[k]),
    ensures
        digits_value(s) >= 0,
    decreases s.len(),
{
    if s.len() > 0 {
        lemma_digits_value_nonneg(s.drop_last());
        assert(is_digit(s.last()));
    }
}

/// Reads a signed decimal integer as `str::parse::<i32>` does.
pub fn parse_i32_text(s: &[char]) -> (r: Option<i32>)
    ensures
        r == parse_i32(s@),
{
    let n = s.len();
    let negative = n > 0 && s[0] == '-';
    let start: usize = if n > 0 && (s[0] == '-' || s[0] == '+') {
        1
    } else {
        0
    };
    let ghost body = unsigned_part(s@);
    assert(body =~= s@.subrange(start as int, n as int));
    if start == n {
        return None;
    }
    let mut value: i64 = 0;
    let mut i: usize = start;
    let mut too_big = false;
    while i < n
        invariant
            n == s@.len(),
            start <= i <= n,
            body == unsigned_part(s@),
            body == s@.subrange(start as int, n as int),
            forall|k: int| 0 <= k < i - start ==> is_digit(#[trigger] body[k]),
            !too_big ==> value == digits_value(body.take(i - start)),
            too_big ==> digits_value(body.take(i - start)) > 0x8000_0000,
            0 <= value <= 0x8000_0000,
        decreases n - i,
    {
        let c = s[i];
        if !('0' <= c && c <= '9') {
            proof {
                assert(body[i - start] == c);
                assert(!is_digit(body[i - start]));
                assert(!all_digits(body));
            }
            return None;
        }
        proof {
            assert(body.take(i - start + 1).drop_last() =~= body.take(i - start));
            assert(body.take(i - start + 1).last() == c);
        }
        if !too_big {
            let d = (c as u32 - '0' as u32) as i64;
            let next = value * 10 + d;
            if next > 0x8000_0000 {
                too_big = true;
            } else {
                value = next;
            }
        } else {
            proof {
                let t = body.take(i - start);
                assert(digits_value(body.take(i - start + 1)) == digits_value(t) * 10 + (c as int - '0' as int));
            }
        }
        i = i + 1;
    }
    proof {
        assert(body.take(n - start) =~= body);
    }
    if too_big {
        return None;
    }
    if negative {
        let v = -value;
        if v < -0x8000_0000 {
            return None;
        }
        Some(v as i32)
    } else {
        if value > 0x7fff_ffff {
            return None;
        }
        Some(value as i32)
    }
}

// ---------------------------------------------------------------------------
// Sampling profiles
// ---------------------------------------------------------------------------

/// A node of a sampling heap profile.
#[derive(Debug)]
pub struct SamplingHeapProfileNode {
    pub call_frame: CallFrame,
    pub self_size: u64,
    pub id: u32,
    pub children: Vec<SamplingHeapProfileNode>,
}

/// A sampling heap profile; the samples are JSON texts.
#[derive(Debug)]
pub struct SamplingHeapProfile {
    pub head: SamplingHeapProfileNode,
    pub samples: Vec<String>,
}

/// The function name and line of a `function:line` call site: the text
/// before the first colon, and the text between the first and second
/// colons read as an integer (zero when absent or not a number).
pub open spec fn site_parts(site: Seq<char>) -> (Seq<char>, i32) {
    let parts = split_on(site, ':');
    let line = if parts.len() > 1 {
        match parse_i32(parts[1]) {
            Some(v) => v,
            None => 0i32,
        }
    } else {
        0i32
    };
    (parts[0], line)
}

/// Whether a frame is a root frame (`(root)` of script `0`).
pub open spec fn is_root_frame(f: CallFrame) -> bool {
    &&& f.function_name@ == "(root)"@
    &&& f.script_id@ == "0"@
    &&& f.url@ == Seq::<char>::empty()
    &&& f.line_number == 0
    &&& f.column_number == 0
}

/// The summaries that still hold bytes, in order.
pub open spec fn live_sites(s: Seq<AllocationSummary>) -> Seq<AllocationSummary>
    decreases s.len(),
{
    if s.len() == 0 {
        Seq::empty()
    } else {
        let rest = live_sites(s.drop_last());
        if s.last().live_bytes > 0 {
            rest.push(s.last())
        } else {
            rest
        }
    }
}

/// Whether a node stands for a live call site: its function and line, in
/// script `1`, sized by the live bytes, numbered `id`.
pub open spec fn site_node(n: SamplingHeapProfileNode, s: AllocationSummary, id: int) -> bool {
    let (name, line) = site_parts(s.call_site@);
    &&& n.call_frame.function_name@ == name
    &&& n.call_frame.script_id@ == "1"@
    &&& n.call_frame.url@ == Seq::<char>::empty()
    &&& n.call_frame.line_number == line
    &&& n.call_frame.column_number == 0
    &&& n.self_size == s.live_bytes
    &&& n.id == id
    &&& n.children@.len() == 0
}

/// The profile built from summaries: a root of size 0 with one child per
/// live call site, numbered from 1.
pub open spec fn profile_of_summaries(p: SamplingHeapProfile, s: Seq<AllocationSummary>) -> bool {
    let live = live_sites(s);
    &&& p.samples@.len() == 0
    &&& is_root_frame(p.head.call_frame)
    &&& p.head.self_size == 0
    &&& p.head.id == 0
    &&& p.head.children@.len() == live.len()
    &&& forall|k: int| 0 <= k < live.len() ==> site_node(#[trigger] p.head.children@[k], live[k], k + 1)
}

/// The summaries (as views) that still hold bytes, in order.
pub open spec fn live_views(s: Seq<SummaryView>) -> Seq<SummaryView>
    decreases s.len(),
{
    if s.len() == 0 {
        Seq::empty()
    } else {
        let rest = live_views(s.drop_last());
        if s.last().live > 0 {
            rest.push(s.last())
        } else {
            rest
        }
    }
}

/// Whether a node stands for a live call site given by its view.
pub open spec fn view_node(n: SamplingHeapProfileNode, v: SummaryView, id: int) -> bool {
    let (name, line) = site_parts(v.site);
    &&& n.call_frame.function_name@ == name
    &&& n.call_frame.script_id@ == "1"@
    &&& n.call_frame.url@ == Seq::<char>::empty()
    &&& n.call_frame.line_number == line
    &&& n.call_frame.column_number == 0
    &&& n.self_size == v.live
    &&& n.id == id
    &&& n.children@.len() == 0
}

/// The profile built from call-site summaries, given by their views: a
/// root of size 0 with one child per live call site, numbered from 1.
pub open spec fn profile_of_views(p: SamplingHeapProfile, s: Seq<SummaryView>) -> bool {
    let live = live_views(s);
    &&& p.samples@.len() == 0
    &&& is_root_frame(p.head.call_frame)
    &&& p.head.self_size == 0
    &&& p.head.id == 0
    &&& p.head.children@.len() == live.len()
    &&& forall|k: int| 0 <= k < live.len() ==> view_node(#[trigger] p.head.children@[k], live[k], k + 1)
}

/// The profile of a table of allocations: the one built from its call-site
/// summaries, or the simulated one when there are too many sites to number.
pub open spec fn profile_of_table(p: SamplingHeapProfile, allocs: Seq<AllocView>) -> bool {
    let s = summaries(allocs);
    if s.len() < u32::MAX {
        profile_of_views(p, s)
    } else {
        simulated_sampling_profile(p)
    }
}

/// Keeping the live summaries commutes with taking their views.
proof fn lemma_live_views(s: Seq<AllocationSummary>)
    ensures
        live_views(s.map_values(|x: AllocationSummary| summary_view(x))) == live_sites(s).map_values(
            |x: AllocationSummary| summary_view(x),
        ),
    decreases s.len(),
{
    let f = |x: AllocationSummary| summary_view(x);
    if s.len() > 0 {
        lemma_live_views(s.drop_last());
        assert(s.map_values(f).drop_last() =~= s.drop_last().map_values(f));
        assert(s.map_values(f).last() == f(s.last()));
        let rest = live_sites(s.drop_last());
        assert(rest.push(s.last()).map_values(f) =~= rest.map_values(f).push(f(s.last())));
    } else {
        assert(s.map_values(f) =~= Seq::<SummaryView>::empty());
        assert(live_sites(s).map_values(f) =~= Seq::<SummaryView>::empty());
    }
}

/// A profile built from summaries is the profile of their views.
proof fn lemma_profile_of_views(p: SamplingHeapProfile, s: Seq<AllocationSummary>, v: Seq<SummaryView>)
    requires
        profile_of_summaries(p, s),
        s.map_values(|x: AllocationSummary| summary_view(x)) == v,
    ensures
        profile_of_views(p, v),
{
    lemma_live_views(s);
    let live = live_sites(s);
    assert forall|k: int| 0 <= k < live_views(v).len() implies view_node(
        #[trigger] p.head.children@[k],
        live_views(v)[k],
        k + 1,
    ) by {
        assert(site_node(p.head.children@[k], live[k], k + 1));
        assert(live_views(v)[k] == summary_view(live[k]));
    }
}

/// The simulated profile: `allocateMemory` (1,024,000 bytes, line 20) and
/// `createArray` (512,000 bytes, line 35) under the root.
pub open spec fn simulated_sampling_profile(p: SamplingHeapProfile) -> bool {
    &&& p.samples@.len() == 0
    &&& is_root_frame(p.head.call_frame)
    &&& p.head.self_size == 0
    &&& p.head.id == 0
    &&& p.head.children@.len() == 2
    &&& p.head.children@[0].call_frame.function_name@ == "allocateMemory"@
    &&& p.head.children@[0].call_frame.line_number == 20
    &&& p.head.children@[0].call_frame.column_number == 10
    &&& p.head.children@[0].self_size == 1024000
    &&& p.head.children@[0].id == 1
    &&& p.head.children@[1].call_frame.function_name@ == "createArray"@
    &&& p.head.children@[1].call_frame.line_number == 35
    &&& p.head.children@[1].call_frame.column_number == 5
    &&& p.head.children@[1].self_size == 512000
    &&& p.head.children@[1].id == 2
}

fn frame(name: String, script: &str, url: &str, line: i32, column: i32) -> (f: CallFrame)
    ensures
        f.function_name == name,
        f.script_id@ == script@,
        f.url@ == url@,
        f.line_number == line,
        f.column_number == column,
{
    CallFrame { function_name: name, script_id: owned(script), url: owned(url), line_number: line, column_number: column }
}

fn root_node(children: Vec<SamplingHeapProfileNode>) -> (n: SamplingHeapProfileNode)
    ensures
        is_root_frame(n.call_frame),
        n.self_size == 0,
        n.id == 0,
        n.children == children,
{
    proof {
        reveal_strlit("");
        assert(""@ =~= Seq::<char>::empty());
    }
    SamplingHeapProfileNode { call_frame: frame(owned("(root)"), "0", "", 0, 0), self_size: 0, id: 0, children }
}

/// The function name and line of a call site.
pub fn split_site(site: &str) -> (r: (String, i32))
    ensures
        r.0@ == site_parts(site@).0,
        r.1 == site_parts(site@).1,
{
    let chars = chars_of(site);
    let parts = split_chars(chars.as_slice(), ':');
    assert(views_of(parts@)[0] == parts@[0]@);
    let name = string_from_chars(parts[0].as_slice());
    let line = if parts.len() > 1 {
        assert(views_of(parts@)[1] == parts@[1]@);
        match parse_i32_text(parts[1].as_slice()) {
            Some(v) => v,
            None => 0,
        }
    } else {
        0
    };
    (name, line)
}

/// The sampling profile of a memory snapshot: one node per call site that
/// still holds bytes.
pub fn generate_sampling_profile_from_snapshot(snapshot: &MemorySnapshot) -> (p: SamplingHeapProfile)
    requires
        snapshot.allocation_summaries@.len() < u32::MAX,
    ensures
        profile_of_summaries(p, snapshot.allocation_summaries@),
{
    let sums = &snapshot.allocation_summaries;
    let mut children: Vec<SamplingHeapProfileNode> = Vec::new();
    let mut node_id: u32 = 1;
    let mut i: usize = 0;
    while i < sums.len()
        invariant
            i <= sums@.len(),
            sums@.len() < u32::MAX,
            node_id == children@.len() + 1,
            children@.len() <= i,
            children@.len() == live_sites(sums@.take(i as int)).len(),
            forall|k: int| 0 <= k < children@.len() ==> site_node(
                #[trigger] children@[k],
                live_sites(sums@.take(i as int))[k],
                k + 1,
            ),
        decreases sums@.len() - i,
    {
        let ghost before = live_sites(sums@.take(i as int));
        proof {
            assert(sums@.take(i + 1).drop_last() =~= sums@.take(i as int));
            assert(sums@.take(i + 1).last() == sums@[i as int]);
        }
        let s = &sums[i];
        if s.live_bytes > 0 {
            let (name, line) = split_site(s.call_site.as_str());
            proof {
                reveal_strlit("");
                assert(""@ =~= Seq::<char>::empty());
            }
            let ghost k0 = children@.len();
            children.push(
                SamplingHeapProfileNode {
                    call_frame: frame(name, "1", "", line, 0),
                    self_size: s.live_bytes,
                    id: node_id,
                    children: Vec::new(),
                },
            );
            proof {
                let after = live_sites(sums@.take(i + 1));
                assert(after == before.push(*s));
                assert forall|k: int| 0 <= k < children@.len() implies site_node(
                    #[trigger] children@[k],
                    after[k],
                    k + 1,
                ) by {
                    if k < k0 {
                        assert(after[k] == before[k]);
                    }
                }
            }
            node_id = node_id + 1;
        }
        i = i + 1;
    }
    proof {
        assert(sums@.take(i as int) =~= sums@);
    }
    SamplingHeapProfile { head: root_node(children), samples: Vec::new() }
}

/// The simulated sampling profile.
pub fn generate_mock_sampling_profile() -> (p: SamplingHeapProfile)
    ensures
        simulated_sampling_profile(p),
{
    let mut children: Vec<SamplingHeapProfileNode> = Vec::new();
    children.push(
        SamplingHeapProfileNode {
            call_frame: frame(owned("allocateMemory"), "1", "http://example.com/script.js", 20, 10),
            self_size: 1024000,
            id: 1,
            children: Vec::new(),
        },
    );
    children.push(
        SamplingHeapProfileNode {
            call_frame: frame(owned("createArray"), "1", "http://example.com/script.js", 35, 5),
            self_size: 512000,
            id: 2,
            children: Vec::new(),
        },
    );
    SamplingHeapProfile { head: root_node(children), samples: Vec::new() }
}

// ---------------------------------------------------------------------------
// Snapshot streaming
// ---------------------------------------------------------------------------

/// The size of a heap snapshot chunk in bytes.
pub const CHUNK_SIZE: usize = 65536;

/// The text of a chunk of bytes: its UTF-8 decoding, or nothing when the
/// cut splits a character.
pub open spec fn chunk_text(bytes: Seq<u8>) -> Seq<char> {
    if valid_utf8(bytes) {
        decode_utf8(bytes)
    } else {
        Seq::empty()
    }
}

/// A snapshot cut into chunks of 64 KiB (the last one shorter), each read
/// as text.
pub fn snapshot_chunks(snapshot: &str) -> (r: Vec<HeapSnapshotChunk>)
    ensures
        r@.len() == (snapshot.spec_bytes().len() + CHUNK_SIZE - 1) / (CHUNK_SIZE as int),
        forall|k: int| 0 <= k < r@.len() ==> (#[trigger] r@[k]).chunk@ == chunk_text(
            snapshot.spec_bytes().subrange(
                k * CHUNK_SIZE,
                if (k + 1) * CHUNK_SIZE < snapshot.spec_bytes().len() {
                    (k + 1) * CHUNK_SIZE
                } else {
                    snapshot.spec_bytes().len() as int
                },
            ),
        ),
{
    let bytes = snapshot.as_bytes();
    let n = bytes.len();
    let mut out: Vec<HeapSnapshotChunk> = Vec::new();
    let mut start: usize = 0;
    while start < n
        invariant
            bytes@ == snapshot.spec_bytes(),
            n == bytes@.len(),
            start <= n,
            start < n ==> start == out@.len() * CHUNK_SIZE,
            start == n ==> out@.len() == (n + CHUNK_SIZE - 1) / (CHUNK_SIZE as int),
            forall|k: int| 0 <= k < out@.len() ==> (#[trigger] out@[k]).chunk@ == chunk_text(
                bytes@.subrange(k * CHUNK_SIZE, if (k + 1) * CHUNK_SIZE < n { (k + 1) * CHUNK_SIZE } else { n as int }),
            ),
        decreases n - start,
    {
        let end = if n - start > CHUNK_SIZE { start + CHUNK_SIZE } else { n };
        let mut piece: Vec<u8> = Vec::new();
        let mut j = start;
        while j < end
            invariant
                start <= j <= end <= n,
                n == bytes@.len(),
                piece@ == bytes@.subrange(start as int, j as int),
            decreases end - j,
        {
            piece.push(bytes[j]);
            j = j + 1;
            proof {
                assert(piece@ =~= bytes@.subrange(start as int, j as int));
            }
        }
        let text = match utf8_to_string(piece) {
            Ok(t) => t,
            Err(_) => String::new(),
        };
        let ghost k = out@.len() as int;
        proof {
            assert(end == if (k + 1) * CHUNK_SIZE < n { (k + 1) * CHUNK_SIZE } else { n as int });
        }
        out.push(HeapSnapshotChunk { chunk: text });
        proof {
            if end == n {
                assert((n + CHUNK_SIZE - 1) / (CHUNK_SIZE as int) == k + 1) by (nonlinear_arith)
                    requires
                        k * 65536 < n,
                        n <= k * 65536 + 65536,
                        CHUNK_SIZE == 65536,
                ;
            }
        }
        start = end;
    }
    out
}

// ---------------------------------------------------------------------------
// The domain
// ---------------------------------------------------------------------------

/// A heap object handed back by id.
#[derive(Debug)]
pub struct HeapRemoteObject {
    pub object_id: String,
}

/// The HeapProfiler domain.
#[derive(Debug)]
pub struct HeapProfilerDomain {
    sampling_active: bool,
    sampling_interval: u32,
    enabled: bool,
    tracking_active: bool,
    include_object_info: bool,
    last_seen_object_id: u32,
    memory_profiler: MemoryProfiler,
}

impl HeapProfilerDomain {
    pub closed spec fn is_on(&self) -> bool {
        self.enabled
    }

    pub closed spec fn sampling(&self) -> bool {
        self.sampling_active
    }

    pub closed spec fn tracking(&self) -> bool {
        self.tracking_active
    }

    pub closed spec fn interval(&self) -> u32 {
        self.sampling_interval
    }

    pub closed spec fn object_info(&self) -> bool {
        self.include_object_info
    }

    pub closed spec fn profiler(&self) -> MemoryProfiler {
        self.memory_profiler
    }

    /// The domain's invariant: its memory profiler is well formed.
    pub closed spec fn wf(&self) -> bool {
        self.memory_profiler.wf()
    }

    /// A disabled domain sampling every 32 KiB.
    pub fn new() -> (d: Self)
        ensures
            d.wf(),
            !d.is_on(),
            !d.sampling(),
            !d.tracking(),
            d.interval() == 32768,
            !d.object_info(),
            !d.profiler().tracking(),
            d.profiler().allocs().len() == 0,
            d.profiler().timeline_seq().len() == 0,
    {
        HeapProfilerDomain {
            sampling_active: false,
            sampling_interval: 32768,
            enabled: false,
            tracking_active: false,
            include_object_info: false,
            last_seen_object_id: 0,
            memory_profiler: MemoryProfiler::new(),
        }
    }

    /// The domain's name.
    pub fn name(&self) -> (n: &'static str)
        ensures
            n@ == "HeapProfiler"@,
    {
        "HeapProfiler"
    }

    /// Whether sampling is on.
    pub fn is_sampling(&self) -> (r: bool)
        ensures
            r == self.sampling(),
    {
        self.sampling_active
    }

    /// Whether heap objects are tracked.
    pub fn is_tracking(&self) -> (r: bool)
        ensures
            r == self.tracking(),
    {
        self.tracking_active
    }

    /// The sampling interval in bytes.
    pub fn get_sampling_interval(&self) -> (r: u32)
        ensures
            r == self.interval(),
    {
        self.sampling_interval
    }

    /// The memory profiler.
    pub fn memory_profiler(&self) -> (p: &MemoryProfiler)
        ensures
            *p == self.profiler(),
    {
        &self.memory_profiler
    }

    /// The memory profiler, to record allocations into.
    pub fn memory_profiler_mut(&mut self) -> (p: &mut MemoryProfiler)
        ensures
            *p == old(self).profiler(),
            *final(p) == final(self).profiler(),
            final(self).is_on() == old(self).is_on(),
            final(self).sampling() == old(self).sampling(),
            final(self).tracking() == old(self).tracking(),
    {
        &mut self.memory_profiler
    }

    /// Enables the domain.
    pub fn enable(&mut self)
        requires
            old(self).wf(),
        ensures
            final(self).wf(),
            final(self).is_on(),
            final(self).sampling() == old(self).sampling(),
            final(self).tracking() == old(self).tracking(),
            final(self).profiler() == old(self).profiler(),
    {
        self.enabled = true;
    }

    /// Disables the domain, ending sampling (and the memory profiler's
    /// tracking when sampling ran) and object tracking.
    pub fn disable(&mut self)
        requires
            old(self).wf(),
        ensures
            final(self).wf(),
            !final(self).is_on(),
            !final(self).sampling(),
            !final(self).tracking(),
            old(self).sampling() ==> !final(self).profiler().tracking(),
            !old(self).sampling() ==> final(self).profiler() == old(self).profiler(),
    {
        if self.sampling_active {
            let _ = self.memory_profiler.stop_tracking();
        }
        self.enabled = false;
        self.sampling_active = false;
        self.tracking_active = false;
    }

    /// Starts sampling with the given interval (truncated to 32 bits) and
    /// garbage-collection options (the minor-collection flag, when given,
    /// wins), starting the memory profiler unless it already tracks.
    /// Refused while disabled.
    pub fn start_sampling(
        &mut self,
        sampling_interval: Option<u64>,
        include_major_gc: Option<bool>,
        include_minor_gc: Option<bool>,
    ) -> (r: Result<(), ProtocolError>)
        requires
            old(self).wf(),
        ensures
            final(self).wf(),
            !old(self).is_on() ==> (r matches Err(ProtocolError::InvalidRequest) && *final(self) == *old(self)),
            old(self).is_on() ==> {
                &&& r is Ok
                &&& final(self).sampling()
                &&& final(self).profiler().tracking()
                &&& final(self).interval() == match sampling_interval {
                    Some(i) => i as u32,
                    None => old(self).interval(),
                }
                &&& final(self).object_info() == match include_minor_gc {
                    Some(b) => b,
                    None => match include_major_gc {
                        Some(b) => b,
                        None => old(self).object_info(),
                    },
                }
            },
    {
        if !self.enabled {
            return Err(ProtocolError::InvalidRequest);
        }
        match sampling_interval {
            Some(i) => {
                self.sampling_interval = i as u32;
            },
            None => {},
        }
        match include_major_gc {
            Some(b) => {
                self.include_object_info = b;
            },
            None => {},
        }
        match include_minor_gc {
            Some(b) => {
                self.include_object_info = b;
            },
            None => {},
        }
        let _ = self.memory_profiler.start_tracking();
        self.sampling_active = true;
        Ok(())
    }

    /// Stops sampling and gives the profile of the memory profiler's final
    /// snapshot (or the simulated one when it was not tracking). Refused
    /// while not sampling.
    pub fn stop_sampling(&mut self) -> (r: Result<SamplingHeapProfile, ProtocolError>)
        requires
            old(self).wf(),
        ensures
            final(self).wf(),
            !old(self).sampling() ==> (r matches Err(ProtocolError::InvalidRequest) && *final(self) == *old(self)),
            old(self).sampling() ==> {
                &&& !final(self).sampling()
                &&& !final(self).profiler().tracking()
                &&& r is Ok
                &&& old(self).profiler().tracking() ==> (r matches Ok(p) && profile_of_table(
                    p,
                    old(self).profiler().allocs(),
                ))
                &&& !old(self).profiler().tracking() ==> (r matches Ok(p) && simulated_sampling_profile(p))
            },
    {
        if !self.sampling_active {
            return Err(ProtocolError::InvalidRequest);
        }
        let snapshot = self.memory_profiler.stop_tracking();
        self.sampling_active = false;
        match snapshot {
            Ok(snap) => {
                proof {
                    self.memory_profiler.lemma_snapshot_summaries(snap);
                }
                if snap.allocation_summaries.len() < 0xffff_ffff {
                    let p = generate_sampling_profile_from_snapshot(&snap);
                    proof {
                        lemma_profile_of_views(p, snap.allocation_summaries@, summaries(self.memory_profiler.allocs()));
                    }
                    Ok(p)
                } else {
                    Ok(generate_mock_sampling_profile())
                }
            },
            Err(_) => Ok(generate_mock_sampling_profile()),
        }
    }

    /// The profile of a snapshot of the memory profiler, without stopping.
    /// Refused while disabled.
    pub fn get_sampling_profile(&self) -> (r: Result<SamplingHeapProfile, ProtocolError>)
        requires
            self.wf(),
        ensures
            !self.is_on() ==> r matches Err(ProtocolError::InvalidRequest),
            self.is_on() ==> (r matches Ok(p) && profile_of_table(p, self.profiler().allocs())),
    {
        if !self.enabled {
            return Err(ProtocolError::InvalidRequest);
        }
        let snap = self.memory_profiler.take_snapshot();
        proof {
            self.memory_profiler.lemma_snapshot_summaries(snap);
        }
        if snap.allocation_summaries.len() < 0xffff_ffff {
            let p = generate_sampling_profile_from_snapshot(&snap);
            proof {
                lemma_profile_of_views(p, snap.allocation_summaries@, summaries(self.memory_profiler.allocs()));
            }
            Ok(p)
        } else {
            Ok(generate_mock_sampling_profile())
        }
    }

    /// A simulated collection in the memory profiler. Refused while
    /// disabled.
    pub fn collect_garbage(&mut self) -> (r: Result<(), ProtocolError>)
        requires
            old(self).wf(),
        ensures
            final(self).wf(),
            !old(self).is_on() ==> (r matches Err(ProtocolError::InvalidRequest) && *final(self) == *old(self)),
            old(self).is_on() ==> r is Ok && final(self).profiler().allocs() == old(self).profiler().allocs(),
    {
        if !self.enabled {
            return Err(ProtocolError::InvalidRequest);
        }
        self.memory_profiler.force_gc();
        Ok(())
    }

    /// Whether a heap snapshot may be taken. Refused while disabled.
    pub fn take_heap_snapshot(&self) -> (r: Result<(), ProtocolError>)
        ensures
            !self.is_on() ==> r matches Err(ProtocolError::InvalidRequest),
            self.is_on() ==> r is Ok,
    {
        if !self.enabled {
            return Err(ProtocolError::InvalidRequest);
        }
        Ok(())
    }

    /// The snapshot id of a heap object: `heap-<objectId>`. Refused while
    /// disabled, and without an object id.
    pub fn get_heap_object_id(&self, object_id: Option<&str>) -> (r: Result<String, ProtocolError>)
        ensures
            !self.is_on() ==> r matches Err(ProtocolError::InvalidRequest),
            self.is_on() && object_id is None ==> (r matches Err(ProtocolError::InvalidParams(m))
                && m@ == "Missing objectId parameter"@),
            self.is_on() && object_id is Some ==> (r matches Ok(s) && s@ == "heap-"@ + object_id.unwrap()@),
    {
        if !self.enabled {
            return Err(ProtocolError::InvalidRequest);
        }
        match object_id {
            Some(id) => Ok(concat_str("heap-", id)),
            None => Err(ProtocolError::InvalidParams(owned("Missing objectId parameter"))),
        }
    }

    /// The object of a heap snapshot id (a plain `Object`). Refused while
    /// disabled, and without an object id.
    pub fn get_object_by_heap_object_id(&self, object_id: Option<&str>) -> (r: Result<HeapRemoteObject, ProtocolError>)
        ensures
            !self.is_on() ==> r matches Err(ProtocolError::InvalidRequest),
            self.is_on() && object_id is None ==> (r matches Err(ProtocolError::InvalidParams(m))
                && m@ == "Missing objectId parameter"@),
            self.is_on() && object_id is Some ==> (r matches Ok(o) && o.object_id@ == object_id.unwrap()@),
    {
        if !self.enabled {
            return Err(ProtocolError::InvalidRequest);
        }
        match object_id {
            Some(id) => Ok(HeapRemoteObject { object_id: owned(id) }),
            None => Err(ProtocolError::InvalidParams(owned("Missing objectId parameter"))),
        }
    }

    /// Starts tracking heap objects (and allocations, when asked), resetting
    /// the last seen id. Refused while disabled.
    pub fn start_tracking_heap_objects(&mut self, track_allocations: bool) -> (r: Result<(), ProtocolError>)
        requires
            old(self).wf(),
        ensures
            final(self).wf(),
            !old(self).is_on() ==> (r matches Err(ProtocolError::InvalidRequest) && *final(self) == *old(self)),
            old(self).is_on() ==> {
                &&& r is Ok
                &&& final(self).tracking()
                &&& track_allocations ==> final(self).profiler().tracking()
                &&& !track_allocations ==> final(self).profiler() == old(self).profiler()
            },
    {
        if !self.enabled {
            return Err(ProtocolError::InvalidRequest);
        }
        if track_allocations {
            let _ = self.memory_profiler.start_tracking();
        }
        self.tracking_active = true;
        self.last_seen_object_id = 0;
        Ok(())
    }

    /// Stops tracking heap objects and allocations. Refused while not
    /// tracking.
    pub fn stop_tracking_heap_objects(&mut self) -> (r: Result<(), ProtocolError>)
        requires
            old(self).wf(),
        ensures
            final(self).wf(),
            !old(self).tracking() ==> (r matches Err(ProtocolError::InvalidRequest) && *final(self) == *old(self)),
            old(self).tracking() ==> r is Ok && !final(self).tracking() && !final(self).profiler().tracking(),
    {
        if !self.tracking_active {
            return Err(ProtocolError::InvalidRequest);
        }
        let _ = self.memory_profiler.stop_tracking();
        self.tracking_active = false;
        Ok(())
    }

    /// Accepts an inspected heap object. Refused while disabled, and
    /// without an id.
    pub fn add_inspected_heap_object(&self, heap_object_id: Option<&str>) -> (r: Result<(), ProtocolError>)
        ensures
            !self.is_on() ==> r matches Err(ProtocolError::InvalidRequest),
            self.is_on() && heap_object_id is None ==> (r matches Err(ProtocolError::InvalidParams(m))
                && m@ == "Missing heapObjectId parameter"@),
            self.is_on() && heap_object_id is Some ==> r is Ok,
    {
        if !self.enabled {
            return Err(ProtocolError::InvalidRequest);
        }
        match heap_object_id {
            Some(_) => Ok(()),
            None => Err(ProtocolError::InvalidParams(owned("Missing heapObjectId parameter"))),
        }
    }
}

} // verus!
