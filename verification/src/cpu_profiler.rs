//! A sampling CPU profiler: each sample walks its call stack down a tree of
//! nodes (one per distinct call path), creates the nodes that are missing,
//! and counts a hit on the node where the stack ends.

use vstd::prelude::*;
use crate::clock::{self, micros_bound};
use crate::profiler_types::{
    CallFrame, CallTreeNode, CpuSample, EnhancedProfileNode, ExportableProfile, NodeView,
    PositionTickInfo, copy_ids,
};
use crate::text::{owned, str_eq};

verus! {

// ---------------------------------------------------------------------------
// The node table
// ---------------------------------------------------------------------------

/// Two frames name the same call site: same function, script and line.
pub open spec fn same_site(a: CallFrame, b: CallFrame) -> bool {
    &&& a.function_name@ == b.function_name@
    &&& a.script_id@ == b.script_id@
    &&& a.line_number == b.line_number
}

/// The child ids of a node (none when it has no list).
pub open spec fn child_ids(n: NodeView) -> Seq<u32> {
    match n.children {
        Some(c) => c,
        None => Seq::empty(),
    }
}

/// The hits of a node (none counts as zero).
pub open spec fn hits(n: NodeView) -> int {
    match n.hit_count {
        Some(h) => h as int,
        None => 0,
    }
}

/// The total of the hit counts of a node table.
pub open spec fn total_hits(nodes: Seq<NodeView>) -> int
    decreases nodes.len(),
{
    if nodes.len() == 0 {
        0
    } else {
        total_hits(nodes.drop_last()) + hits(nodes.last())
    }
}

/// The position in `ids` of the first child of `nodes` that names the
/// call site of `f`.
pub open spec fn matching_child(nodes: Seq<NodeView>, ids: Seq<u32>, f: CallFrame) -> Option<int>
    decreases ids.len(),
{
    if ids.len() == 0 {
        None
    } else {
        match matching_child(nodes, ids.drop_last(), f) {
            Some(k) => Some(k),
            None => {
                let c = ids.last() as int;
                if c < nodes.len() && same_site(nodes[c].frame, f) {
                    Some(ids.len() - 1)
                } else {
                    None
                }
            },
        }
    }
}

/// A fresh node for a frame: no hits, no children, no ticks.
pub open spec fn fresh_node(id: int, f: CallFrame) -> NodeView {
    NodeView {
        id: id as u32,
        frame: f,
        hit_count: Some(0u32),
        children: Some(Seq::empty()),
        deopt_reason: None,
        ticks: None,
    }
}

/// A node with one more child id.
pub open spec fn with_child(n: NodeView, c: u32) -> NodeView {
    NodeView {
        children: match n.children {
            Some(s) => Some(s.push(c)),
            None => None,
        },
        ..n
    }
}

/// Walks `frames` down from `parent`, reusing the first matching child at
/// each step and appending a fresh node (as the parent's last child) where
/// none matches. Gives the table after the walk and the node where it
/// ends.
pub open spec fn walk(nodes: Seq<NodeView>, parent: int, frames: Seq<CallFrame>) -> (Seq<NodeView>, int)
    decreases frames.len(),
{
    if frames.len() == 0 || parent < 0 || parent >= nodes.len() {
        (nodes, parent)
    } else {
        let ids = child_ids(nodes[parent]);
        match matching_child(nodes, ids, frames[0]) {
            Some(k) => walk(nodes, ids[k] as int, frames.drop_first()),
            None => {
                let id = nodes.len() as int;
                let grown = nodes.push(fresh_node(id, frames[0]));
                walk(grown.update(parent, with_child(nodes[parent], id as u32)), id, frames.drop_first())
            },
        }
    }
}

/// A child that matches a frame is a listed node of the same function,
/// script and line.
proof fn lemma_matching_child_sound(nodes: Seq<NodeView>, ids: Seq<u32>, f: CallFrame)
    ensures
        matching_child(nodes, ids, f) matches Some(k) ==> {
            &&& 0 <= k < ids.len()
            &&& (ids[k] as int) < nodes.len()
            &&& nodes[ids[k] as int].frame.function_name@ == f.function_name@
            &&& nodes[ids[k] as int].frame.script_id@ == f.script_id@
            &&& nodes[ids[k] as int].frame.line_number == f.line_number
        },
    decreases ids.len(),
{
    if ids.len() > 0 {
        lemma_matching_child_sound(nodes, ids.drop_last(), f);
    }
}

/// A sample lands on its own call site: walking a non-empty stack down
/// from a node of the table ends on a node of the walked table whose
/// function name, script id and line number are those of the stack's
/// innermost frame.
pub proof fn sample_lands_on_its_call_site(nodes: Seq<NodeView>, parent: int, frames: Seq<CallFrame>)
    requires
        0 <= parent < nodes.len(),
        frames.len() > 0,
    ensures
        ({
            let (walked, leaf) = walk(nodes, parent, frames);
            &&& 0 <= leaf < walked.len()
            &&& walked[leaf].frame.function_name@ == frames.last().function_name@
            &&& walked[leaf].frame.script_id@ == frames.last().script_id@
            &&& walked[leaf].frame.line_number == frames.last().line_number
        }),
    decreases frames.len(),
{
    let ids = child_ids(nodes[parent]);
    let rest = frames.drop_first();
    lemma_matching_child_sound(nodes, ids, frames[0]);
    match matching_child(nodes, ids, frames[0]) {
        Some(k) => {
            if rest.len() > 0 {
                sample_lands_on_its_call_site(nodes, ids[k] as int, rest);
                assert(rest.last() == frames.last());
            } else {
                assert(frames.last() == frames[0]);
            }
        },
        None => {
            let id = nodes.len() as int;
            let grown = nodes.push(fresh_node(id, frames[0]));
            let updated = grown.update(parent, with_child(nodes[parent], id as u32));
            assert(updated[id].frame == frames[0]);
            if rest.len() > 0 {
                sample_lands_on_its_call_site(updated, id, rest);
                assert(rest.last() == frames.last());
            } else {
                assert(frames.last() == frames[0]);
            }
        },
    }
}

/// A walk adds at most one node per frame and removes none.
proof fn lemma_walk_growth(nodes: Seq<NodeView>, parent: int, frames: Seq<CallFrame>)
    ensures
        nodes.len() <= walk(nodes, parent, frames).0.len() <= nodes.len() + frames.len(),
    decreases frames.len(),
{
    if !(frames.len() == 0 || parent < 0 || parent >= nodes.len()) {
        let ids = child_ids(nodes[parent]);
        match matching_child(nodes, ids, frames[0]) {
            Some(k) => lemma_walk_growth(nodes, ids[k] as int, frames.drop_first()),
            None => {
                let id = nodes.len() as int;
                let grown = nodes.push(fresh_node(id, frames[0]));
                lemma_walk_growth(grown.update(parent, with_child(nodes[parent], id as u32)), id, frames.drop_first());
            },
        }
    }
}

/// The position of the first tick entry for a line.
pub open spec fn first_tick(ticks: Seq<PositionTickInfo>, line: u32) -> Option<int>
    decreases ticks.len(),
{
    if ticks.len() == 0 {
        None
    } else {
        match first_tick(ticks.drop_last(), line) {
            Some(k) => Some(k),
            None => if ticks.last().line == line {
                Some(ticks.len() - 1)
            } else {
                None
            },
        }
    }
}

/// The tick list after one more sample on `line`.
pub open spec fn add_tick(ticks: Option<Seq<PositionTickInfo>>, line: u32) -> Option<Seq<PositionTickInfo>> {
    match ticks {
        Some(t) => match first_tick(t, line) {
            Some(k) => Some(t.update(k, PositionTickInfo { line, ticks: (t[k].ticks + 1) as u32 })),
            None => Some(t.push(PositionTickInfo { line, ticks: 1 })),
        },
        None => Some(seq![PositionTickInfo { line, ticks: 1 }]),
    }
}

/// A node after a sample ends on it: one more hit, and one more tick on its
/// line when the line is positive.
pub open spec fn hit_node(n: NodeView) -> NodeView {
    NodeView {
        hit_count: match n.hit_count {
            Some(h) => Some((h + 1) as u32),
            None => None,
        },
        ticks: if n.frame.line_number > 0 {
            add_tick(n.ticks, n.frame.line_number as u32)
        } else {
            n.ticks
        },
        ..n
    }
}

/// Whether every tick count of a node is at most its hit count.
pub open spec fn ticks_within_hits(n: NodeView) -> bool {
    match n.ticks {
        Some(t) => forall|k: int| 0 <= k < t.len() ==> #[trigger] t[k].ticks <= hits(n),
        None => true,
    }
}

/// The shape every node table keeps: node `i` has id `i`, a hit count and a
/// child list, its children come after it and exist, and no tick count
/// exceeds the hits.
pub open spec fn table_ok(nodes: Seq<NodeView>) -> bool {
    &&& nodes.len() <= 0x1_0000_0000
    &&& forall|i: int| 0 <= i < nodes.len() ==> {
        &&& (#[trigger] nodes[i]).id == i
        &&& nodes[i].hit_count is Some
        &&& nodes[i].children is Some
        &&& ticks_within_hits(nodes[i])
        &&& forall|k: int| 0 <= k < child_ids(nodes[i]).len()
            ==> i < #[trigger] child_ids(nodes[i])[k] < nodes.len()
    }
}

/// A saturating conversion of a time difference to `u32`, as a float to
/// integer cast gives it.
pub open spec fn delta_u32(later: int, earlier: int) -> u32 {
    let d = later - earlier;
    if d < 0 {
        0
    } else if d > u32::MAX {
        u32::MAX
    } else {
        d as u32
    }
}

/// The gaps between consecutive sample times.
pub open spec fn time_deltas(samples: Seq<CpuSample>) -> Seq<u32> {
    Seq::new(
        (if samples.len() == 0 { 0 } else { samples.len() - 1 }) as nat,
        |i: int| delta_u32(samples[i + 1].timestamp as int, samples[i].timestamp as int),
    )
}

/// The node ids of the samples, in order.
pub open spec fn sample_ids(samples: Seq<CpuSample>) -> Seq<u32> {
    samples.map_values(|s: CpuSample| s.node_id)
}

proof fn lemma_total_hits_update(s: Seq<NodeView>, i: int, n: NodeView)
    requires
        0 <= i < s.len(),
    ensures
        total_hits(s.update(i, n)) == total_hits(s) - hits(s[i]) + hits(n),
    decreases s.len(),
{
    if i < s.len() - 1 {
        lemma_total_hits_update(s.drop_last(), i, n);
        assert(s.update(i, n).drop_last() =~= s.drop_last().update(i, n));
    } else {
        assert(s.update(i, n).drop_last() =~= s.drop_last());
    }
}

proof fn lemma_total_hits_bound(s: Seq<NodeView>, i: int)
    requires
        0 <= i < s.len(),
    ensures
        hits(s[i]) <= total_hits(s),
    decreases s.len(),
{
    lemma_total_hits_nonneg(s.drop_last());
    if i < s.len() - 1 {
        lemma_total_hits_bound(s.drop_last(), i);
        assert(s.drop_last()[i] == s[i]);
    }
}

proof fn lemma_total_hits_nonneg(s: Seq<NodeView>)
    ensures
        total_hits(s) >= 0,
    decreases s.len(),
{
    if s.len() > 0 {
        lemma_total_hits_nonneg(s.drop_last());
    }
}

proof fn lemma_first_tick_found(t: Seq<PositionTickInfo>, line: u32)
    ensures
        first_tick(t, line) matches Some(k) ==> 0 <= k < t.len() && t[k].line == line,
        first_tick(t, line) is None ==> forall|k: int| 0 <= k < t.len() ==> #[trigger] t[k].line != line,
    decreases t.len(),
{
    if t.len() > 0 {
        lemma_first_tick_found(t.drop_last(), line);
        assert forall|k: int| 0 <= k < t.len() - 1 implies #[trigger] t[k] == t.drop_last()[k] by {}
    }
}

proof fn lemma_matching_child_found(nodes: Seq<NodeView>, ids: Seq<u32>, f: CallFrame)
    ensures
        matching_child(nodes, ids, f) matches Some(k) ==> 0 <= k < ids.len() && ids[k] < nodes.len()
            && same_site(nodes[ids[k] as int].frame, f),
        matching_child(nodes, ids, f) is None ==> forall|k: int|
            0 <= k < ids.len() && #[trigger] ids[k] < nodes.len() ==> !same_site(nodes[ids[k] as int].frame, f),
    decreases ids.len(),
{
    if ids.len() > 0 {
        lemma_matching_child_found(nodes, ids.drop_last(), f);
        assert forall|k: int| 0 <= k < ids.len() - 1 implies #[trigger] ids[k] == ids.drop_last()[k] by {}
    }
}

proof fn lemma_matching_child_prefix(nodes: Seq<NodeView>, ids: Seq<u32>, f: CallFrame, n: int)
    requires
        0 <= n <= ids.len(),
        matching_child(nodes, ids.take(n), f) is None,
        n < ids.len() ==> !(ids[n] < nodes.len() && same_site(nodes[ids[n] as int].frame, f)),
    ensures
        matching_child(nodes, ids.take(n + 1), f) is None || n == ids.len(),
{
    if n < ids.len() {
        assert(ids.take(n + 1).drop_last() =~= ids.take(n));
    }
}

proof fn lemma_matching_child_hit(nodes: Seq<NodeView>, ids: Seq<u32>, f: CallFrame, n: int)
    requires
        0 <= n < ids.len(),
        matching_child(nodes, ids.take(n), f) is None,
        ids[n] < nodes.len() && same_site(nodes[ids[n] as int].frame, f),
    ensures
        matching_child(nodes, ids, f) == Some(n),
    decreases ids.len() - n,
{
    if n + 1 < ids.len() {
        assert(ids.take(n + 1).drop_last() =~= ids.take(n));
        lemma_matching_child_extend(nodes, ids, f, n + 1);
    } else {
        assert(ids.take(n) =~= ids.drop_last());
    }
}

proof fn lemma_matching_child_extend(nodes: Seq<NodeView>, ids: Seq<u32>, f: CallFrame, n: int)
    requires
        1 <= n <= ids.len(),
        matching_child(nodes, ids.take(n), f) is Some,
    ensures
        matching_child(nodes, ids, f) == matching_child(nodes, ids.take(n), f),
    decreases ids.len() - n,
{
    if n < ids.len() {
        assert(ids.take(n + 1).drop_last() =~= ids.take(n));
        lemma_matching_child_extend(nodes, ids, f, n + 1);
    } else {
        assert(ids.take(n) =~= ids);
    }
}

proof fn lemma_matching_child_none(nodes: Seq<NodeView>, ids: Seq<u32>, f: CallFrame)
    requires
        matching_child(nodes, ids.take(ids.len() as int), f) is None,
    ensures
        matching_child(nodes, ids, f) is None,
{
    assert(ids.take(ids.len() as int) =~= ids);
}

// ---------------------------------------------------------------------------
// The call tree
// ---------------------------------------------------------------------------

/// Whether `t` is the call tree of node `id` of the table: the node's
/// function, URL, line and hits, with the trees of its children in order.
/// A node missing from the table gives an anonymous leaf without hits.
pub open spec fn is_call_tree(t: CallTreeNode, nodes: Seq<NodeView>, id: int) -> bool
    decreases nodes.len() - id,
{
    if 0 <= id < nodes.len() {
        let n = nodes[id];
        &&& t.function_name@ == n.frame.function_name@
        &&& t.url@ == n.frame.url@
        &&& t.line_number == n.frame.line_number
        &&& t.hit_count == hits(n)
        &&& t.children@.len() == child_ids(n).len()
        &&& forall|k: int|
            0 <= k < child_ids(n).len() && id < #[trigger] child_ids(n)[k] < nodes.len() ==> is_call_tree(
                t.children@[k],
                nodes,
                child_ids(n)[k] as int,
            )
    } else {
        &&& t.function_name@ == Seq::<char>::empty()
        &&& t.url@ == Seq::<char>::empty()
        &&& t.line_number == 0
        &&& t.hit_count == 0
        &&& t.children@.len() == 0
    }
}

// ---------------------------------------------------------------------------
// Statistics
// ---------------------------------------------------------------------------

/// Whether a node counts among the hot functions: it has hits recorded and
/// a name other than `(root)`.
pub open spec fn is_hot_candidate(n: NodeView) -> bool {
    &&& n.hit_count is Some
    &&& n.frame.function_name@.len() > 0
    &&& n.frame.function_name@ != "(root)"@
}

/// The (name, hits) pairs of the candidate nodes, in table order.
pub open spec fn hot_candidates(nodes: Seq<NodeView>) -> Seq<(Seq<char>, u32)>
    decreases nodes.len(),
{
    if nodes.len() == 0 {
        Seq::empty()
    } else {
        let rest = hot_candidates(nodes.drop_last());
        let n = nodes.last();
        if is_hot_candidate(n) {
            rest.push((n.frame.function_name@, n.hit_count.unwrap()))
        } else {
            rest
        }
    }
}

/// Where a pair goes in a list sorted by descending count, after every pair
/// with at least its count.
pub open spec fn insert_position(sorted: Seq<(Seq<char>, u32)>, count: u32) -> int
    decreases sorted.len(),
{
    if sorted.len() == 0 {
        0
    } else if sorted.last().1 >= count {
        sorted.len() as int
    } else {
        insert_position(sorted.drop_last(), count)
    }
}

/// The pairs sorted by descending count, pairs of equal count keeping their
/// order.
pub open spec fn sort_by_count_desc(s: Seq<(Seq<char>, u32)>) -> Seq<(Seq<char>, u32)>
    decreases s.len(),
{
    if s.len() == 0 {
        Seq::empty()
    } else {
        let sorted = sort_by_count_desc(s.drop_last());
        sorted.insert(insert_position(sorted, s.last().1), s.last())
    }
}

/// Whether counts never increase along a list.
pub open spec fn counts_descending(s: Seq<(Seq<char>, u32)>) -> bool {
    forall|i: int, j: int| 0 <= i < j < s.len() ==> #[trigger] s[i].1 >= #[trigger] s[j].1
}

/// Summary statistics of a profile.
#[derive(Debug)]
pub struct ProfileStats {
    pub total_samples: u64,
    pub total_nodes: u64,
    /// Microseconds from the start to the last sample (or zero).
    pub duration_micros: i128,
    /// The ten nodes with the most hits, as (function name, hits).
    pub hot_functions: Vec<(String, u32)>,
}

proof fn lemma_insert_position(sorted: Seq<(Seq<char>, u32)>, count: u32)
    requires
        counts_descending(sorted),
    ensures
        0 <= insert_position(sorted, count) <= sorted.len(),
        forall|i: int| 0 <= i < insert_position(sorted, count) ==> #[trigger] sorted[i].1 >= count,
        forall|i: int| insert_position(sorted, count) <= i < sorted.len() ==> #[trigger] sorted[i].1 < count,
    decreases sorted.len(),
{
    if sorted.len() > 0 && sorted.last().1 < count {
        let t = sorted.drop_last();
        assert forall|i: int, j: int| 0 <= i < j < t.len() implies #[trigger] t[i].1 >= #[trigger] t[j].1 by {
            assert(t[i] == sorted[i] && t[j] == sorted[j]);
        }
        lemma_insert_position(t, count);
        assert forall|i: int| 0 <= i < t.len() implies #[trigger] sorted[i] == t[i] by {}
    }
}

/// A sorted insertion keeps the counts descending.
proof fn lemma_sort_desc(s: Seq<(Seq<char>, u32)>)
    ensures
        counts_descending(sort_by_count_desc(s)),
        sort_by_count_desc(s).len() == s.len(),
    decreases s.len(),
{
    if s.len() > 0 {
        let sorted = sort_by_count_desc(s.drop_last());
        lemma_sort_desc(s.drop_last());
        lemma_insert_position(sorted, s.last().1);
        let p = insert_position(sorted, s.last().1);
        let r = sorted.insert(p, s.last());
        assert forall|i: int, j: int| 0 <= i < j < r.len() implies #[trigger] r[i].1 >= #[trigger] r[j].1 by {
            if j < p {
                assert(r[i] == sorted[i] && r[j] == sorted[j]);
            } else if j == p {
                assert(r[i] == sorted[i]);
            } else if i < p {
                assert(r[i] == sorted[i] && r[j] == sorted[j - 1]);
            } else if i == p {
                assert(r[j] == sorted[j - 1]);
            } else {
                assert(r[i] == sorted[i - 1] && r[j] == sorted[j - 1]);
            }
        }
    }
}

/// The hot-function list of a profile is ordered by descending hit count
/// and holds at most ten entries.
pub proof fn hot_functions_are_ordered(nodes: Seq<NodeView>)
    ensures
        counts_descending(sort_by_count_desc(hot_candidates(nodes)).take(
            if hot_candidates(nodes).len() < 10 { hot_candidates(nodes).len() as int } else { 10 },
        )),
{
    let s = sort_by_count_desc(hot_candidates(nodes));
    lemma_sort_desc(hot_candidates(nodes));
    let n: int = if hot_candidates(nodes).len() < 10 { hot_candidates(nodes).len() as int } else { 10 };
    assert forall|i: int, j: int| 0 <= i < j < s.take(n).len() implies #[trigger] s.take(n)[i].1
        >= #[trigger] s.take(n)[j].1 by {
        assert(s.take(n)[i] == s[i] && s.take(n)[j] == s[j]);
    }
}

// ---------------------------------------------------------------------------
// The profiler
// ---------------------------------------------------------------------------

/// The current time in whole microseconds since the epoch.
fn timestamp_micros() -> (m: u128)
    ensures
        m < micros_bound(),
{
    clock::now_micros()
}

/// CPU profiler state.
#[derive(Debug)]
pub struct CpuProfiler {
    profiling_active: bool,
    sampling_interval: u32,
    start_time: u128,
    samples: Vec<CpuSample>,
    /// Node `i` has id `i`; ids are handed out in order.
    nodes: Vec<EnhancedProfileNode>,
    title: Option<String>,
}

impl CpuProfiler {
    /// The node table.
    pub closed spec fn node_seq(&self) -> Seq<NodeView> {
        self.nodes@.map_values(|n: EnhancedProfileNode| n@)
    }

    /// The samples taken since the last start.
    pub closed spec fn sample_seq(&self) -> Seq<CpuSample> {
        self.samples@
    }

    pub closed spec fn active(&self) -> bool {
        self.profiling_active
    }

    pub closed spec fn interval(&self) -> u32 {
        self.sampling_interval
    }

    pub closed spec fn started_at(&self) -> u128 {
        self.start_time
    }

    pub closed spec fn title_view(&self) -> Option<Seq<char>> {
        match self.title {
            Some(t) => Some(t@),
            None => None,
        }
    }

    /// The profiler's invariant: a well-shaped node table whose hits add up
    /// to the number of samples, with the root present while profiling.
    pub closed spec fn wf(&self) -> bool {
        &&& table_ok(self.node_seq())
        &&& total_hits(self.node_seq()) == self.samples@.len()
        &&& self.profiling_active ==> self.nodes@.len() >= 1
        &&& self.start_time < micros_bound()
        &&& forall|k: int| 0 <= k < self.samples@.len() ==> (#[trigger] self.samples@[k]).timestamp < micros_bound()
    }

    /// A new, idle profiler sampling every 100 microseconds.
    pub fn new() -> (p: Self)
        ensures
            p.wf(),
            !p.active(),
            p.interval() == 100,
            p.node_seq().len() == 0,
            p.sample_seq().len() == 0,
            p.title_view() is None,
    {
        let p = CpuProfiler {
            profiling_active: false,
            sampling_interval: 100,
            start_time: 0,
            samples: Vec::new(),
            nodes: Vec::new(),
            title: None,
        };
        proof {
            assert(p.node_seq() =~= Seq::<NodeView>::empty());
        }
        p
    }

    /// Whether profiling is active.
    pub fn is_profiling(&self) -> (r: bool)
        ensures
            r == self.active(),
    {
        self.profiling_active
    }

    /// The sampling interval in microseconds.
    pub fn get_sampling_interval(&self) -> (r: u32)
        ensures
            r == self.interval(),
    {
        self.sampling_interval
    }

    /// Sets the sampling interval in microseconds.
    pub fn set_sampling_interval(&mut self, interval: u32)
        requires
            old(self).wf(),
        ensures
            final(self).wf(),
            final(self).interval() == interval,
            final(self).active() == old(self).active(),
            final(self).node_seq() == old(self).node_seq(),
            final(self).sample_seq() == old(self).sample_seq(),
            final(self).started_at() == old(self).started_at(),
            final(self).title_view() == old(self).title_view(),
    {
        self.sampling_interval = interval;
    }

    /// Sets the profile title.
    pub fn set_title(&mut self, title: String)
        requires
            old(self).wf(),
        ensures
            final(self).wf(),
            final(self).title_view() == Some(title@),
            final(self).interval() == old(self).interval(),
            final(self).active() == old(self).active(),
            final(self).node_seq() == old(self).node_seq(),
            final(self).sample_seq() == old(self).sample_seq(),
            final(self).started_at() == old(self).started_at(),
    {
        self.title = Some(title);
    }

    /// The number of nodes in the table.
    pub fn node_count(&self) -> (n: usize)
        ensures
            n == self.node_seq().len(),
    {
        self.nodes.len()
    }

    /// The number of samples taken.
    pub fn sample_count(&self) -> (n: usize)
        ensures
            n == self.sample_seq().len(),
    {
        self.samples.len()
    }

    /// Starts profiling: clears the samples and the table, which then holds
    /// only the root node `(root)` of script `0`. Refused while active.
    pub fn start(&mut self) -> (r: Result<(), String>)
        requires
            old(self).wf(),
        ensures
            final(self).wf(),
            old(self).active() ==> (r matches Err(e) && e@ == "Profiling already active"@
                && *final(self) == *old(self)),
            !old(self).active() ==> {
                &&& r is Ok
                &&& final(self).active()
                &&& final(self).sample_seq().len() == 0
                &&& final(self).node_seq().len() == 1
                &&& final(self).node_seq()[0].id == 0
                &&& final(self).node_seq()[0].frame.function_name@ == "(root)"@
                &&& final(self).node_seq()[0].frame.script_id@ == "0"@
                &&& final(self).node_seq()[0].frame.url@ == Seq::<char>::empty()
                &&& final(self).node_seq()[0].frame.line_number == 0
                &&& final(self).node_seq()[0].frame.column_number == 0
                &&& final(self).node_seq()[0].hit_count == Some(0u32)
                &&& final(self).node_seq()[0].children == Some(Seq::<u32>::empty())
                &&& final(self).node_seq()[0].deopt_reason is None
                &&& final(self).node_seq()[0].ticks is None
                &&& final(self).interval() == old(self).interval()
                &&& final(self).title_view() == old(self).title_view()
            },
    {
        if self.profiling_active {
            return Err(owned("Profiling already active"));
        }
        self.samples = Vec::new();
        let mut nodes: Vec<EnhancedProfileNode> = Vec::new();
        nodes.push(
            EnhancedProfileNode {
                id: 0,
                call_frame: CallFrame {
                    function_name: owned("(root)"),
                    script_id: owned("0"),
                    url: String::new(),
                    line_number: 0,
                    column_number: 0,
                },
                hit_count: Some(0),
                children: Some(Vec::new()),
                deopt_reason: None,
                position_ticks: None,
            },
        );
        self.nodes = nodes;
        self.start_time = timestamp_micros();
        self.profiling_active = true;
        proof {
            let s = self.node_seq();
            assert(s.len() == 1);
            assert(s.drop_last().len() == 0);
            assert(total_hits(s) == total_hits(s.drop_last()) + hits(s.last()));
        }
        Ok(())
    }

    /// A copy of the node table.
    fn copy_nodes(&self) -> (r: Vec<EnhancedProfileNode>)
        ensures
            r@.map_values(|n: EnhancedProfileNode| n@) == self.node_seq(),
    {
        let mut r: Vec<EnhancedProfileNode> = Vec::new();
        let mut i: usize = 0;
        while i < self.nodes.len()
            invariant
                i <= self.nodes@.len(),
                r@.len() == i,
                forall|k: int| 0 <= k < i ==> (#[trigger] r@[k])@ == self.nodes@[k]@,
            decreases self.nodes@.len() - i,
        {
            r.push(self.nodes[i].clone());
            i = i + 1;
        }
        proof {
            assert(r@.map_values(|n: EnhancedProfileNode| n@) =~= self.node_seq());
        }
        r
    }

    /// The node ids of the samples and the gaps between their times.
    fn sample_data(&self) -> (r: (Vec<u32>, Vec<u32>))
        ensures
            r.0@ == sample_ids(self.sample_seq()),
            r.1@ == time_deltas(self.sample_seq()),
    {
        let mut ids: Vec<u32> = Vec::new();
        let mut i: usize = 0;
        while i < self.samples.len()
            invariant
                i <= self.samples@.len(),
                ids@ == sample_ids(self.samples@.take(i as int)),
            decreases self.samples@.len() - i,
        {
            ids.push(self.samples[i].node_id);
            i = i + 1;
            proof {
                assert(ids@ =~= sample_ids(self.samples@.take(i as int)));
            }
        }
        proof {
            assert(self.samples@.take(i as int) =~= self.samples@);
        }
        let mut deltas: Vec<u32> = Vec::new();
        let n: usize = if self.samples.len() == 0 { 0 } else { self.samples.len() - 1 };
        let mut j: usize = 0;
        while j < n
            invariant
                n == time_deltas(self.samples@).len(),
                n < self.samples@.len() || n == 0,
                j <= n,
                deltas@.len() == j,
                forall|k: int| 0 <= k < j ==> #[trigger] deltas@[k] == delta_u32(
                    self.samples@[k + 1].timestamp as int,
                    self.samples@[k].timestamp as int,
                ),
            decreases n - j,
        {
            let later = self.samples[j + 1].timestamp;
            let earlier = self.samples[j].timestamp;
            let d: u32 = if later < earlier {
                0
            } else if later - earlier > 0xffff_ffffu128 {
                0xffff_ffff
            } else {
                (later - earlier) as u32
            };
            deltas.push(d);
            j = j + 1;
        }
        proof {
            let td = time_deltas(self.samples@);
            assert forall|k: int| 0 <= k < td.len() implies deltas@[k] == #[trigger] td[k] by {}
            assert(deltas@ =~= td);
        }
        (ids, deltas)
    }

    /// Stops profiling and hands out the profile: the node table in id
    /// order, the start time and the time now, the samples' node ids and
    /// the gaps between their times. Refused while idle.
    pub fn stop(&mut self) -> (r: Result<ExportableProfile, String>)
        requires
            old(self).wf(),
        ensures
            final(self).wf(),
            !old(self).active() ==> (r matches Err(e) && e@ == "Profiling not active"@
                && *final(self) == *old(self)),
            old(self).active() ==> {
                &&& !final(self).active()
                &&& final(self).node_seq() == old(self).node_seq()
                &&& final(self).sample_seq() == old(self).sample_seq()
                &&& final(self).interval() == old(self).interval()
                &&& final(self).started_at() == old(self).started_at()
                &&& final(self).title_view() == old(self).title_view()
                &&& r matches Ok(p) && {
                    &&& p.nodes@.map_values(|n: EnhancedProfileNode| n@) == old(self).node_seq()
                    &&& p.start_time == old(self).started_at()
                    &&& p.samples matches Some(s) && s@ == sample_ids(old(self).sample_seq())
                    &&& p.time_deltas matches Some(d) && d@ == time_deltas(old(self).sample_seq())
                    &&& match p.title {
                        Some(t) => old(self).title_view() == Some(t@),
                        None => old(self).title_view() is None,
                    }
                }
            },
    {
        if !self.profiling_active {
            return Err(owned("Profiling not active"));
        }
        self.profiling_active = false;
        let end_time = timestamp_micros();
        let nodes = self.copy_nodes();
        let (ids, deltas) = self.sample_data();
        let title = match &self.title {
            Some(t) => Some(t.clone()),
            None => None,
        };
        Ok(
            ExportableProfile {
                nodes,
                start_time: self.start_time,
                end_time,
                samples: Some(ids),
                time_deltas: Some(deltas),
                title,
            },
        )
    }

    /// The profile data to export once profiling has stopped: as `stop`
    /// gives it, but ending at the last sample (or at the start when there
    /// is none). Refused while active or before any profile.
    pub fn export_profile(&self) -> (r: Result<ExportableProfile, String>)
        requires
            self.wf(),
        ensures
            self.active() ==> (r matches Err(e) && e@ == "Cannot export while profiling is active"@),
            !self.active() && self.node_seq().len() == 0 ==> (r matches Err(e) && e@
                == "No profile data available"@),
            !self.active() && self.node_seq().len() > 0 ==> (r matches Ok(p) && {
                &&& p.nodes@.map_values(|n: EnhancedProfileNode| n@) == self.node_seq()
                &&& p.start_time == self.started_at()
                &&& p.end_time == (if self.sample_seq().len() == 0 {
                    self.started_at()
                } else {
                    self.sample_seq().last().timestamp
                })
                &&& p.samples matches Some(s) && s@ == sample_ids(self.sample_seq())
                &&& p.time_deltas matches Some(d) && d@ == time_deltas(self.sample_seq())
                &&& match p.title {
                    Some(t) => self.title_view() == Some(t@),
                    None => self.title_view() is None,
                }
            }),
    {
        if self.profiling_active {
            return Err(owned("Cannot export while profiling is active"));
        }
        if self.nodes.len() == 0 {
            return Err(owned("No profile data available"));
        }
        let end_time = if self.samples.len() == 0 {
            self.start_time
        } else {
            self.samples[self.samples.len() - 1].timestamp
        };
        let nodes = self.copy_nodes();
        let (ids, deltas) = self.sample_data();
        let title = match &self.title {
            Some(t) => Some(t.clone()),
            None => None,
        };
        Ok(
            ExportableProfile {
                nodes,
                start_time: self.start_time,
                end_time,
                samples: Some(ids),
                time_deltas: Some(deltas),
                title,
            },
        )
    }

    /// The position among `parent`'s children of the first child naming
    /// the call site of `frame`.
    fn find_child(&self, parent: usize, frame: &CallFrame) -> (r: Option<usize>)
        requires
            parent < self.nodes@.len(),
            table_ok(self.node_seq()),
        ensures
            match matching_child(self.node_seq(), child_ids(self.node_seq()[parent as int]), *frame) {
                Some(k) => r matches Some(j) && j as int == k,
                None => r is None,
            },
    {
        let ghost nodes = self.node_seq();
        let ghost ids = child_ids(nodes[parent as int]);
        assert(nodes[parent as int] == self.nodes@[parent as int]@);
        match &self.nodes[parent].children {
            None => {
                assert(ids.len() == 0);
                None
            },
            Some(children) => {
                assert(children@ == ids);
                let mut k: usize = 0;
                while k < children.len()
                    invariant
                        k <= children@.len(),
                        children@ == ids,
                        nodes == self.node_seq(),
                        parent < nodes.len(),
                        ids == child_ids(nodes[parent as int]),
                        matching_child(nodes, ids.take(k as int), *frame) is None,
                    decreases children@.len() - k,
                {
                    let c = children[k];
                    if (c as usize) < self.nodes.len() {
                        let n = &self.nodes[c as usize];
                        assert(nodes[c as int] == n@);
                        if str_eq(n.call_frame.function_name.as_str(), frame.function_name.as_str())
                            && str_eq(n.call_frame.script_id.as_str(), frame.script_id.as_str())
                            && n.call_frame.line_number == frame.line_number {
                            proof {
                                lemma_matching_child_hit(nodes, ids, *frame, k as int);
                                assert(matching_child(nodes, ids, *frame) == Some(k as int));
                            }
                            return Some(k);
                        }
                    }
                    proof {
                        lemma_matching_child_prefix(nodes, ids, *frame, k as int);
                    }
                    k = k + 1;
                }
                proof {
                    lemma_matching_child_none(nodes, ids, *frame);
                }
                None
            },
        }
    }

    /// Appends a fresh node for `frame` as the last child of `parent` and
    /// gives its id.
    fn add_node(&mut self, parent: usize, frame: &CallFrame) -> (id: usize)
        requires
            parent < old(self).nodes@.len(),
            table_ok(old(self).node_seq()),
            old(self).nodes@.len() < 0x1_0000_0000,
        ensures
            id == old(self).nodes@.len(),
            final(self).node_seq() == old(self).node_seq().push(fresh_node(id as int, *frame)).update(
                parent as int,
                with_child(old(self).node_seq()[parent as int], id as u32),
            ),
            table_ok(final(self).node_seq()),
            final(self).samples == old(self).samples,
            final(self).profiling_active == old(self).profiling_active,
            final(self).sampling_interval == old(self).sampling_interval,
            final(self).start_time == old(self).start_time,
            final(self).title == old(self).title,
    {
        let ghost old_nodes = self.node_seq();
        let id = self.nodes.len();
        self.nodes.push(
            EnhancedProfileNode {
                id: id as u32,
                call_frame: frame.clone(),
                hit_count: Some(0),
                children: Some(Vec::new()),
                deopt_reason: None,
                position_ticks: None,
            },
        );
        let ghost grown = self.node_seq();
        assert(grown =~= old_nodes.push(fresh_node(id as int, *frame))) by {
            assert(self.nodes@[id as int]@ == fresh_node(id as int, *frame));
        }
        let node = &mut self.nodes[parent];
        match &mut node.children {
            Some(children) => {
                children.push(id as u32);
            },
            None => {},
        }
        proof {
            let expected = grown.update(parent as int, with_child(old_nodes[parent as int], id as u32));
            assert(self.node_seq() =~= expected);
            let s = self.node_seq();
            assert forall|i: int| 0 <= i < s.len() implies {
                &&& (#[trigger] s[i]).id == i
                &&& s[i].hit_count is Some
                &&& s[i].children is Some
                &&& ticks_within_hits(s[i])
                &&& forall|k: int| 0 <= k < child_ids(s[i]).len()
                    ==> i < #[trigger] child_ids(s[i])[k] < s.len()
            } by {
                if i < old_nodes.len() && i != parent {
                    assert(s[i] == old_nodes[i]);
                } else if i == parent {
                    assert(child_ids(s[i]) =~= child_ids(old_nodes[i]).push(id as u32));
                    assert forall|k: int| 0 <= k < child_ids(s[i]).len() implies i < #[trigger] child_ids(
                        s[i],
                    )[k] < s.len() by {
                        if k < child_ids(old_nodes[i]).len() {
                            assert(child_ids(s[i])[k] == child_ids(old_nodes[i])[k]);
                        }
                    }
                }
            }
        }
        id
    }

    /// Counts a hit on node `leaf`, and a tick on its line when the line is
    /// positive.
    fn hit(&mut self, leaf: usize)
        requires
            leaf < old(self).nodes@.len(),
            table_ok(old(self).node_seq()),
            total_hits(old(self).node_seq()) < u32::MAX,
        ensures
            final(self).node_seq() == old(self).node_seq().update(
                leaf as int,
                hit_node(old(self).node_seq()[leaf as int]),
            ),
            table_ok(final(self).node_seq()),
            total_hits(final(self).node_seq()) == total_hits(old(self).node_seq()) + 1,
            final(self).samples == old(self).samples,
            final(self).profiling_active == old(self).profiling_active,
            final(self).sampling_interval == old(self).sampling_interval,
            final(self).start_time == old(self).start_time,
            final(self).title == old(self).title,
    {
        let ghost old_nodes = self.node_seq();
        proof {
            lemma_total_hits_bound(old_nodes, leaf as int);
        }
        let ghost before = old_nodes[leaf as int];
        assert(before == self.nodes@[leaf as int]@);
        let node = &mut self.nodes[leaf];
        match &mut node.hit_count {
            Some(h) => {
                *h = *h + 1;
            },
            None => {},
        }
        if node.call_frame.line_number > 0 {
            let line = node.call_frame.line_number as u32;
            match &mut node.position_ticks {
                Some(ticks) => {
                    let mut k: usize = 0;
                    while k < ticks.len() && ticks[k].line != line
                        invariant
                            k <= ticks@.len(),
                            first_tick(ticks@.take(k as int), line) is None,
                        decreases ticks@.len() - k,
                    {
                        proof {
                            assert(ticks@.take(k + 1).drop_last() =~= ticks@.take(k as int));
                        }
                        k = k + 1;
                    }
                    if k < ticks.len() {
                        proof {
                            assert(ticks@.take(k + 1).drop_last() =~= ticks@.take(k as int));
                            lemma_first_tick_prefix(ticks@, line, k as int + 1);
                        }
                        let t = ticks[k];
                        assert(t.ticks <= hits(before));
                        ticks.set(k, PositionTickInfo { line, ticks: t.ticks + 1 });
                    } else {
                        proof {
                            assert(ticks@.take(k as int) =~= ticks@);
                        }
                        ticks.push(PositionTickInfo { line, ticks: 1 });
                    }
                },
                None => {
                    let mut fresh: Vec<PositionTickInfo> = Vec::new();
                    fresh.push(PositionTickInfo { line, ticks: 1 });
                    node.position_ticks = Some(fresh);
                },
            }
        }
        proof {
            let s = self.node_seq();
            assert(s =~= old_nodes.update(leaf as int, hit_node(before)));
            lemma_total_hits_update(old_nodes, leaf as int, hit_node(before));
            let n = s[leaf as int];
            lemma_first_tick_found(match before.ticks { Some(t) => t, None => Seq::empty() }, line_of(before));
            assert(ticks_within_hits(n));
            assert forall|i: int| 0 <= i < s.len() implies {
                &&& (#[trigger] s[i]).id == i
                &&& s[i].hit_count is Some
                &&& s[i].children is Some
                &&& ticks_within_hits(s[i])
                &&& forall|k: int| 0 <= k < child_ids(s[i]).len()
                    ==> i < #[trigger] child_ids(s[i])[k] < s.len()
            } by {
                if i != leaf {
                    assert(s[i] == old_nodes[i]);
                } else {
                    assert(child_ids(s[i]) == child_ids(old_nodes[i]));
                }
            }
        }
    }

    /// Records one sample of a call stack (outermost frame first) taken
    /// now: walks the stack down from the root, adding the nodes that are
    /// missing, counts a hit on the node where the stack ends and appends
    /// the sample. Refused while idle.
    pub fn add_sample(&mut self, call_stack: Vec<CallFrame>) -> (r: Result<(), String>)
        requires
            old(self).wf(),
            old(self).sample_seq().len() < u32::MAX,
            old(self).node_seq().len() + call_stack@.len() <= u32::MAX,
        ensures
            final(self).wf(),
            !old(self).active() ==> (r matches Err(e) && e@ == "Profiling not active"@
                && *final(self) == *old(self)),
            old(self).active() ==> {
                let (walked, leaf) = walk(old(self).node_seq(), 0, call_stack@);
                &&& r is Ok
                &&& final(self).node_seq() == walked.update(leaf, hit_node(walked[leaf]))
                &&& old(self).node_seq().len() <= final(self).node_seq().len() <= old(self).node_seq().len()
                    + call_stack@.len()
                &&& final(self).sample_seq().len() == old(self).sample_seq().len() + 1
                &&& final(self).sample_seq().drop_last() == old(self).sample_seq()
                &&& final(self).sample_seq().last().node_id == leaf
                &&& call_stack@.len() > 0 ==> {
                    let n = final(self).node_seq()[final(self).sample_seq().last().node_id as int];
                    &&& n.frame.function_name@ == call_stack@.last().function_name@
                    &&& n.frame.script_id@ == call_stack@.last().script_id@
                    &&& n.frame.line_number == call_stack@.last().line_number
                }
                &&& final(self).active()
                &&& final(self).interval() == old(self).interval()
                &&& final(self).started_at() == old(self).started_at()
                &&& final(self).title_view() == old(self).title_view()
            },
    {
        if !self.profiling_active {
            return Err(owned("Profiling not active"));
        }
        let timestamp = timestamp_micros();
        let ghost stack = call_stack@;
        let ghost start = self.node_seq();
        let ghost target = walk(start, 0, stack);
        let mut current: usize = 0;
        let mut i: usize = 0;
        proof {
            assert(stack.skip(0) =~= stack);
        }
        while i < call_stack.len()
            invariant
                i <= stack.len(),
                stack == call_stack@,
                table_ok(self.node_seq()),
                current < self.nodes@.len(),
                self.nodes@.len() <= start.len() + i,
                start.len() + stack.len() <= u32::MAX,
                walk(self.node_seq(), current as int, stack.skip(i as int)) == target,
                total_hits(self.node_seq()) == total_hits(start),
                self.samples@.len() < u32::MAX,
                total_hits(start) == self.samples@.len(),
                self.profiling_active,
                self.sampling_interval == old(self).sampling_interval,
                self.start_time == old(self).start_time,
                self.title == old(self).title,
                self.samples == old(self).samples,
                self.start_time < micros_bound(),
                timestamp < micros_bound(),
            decreases stack.len() - i,
        {
            let ghost nodes = self.node_seq();
            let ghost rest = stack.skip(i as int);
            proof {
                assert(rest[0] == stack[i as int]);
                assert(rest.drop_first() =~= stack.skip(i + 1));
            }
            let frame = &call_stack[i];
            let found = self.find_child(current, frame);
            match found {
                Some(k) => {
                    proof {
                        lemma_matching_child_found(nodes, child_ids(nodes[current as int]), *frame);
                    }
                    assert(self.nodes@[current as int]@ == nodes[current as int]);
                    let c = match &self.nodes[current].children {
                        Some(children) => children[k],
                        None => 0,
                    };
                    current = c as usize;
                },
                None => {
                    let id = self.add_node(current, frame);
                    proof {
                        let grown = nodes.push(fresh_node(id as int, *frame));
                        lemma_total_hits_update(grown, current as int, with_child(nodes[current as int], id as u32));
                        assert(grown.drop_last() =~= nodes);
                    }
                    current = id;
                },
            }
            i = i + 1;
        }
        proof {
            assert(stack.skip(i as int).len() == 0);
        }
        self.hit(current);
        self.samples.push(CpuSample { node_id: current as u32, timestamp });
        proof {
            assert(self.samples@.drop_last() =~= old(self).samples@);
            lemma_walk_growth(old(self).node_seq(), 0, call_stack@);
            if call_stack@.len() > 0 {
                sample_lands_on_its_call_site(old(self).node_seq(), 0, call_stack@);
            }
        }
        Ok(())
    }

    /// Builds the call tree of node `id`.
    fn build_call_tree_node(&self, id: u32) -> (t: CallTreeNode)
        requires
            table_ok(self.node_seq()),
        ensures
            is_call_tree(t, self.node_seq(), id as int),
        decreases self.nodes@.len() - id,
    {
        if (id as usize) >= self.nodes.len() {
            return CallTreeNode {
                function_name: String::new(),
                hit_count: 0,
                children: Vec::new(),
                url: String::new(),
                line_number: 0,
            };
        }
        let ghost nodes = self.node_seq();
        let node = &self.nodes[id as usize];
        assert(nodes[id as int] == node@);
        let mut children: Vec<CallTreeNode> = Vec::new();
        match &node.children {
            Some(ids) => {
                let mut k: usize = 0;
                while k < ids.len()
                    invariant
                        k <= ids@.len(),
                        nodes == self.node_seq(),
                        table_ok(nodes),
                        (id as int) < nodes.len(),
                        ids@ == child_ids(nodes[id as int]),
                        children@.len() == k,
                        forall|j: int| 0 <= j < k ==> is_call_tree(
                            #[trigger] children@[j],
                            nodes,
                            ids@[j] as int,
                        ),
                    decreases ids@.len() - k,
                {
                    let c = ids[k];
                    assert(id < c);
                    children.push(self.build_call_tree_node(c));
                    k = k + 1;
                }
            },
            None => {},
        }
        let hit_count = match node.hit_count {
            Some(h) => h,
            None => 0,
        };
        let t = CallTreeNode {
            function_name: node.call_frame.function_name.clone(),
            hit_count,
            children,
            url: node.call_frame.url.clone(),
            line_number: node.call_frame.line_number,
        };
        t
    }

    /// The call tree of the profile, from the root.
    pub fn generate_call_tree(&self) -> (t: CallTreeNode)
        requires
            self.wf(),
        ensures
            is_call_tree(t, self.node_seq(), 0),
    {
        self.build_call_tree_node(0)
    }

    /// The hot-function candidates of the table, in table order.
    fn collect_hot_candidates(&self) -> (r: Vec<(String, u32)>)
        ensures
            r@.map_values(|p: (String, u32)| (p.0@, p.1)) == hot_candidates(self.node_seq()),
    {
        let mut r: Vec<(String, u32)> = Vec::new();
        let mut i: usize = 0;
        let ghost nodes = self.node_seq();
        while i < self.nodes.len()
            invariant
                i <= self.nodes@.len(),
                nodes == self.node_seq(),
                r@.map_values(|p: (String, u32)| (p.0@, p.1)) == hot_candidates(nodes.take(i as int)),
            decreases self.nodes@.len() - i,
        {
            let n = &self.nodes[i];
            proof {
                assert(nodes.take(i + 1).drop_last() =~= nodes.take(i as int));
                assert(nodes.take(i + 1).last() == n@);
            }
            let ghost before = r@;
            match n.hit_count {
                Some(h) => {
                    let name = n.call_frame.function_name.as_str();
                    if name.unicode_len() > 0 && !str_eq(name, "(root)") {
                        r.push((n.call_frame.function_name.clone(), h));
                        proof {
                            assert(r@.map_values(|p: (String, u32)| (p.0@, p.1)) =~= before.map_values(
                                |p: (String, u32)| (p.0@, p.1),
                            ).push((n.call_frame.function_name@, h)));
                        }
                    }
                },
                None => {},
            }
            i = i + 1;
        }
        proof {
            assert(nodes.take(i as int) =~= nodes);
        }
        r
    }

    /// Summary statistics: the number of samples and nodes, the time from
    /// the start to the last sample, and the ten functions with the most
    /// hits (stable by table order among equal counts).
    pub fn get_stats(&self) -> (s: ProfileStats)
        requires
            self.wf(),
        ensures
            s.total_samples == self.sample_seq().len(),
            s.total_nodes == self.node_seq().len(),
            s.duration_micros == (if self.sample_seq().len() == 0 {
                0
            } else {
                self.sample_seq().last().timestamp - self.started_at()
            }),
            s.hot_functions@.map_values(|p: (String, u32)| (p.0@, p.1)) == {
                let sorted = sort_by_count_desc(hot_candidates(self.node_seq()));
                sorted.take(if sorted.len() < 10 { sorted.len() as int } else { 10 })
            },
    {
        let candidates = self.collect_hot_candidates();
        let ghost cand = hot_candidates(self.node_seq());
        let mut sorted: Vec<(String, u32)> = Vec::new();
        let mut i: usize = 0;
        let src = candidates;
        let ghost all = src@;
        while i < src.len()
            invariant
                i <= src@.len(),
                src@ == all,
                all.map_values(|p: (String, u32)| (p.0@, p.1)) == cand,
                sorted@.map_values(|p: (String, u32)| (p.0@, p.1)) == sort_by_count_desc(cand.take(i as int)),
            decreases src@.len() - i,
        {
            let ghost sv = sorted@.map_values(|p: (String, u32)| (p.0@, p.1));
            let count = src[i].1;
            let mut pos: usize = sorted.len();
            proof {
                assert(sv.take(pos as int) =~= sv);
            }
            while pos > 0 && sorted[pos - 1].1 < count
                invariant
                    pos <= sorted@.len(),
                    sv == sorted@.map_values(|p: (String, u32)| (p.0@, p.1)),
                    insert_position(sv, count) == insert_position(sv.take(pos as int), count),
                decreases pos,
            {
                proof {
                    assert(sv.take(pos as int).drop_last() =~= sv.take(pos - 1));
                }
                pos = pos - 1;
            }
            proof {
                if pos > 0 {
                    assert(sv.take(pos as int).last() == sv[pos - 1]);
                }
                assert(cand.take(i + 1).drop_last() =~= cand.take(i as int));
            }
            let item = (src[i].0.clone(), count);
            sorted.insert(pos, item);
            proof {
                assert(cand.take(i + 1).last() == cand[i as int]);
                assert(sorted@.map_values(|p: (String, u32)| (p.0@, p.1)) =~= sv.insert(
                    pos as int,
                    (item.0@, count),
                ));
            }
            i = i + 1;
        }
        proof {
            assert(cand.take(i as int) =~= cand);
        }
        let ghost full = sorted@.map_values(|p: (String, u32)| (p.0@, p.1));
        while sorted.len() > 10
            invariant
                sorted@.len() >= 10 ==> sorted@.map_values(|p: (String, u32)| (p.0@, p.1)) == full.take(
                    sorted@.len() as int,
                ),
                sorted@.len() < 10 ==> sorted@.map_values(|p: (String, u32)| (p.0@, p.1)) == full,
                sorted@.len() <= full.len(),
                sorted@.len() < 10 ==> sorted@.len() == full.len(),
            decreases sorted@.len(),
        {
            let ghost before = sorted@;
            sorted.pop();
            proof {
                assert(sorted@ =~= before.drop_last());
                assert(sorted@.map_values(|p: (String, u32)| (p.0@, p.1)) =~= full.take(sorted@.len() as int));
            }
        }
        proof {
            if full.len() >= 10 {
                assert(sorted@.map_values(|p: (String, u32)| (p.0@, p.1)) =~= full.take(10));
            } else {
                assert(full.take(full.len() as int) =~= full);
            }
        }
        let duration: i128 = if self.samples.len() == 0 {
            0
        } else {
            let last = self.samples[self.samples.len() - 1].timestamp;
            if last >= self.start_time {
                (last - self.start_time) as i128
            } else {
                -((self.start_time - last) as i128)
            }
        };
        ProfileStats {
            total_samples: self.samples.len() as u64,
            total_nodes: self.nodes.len() as u64,
            duration_micros: duration,
            hot_functions: sorted,
        }
    }
}

/// Every sample counts exactly one hit: the hit counts of the node table
/// add up to the number of samples taken.
pub proof fn hits_add_up_to_samples(p: &CpuProfiler)
    requires
        p.wf(),
    ensures
        total_hits(p.node_seq()) == p.sample_seq().len(),
{
}

/// The line of a node as a tick line.
spec fn line_of(n: NodeView) -> u32 {
    n.frame.line_number as u32
}

proof fn lemma_first_tick_prefix(t: Seq<PositionTickInfo>, line: u32, n: int)
    requires
        1 <= n <= t.len(),
        first_tick(t.take(n), line) is Some,
    ensures
        first_tick(t, line) == first_tick(t.take(n), line),
    decreases t.len() - n,
{
    if n < t.len() {
        assert(t.take(n + 1).drop_last() =~= t.take(n));
        lemma_first_tick_prefix(t, line, n + 1);
    } else {
        assert(t.take(n) =~= t);
    }
}

} // verus!
