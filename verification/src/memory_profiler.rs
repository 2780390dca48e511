//! Memory allocation tracking: allocations and frees reported by the
//! runtime, a timeline of heap totals, per-call-site summaries and a
//! scoring of long-lived allocations as potential leaks.
//!
//! Times are whole microseconds since the epoch; the leak age threshold and
//! the timeline interval are whole microseconds too.

use vstd::prelude::*;
use crate::clock::{self, micros_bound};
use crate::profiler_types::CallFrame;
use crate::text::{
    concat_str, decimal_digits, decimal_string, owned, signed_decimal, signed_decimal_string,
    str_eq,
};

verus! {

/// Tracking settings.
#[derive(Debug, Clone, Copy, PartialEq, Eq, Structural)]
pub struct MemoryProfilerConfig {
    pub capture_stack_traces: bool,
    pub max_stack_depth: u32,
    /// Allocations below this many bytes are not tracked.
    pub min_allocation_size: u64,
    /// Microseconds after which a live allocation is suspicious.
    pub leak_threshold_age: u64,
    /// Microseconds between timeline entries.
    pub timeline_interval: u64,
}

impl Default for MemoryProfilerConfig {
    /// Stacks captured sixteen deep, allocations from 1 KiB, leaks after
    /// sixty seconds, a timeline entry at most every 100 ms.
    fn default() -> (c: Self)
        ensures
            c.capture_stack_traces,
            c.max_stack_depth == 16,
            c.min_allocation_size == 1024,
            c.leak_threshold_age == 60_000_000,
            c.timeline_interval == 100_000,
    {
        MemoryProfilerConfig {
            capture_stack_traces: true,
            max_stack_depth: 16,
            min_allocation_size: 1024,
            leak_threshold_age: 60_000_000,
            timeline_interval: 100_000,
        }
    }
}

/// One tracked allocation.
#[derive(Debug)]
pub struct AllocationEntry {
    pub id: u64,
    pub size: u64,
    /// When it was allocated.
    pub timestamp: u128,
    pub stack_trace: Vec<CallFrame>,
    pub freed: bool,
    pub freed_timestamp: Option<u128>,
}

/// What an allocation entry holds, its stack as a sequence.
pub struct AllocView {
    pub id: u64,
    pub size: u64,
    pub timestamp: u128,
    pub trace: Seq<CallFrame>,
    pub freed: bool,
    pub freed_timestamp: Option<u128>,
}

impl View for AllocationEntry {
    type V = AllocView;

    open spec fn view(&self) -> AllocView {
        AllocView {
            id: self.id,
            size: self.size,
            timestamp: self.timestamp,
            trace: self.stack_trace@,
            freed: self.freed,
            freed_timestamp: self.freed_timestamp,
        }
    }
}

/// A copy of a stack trace.
fn copy_frames(v: &Vec<CallFrame>) -> (r: Vec<CallFrame>)
    ensures
        r@ == v@,
{
    let mut r: Vec<CallFrame> = Vec::new();
    let mut i: usize = 0;
    while i < v.len()
        invariant
            i <= v@.len(),
            r@ == v@.take(i as int),
        decreases v@.len() - i,
    {
        r.push(v[i].clone());
        i = i + 1;
        proof {
            assert(r@ =~= v@.take(i as int));
        }
    }
    proof {
        assert(v@.take(i as int) =~= v@);
    }
    r
}

impl Clone for AllocationEntry {
    fn clone(&self) -> (r: Self)
        ensures
            r@ == self@,
    {
        AllocationEntry {
            id: self.id,
            size: self.size,
            timestamp: self.timestamp,
            stack_trace: copy_frames(&self.stack_trace),
            freed: self.freed,
            freed_timestamp: self.freed_timestamp,
        }
    }
}

/// Heap totals at one moment.
#[derive(Debug, Clone, Copy, PartialEq, Eq, Structural)]
pub struct MemoryTimelineEntry {
    pub timestamp: u128,
    pub total_allocated: u64,
    pub total_freed: u64,
    pub current_heap_size: u64,
    /// The number of live allocations, truncated to 32 bits.
    pub live_allocations: u32,
}

/// A live allocation that looks leaked.
#[derive(Debug)]
pub struct PotentialLeak {
    pub allocation_id: u64,
    pub size: u64,
    /// Microseconds since it was allocated.
    pub age: i128,
    pub stack_trace: Vec<CallFrame>,
    pub leak_score: u32,
    pub reason: String,
}

/// The allocations of one call site (`function:line` of the innermost
/// frame, or `(unknown)`). The average size is the total over the count.
#[derive(Debug)]
pub struct AllocationSummary {
    pub call_site: String,
    pub allocation_count: u64,
    pub total_bytes: u64,
    pub live_bytes: u64,
}

/// A snapshot of the tracked heap.
#[derive(Debug)]
pub struct MemorySnapshot {
    pub timestamp: u128,
    pub total_heap_size: u64,
    pub used_heap_size: u64,
    pub allocation_summaries: Vec<AllocationSummary>,
    pub potential_leaks: Vec<PotentialLeak>,
    pub timeline: Vec<MemoryTimelineEntry>,
}

/// Summary counts of the tracked allocations.
#[derive(Debug, Clone, Copy, PartialEq, Eq, Structural)]
pub struct MemoryStats {
    pub total_allocations: u64,
    pub live_allocations: u64,
    pub freed_allocations: u64,
    pub total_allocated_bytes: u64,
    pub total_freed_bytes: u64,
    pub current_heap_bytes: u64,
    pub timeline_entries: u64,
}

// ---------------------------------------------------------------------------
// Sums over the allocation table
// ---------------------------------------------------------------------------

/// The bytes of all allocations.
pub open spec fn sum_sizes(s: Seq<AllocView>) -> int
    decreases s.len(),
{
    if s.len() == 0 {
        0
    } else {
        sum_sizes(s.drop_last()) + s.last().size
    }
}

/// The bytes of the live allocations.
pub open spec fn live_bytes(s: Seq<AllocView>) -> int
    decreases s.len(),
{
    if s.len() == 0 {
        0
    } else {
        live_bytes(s.drop_last()) + if s.last().freed {
            0
        } else {
            s.last().size as int
        }
    }
}

/// The bytes of the freed allocations.
pub open spec fn freed_bytes(s: Seq<AllocView>) -> int
    decreases s.len(),
{
    if s.len() == 0 {
        0
    } else {
        freed_bytes(s.drop_last()) + if s.last().freed {
            s.last().size as int
        } else {
            0
        }
    }
}

/// The number of live allocations.
pub open spec fn live_count(s: Seq<AllocView>) -> int
    decreases s.len(),
{
    if s.len() == 0 {
        0
    } else {
        live_count(s.drop_last()) + if s.last().freed {
            0int
        } else {
            1int
        }
    }
}

proof fn lemma_sums(s: Seq<AllocView>)
    ensures
        live_bytes(s) + freed_bytes(s) == sum_sizes(s),
        0 <= live_bytes(s),
        0 <= freed_bytes(s),
        0 <= live_count(s) <= s.len(),
    decreases s.len(),
{
    if s.len() > 0 {
        lemma_sums(s.drop_last());
    }
}

proof fn lemma_sums_update(s: Seq<AllocView>, i: int, a: AllocView)
    requires
        0 <= i < s.len(),
    ensures
        sum_sizes(s.update(i, a)) == sum_sizes(s) - s[i].size + a.size,
        live_bytes(s.update(i, a)) == live_bytes(s) - (if s[i].freed { 0 } else { s[i].size as int })
            + (if a.freed { 0 } else { a.size as int }),
        freed_bytes(s.update(i, a)) == freed_bytes(s) - (if s[i].freed { s[i].size as int } else { 0 })
            + (if a.freed { a.size as int } else { 0 }),
        live_count(s.update(i, a)) == live_count(s) - (if s[i].freed { 0int } else { 1int })
            + (if a.freed { 0int } else { 1int }),
    decreases s.len(),
{
    if i < s.len() - 1 {
        lemma_sums_update(s.drop_last(), i, a);
        assert(s.update(i, a).drop_last() =~= s.drop_last().update(i, a));
    } else {
        assert(s.update(i, a).drop_last() =~= s.drop_last());
    }
}

// ---------------------------------------------------------------------------
// Call-site summaries
// ---------------------------------------------------------------------------

/// The call site of an allocation: `function:line` of its first frame, or
/// `(unknown)` without a stack.
pub open spec fn call_site(a: AllocView) -> Seq<char> {
    if a.trace.len() == 0 {
        "(unknown)"@
    } else {
        a.trace[0].function_name@ + ":"@ + signed_decimal(a.trace[0].line_number as int)
    }
}

/// A call-site summary as numbers.
pub struct SummaryView {
    pub site: Seq<char>,
    pub count: int,
    pub total: int,
    pub live: int,
}

/// The position of a call site among summaries.
pub open spec fn find_site(s: Seq<SummaryView>, site: Seq<char>) -> Option<int>
    decreases s.len(),
{
    if s.len() == 0 {
        None
    } else {
        match find_site(s.drop_last(), site) {
            Some(k) => Some(k),
            None => if s.last().site == site {
                Some(s.len() - 1)
            } else {
                None
            },
        }
    }
}

/// The bytes an allocation still holds.
pub open spec fn live_part(a: AllocView) -> int {
    if a.freed {
        0
    } else {
        a.size as int
    }
}

/// The summaries by call site, in the order the sites first occur.
pub open spec fn summaries(s: Seq<AllocView>) -> Seq<SummaryView>
    decreases s.len(),
{
    if s.len() == 0 {
        Seq::empty()
    } else {
        let prev = summaries(s.drop_last());
        let a = s.last();
        let site = call_site(a);
        match find_site(prev, site) {
            Some(k) => prev.update(
                k,
                SummaryView {
                    site,
                    count: prev[k].count + 1,
                    total: prev[k].total + a.size,
                    live: prev[k].live + live_part(a),
                },
            ),
            None => prev.push(SummaryView { site, count: 1, total: a.size as int, live: live_part(a) }),
        }
    }
}

/// The view of a summary record.
pub open spec fn summary_view(s: AllocationSummary) -> SummaryView {
    SummaryView {
        site: s.call_site@,
        count: s.allocation_count as int,
        total: s.total_bytes as int,
        live: s.live_bytes as int,
    }
}

proof fn lemma_find_site(s: Seq<SummaryView>, site: Seq<char>)
    ensures
        find_site(s, site) matches Some(k) ==> 0 <= k < s.len() && s[k].site == site,
        find_site(s, site) is None ==> forall|k: int| 0 <= k < s.len() ==> #[trigger] s[k].site != site,
    decreases s.len(),
{
    if s.len() > 0 {
        lemma_find_site(s.drop_last(), site);
        assert forall|k: int| 0 <= k < s.len() - 1 implies #[trigger] s[k] == s.drop_last()[k] by {}
    }
}

proof fn lemma_find_site_prefix(s: Seq<SummaryView>, site: Seq<char>, n: int)
    requires
        1 <= n <= s.len(),
        find_site(s.take(n), site) is Some,
    ensures
        find_site(s, site) == find_site(s.take(n), site),
    decreases s.len() - n,
{
    if n < s.len() {
        assert(s.take(n + 1).drop_last() =~= s.take(n));
        lemma_find_site_prefix(s, site, n + 1);
    } else {
        assert(s.take(n) =~= s);
    }
}

proof fn lemma_summaries_bounded(s: Seq<AllocView>)
    ensures
        forall|k: int| 0 <= k < summaries(s).len() ==> {
            &&& 1 <= (#[trigger] summaries(s)[k]).count <= s.len()
            &&& 0 <= summaries(s)[k].live <= summaries(s)[k].total <= sum_sizes(s)
        },
    decreases s.len(),
{
    if s.len() > 0 {
        let prev = summaries(s.drop_last());
        lemma_summaries_bounded(s.drop_last());
        lemma_find_site(prev, call_site(s.last()));
        lemma_sums(s.drop_last());
        assert forall|k: int| 0 <= k < summaries(s).len() implies {
            &&& 1 <= (#[trigger] summaries(s)[k]).count <= s.len()
            &&& 0 <= summaries(s)[k].live <= summaries(s)[k].total <= sum_sizes(s)
        } by {
            if k < prev.len() {
                assert(1 <= prev[k].count <= s.len() - 1);
                assert(0 <= prev[k].live <= prev[k].total <= sum_sizes(s.drop_last()));
            }
        }
    }
}

// ---------------------------------------------------------------------------
// Leak scoring
// ---------------------------------------------------------------------------

/// How many thresholds old an allocation is, saturating at `u32::MAX`; a
/// zero threshold makes every positive age "infinitely" old.
pub open spec fn age_factor(age: int, threshold: int) -> u32 {
    if threshold == 0 {
        if age == 0 {
            0
        } else {
            u32::MAX
        }
    } else if age / threshold > u32::MAX {
        u32::MAX
    } else {
        (age / threshold) as u32
    }
}

/// The age points: ten per threshold (wrapping at 32 bits), at most fifty.
pub open spec fn age_points(factor: u32) -> u32 {
    let p = ((factor as int * 10) % 0x1_0000_0000) as u32;
    if p < 50 {
        p
    } else {
        50
    }
}

/// The size points: thirty above 1 MB, fifteen above 100 KB.
pub open spec fn size_points(size: u64) -> u32 {
    if size > 1_000_000 {
        30
    } else if size > 100_000 {
        15
    } else {
        0
    }
}

/// The leak score of a live allocation of some age.
pub open spec fn leak_score(a: AllocView, factor: u32) -> u32 {
    (age_points(factor) + size_points(a.size) + if a.trace.len() == 0 {
        10u32
    } else {
        0u32
    }) as u32
}

/// The reasons behind a score, in order.
pub open spec fn leak_reasons(a: AllocView, factor: u32) -> Seq<Seq<char>> {
    let r1: Seq<Seq<char>> = if factor > 1 {
        seq![decimal_digits(factor as nat) + "x longer than threshold"@]
    } else {
        Seq::empty()
    };
    let r2: Seq<Seq<char>> = if a.size > 1_000_000 {
        seq!["Large allocation (>1MB)"@]
    } else if a.size > 100_000 {
        seq!["Medium allocation (>100KB)"@]
    } else {
        Seq::empty()
    };
    let r3: Seq<Seq<char>> = if a.trace.len() == 0 {
        seq!["Unknown allocation source"@]
    } else {
        Seq::empty()
    };
    r1 + r2 + r3
}

/// Strings joined with a separator.
pub open spec fn joined(parts: Seq<Seq<char>>, sep: Seq<char>) -> Seq<char>
    decreases parts.len(),
{
    if parts.len() == 0 {
        Seq::empty()
    } else if parts.len() == 1 {
        parts[0]
    } else {
        joined(parts.drop_last(), sep) + sep + parts.last()
    }
}

/// A potential leak as values.
pub struct LeakView {
    pub id: u64,
    pub size: u64,
    pub age: int,
    pub trace: Seq<CallFrame>,
    pub score: u32,
    pub reason: Seq<char>,
}

/// The leak report for an allocation at time `now`: live, at least a
/// threshold old, and scoring at least twenty.
pub open spec fn leak_of(a: AllocView, now: int, threshold: int) -> Option<LeakView> {
    let age = now - a.timestamp;
    let factor = age_factor(age, threshold);
    if a.freed || age < threshold || leak_score(a, factor) < 20 {
        None
    } else {
        Some(
            LeakView {
                id: a.id,
                size: a.size,
                age,
                trace: a.trace,
                score: leak_score(a, factor),
                reason: joined(leak_reasons(a, factor), "; "@),
            },
        )
    }
}

/// The leak reports of a table, in table order.
pub open spec fn leak_candidates(s: Seq<AllocView>, now: int, threshold: int) -> Seq<LeakView>
    decreases s.len(),
{
    if s.len() == 0 {
        Seq::empty()
    } else {
        let prev = leak_candidates(s.drop_last(), now, threshold);
        match leak_of(s.last(), now, threshold) {
            Some(l) => prev.push(l),
            None => prev,
        }
    }
}

/// Where a report goes in a list sorted by descending score, after every
/// report with at least its score.
pub open spec fn leak_position(sorted: Seq<LeakView>, score: u32) -> int
    decreases sorted.len(),
{
    if sorted.len() == 0 {
        0
    } else if sorted.last().score >= score {
        sorted.len() as int
    } else {
        leak_position(sorted.drop_last(), score)
    }
}

/// The reports by descending score, equal scores keeping their order.
pub open spec fn sort_leaks(s: Seq<LeakView>) -> Seq<LeakView>
    decreases s.len(),
{
    if s.len() == 0 {
        Seq::empty()
    } else {
        let sorted = sort_leaks(s.drop_last());
        sorted.insert(leak_position(sorted, s.last().score), s.last())
    }
}

/// The reported leaks: the fifty highest scores.
pub open spec fn reported_leaks(s: Seq<AllocView>, now: int, threshold: int) -> Seq<LeakView> {
    let sorted = sort_leaks(leak_candidates(s, now, threshold));
    sorted.take(if sorted.len() < 50 { sorted.len() as int } else { 50 })
}

/// The view of a leak record.
pub open spec fn leak_view(l: PotentialLeak) -> LeakView {
    LeakView {
        id: l.allocation_id,
        size: l.size,
        age: l.age as int,
        trace: l.stack_trace@,
        score: l.leak_score,
        reason: l.reason@,
    }
}

/// Whether scores never increase along a list.
pub open spec fn scores_descending(s: Seq<LeakView>) -> bool {
    forall|i: int, j: int| 0 <= i < j < s.len() ==> #[trigger] s[i].score >= #[trigger] s[j].score
}

proof fn lemma_leak_position(sorted: Seq<LeakView>, score: u32)
    requires
        scores_descending(sorted),
    ensures
        0 <= leak_position(sorted, score) <= sorted.len(),
        forall|i: int| 0 <= i < leak_position(sorted, score) ==> #[trigger] sorted[i].score >= score,
        forall|i: int| leak_position(sorted, score) <= i < sorted.len() ==> #[trigger] sorted[i].score < score,
    decreases sorted.len(),
{
    if sorted.len() > 0 && sorted.last().score < score {
        let t = sorted.drop_last();
        assert forall|i: int, j: int| 0 <= i < j < t.len() implies #[trigger] t[i].score
            >= #[trigger] t[j].score by {
            assert(t[i] == sorted[i] && t[j] == sorted[j]);
        }
        lemma_leak_position(t, score);
        assert forall|i: int| 0 <= i < t.len() implies #[trigger] sorted[i] == t[i] by {}
    }
}

proof fn lemma_sort_leaks(s: Seq<LeakView>)
    ensures
        scores_descending(sort_leaks(s)),
        sort_leaks(s).len() == s.len(),
    decreases s.len(),
{
    if s.len() > 0 {
        let sorted = sort_leaks(s.drop_last());
        lemma_sort_leaks(s.drop_last());
        lemma_leak_position(sorted, s.last().score);
        let p = leak_position(sorted, s.last().score);
        let r = sorted.insert(p, s.last());
        assert forall|i: int, j: int| 0 <= i < j < r.len() implies #[trigger] r[i].score
            >= #[trigger] r[j].score by {
            if j < p {
                assert(r[i] == sorted[i] && r[j] == sorted[j]);
            } else if j == p {
                assert(r[i] == sorted[i]);
            } else if i < p {
                assert(r[i] == sorted[i] && r[j] == sorted[j - 1]);
            } else if i == p {
                assert(r[j] == sorted[j - 1]);
            } else {
                assert(r[i] == sorted[i - 1] && r[j] == sorted[j - 1]);
            }
        }
    }
}

/// Leak reports come highest score first, at most fifty of them, and each
/// scores between twenty and ninety.
pub proof fn leak_reports_are_ranked(s: Seq<AllocView>, now: int, threshold: int)
    ensures
        scores_descending(reported_leaks(s, now, threshold)),
        reported_leaks(s, now, threshold).len() <= 50,
        forall|i: int| 0 <= i < reported_leaks(s, now, threshold).len() ==> 20 <= #[trigger] reported_leaks(
            s,
            now,
            threshold,
        )[i].score <= 90,
{
    let c = leak_candidates(s, now, threshold);
    lemma_sort_leaks(c);
    lemma_leak_candidates_scores(s, now, threshold);
    lemma_sort_leaks_members(c);
    let sorted = sort_leaks(c);
    let n: int = if sorted.len() < 50 { sorted.len() as int } else { 50 };
    assert forall|i: int, j: int| 0 <= i < j < sorted.take(n).len() implies #[trigger] sorted.take(n)[i].score
        >= #[trigger] sorted.take(n)[j].score by {
        assert(sorted.take(n)[i] == sorted[i] && sorted.take(n)[j] == sorted[j]);
    }
    assert forall|i: int| 0 <= i < sorted.take(n).len() implies 20 <= #[trigger] sorted.take(n)[i].score
        <= 90 by {
        assert(sorted.take(n)[i] == sorted[i]);
    }
}

proof fn lemma_leak_candidates_scores(s: Seq<AllocView>, now: int, threshold: int)
    ensures
        forall|i: int| 0 <= i < leak_candidates(s, now, threshold).len() ==> 20 <= (
        #[trigger] leak_candidates(s, now, threshold)[i]).score <= 90,
    decreases s.len(),
{
    if s.len() > 0 {
        let prev = leak_candidates(s.drop_last(), now, threshold);
        lemma_leak_candidates_scores(s.drop_last(), now, threshold);
        let a = s.last();
        let f = age_factor(now - a.timestamp, threshold);
        assert(age_points(f) <= 50);
        assert(size_points(a.size) <= 30);
        match leak_of(a, now, threshold) {
            Some(l) => {
                assert(20 <= l.score <= 90);
                assert forall|i: int| 0 <= i < prev.len() + 1 implies 20 <= (#[trigger] prev.push(l)[i]).score
                    <= 90 by {
                    if i < prev.len() {
                        assert(prev.push(l)[i] == prev[i]);
                    }
                }
            },
            None => {},
        }
    }
}

proof fn lemma_sort_leaks_members(s: Seq<LeakView>)
    ensures
        forall|i: int| 0 <= i < sort_leaks(s).len() ==> exists|j: int| 0 <= j < s.len() && #[trigger] sort_leaks(s)[i]
            == s[j],
    decreases s.len(),
{
    if s.len() > 0 {
        let prev = sort_leaks(s.drop_last());
        lemma_sort_leaks_members(s.drop_last());
        lemma_sort_leaks(s.drop_last());
        lemma_leak_position(prev, s.last().score);
        let p = leak_position(prev, s.last().score);
        assert forall|i: int| 0 <= i < sort_leaks(s).len() implies exists|j: int|
            0 <= j < s.len() && #[trigger] sort_leaks(s)[i] == s[j] by {
            if i < p {
                let j = choose|j: int| 0 <= j < s.len() - 1 && prev[i] == s.drop_last()[j];
                assert(s.drop_last()[j] == s[j]);
            } else if i == p {
                assert(sort_leaks(s)[i] == s[s.len() - 1]);
            } else {
                let j = choose|j: int| 0 <= j < s.len() - 1 && prev[i - 1] == s.drop_last()[j];
                assert(s.drop_last()[j] == s[j]);
            }
        }
    }
}

proof fn lemma_leak_candidates_sources(s: Seq<AllocView>, now: int, threshold: int)
    ensures
        forall|k: int| 0 <= k < leak_candidates(s, now, threshold).len() ==> exists|i: int|
            0 <= i < s.len() && leak_of(s[i], now, threshold) == Some(
                #[trigger] leak_candidates(s, now, threshold)[k],
            ),
    decreases s.len(),
{
    if s.len() > 0 {
        let t = s.drop_last();
        let prev = leak_candidates(t, now, threshold);
        lemma_leak_candidates_sources(t, now, threshold);
        let c = leak_candidates(s, now, threshold);
        assert forall|k: int| 0 <= k < c.len() implies exists|i: int|
            0 <= i < s.len() && leak_of(s[i], now, threshold) == Some(#[trigger] c[k]) by {
            if k < prev.len() {
                assert(c[k] == prev[k]);
                let i = choose|i: int| 0 <= i < t.len() && leak_of(t[i], now, threshold) == Some(prev[k]);
                assert(t[i] == s[i]);
            } else {
                assert(leak_of(s[s.len() - 1], now, threshold) == Some(c[k]));
            }
        }
    }
}

/// A freed allocation is never reported as a leak: every reported leak
/// is an allocation of the table that is still live, with its id and size.
pub proof fn reported_leaks_are_live(s: Seq<AllocView>, now: int, threshold: int)
    ensures
        forall|k: int| 0 <= k < reported_leaks(s, now, threshold).len() ==> exists|i: int|
            0 <= i < s.len() && !s[i].freed && s[i].id == (#[trigger] reported_leaks(
                s,
                now,
                threshold,
            )[k]).id && s[i].size == reported_leaks(s, now, threshold)[k].size,
{
    let c = leak_candidates(s, now, threshold);
    lemma_leak_candidates_sources(s, now, threshold);
    lemma_sort_leaks_members(c);
    let sorted = sort_leaks(c);
    let r = reported_leaks(s, now, threshold);
    assert forall|k: int| 0 <= k < r.len() implies exists|i: int|
        0 <= i < s.len() && !s[i].freed && s[i].id == (#[trigger] r[k]).id && s[i].size == r[k].size by {
        assert(r[k] == sorted[k]);
        let j = choose|j: int| 0 <= j < c.len() && sorted[k] == c[j];
        let i = choose|i: int| 0 <= i < s.len() && leak_of(s[i], now, threshold) == Some(c[j]);
        assert(!s[i].freed && s[i].id == c[j].id && s[i].size == c[j].size);
    }
}

// ---------------------------------------------------------------------------
// The profiler
// ---------------------------------------------------------------------------

/// The timeline entry for a table and totals at a time.
pub open spec fn timeline_entry_of(
    s: Seq<AllocView>,
    total_allocated: u64,
    total_freed: u64,
    at: u128,
) -> MemoryTimelineEntry {
    MemoryTimelineEntry {
        timestamp: at,
        total_allocated,
        total_freed,
        current_heap_size: live_bytes(s) as u64,
        live_allocations: live_count(s) as u32,
    }
}

/// What the profiler tracks: allocation `i` of `allocations` has id
/// `i + 1`, and `next_id` is the id the next allocation gets.
#[derive(Debug)]
pub struct AllocationTrackingState {
    pub allocations: Vec<AllocationEntry>,
    pub next_id: u64,
    pub total_allocated: u64,
    pub total_freed: u64,
    pub timeline: Vec<MemoryTimelineEntry>,
    pub config: MemoryProfilerConfig,
}

/// Memory profiler state.
#[derive(Debug)]
pub struct MemoryProfiler {
    tracking_active: bool,
    state: AllocationTrackingState,
    last_timeline_sample: u128,
}

impl MemoryProfiler {
    /// The allocation table.
    pub closed spec fn allocs(&self) -> Seq<AllocView> {
        self.state.allocations@.map_values(|a: AllocationEntry| a@)
    }

    pub closed spec fn tracking(&self) -> bool {
        self.tracking_active
    }

    pub closed spec fn allocated_total(&self) -> u64 {
        self.state.total_allocated
    }

    pub closed spec fn freed_total(&self) -> u64 {
        self.state.total_freed
    }

    pub closed spec fn timeline_seq(&self) -> Seq<MemoryTimelineEntry> {
        self.state.timeline@
    }

    pub closed spec fn settings(&self) -> MemoryProfilerConfig {
        self.state.config
    }

    /// The profiler's invariant: allocation `i` has id `i + 1`, the next id
    /// follows the last, and the byte totals add up over the table.
    pub closed spec fn wf(&self) -> bool {
        let s = self.allocs();
        &&& forall|i: int| 0 <= i < s.len() ==> (#[trigger] s[i]).id == i + 1
        &&& self.state.next_id == s.len() + 1
        &&& self.state.total_allocated == sum_sizes(s)
        &&& self.state.total_freed == freed_bytes(s)
        &&& forall|i: int| 0 <= i < s.len() ==> (#[trigger] s[i]).timestamp < micros_bound()
    }

    /// An idle profiler with the default settings.
    pub fn new() -> (p: Self)
        ensures
            p.wf(),
            !p.tracking(),
            p.allocs().len() == 0,
            p.timeline_seq().len() == 0,
            p.settings() == (MemoryProfilerConfig {
                capture_stack_traces: true,
                max_stack_depth: 16,
                min_allocation_size: 1024,
                leak_threshold_age: 60_000_000,
                timeline_interval: 100_000,
            }),
    {
        let p = MemoryProfiler {
            tracking_active: false,
            state: AllocationTrackingState {
                allocations: Vec::new(),
                next_id: 1,
                total_allocated: 0,
                total_freed: 0,
                timeline: Vec::new(),
                config: MemoryProfilerConfig::default(),
            },
            last_timeline_sample: 0,
        };
        proof {
            assert(p.allocs() =~= Seq::<AllocView>::empty());
        }
        p
    }

    /// An idle profiler with the given settings.
    pub fn with_config(config: MemoryProfilerConfig) -> (p: Self)
        ensures
            p.wf(),
            !p.tracking(),
            p.allocs().len() == 0,
            p.timeline_seq().len() == 0,
            p.settings() == config,
    {
        let mut p = Self::new();
        p.state.config = config;
        p
    }

    /// Whether tracking is on.
    pub fn is_tracking(&self) -> (r: bool)
        ensures
            r == self.tracking(),
    {
        self.tracking_active
    }

    /// The settings.
    pub fn get_config(&self) -> (c: MemoryProfilerConfig)
        ensures
            c == self.settings(),
    {
        self.state.config
    }

    /// Replaces the settings.
    pub fn set_config(&mut self, config: MemoryProfilerConfig)
        requires
            old(self).wf(),
        ensures
            final(self).wf(),
            final(self).settings() == config,
            final(self).tracking() == old(self).tracking(),
            final(self).allocs() == old(self).allocs(),
            final(self).timeline_seq() == old(self).timeline_seq(),
            final(self).allocated_total() == old(self).allocated_total(),
            final(self).freed_total() == old(self).freed_total(),
    {
        self.state.config = config;
    }

    /// The number of allocations in the table.
    pub fn allocation_count(&self) -> (n: usize)
        ensures
            n == self.allocs().len(),
    {
        self.state.allocations.len()
    }

    /// Appends a timeline entry for the current table, taken now.
    fn record_timeline_entry(&mut self)
        requires
            old(self).wf(),
        ensures
            final(self).wf(),
            final(self).state.timeline@.len() == old(self).state.timeline@.len() + 1,
            final(self).state.timeline@.drop_last() == old(self).state.timeline@,
            final(self).state.timeline@.last() == timeline_entry_of(
                old(self).allocs(),
                old(self).state.total_allocated,
                old(self).state.total_freed,
                final(self).state.timeline@.last().timestamp,
            ),
            final(self).state.allocations == old(self).state.allocations,
            final(self).tracking_active == old(self).tracking_active,
            final(self).state.total_allocated == old(self).state.total_allocated,
            final(self).state.total_freed == old(self).state.total_freed,
            final(self).state.config == old(self).state.config,
            final(self).state.next_id == old(self).state.next_id,
            final(self).last_timeline_sample == old(self).last_timeline_sample,
    {
        let timestamp = clock::now_micros();
        let (live, heap) = self.live_totals();
        self.state.timeline.push(
            MemoryTimelineEntry {
                timestamp,
                total_allocated: self.state.total_allocated,
                total_freed: self.state.total_freed,
                current_heap_size: heap,
                live_allocations: live as u32,
            },
        );
        proof {
            assert(self.state.timeline@.drop_last() =~= old(self).state.timeline@);
        }
    }

    /// The number and bytes of the live allocations.
    fn live_totals(&self) -> (r: (u64, u64))
        requires
            self.wf(),
        ensures
            r.0 == live_count(self.allocs()),
            r.1 == live_bytes(self.allocs()),
    {
        let ghost s = self.allocs();
        let mut count: u64 = 0;
        let mut bytes: u64 = 0;
        let mut i: usize = 0;
        proof {
            lemma_sums(s);
        }
        while i < self.state.allocations.len()
            invariant
                i <= s.len(),
                s == self.allocs(),
                self.wf(),
                count == live_count(s.take(i as int)),
                bytes == live_bytes(s.take(i as int)),
            decreases s.len() - i,
        {
            proof {
                assert(s.take(i + 1).drop_last() =~= s.take(i as int));
                lemma_sums(s.take(i + 1));
                lemma_prefix_sums(s, i + 1);
            }
            let a = &self.state.allocations[i];
            assert(s[i as int] == a@);
            if !a.freed {
                count = count + 1;
                bytes = bytes + a.size;
            }
            i = i + 1;
        }
        proof {
            assert(s.take(i as int) =~= s);
        }
        (count, bytes)
    }

    /// Whether a clock reading is due for a timeline entry: a full interval
    /// after the last sample (a reading before it never is).
    pub open spec fn timeline_due(last: u128, now: u128, interval: u64) -> bool {
        now >= last && now - last >= interval
    }

    /// Records a timeline entry when the reading `current_time` is a full
    /// interval after the last sample, and makes it the last sample; leaves
    /// the profiler as it is otherwise.
    fn record_timeline_if_due(&mut self, current_time: u128)
        requires
            old(self).wf(),
        ensures
            final(self).wf(),
            !Self::timeline_due(old(self).last_timeline_sample, current_time, old(self).state.config.timeline_interval)
                ==> *final(self) == *old(self),
            Self::timeline_due(old(self).last_timeline_sample, current_time, old(self).state.config.timeline_interval)
                ==> {
                &&& final(self).last_timeline_sample == current_time
                &&& final(self).state.timeline@.len() == old(self).state.timeline@.len() + 1
                &&& final(self).state.timeline@.drop_last() == old(self).state.timeline@
                &&& final(self).state.timeline@.last() == timeline_entry_of(
                    old(self).allocs(),
                    old(self).state.total_allocated,
                    old(self).state.total_freed,
                    final(self).state.timeline@.last().timestamp,
                )
                &&& final(self).state.allocations == old(self).state.allocations
                &&& final(self).tracking_active == old(self).tracking_active
                &&& final(self).state.total_allocated == old(self).state.total_allocated
                &&& final(self).state.total_freed == old(self).state.total_freed
                &&& final(self).state.config == old(self).state.config
                &&& final(self).state.next_id == old(self).state.next_id
            },
    {
        let last = self.last_timeline_sample;
        let due = if current_time >= last {
            current_time - last >= self.state.config.timeline_interval as u128
        } else {
            false
        };
        if due {
            self.record_timeline_entry();
            self.last_timeline_sample = current_time;
        }
    }

    /// Records a timeline entry when an interval has passed since the last
    /// one, by the clock: either nothing changes (the reading was not due),
    /// or an entry of the current table is appended and the last sample
    /// moves at least an interval on.
    fn maybe_record_timeline(&mut self)
        requires
            old(self).wf(),
        ensures
            final(self).wf(),
            *final(self) == *old(self) || {
                &&& final(self).last_timeline_sample >= old(self).last_timeline_sample
                    + old(self).state.config.timeline_interval
                &&& final(self).state.timeline@.len() == old(self).state.timeline@.len() + 1
                &&& final(self).state.timeline@.drop_last() == old(self).state.timeline@
                &&& final(self).state.timeline@.last() == timeline_entry_of(
                    old(self).allocs(),
                    old(self).state.total_allocated,
                    old(self).state.total_freed,
                    final(self).state.timeline@.last().timestamp,
                )
            },
            final(self).state.allocations == old(self).state.allocations,
            final(self).tracking_active == old(self).tracking_active,
            final(self).state.total_allocated == old(self).state.total_allocated,
            final(self).state.total_freed == old(self).state.total_freed,
            final(self).state.config == old(self).state.config,
            final(self).state.next_id == old(self).state.next_id,
    {
        let current_time = clock::now_micros();
        self.record_timeline_if_due(current_time);
    }

    /// Starts tracking: clears the table, the totals and the timeline, then
    /// records a first timeline entry. Refused while tracking.
    pub fn start_tracking(&mut self) -> (r: Result<(), String>)
        requires
            old(self).wf(),
        ensures
            final(self).wf(),
            old(self).tracking() ==> (r matches Err(e) && e@ == "Tracking already active"@
                && *final(self) == *old(self)),
            !old(self).tracking() ==> {
                &&& r is Ok
                &&& final(self).tracking()
                &&& final(self).allocs().len() == 0
                &&& final(self).allocated_total() == 0
                &&& final(self).freed_total() == 0
                &&& final(self).timeline_seq().len() == 1
                &&& final(self).timeline_seq()[0].total_allocated == 0
                &&& final(self).timeline_seq()[0].total_freed == 0
                &&& final(self).timeline_seq()[0].current_heap_size == 0
                &&& final(self).timeline_seq()[0].live_allocations == 0
                &&& final(self).settings() == old(self).settings()
            },
    {
        if self.tracking_active {
            return Err(owned("Tracking already active"));
        }
        self.state.allocations = Vec::new();
        self.state.timeline = Vec::new();
        self.state.total_allocated = 0;
        self.state.total_freed = 0;
        self.state.next_id = 1;
        self.last_timeline_sample = clock::now_micros();
        self.tracking_active = true;
        proof {
            assert(self.allocs() =~= Seq::<AllocView>::empty());
        }
        self.record_timeline_entry();
        Ok(())
    }

    /// Stops tracking and takes a final snapshot. Refused while idle.
    pub fn stop_tracking(&mut self) -> (r: Result<MemorySnapshot, String>)
        requires
            old(self).wf(),
        ensures
            final(self).wf(),
            !old(self).tracking() ==> (r matches Err(e) && e@ == "Tracking not active"@
                && *final(self) == *old(self)),
            old(self).tracking() ==> {
                &&& !final(self).tracking()
                &&& final(self).allocs() == old(self).allocs()
                &&& final(self).timeline_seq() == old(self).timeline_seq()
                &&& r matches Ok(snap) && final(self).is_snapshot(snap)
            },
    {
        if !self.tracking_active {
            return Err(owned("Tracking not active"));
        }
        self.tracking_active = false;
        Ok(self.take_snapshot())
    }

    /// Records an allocation of `size` bytes with its stack (innermost
    /// frame first), truncated to the configured depth, or dropped when
    /// stacks are not captured. Allocations below the minimum size are not
    /// tracked and get id 0. Refused while idle.
    pub fn record_allocation(&mut self, size: u64, stack_trace: Vec<CallFrame>) -> (r: Result<u64, String>)
        requires
            old(self).wf(),
            old(self).allocs().len() + 2 < u64::MAX,
            old(self).tracking() && size >= old(self).settings().min_allocation_size
                ==> old(self).allocated_total() + size <= u64::MAX,
        ensures
            final(self).wf(),
            !old(self).tracking() ==> (r matches Err(e) && e@ == "Tracking not active"@
                && *final(self) == *old(self)),
            old(self).tracking() && size < old(self).settings().min_allocation_size ==> (r == Ok::<
                u64,
                String,
            >(0) && *final(self) == *old(self)),
            old(self).tracking() && size >= old(self).settings().min_allocation_size ==> {
                let id = (old(self).allocs().len() + 1) as u64;
                let cfg = old(self).settings();
                let trace = if cfg.capture_stack_traces {
                    if stack_trace@.len() <= cfg.max_stack_depth {
                        stack_trace@
                    } else {
                        stack_trace@.take(cfg.max_stack_depth as int)
                    }
                } else {
                    Seq::empty()
                };
                &&& r == Ok::<u64, String>(id)
                &&& final(self).allocs().len() == old(self).allocs().len() + 1
                &&& final(self).allocs().drop_last() == old(self).allocs()
                &&& final(self).allocs().last().id == id
                &&& final(self).allocs().last().size == size
                &&& final(self).allocs().last().trace == trace
                &&& !final(self).allocs().last().freed
                &&& final(self).allocs().last().freed_timestamp is None
                &&& final(self).allocated_total() == old(self).allocated_total() + size
                &&& final(self).freed_total() == old(self).freed_total()
                &&& final(self).tracking()
                &&& final(self).settings() == old(self).settings()
                &&& final(self).timeline_seq() == old(self).timeline_seq() || (
                final(self).timeline_seq().drop_last() == old(self).timeline_seq()
                    && final(self).timeline_seq().len() == old(self).timeline_seq().len() + 1
                    && final(self).timeline_seq().last() == timeline_entry_of(
                    final(self).allocs(),
                    final(self).allocated_total(),
                    final(self).freed_total(),
                    final(self).timeline_seq().last().timestamp,
                ))
            },
    {
        if !self.tracking_active {
            return Err(owned("Tracking not active"));
        }
        if size < self.state.config.min_allocation_size {
            return Ok(0);
        }
        let id = self.state.next_id;
        self.state.next_id = self.state.next_id + 1;
        let timestamp = clock::now_micros();
        let mut trace = stack_trace;
        if self.state.config.capture_stack_traces {
            let depth = self.state.config.max_stack_depth as usize;
            let ghost full = trace@;
            while trace.len() > depth
                invariant
                    trace@.len() >= depth ==> trace@ == full.take(trace@.len() as int),
                    trace@.len() < depth ==> trace@ == full,
                    trace@.len() <= full.len(),
                decreases trace@.len(),
            {
                trace.pop();
                proof {
                    assert(trace@ =~= full.take(trace@.len() as int));
                }
            }
            proof {
                if full.len() <= depth {
                    assert(full.take(full.len() as int) =~= full);
                }
            }
        } else {
            trace = Vec::new();
        }
        let ghost before = self.allocs();
        self.state.allocations.push(
            AllocationEntry {
                id,
                size,
                timestamp,
                stack_trace: trace,
                freed: false,
                freed_timestamp: None,
            },
        );
        self.state.total_allocated = self.state.total_allocated + size;
        proof {
            assert(self.allocs().drop_last() =~= before);
            let s = self.allocs();
            assert forall|i: int| 0 <= i < s.len() implies (#[trigger] s[i]).id == i + 1
                && s[i].timestamp < micros_bound() by {
                if i < before.len() {
                    assert(s[i] == before[i]);
                }
            }
        }
        self.maybe_record_timeline();
        Ok(id)
    }

    /// Records the release of an allocation. Refused while idle, for an id
    /// never handed out (`Unknown allocation ID: <id>`), and for one
    /// already released (`Allocation <id> already freed (double free)`).
    pub fn record_deallocation(&mut self, allocation_id: u64) -> (r: Result<(), String>)
        requires
            old(self).wf(),
        ensures
            final(self).wf(),
            !old(self).tracking() ==> (r matches Err(e) && e@ == "Tracking not active"@
                && *final(self) == *old(self)),
            old(self).tracking() && (allocation_id == 0 || allocation_id > old(self).allocs().len())
                ==> (r matches Err(e) && e@ == "Unknown allocation ID: "@ + decimal_digits(
                allocation_id as nat,
            ) && *final(self) == *old(self)),
            old(self).tracking() && 1 <= allocation_id <= old(self).allocs().len() && old(self).allocs()[allocation_id - 1].freed ==> (r matches Err(e) && e@ == "Allocation "@
                + decimal_digits(allocation_id as nat) + " already freed (double free)"@
                && *final(self) == *old(self)),
            old(self).tracking() && 1 <= allocation_id <= old(self).allocs().len() && !old(self).allocs()[allocation_id - 1].freed ==> {
                let i = allocation_id - 1;
                let a = old(self).allocs()[i];
                &&& r is Ok
                &&& final(self).allocs().len() == old(self).allocs().len()
                &&& forall|j: int| 0 <= j < old(self).allocs().len() && j != i ==> #[trigger] final(self).allocs()[j] == old(self).allocs()[j]
                &&& final(self).allocs()[i].freed
                &&& final(self).allocs()[i].freed_timestamp is Some
                &&& final(self).allocs()[i].id == a.id
                &&& final(self).allocs()[i].size == a.size
                &&& final(self).allocs()[i].timestamp == a.timestamp
                &&& final(self).allocs()[i].trace == a.trace
                &&& final(self).freed_total() == old(self).freed_total() + a.size
                &&& final(self).allocated_total() == old(self).allocated_total()
                &&& final(self).tracking()
                &&& final(self).settings() == old(self).settings()
                &&& final(self).timeline_seq() == old(self).timeline_seq() || (
                final(self).timeline_seq().drop_last() == old(self).timeline_seq()
                    && final(self).timeline_seq().len() == old(self).timeline_seq().len() + 1)
            },
    {
        if !self.tracking_active {
            return Err(owned("Tracking not active"));
        }
        let timestamp = clock::now_micros();
        if allocation_id == 0 || allocation_id > self.state.allocations.len() as u64 {
            let digits = decimal_string(allocation_id);
            return Err(concat_str("Unknown allocation ID: ", digits.as_str()));
        }
        let i = (allocation_id - 1) as usize;
        let ghost before = self.allocs();
        assert(before[i as int] == self.state.allocations@[i as int]@);
        if self.state.allocations[i].freed {
            let digits = decimal_string(allocation_id);
            let head = concat_str("Allocation ", digits.as_str());
            return Err(concat_str(head.as_str(), " already freed (double free)"));
        }
        proof {
            lemma_sums(before);
            lemma_sums_update(
                before,
                i as int,
                AllocView { freed: true, freed_timestamp: Some(timestamp), ..before[i as int] },
            );
            lemma_sums(before.update(
                i as int,
                AllocView { freed: true, freed_timestamp: Some(timestamp), ..before[i as int] },
            ));
        }
        let size = self.state.allocations[i].size;
        let entry = &mut self.state.allocations[i];
        entry.freed = true;
        entry.freed_timestamp = Some(timestamp);
        self.state.total_freed = self.state.total_freed + size;
        proof {
            let s = self.allocs();
            assert(s =~= before.update(
                i as int,
                AllocView { freed: true, freed_timestamp: Some(timestamp), ..before[i as int] },
            ));
            assert forall|j: int| 0 <= j < s.len() implies (#[trigger] s[j]).id == j + 1
                && s[j].timestamp < micros_bound() by {
                assert(s[j].id == before[j].id);
            }
        }
        self.maybe_record_timeline();
        Ok(())
    }

    /// The call-site summaries of the table.
    fn compute_allocation_summaries(&self) -> (r: Vec<AllocationSummary>)
        requires
            self.wf(),
        ensures
            r@.map_values(|x: AllocationSummary| summary_view(x)) == summaries(self.allocs()),
    {
        let ghost s = self.allocs();
        let mut out: Vec<AllocationSummary> = Vec::new();
        let mut i: usize = 0;
        proof {
            lemma_sums(s);
        }
        while i < self.state.allocations.len()
            invariant
                i <= s.len(),
                s == self.allocs(),
                self.wf(),
                out@.map_values(|x: AllocationSummary| summary_view(x)) == summaries(s.take(i as int)),
            decreases s.len() - i,
        {
            let ghost prefix = s.take(i + 1);
            proof {
                assert(prefix.drop_last() =~= s.take(i as int));
                lemma_summaries_bounded(prefix);
                lemma_prefix_sums(s, i + 1);
                lemma_sums(s);
            }
            let a = &self.state.allocations[i];
            assert(prefix.last() == a@);
            let site = self.site_of(i);
            let ghost prev = out@.map_values(|x: AllocationSummary| summary_view(x));
            proof {
                lemma_find_site(prev, site@);
            }
            let mut k: usize = 0;
            while k < out.len() && !str_eq(out[k].call_site.as_str(), site.as_str())
                invariant
                    k <= out@.len(),
                    prev == out@.map_values(|x: AllocationSummary| summary_view(x)),
                    find_site(prev.take(k as int), site@) is None,
                decreases out@.len() - k,
            {
                proof {
                    assert(prev.take(k + 1).drop_last() =~= prev.take(k as int));
                }
                k = k + 1;
            }
            let live: u64 = if a.freed { 0 } else { a.size };
            if k < out.len() {
                proof {
                    assert(prev.take(k + 1).drop_last() =~= prev.take(k as int));
                    lemma_find_site_prefix(prev, site@, k + 1);
                    let u = summaries(prefix)[k as int];
                    assert(u.count <= prefix.len() && u.total <= sum_sizes(prefix));
                }
                let e = &mut out[k];
                e.allocation_count = e.allocation_count + 1;
                e.total_bytes = e.total_bytes + a.size;
                e.live_bytes = e.live_bytes + live;
                proof {
                    assert(out@.map_values(|x: AllocationSummary| summary_view(x)) =~= summaries(prefix));
                }
            } else {
                proof {
                    assert(prev.take(k as int) =~= prev);
                }
                out.push(
                    AllocationSummary {
                        call_site: site,
                        allocation_count: 1,
                        total_bytes: a.size,
                        live_bytes: live,
                    },
                );
                proof {
                    assert(out@.map_values(|x: AllocationSummary| summary_view(x)) =~= summaries(prefix));
                }
            }
            i = i + 1;
        }
        proof {
            assert(s.take(i as int) =~= s);
        }
        out
    }

    /// The call site of allocation `i`.
    fn site_of(&self, i: usize) -> (r: String)
        requires
            i < self.state.allocations@.len(),
        ensures
            r@ == call_site(self.allocs()[i as int]),
    {
        let a = &self.state.allocations[i];
        assert(self.allocs()[i as int] == a@);
        if a.stack_trace.len() == 0 {
            owned("(unknown)")
        } else {
            let f = &a.stack_trace[0];
            let head = concat_str(f.function_name.as_str(), ":");
            let line = signed_decimal_string(f.line_number as i64);
            let r = concat_str(head.as_str(), line.as_str());
            proof {
                assert(r@ =~= f.function_name@ + ":"@ + signed_decimal(f.line_number as int));
            }
            r
        }
    }

    /// The leak report for allocation `i` at time `now`.
    fn leak_for(&self, i: usize, now: u128) -> (r: Option<PotentialLeak>)
        requires
            self.wf(),
            i < self.state.allocations@.len(),
            now < micros_bound(),
        ensures
            match leak_of(self.allocs()[i as int], now as int, self.state.config.leak_threshold_age as int) {
                Some(l) => r matches Some(p) && leak_view(p) == l,
                None => r is None,
            },
    {
        let a = &self.state.allocations[i];
        assert(self.allocs()[i as int] == a@);
        if a.freed {
            return None;
        }
        let age: i128 = (now as i128) - (a.timestamp as i128);
        let threshold = self.state.config.leak_threshold_age;
        if age < threshold as i128 {
            return None;
        }
        let factor: u32 = if threshold == 0 {
            if age == 0 {
                0
            } else {
                u32::MAX
            }
        } else {
            let q = (age as u128) / (threshold as u128);
            if q > u32::MAX as u128 {
                u32::MAX
            } else {
                q as u32
            }
        };
        let wrapped: u32 = factor.wrapping_mul(10);
        proof {
            assert(wrapped == ((factor as int * 10) % 0x1_0000_0000) as u32) by (bit_vector)
                requires
                    wrapped == factor.wrapping_mul(10),
            ;
        }
        let mut score: u32 = if wrapped < 50 { wrapped } else { 50 };
        let mut reasons: Vec<String> = Vec::new();
        if factor > 1 {
            let digits = decimal_string(factor as u64);
            reasons.push(concat_str(digits.as_str(), "x longer than threshold"));
        }
        if a.size > 1_000_000 {
            score = score + 30;
            reasons.push(owned("Large allocation (>1MB)"));
        } else if a.size > 100_000 {
            score = score + 15;
            reasons.push(owned("Medium allocation (>100KB)"));
        }
        if a.stack_trace.len() == 0 {
            score = score + 10;
            reasons.push(owned("Unknown allocation source"));
        }
        proof {
            assert(reasons@.map_values(|s: String| s@) =~= leak_reasons(a@, factor));
        }
        if score < 20 {
            return None;
        }
        let reason = join_with(&reasons, "; ");
        Some(
            PotentialLeak {
                allocation_id: a.id,
                size: a.size,
                age,
                stack_trace: copy_frames(&a.stack_trace),
                leak_score: if score < 100 { score } else { 100 },
                reason,
            },
        )
    }

    /// The reported leaks at time `now`.
    fn detect_potential_leaks(&self, now: u128) -> (r: Vec<PotentialLeak>)
        requires
            self.wf(),
            now < micros_bound(),
        ensures
            r@.map_values(|p: PotentialLeak| leak_view(p)) == reported_leaks(
                self.allocs(),
                now as int,
                self.state.config.leak_threshold_age as int,
            ),
    {
        let ghost s = self.allocs();
        let ghost th = self.state.config.leak_threshold_age as int;
        let ghost cand = leak_candidates(s, now as int, th);
        let mut sorted: Vec<PotentialLeak> = Vec::new();
        let mut i: usize = 0;
        while i < self.state.allocations.len()
            invariant
                i <= s.len(),
                s == self.allocs(),
                self.wf(),
                now < micros_bound(),
                th == self.state.config.leak_threshold_age as int,
                sorted@.map_values(|p: PotentialLeak| leak_view(p)) == sort_leaks(
                    leak_candidates(s.take(i as int), now as int, th),
                ),
            decreases s.len() - i,
        {
            proof {
                assert(s.take(i + 1).drop_last() =~= s.take(i as int));
                assert(s.take(i + 1).last() == s[i as int]);
                assert(leak_candidates(s.take(i + 1), now as int, th) == match leak_of(s[i as int], now as int, th) {
                    Some(l) => leak_candidates(s.take(i as int), now as int, th).push(l),
                    None => leak_candidates(s.take(i as int), now as int, th),
                });
            }
            let found = self.leak_for(i, now);
            match found {
                Some(leak) => {
                    assert(leak_of(s[i as int], now as int, th) == Some(leak_view(leak)));
                    let ghost sv = sorted@.map_values(|p: PotentialLeak| leak_view(p));
                    let score = leak.leak_score;
                    let mut pos: usize = sorted.len();
                    proof {
                        assert(sv.take(pos as int) =~= sv);
                    }
                    while pos > 0 && sorted[pos - 1].leak_score < score
                        invariant
                            pos <= sorted@.len(),
                            sv == sorted@.map_values(|p: PotentialLeak| leak_view(p)),
                            leak_position(sv, score) == leak_position(sv.take(pos as int), score),
                        decreases pos,
                    {
                        proof {
                            assert(sv.take(pos as int).drop_last() =~= sv.take(pos - 1));
                        }
                        pos = pos - 1;
                    }
                    proof {
                        if pos > 0 {
                            assert(sv.take(pos as int).last() == sv[pos - 1]);
                        }
                    }
                    let ghost lv = leak_view(leak);
                    sorted.insert(pos, leak);
                    proof {
                        let ci = leak_candidates(s.take(i as int), now as int, th);
                        assert(ci.push(lv).drop_last() =~= ci);
                        assert(ci.push(lv).last() == lv);
                        assert(sorted@.map_values(|p: PotentialLeak| leak_view(p)) =~= sv.insert(
                            pos as int,
                            lv,
                        ));
                    }
                },
                None => {
                    assert(leak_of(s[i as int], now as int, th) is None);
                },
            }
            i = i + 1;
        }
        proof {
            assert(s.take(i as int) =~= s);
        }
        let ghost full = sorted@.map_values(|p: PotentialLeak| leak_view(p));
        while sorted.len() > 50
            invariant
                sorted@.len() >= 50 ==> sorted@.map_values(|p: PotentialLeak| leak_view(p)) == full.take(
                    sorted@.len() as int,
                ),
                sorted@.len() < 50 ==> sorted@.map_values(|p: PotentialLeak| leak_view(p)) == full,
                sorted@.len() <= full.len(),
                sorted@.len() < 50 ==> sorted@.len() == full.len(),
            decreases sorted@.len(),
        {
            let ghost before = sorted@;
            sorted.pop();
            proof {
                assert(sorted@ =~= before.drop_last());
                assert(sorted@.map_values(|p: PotentialLeak| leak_view(p)) =~= full.take(
                    sorted@.len() as int,
                ));
            }
        }
        proof {
            if full.len() >= 50 {
                assert(sorted@.map_values(|p: PotentialLeak| leak_view(p)) =~= full.take(50));
            } else {
                assert(full.take(full.len() as int) =~= full);
            }
        }
        sorted
    }

    /// Whether a snapshot describes the current table and timeline: the
    /// total and live bytes, the summaries by call site, the leaks at the
    /// snapshot's time, and the timeline.
    pub closed spec fn is_snapshot(&self, snap: MemorySnapshot) -> bool {
        &&& snap.total_heap_size == self.state.total_allocated
        &&& snap.used_heap_size == live_bytes(self.allocs())
        &&& snap.allocation_summaries@.map_values(|x: AllocationSummary| summary_view(x)) == summaries(
            self.allocs(),
        )
        &&& snap.potential_leaks@.map_values(|p: PotentialLeak| leak_view(p)) == reported_leaks(
            self.allocs(),
            snap.timestamp as int,
            self.state.config.leak_threshold_age as int,
        )
        &&& snap.timeline@ == self.state.timeline@
    }

    /// A snapshot's call-site summaries are the summaries of the table.
    pub proof fn lemma_snapshot_summaries(&self, snap: MemorySnapshot)
        requires
            self.is_snapshot(snap),
        ensures
            snap.allocation_summaries@.map_values(|x: AllocationSummary| summary_view(x)) == summaries(
                self.allocs(),
            ),
    {
    }

    /// Every leak that a snapshot reports names an allocation of the table,
    /// by its id, that has not been freed.
    pub proof fn snapshot_leaks_are_live(&self, snap: MemorySnapshot)
        requires
            self.wf(),
            self.is_snapshot(snap),
        ensures
            forall|k: int|
                0 <= k < snap.potential_leaks@.len() ==> 1 <= (#[trigger] snap.potential_leaks@[k]).allocation_id
                    <= self.allocs().len() && !self.allocs()[snap.potential_leaks@[k].allocation_id - 1].freed
                    && self.allocs()[snap.potential_leaks@[k].allocation_id - 1].size
                    == snap.potential_leaks@[k].size,
    {
        let s = self.allocs();
        let r = reported_leaks(s, snap.timestamp as int, self.state.config.leak_threshold_age as int);
        reported_leaks_are_live(s, snap.timestamp as int, self.state.config.leak_threshold_age as int);
        assert forall|k: int| 0 <= k < snap.potential_leaks@.len() implies 1 <= (
        #[trigger] snap.potential_leaks@[k]).allocation_id <= s.len() && !s[snap.potential_leaks@[k].allocation_id
            - 1].freed && s[snap.potential_leaks@[k].allocation_id - 1].size == snap.potential_leaks@[k].size by {
            let p = snap.potential_leaks@[k];
            assert(leak_view(p) == r[k]);
            let i = choose|i: int| 0 <= i < s.len() && !s[i].freed && s[i].id == r[k].id && s[i].size == r[k].size;
            assert(s[i].id == i + 1);
        }
    }

    /// A snapshot of the table, taken now.
    pub fn take_snapshot(&self) -> (snap: MemorySnapshot)
        requires
            self.wf(),
        ensures
            self.is_snapshot(snap),
            forall|k: int|
                0 <= k < snap.potential_leaks@.len() ==> 1 <= (#[trigger] snap.potential_leaks@[k]).allocation_id
                    <= self.allocs().len() && !self.allocs()[snap.potential_leaks@[k].allocation_id - 1].freed,
    {
        let timestamp = clock::now_micros();
        let allocation_summaries = self.compute_allocation_summaries();
        let potential_leaks = self.detect_potential_leaks(timestamp);
        let (_, used) = self.live_totals();
        let mut timeline: Vec<MemoryTimelineEntry> = Vec::new();
        let mut i: usize = 0;
        while i < self.state.timeline.len()
            invariant
                i <= self.state.timeline@.len(),
                timeline@ == self.state.timeline@.take(i as int),
            decreases self.state.timeline@.len() - i,
        {
            timeline.push(self.state.timeline[i]);
            i = i + 1;
            proof {
                assert(timeline@ =~= self.state.timeline@.take(i as int));
            }
        }
        proof {
            assert(self.state.timeline@.take(i as int) =~= self.state.timeline@);
        }
        let snap = MemorySnapshot {
            timestamp,
            total_heap_size: self.state.total_allocated,
            used_heap_size: used,
            allocation_summaries,
            potential_leaks,
            timeline,
        };
        proof {
            self.snapshot_leaks_are_live(snap);
        }
        snap
    }

    /// Counts of the table and totals.
    pub fn get_stats(&self) -> (s: MemoryStats)
        requires
            self.wf(),
        ensures
            s.total_allocations == self.allocs().len(),
            s.live_allocations == live_count(self.allocs()),
            s.freed_allocations == self.allocs().len() - live_count(self.allocs()),
            s.total_allocated_bytes == self.allocated_total(),
            s.total_freed_bytes == self.freed_total(),
            s.current_heap_bytes == live_bytes(self.allocs()),
            s.timeline_entries == self.timeline_seq().len(),
    {
        let (live, bytes) = self.live_totals();
        proof {
            lemma_sums(self.allocs());
        }
        let total = self.state.allocations.len() as u64;
        MemoryStats {
            total_allocations: total,
            live_allocations: live,
            freed_allocations: total - live,
            total_allocated_bytes: self.state.total_allocated,
            total_freed_bytes: self.state.total_freed,
            current_heap_bytes: bytes,
            timeline_entries: self.state.timeline.len() as u64,
        }
    }

    /// A simulated collection: records a timeline entry while tracking.
    pub fn force_gc(&mut self)
        requires
            old(self).wf(),
        ensures
            final(self).wf(),
            final(self).allocs() == old(self).allocs(),
            final(self).tracking() == old(self).tracking(),
            !old(self).tracking() ==> final(self).timeline_seq() == old(self).timeline_seq(),
            old(self).tracking() ==> final(self).timeline_seq().drop_last() == old(self).timeline_seq()
                && final(self).timeline_seq().len() == old(self).timeline_seq().len() + 1
                && final(self).timeline_seq().last() == timeline_entry_of(
                old(self).allocs(),
                old(self).allocated_total(),
                old(self).freed_total(),
                final(self).timeline_seq().last().timestamp,
            ),
    {
        if self.tracking_active {
            self.record_timeline_entry();
        }
    }

    /// The timeline.
    pub fn get_timeline(&self) -> (r: &[MemoryTimelineEntry])
        ensures
            r@ == self.timeline_seq(),
    {
        self.state.timeline.as_slice()
    }

    /// Copies of the live allocations, in id order.
    pub fn get_live_allocations(&self) -> (r: Vec<AllocationEntry>)
        ensures
            r@.map_values(|a: AllocationEntry| a@) == self.allocs().filter(|a: AllocView| !a.freed),
    {
        let ghost s = self.allocs();
        let mut r: Vec<AllocationEntry> = Vec::new();
        let mut i: usize = 0;
        while i < self.state.allocations.len()
            invariant
                i <= s.len(),
                s == self.allocs(),
                r@.map_values(|a: AllocationEntry| a@) == s.take(i as int).filter(|a: AllocView| !a.freed),
            decreases s.len() - i,
        {
            proof {
                assert(s.take(i + 1).drop_last() =~= s.take(i as int));
                reveal(Seq::filter);
            }
            let a = &self.state.allocations[i];
            assert(s[i as int] == a@);
            if !a.freed {
                r.push(a.clone());
            }
            proof {
                assert(r@.map_values(|a: AllocationEntry| a@) =~= s.take(i + 1).filter(|a: AllocView| !a.freed));
            }
            i = i + 1;
        }
        proof {
            assert(s.take(i as int) =~= s);
        }
        r
    }
}

proof fn lemma_prefix_sums(s: Seq<AllocView>, n: int)
    requires
        0 <= n <= s.len(),
    ensures
        sum_sizes(s.take(n)) <= sum_sizes(s),
        live_bytes(s.take(n)) <= live_bytes(s),
        live_count(s.take(n)) <= live_count(s),
    decreases s.len() - n,
{
    if n < s.len() {
        lemma_prefix_sums(s.drop_last(), n);
        assert(s.drop_last().take(n) =~= s.take(n));
    } else {
        assert(s.take(n) =~= s);
    }
}

/// Strings joined with a separator.
fn join_with(parts: &Vec<String>, sep: &str) -> (r: String)
    ensures
        r@ == joined(parts@.map_values(|s: String| s@), sep@),
{
    let ghost views = parts@.map_values(|s: String| s@);
    let mut out = String::new();
    let mut i: usize = 0;
    while i < parts.len()
        invariant
            i <= parts@.len(),
            views == parts@.map_values(|s: String| s@),
            out@ == joined(views.take(i as int), sep@),
        decreases parts@.len() - i,
    {
        proof {
            assert(views.take(i + 1).drop_last() =~= views.take(i as int));
        }
        if i == 0 {
            out = parts[0].clone();
            proof {
                assert(views.take(1) =~= seq![views[0]]);
            }
        } else {
            let with_sep = concat_str(out.as_str(), sep);
            out = concat_str(with_sep.as_str(), parts[i].as_str());
        }
        i = i + 1;
    }
    proof {
        assert(views.take(i as int) =~= views);
    }
    out
}

/// Each freed byte was allocated: the freed total never exceeds the
/// allocated total, and the live bytes are their difference.
pub proof fn freed_within_allocated(p: &MemoryProfiler)
    requires
        p.wf(),
    ensures
        p.freed_total() <= p.allocated_total(),
        live_bytes(p.allocs()) == p.allocated_total() - p.freed_total(),
{
    lemma_sums(p.allocs());
}

} // verus!
