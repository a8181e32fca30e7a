//! GPU frame timing from labeled timestamp queries: which query slot each label
//! gets, when a frame's timestamps are worth reading back, and what the read-back
//! ticks say about the frame.

use vstd::prelude::*;
use vstd::bytes::{
    lemma_auto_spec_u64_to_from_le_bytes, spec_u64_from_le_bytes, spec_u64_to_le_bytes,
    u64_from_le_bytes,
};

use crate::history::{push, pushed, HISTORY};

verus! {

/// Timestamp queries available per frame.
pub const CAPACITY: u32 = 64;

/// Bytes that one resolved timestamp query occupies in the read-back buffer.
pub const TIMESTAMP_BYTES: usize = 8;

/// Ticks from `earlier` to `later`; zero when the clock went backwards.
pub open spec fn gap(earlier: u64, later: u64) -> u64 {
    if later >= earlier {
        (later - earlier) as u64
    } else {
        0
    }
}

/// Timestamp `i` of a read-back buffer: the `i`-th little-endian `u64`, or zero
/// where the buffer holds no complete eight bytes for it.
pub open spec fn tick_at(data: Seq<u8>, i: int) -> u64 {
    if TIMESTAMP_BYTES * (i + 1) <= data.len() {
        spec_u64_from_le_bytes(data.subrange(TIMESTAMP_BYTES * i, TIMESTAMP_BYTES * (i + 1)))
    } else {
        0
    }
}

/// The first `count` timestamps of a read-back buffer.
pub open spec fn ticks_of(data: Seq<u8>, count: nat) -> Seq<u64> {
    Seq::new(count, |i: int| tick_at(data, i))
}

/// The segments of a frame: each timestamp after the first, labeled with its own
/// label, with the ticks since the timestamp before it.
pub open spec fn segments(labels: Seq<Seq<char>>, ticks: Seq<u64>) -> Seq<(Seq<char>, u64)> {
    Seq::new(
        (ticks.len() - 1) as nat,
        |i: int| (labels[i + 1], gap(ticks[i], ticks[i + 1])),
    )
}

/// Ticks between the first and the last timestamp (zero if the last is earlier).
pub open spec fn span(ticks: Seq<u64>) -> u64 {
    gap(ticks[0], ticks.last())
}

/// The sum of the tick counts of a list of segments.
pub open spec fn total_of(segs: Seq<(Seq<char>, u64)>) -> int
    decreases segs.len(),
{
    if segs.len() == 0 {
        0
    } else {
        total_of(segs.drop_last()) + segs.last().1
    }
}

/// Ticks that never go backwards.
pub open spec fn nondecreasing(ticks: Seq<u64>) -> bool {
    forall|i: int, j: int| 0 <= i <= j < ticks.len() ==> ticks[i] <= ticks[j]
}

/// The labels of a list of timestamps, as text.
pub open spec fn labels_view(labels: Seq<String>) -> Seq<Seq<char>> {
    labels.map_values(|s: String| s@)
}

/// A list of labeled tick counts, with the labels as text.
pub open spec fn segments_view(segs: Seq<(String, u64)>) -> Seq<(Seq<char>, u64)> {
    segs.map_values(|r: (String, u64)| (r.0@, r.1))
}

/// The abstract state of a [`GpuProfiler`].
pub ghost struct GpuProfilerView {
    /// Whether the device supports timestamp queries.
    pub enabled: bool,
    /// Labels of the timestamps written this frame, in query order.
    pub pending: Seq<Seq<char>>,
    /// Segments of the last resolved frame, in ticks.
    pub results: Seq<(Seq<char>, u64)>,
    /// Ticks between the first and the last timestamp of the last resolved frame.
    pub total_ticks: u64,
    /// `total_ticks` per resolved frame, oldest first.
    pub total_history: Seq<u64>,
}

/// GPU timings of a single frame, from user-placed timestamp queries.
///
/// The query set and the read-back buffer belong to the caller; this type decides
/// which query slot each timestamp uses and turns the read-back bytes into timings.
pub struct GpuProfiler {
    enabled: bool,
    pending: Vec<String>,
    results: Vec<(String, u64)>,
    total_ticks: u64,
    total_history: Vec<u64>,
}

impl GpuProfiler {
    #[verifier::type_invariant]
    closed spec fn inv(self) -> bool {
        &&& self.pending.len() <= CAPACITY
        &&& self.results.len() < CAPACITY
        &&& self.total_history.len() <= HISTORY
        &&& !self.enabled ==> self.pending.len() == 0
    }

    /// The profiler's state, with its labels as text.
    pub closed spec fn view(&self) -> GpuProfilerView {
        GpuProfilerView {
            enabled: self.enabled,
            pending: labels_view(self.pending@),
            results: segments_view(self.results@),
            total_ticks: self.total_ticks,
            total_history: self.total_history@,
        }
    }

    /// What every profiler keeps: at most `CAPACITY` pending timestamps, none when
    /// disabled, fewer segments than `CAPACITY`, and at most `HISTORY` frames of
    /// history.
    pub open spec fn well_formed(v: GpuProfilerView) -> bool {
        &&& v.pending.len() <= CAPACITY
        &&& v.results.len() < CAPACITY
        &&& v.total_history.len() <= HISTORY
        &&& !v.enabled ==> v.pending.len() == 0
    }

    /// Creates the profiler; it is disabled when the device lacks timestamp queries.
    pub fn new(timestamp_queries_supported: bool) -> (p: Self)
        ensures
            p.view().enabled == timestamp_queries_supported,
            p.view().pending == Seq::<Seq<char>>::empty(),
            p.view().results == Seq::<(Seq<char>, u64)>::empty(),
            p.view().total_ticks == 0,
            p.view().total_history == Seq::<u64>::empty(),
            Self::well_formed(p.view()),
    {
        let p = GpuProfiler {
            enabled: timestamp_queries_supported,
            pending: Vec::new(),
            results: Vec::new(),
            total_ticks: 0,
            total_history: Vec::new(),
        };
        proof {
            assert(p.view().pending =~= Seq::<Seq<char>>::empty());
            assert(p.view().results =~= Seq::<(Seq<char>, u64)>::empty());
            use_type_invariant(&p);
        }
        p
    }

    /// Whether timestamp queries are available on this device.
    pub fn enabled(&self) -> (b: bool)
        ensures
            b == self.view().enabled,
    {
        self.enabled
    }

    /// Reserves the query slot for a timestamp named `label`.
    ///
    /// Returns the slot the caller writes the timestamp into; `None` (and no change)
    /// when the profiler is disabled or this frame already has `CAPACITY` timestamps.
    pub fn timestamp(&mut self, label: String) -> (slot: Option<u32>)
        ensures
            Self::well_formed(final(self).view()),
            old(self).view().enabled && old(self).view().pending.len() < CAPACITY ==> {
                &&& slot == Some(old(self).view().pending.len() as u32)
                &&& final(self).view() == (GpuProfilerView {
                    pending: old(self).view().pending.push(label@),
                    ..old(self).view()
                })
            },
            !(old(self).view().enabled && old(self).view().pending.len() < CAPACITY) ==> {
                &&& slot is None
                &&& final(self).view() == old(self).view()
            },
    {
        proof {
            use_type_invariant(&*self);
        }
        if !self.enabled {
            return None;
        }
        let index = self.pending.len() as u32;
        if index == CAPACITY {
            return None;
        }
        let ghost before = self.pending@;
        let mut pending = Vec::new();
        std::mem::swap(&mut pending, &mut self.pending);
        pending.push(label);
        self.pending = pending;
        proof {
            use_type_invariant(&*self);
            assert(labels_view(self.pending@) =~= labels_view(before).push(label@));
        }
        Some(index)
    }

    /// Starts resolving the frame: forgets the last frame's segments and, when the
    /// frame has at least two timestamps to read back, returns how many.
    pub fn start_resolve(&mut self) -> (count: Option<u32>)
        ensures
            Self::well_formed(final(self).view()),
            final(self).view() == (GpuProfilerView {
                results: Seq::<(Seq<char>, u64)>::empty(),
                total_ticks: 0,
                ..old(self).view()
            }),
            count == (if old(self).view().enabled && old(self).view().pending.len() >= 2 {
                Some(old(self).view().pending.len() as u32)
            } else {
                None::<u32>
            }),
    {
        proof {
            use_type_invariant(&*self);
        }
        self.results = Vec::new();
        self.total_ticks = 0;
        proof {
            assert(self.view().results =~= Seq::<(Seq<char>, u64)>::empty());
        }
        if !self.enabled {
            return None;
        }
        let count = self.pending.len() as u32;
        if count < 2 {
            return None;
        }
        Some(count)
    }

    /// Finishes resolving the frame from the read-back timestamp buffer: every
    /// timestamp after the first becomes a segment, the first-to-last span becomes
    /// the frame's total, and the total joins the history.
    ///
    /// Does nothing when the profiler is disabled or fewer than two timestamps
    /// were written.
    pub fn finish_resolve(&mut self, data: &[u8])
        ensures
            Self::well_formed(final(self).view()),
            old(self).view().enabled && old(self).view().pending.len() >= 2 ==> {
                let ticks = ticks_of(data@, old(self).view().pending.len());
                final(self).view() == (GpuProfilerView {
                    results: segments(old(self).view().pending, ticks),
                    total_ticks: span(ticks),
                    total_history: pushed(old(self).view().total_history, span(ticks)),
                    ..old(self).view()
                })
            },
            !(old(self).view().enabled && old(self).view().pending.len() >= 2)
                ==> final(self).view() == old(self).view(),
    {
        proof {
            use_type_invariant(&*self);
        }
        let count = self.pending.len();
        if !self.enabled || count < 2 {
            return;
        }
        let ticks = decode_ticks(data, count);
        let mut results: Vec<(String, u64)> = Vec::new();
        let ghost labels = labels_view(self.pending@);
        let mut i: usize = 0;
        while i + 1 < count
            invariant
                count == self.pending.len(),
                2 <= count <= CAPACITY,
                ticks@ == ticks_of(data@, count as nat),
                labels == labels_view(self.pending@),
                i + 1 <= count,
                segments_view(results@) =~= segments(
                    labels,
                    ticks@,
                ).subrange(0, i as int),
            decreases count - i,
        {
            let ghost before = results@;
            let label = self.pending[i + 1].clone();
            let delta = ticks[i + 1].saturating_sub(ticks[i]);
            results.push((label, delta));
            proof {
                let seg = (labels[i + 1], gap(ticks@[i as int], ticks@[i + 1]));
                assert(segments_view(results@) =~= segments_view(before).push(seg));
            }
            i = i + 1;
        }
        let total = ticks[count - 1].saturating_sub(ticks[0]);
        self.results = results;
        self.total_ticks = total;
        let mut history = Vec::new();
        std::mem::swap(&mut history, &mut self.total_history);
        push(&mut history, total);
        self.total_history = history;
        proof {
            use_type_invariant(&*self);
            assert(segments(labels, ticks@).subrange(0, i as int) =~= segments(labels, ticks@));
        }
    }

    /// Segments of the last frame: (label, ticks since the previous timestamp).
    pub fn results(&self) -> (r: &Vec<(String, u64)>)
        ensures
            segments_view(r@) == self.view().results,
    {
        &self.results
    }

    /// Ticks between the first and the last timestamp of the last frame.
    pub fn total_ticks(&self) -> (t: u64)
        ensures
            t == self.view().total_ticks,
    {
        self.total_ticks
    }

    /// `total_ticks` per resolved frame, oldest first.
    pub fn total_history(&self) -> (h: &Vec<u64>)
        ensures
            h@ == self.view().total_history,
    {
        &self.total_history
    }

    /// Number of timestamps that produced the last frame's segments (one more than
    /// the segments), or zero when there are none.
    pub fn timestamp_count(&self) -> (n: usize)
        ensures
            n == (if self.view().results.len() == 0 {
                0
            } else {
                self.view().results.len() + 1
            }),
    {
        proof {
            use_type_invariant(self);
        }
        if self.results.len() == 0 {
            0
        } else {
            self.results.len() + 1
        }
    }
}

/// Opens a new GPU frame: forgets the labels of the last frame's timestamps.
pub fn begin_gpu_frame(profiler: &mut GpuProfiler)
    ensures
        GpuProfiler::well_formed(final(profiler).view()),
        final(profiler).view() == (GpuProfilerView {
            pending: Seq::<Seq<char>>::empty(),
            ..old(profiler).view()
        }),
{
    proof {
        use_type_invariant(&*profiler);
    }
    profiler.pending = Vec::new();
    proof {
        use_type_invariant(&*profiler);
        assert(profiler.view().pending =~= Seq::<Seq<char>>::empty());
    }
}

/// Timestamp `i` of a read-back buffer (zero past its end).
fn read_tick(data: &[u8], i: usize) -> (value: u64)
    requires
        i < CAPACITY,
    ensures
        value == tick_at(data@, i as int),
{
    let start = TIMESTAMP_BYTES * i;
    if start + TIMESTAMP_BYTES > data.len() {
        return 0;
    }
    let chunk: Vec<u8> = vec![
        data[start],
        data[start + 1],
        data[start + 2],
        data[start + 3],
        data[start + 4],
        data[start + 5],
        data[start + 6],
        data[start + 7],
    ];
    assert(chunk@ =~= data@.subrange(start as int, start + TIMESTAMP_BYTES));
    u64_from_le_bytes(chunk.as_slice())
}

/// Reads the first `count` little-endian `u64` timestamps out of a read-back buffer;
/// timestamps past the end of the buffer read as zero.
pub fn decode_ticks(data: &[u8], count: usize) -> (ticks: Vec<u64>)
    requires
        count <= CAPACITY,
    ensures
        ticks@ == ticks_of(data@, count as nat),
{
    let mut ticks: Vec<u64> = Vec::new();
    let mut i: usize = 0;
    while i < count
        invariant
            i <= count <= CAPACITY,
            ticks@ =~= ticks_of(data@, count as nat).subrange(0, i as int),
        decreases count - i,
    {
        let value = read_tick(data, i);
        ticks.push(value);
        i = i + 1;
    }
    ticks
}

/// When the clock never runs backwards, the segments of a frame add up to its
/// first-to-last span.
pub proof fn lemma_segments_sum_to_span(labels: Seq<Seq<char>>, ticks: Seq<u64>)
    requires
        ticks.len() >= 2,
        nondecreasing(ticks),
    ensures
        total_of(segments(labels, ticks)) == span(ticks),
    decreases ticks.len(),
{
    if ticks.len() == 2 {
        let segs = segments(labels, ticks);
        assert(segs.drop_last().len() == 0);
        assert(total_of(segs.drop_last()) == 0);
        assert(ticks[0] <= ticks[1]);
    } else {
        let shorter = ticks.drop_last();
        assert(nondecreasing(shorter));
        lemma_segments_sum_to_span(labels, shorter);
        assert(segments(labels, ticks).drop_last() =~= segments(labels, shorter));
        assert(ticks[0] <= shorter.last() <= ticks.last());
    }
}

/// A frame with `n` timestamps has `n - 1` segments, and each segment is labeled
/// with the label of the timestamp that ends it.
pub proof fn lemma_segment_labels(labels: Seq<Seq<char>>, ticks: Seq<u64>)
    requires
        ticks.len() >= 1,
    ensures
        segments(labels, ticks).len() == ticks.len() - 1,
        forall|i: int|
            0 <= i < ticks.len() - 1 ==> #[trigger] segments(labels, ticks)[i].0 == labels[i + 1],
{
}

/// On a clock that never runs backwards, each segment of a frame is exactly the
/// ticks from the timestamp before it to its own, and the frame's total is exactly
/// the ticks from the first timestamp to the last: nothing is clamped or dropped.
pub proof fn lemma_segments_exact(labels: Seq<Seq<char>>, ticks: Seq<u64>)
    requires
        ticks.len() >= 2,
        nondecreasing(ticks),
    ensures
        forall|i: int|
            0 <= i < ticks.len() - 1 ==> #[trigger] segments(labels, ticks)[i].1 == ticks[i + 1]
                - ticks[i],
        span(ticks) == ticks[ticks.len() - 1] - ticks[0],
{
    assert forall|i: int| 0 <= i < ticks.len() - 1 implies #[trigger] segments(labels, ticks)[i].1
        == ticks[i + 1] - ticks[i] by {
        assert(ticks[i] <= ticks[i + 1]);
    }
    assert(ticks[0] <= ticks[ticks.len() - 1]);
}

/// A segment whose timestamp is earlier than the one before it counts zero ticks,
/// and otherwise the ticks between the two.
pub proof fn lemma_gap_is_difference(earlier: u64, later: u64)
    ensures
        earlier <= later ==> gap(earlier, later) == later - earlier,
        later < earlier ==> gap(earlier, later) == 0,
{
}

/// Each decoded timestamp is the `u64` whose little-endian bytes are the eight
/// bytes of its slot in the read-back buffer; a slot past the end reads as zero.
pub proof fn lemma_ticks_are_slot_bytes(data: Seq<u8>, count: nat)
    ensures
        ticks_of(data, count).len() == count,
        forall|i: int|
            0 <= i < count && TIMESTAMP_BYTES * (i + 1) <= data.len() ==> spec_u64_to_le_bytes(
                #[trigger] ticks_of(data, count)[i],
            ) == data.subrange(TIMESTAMP_BYTES * i, TIMESTAMP_BYTES * (i + 1)),
        forall|i: int|
            0 <= i < count && TIMESTAMP_BYTES * (i + 1) > data.len() ==> #[trigger] ticks_of(
                data,
                count,
            )[i] == 0,
{
    lemma_auto_spec_u64_to_from_le_bytes();
    assert forall|i: int|
        0 <= i < count && TIMESTAMP_BYTES * (i + 1) <= data.len() implies spec_u64_to_le_bytes(
        #[trigger] ticks_of(data, count)[i],
    ) == data.subrange(TIMESTAMP_BYTES * i, TIMESTAMP_BYTES * (i + 1)) by {
        let chunk = data.subrange(TIMESTAMP_BYTES * i, TIMESTAMP_BYTES * (i + 1));
        assert(chunk.len() == 8);
        assert(spec_u64_to_le_bytes(spec_u64_from_le_bytes(chunk)) == chunk);
    }
}

} // verus!
