//! Rolling per-frame timing samples for the performance overlay.
//!
//! The window keeps the most recent frames so the reported maxima show
//! transient spikes for a moment instead of averaging them away. Durations
//! are in nanoseconds.
use vstd::prelude::*;

verus! {

/// Frames retained for the rolling maxima (about two seconds at 60 fps).
pub const PERF_WINDOW: usize = 120;

#[derive(Debug, Clone, Copy)]
pub struct PerfSample {
    pub frame_gap: u64,
    pub lock: u64,
    pub cells: u64,
    pub highlights: u64,
    pub total: u64,
}

/// The timed phases of one frame.
#[derive(Debug, Clone, Copy, PartialEq, Eq, Structural)]
pub enum Phase {
    FrameGap,
    Lock,
    Cells,
    Highlights,
    Total,
}

pub open spec fn phase_of(s: PerfSample, p: Phase) -> u64 {
    match p {
        Phase::FrameGap => s.frame_gap,
        Phase::Lock => s.lock,
        Phase::Cells => s.cells,
        Phase::Highlights => s.highlights,
        Phase::Total => s.total,
    }
}

/// Largest value of phase `p` over `s`, `0` for no samples.
pub open spec fn max_phase(s: Seq<PerfSample>, p: Phase) -> u64
    decreases s.len(),
{
    if s.len() == 0 {
        0
    } else {
        let rest = max_phase(s.drop_last(), p);
        let v = phase_of(s.last(), p);
        if v > rest {
            v
        } else {
            rest
        }
    }
}

/// The window after recording `x`: the last `PERF_WINDOW` samples.
pub open spec fn spec_record(s: Seq<PerfSample>, x: PerfSample) -> Seq<PerfSample> {
    let t = s.push(x);
    if t.len() > PERF_WINDOW {
        t.skip(t.len() - PERF_WINDOW)
    } else {
        t
    }
}

pub struct PerfStats {
    pub samples: Vec<PerfSample>,
}

fn phase_exec(s: &PerfSample, p: Phase) -> (r: u64)
    ensures
        r == phase_of(*s, p),
{
    match p {
        Phase::FrameGap => s.frame_gap,
        Phase::Lock => s.lock,
        Phase::Cells => s.cells,
        Phase::Highlights => s.highlights,
        Phase::Total => s.total,
    }
}

/// `max_phase` is an upper bound reached by some sample (or `0` when empty).
pub proof fn lemma_max_phase(s: Seq<PerfSample>, p: Phase)
    ensures
        forall|i: int| 0 <= i < s.len() ==> phase_of(#[trigger] s[i], p) <= max_phase(s, p),
        s.len() == 0 ==> max_phase(s, p) == 0,
        s.len() > 0 ==> exists|i: int| 0 <= i < s.len() && phase_of(#[trigger] s[i], p) == max_phase(s, p),
    decreases s.len(),
{
    if s.len() > 0 {
        let d = s.drop_last();
        lemma_max_phase(d, p);
        assert forall|i: int| 0 <= i < s.len() implies phase_of(#[trigger] s[i], p) <= max_phase(s, p) by {
            if i < s.len() - 1 {
                assert(s[i] == d[i]);
            }
        }
        if phase_of(s.last(), p) > max_phase(d, p) || d.len() == 0 {
            assert(phase_of(s[s.len() - 1], p) == max_phase(s, p));
        } else {
            let j = choose|j: int| 0 <= j < d.len() && phase_of(#[trigger] d[j], p) == max_phase(d, p);
            assert(s[j] == d[j]);
        }
    }
}

impl PerfStats {
    pub fn new() -> (r: Self)
        ensures
            r.samples@.len() == 0,
    {
        PerfStats { samples: Vec::new() }
    }

    /// Record one frame, dropping the oldest ones past the window.
    pub fn record(&mut self, sample: PerfSample)
        ensures
            final(self).samples@ == spec_record(old(self).samples@, sample),
    {
        self.samples.push(sample);
        if self.samples.len() > PERF_WINDOW {
            let drop = self.samples.len() - PERF_WINDOW;
            let mut kept: Vec<PerfSample> = Vec::new();
            let mut i: usize = drop;
            while i < self.samples.len()
                invariant
                    drop <= i <= self.samples@.len(),
                    kept@ == self.samples@.subrange(drop as int, i as int),
                decreases self.samples@.len() - i,
            {
                kept.push(self.samples[i]);
                assert(self.samples@.subrange(drop as int, i + 1) =~= self.samples@.subrange(
                    drop as int,
                    i as int,
                ).push(self.samples@[i as int]));
                i = i + 1;
            }
            assert(kept@ =~= self.samples@.skip(drop as int));
            self.samples = kept;
        }
    }

    /// Largest value of one phase over the window, `0` for an empty window.
    pub fn max_phase(&self, p: Phase) -> (r: u64)
        ensures
            r == max_phase(self.samples@, p),
    {
        let mut m: u64 = 0;
        let mut i: usize = 0;
        while i < self.samples.len()
            invariant
                i <= self.samples@.len(),
                m == max_phase(self.samples@.take(i as int), p),
            decreases self.samples@.len() - i,
        {
            let v = phase_exec(&self.samples[i], p);
            assert(self.samples@.take(i + 1).drop_last() =~= self.samples@.take(i as int));
            if v > m {
                m = v;
            }
            i = i + 1;
        }
        assert(self.samples@.take(i as int) =~= self.samples@);
        m
    }

    pub fn max_lock(&self) -> (r: u64)
        ensures
            r == max_phase(self.samples@, Phase::Lock),
    {
        self.max_phase(Phase::Lock)
    }

    pub fn max_cells(&self) -> (r: u64)
        ensures
            r == max_phase(self.samples@, Phase::Cells),
    {
        self.max_phase(Phase::Cells)
    }

    pub fn max_highlights(&self) -> (r: u64)
        ensures
            r == max_phase(self.samples@, Phase::Highlights),
    {
        self.max_phase(Phase::Highlights)
    }

    pub fn max_total(&self) -> (r: u64)
        ensures
            r == max_phase(self.samples@, Phase::Total),
    {
        self.max_phase(Phase::Total)
    }
}

/// The window never holds more than `PERF_WINDOW` frames, always holds the
/// newest one last, and keeps the frames before it in order.
pub proof fn law_window_keeps_the_newest_frames(s: Seq<PerfSample>, x: PerfSample)
    requires
        s.len() <= PERF_WINDOW,
    ensures
        spec_record(s, x).len() == if s.len() < PERF_WINDOW { s.len() + 1 } else { PERF_WINDOW as nat },
        spec_record(s, x).last() == x,
        forall|i: int|
            0 <= i < spec_record(s, x).len() - 1 ==> spec_record(s, x)[i] == s[i + s.len() + 1
                - spec_record(s, x).len()],
{
}

/// The reported maximum is the largest sample of the window: no sample
/// exceeds it and some sample reaches it.
pub proof fn law_max_is_the_largest_sample(s: Seq<PerfSample>, p: Phase)
    ensures
        forall|i: int| 0 <= i < s.len() ==> phase_of(#[trigger] s[i], p) <= max_phase(s, p),
        s.len() > 0 ==> exists|i: int| 0 <= i < s.len() && phase_of(#[trigger] s[i], p) == max_phase(s, p),
        s.len() == 0 ==> max_phase(s, p) == 0,
{
    lemma_max_phase(s, p);
}

} // verus!
