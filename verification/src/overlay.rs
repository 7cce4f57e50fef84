//! The censorship overlay writer.
//!
//! One forward pass over the samples of a stream: a sample whose absolute
//! index lies in a range of the plan is replaced by the tone, replayed
//! cyclically by absolute index; every other sample passes unchanged. Each
//! sample is emitted exactly once, in order.

use crate::ranges::{covered, is_merged, CensorshipPlan, SampleRange};
use vstd::prelude::*;

verus! {

/// One period of the tone that replaces censored samples: a non-empty
/// sequence of samples that is replayed cyclically.
#[derive(Debug)]
pub struct BeepWaveform {
    samples: Vec<i16>,
}

impl View for BeepWaveform {
    type V = Seq<i16>;

    closed spec fn view(&self) -> Seq<i16> {
        self.samples@
    }
}

/// The tone sample that stands at an absolute index of the stream.
pub open spec fn tone_at(beep: Seq<i16>, index: int) -> i16 {
    beep[index % (beep.len() as int)]
}

/// What the writer emits for the sample at an absolute index: the tone inside
/// the plan's ranges, the source sample elsewhere.
pub open spec fn censored_sample(
    source: i16,
    index: int,
    plan: Seq<SampleRange>,
    beep: Seq<i16>,
) -> i16 {
    if covered(plan, index) {
        tone_at(beep, index)
    } else {
        source
    }
}

/// What the writer emits for a whole stream that starts at index 0.
pub open spec fn censored(source: Seq<i16>, plan: Seq<SampleRange>, beep: Seq<i16>) -> Seq<i16> {
    Seq::new(source.len(), |i: int| censored_sample(source[i], i, plan, beep))
}

/// Each source sample beside what the writer emits for it.
pub open spec fn mirrored(source: Seq<i16>, plan: Seq<SampleRange>, beep: Seq<i16>) -> Seq<
    (i16, i16),
> {
    Seq::new(source.len(), |i: int| (source[i], censored_sample(source[i], i, plan, beep)))
}

impl BeepWaveform {
    /// What holds of every waveform: it has at least one sample.
    #[verifier::type_invariant]
    pub closed spec fn is_cyclic(&self) -> bool {
        self.samples@.len() > 0
    }

    /// Takes one period of a tone. There is no waveform without samples.
    pub fn new(samples: Vec<i16>) -> (beep: Option<BeepWaveform>)
        ensures
            beep is Some <==> samples@.len() > 0,
            beep matches Some(b) ==> b@ == samples@,
    {
        if samples.len() == 0 {
            None
        } else {
            Some(BeepWaveform { samples })
        }
    }

    /// Number of samples in one period; never zero.
    pub fn len(&self) -> (n: usize)
        ensures
            n == self@.len(),
            n > 0,
    {
        proof {
            use_type_invariant(self);
        }
        self.samples.len()
    }

    /// The tone sample that stands at an absolute index of the stream.
    pub fn sample_at(&self, index: u64) -> (s: i16)
        ensures
            self@.len() > 0,
            s == tone_at(self@, index as int),
    {
        proof {
            use_type_invariant(self);
        }
        let n = self.samples.len();
        let at = (index % (n as u64)) as usize;
        self.samples[at]
    }
}

/// One step of the pass: moves the cursor past the ranges that end at or
/// before `position`, then picks the tone or the source sample.
fn overlay_step(
    ranges: &Vec<SampleRange>,
    beep: &BeepWaveform,
    cursor: usize,
    position: u64,
    sample: i16,
) -> (r: (usize, i16))
    requires
        is_merged(ranges@),
        cursor <= ranges@.len(),
        forall|j: int| 0 <= j < cursor ==> (#[trigger] ranges@[j]).end_sample <= position,
    ensures
        r.0 <= ranges@.len(),
        cursor <= r.0,
        forall|j: int| 0 <= j < r.0 ==> (#[trigger] ranges@[j]).end_sample <= position,
        r.1 == censored_sample(sample, position as int, ranges@, beep@),
{
    let mut at = cursor;
    while at < ranges.len() && ranges[at].end_sample <= position
        invariant
            cursor <= at <= ranges@.len(),
            forall|j: int| 0 <= j < at ==> (#[trigger] ranges@[j]).end_sample <= position,
        decreases ranges@.len() - at,
    {
        at += 1;
    }
    let inside = at < ranges.len() && ranges[at].start_sample <= position;
    proof {
        if inside {
            assert(ranges@[at as int].contains(position as int));
        } else if covered(ranges@, position as int) {
            let k = choose|k: int|
                0 <= k < ranges@.len() && (#[trigger] ranges@[k]).contains(position as int);
            if k > at {
                assert(ranges@[at as int].end_sample < ranges@[k].start_sample);
            }
        }
    }
    if inside {
        (at, beep.sample_at(position))
    } else {
        (at, sample)
    }
}

/// The writer as a stepper: it is handed the samples of a stream one by one,
/// from index 0 on, and gives back for each what is to be written in its
/// place.
#[derive(Debug)]
pub struct OverlayWriter {
    plan: CensorshipPlan,
    beep: BeepWaveform,
    cursor: usize,
    position: u64,
}

impl OverlayWriter {
    /// Absolute index of the next sample that the writer expects.
    pub closed spec fn spec_position(&self) -> u64 {
        self.position
    }

    /// The ranges that the writer censors.
    pub closed spec fn spec_plan(&self) -> Seq<SampleRange> {
        self.plan@
    }

    /// The tone that the writer overlays.
    pub closed spec fn spec_beep(&self) -> Seq<i16> {
        self.beep@
    }

    /// What holds of every writer: the ranges before its cursor lie wholly
    /// behind its position.
    #[verifier::type_invariant]
    pub closed spec fn is_tracking(&self) -> bool {
        &&& self.cursor <= self.plan@.len()
        &&& forall|j: int|
            0 <= j < self.cursor ==> (#[trigger] self.plan@[j]).end_sample <= self.position
    }

    /// A writer at the start of a stream.
    pub fn new(plan: CensorshipPlan, beep: BeepWaveform) -> (writer: OverlayWriter)
        ensures
            writer.spec_position() == 0,
            writer.spec_plan() == plan@,
            writer.spec_beep() == beep@,
    {
        OverlayWriter { plan, beep, cursor: 0, position: 0 }
    }

    /// Absolute index of the next sample that the writer expects, which is
    /// the number of samples emitted so far.
    pub fn position(&self) -> (p: u64)
        ensures
            p == self.spec_position(),
    {
        self.position
    }

    /// Takes the next sample of the stream and gives back what is to be
    /// written for it: the tone if its index lies in a range of the plan, the
    /// sample itself if not. The position moves on by one.
    pub fn emit(&mut self, sample: i16) -> (out: i16)
        requires
            old(self).spec_position() < u64::MAX,
        ensures
            out == censored_sample(
                sample,
                old(self).spec_position() as int,
                old(self).spec_plan(),
                old(self).spec_beep(),
            ),
            final(self).spec_position() == old(self).spec_position() + 1,
            final(self).spec_plan() == old(self).spec_plan(),
            final(self).spec_beep() == old(self).spec_beep(),
    {
        proof {
            use_type_invariant(&*self);
        }
        let ranges = self.plan.ranges();
        let (cursor, out) = overlay_step(ranges, &self.beep, self.cursor, self.position, sample);
        self.cursor = cursor;
        self.position = self.position + 1;
        out
    }
}

/// The overlay pass over a whole stream: appends to `sink`, for every sample
/// in order, the tone where the sample's index lies in a range of the plan
/// and the sample itself elsewhere. Exactly `samples.len()` samples are
/// appended; a plan made for a longer stream has its ranges cut off at the
/// end of `samples`.
pub fn write_all(
    samples: &[i16],
    plan: &CensorshipPlan,
    beep: &BeepWaveform,
    sink: &mut Vec<i16>,
)
    ensures
        final(sink)@ == old(sink)@ + censored(samples@, plan@, beep@),
        final(sink)@.len() == old(sink)@.len() + samples@.len(),
        forall|i: int|
            0 <= i < samples@.len() && !covered(plan@, i) ==> #[trigger] final(sink)@[old(
                sink,
            )@.len() + i] == samples@[i],
{
    let ranges = plan.ranges();
    let ghost before = sink@;
    let mut cursor: usize = 0;
    let mut i: usize = 0;
    while i < samples.len()
        invariant
            i <= samples@.len(),
            ranges@ == plan@,
            is_merged(ranges@),
            cursor <= ranges@.len(),
            forall|j: int| 0 <= j < cursor ==> (#[trigger] ranges@[j]).end_sample <= i,
            sink@.len() == before.len() + i,
            forall|k: int| 0 <= k < before.len() ==> sink@[k] == before[k],
            forall|k: int|
                0 <= k < i ==> sink@[before.len() + k] == censored_sample(
                    samples@[k],
                    k,
                    plan@,
                    beep@,
                ),
        decreases samples@.len() - i,
    {
        let (next, out) = overlay_step(ranges, beep, cursor, i as u64, samples[i]);
        cursor = next;
        sink.push(out);
        i += 1;
    }
    assert(sink@ =~= before + censored(samples@, plan@, beep@));
}

/// The overlay pass with a second sink for diagnosis: besides what
/// [`write_all`] appends to `sink`, it appends to `debug`, for every sample
/// in order, the pair of the source sample and the emitted sample.
pub fn write_all_mirrored(
    samples: &[i16],
    plan: &CensorshipPlan,
    beep: &BeepWaveform,
    sink: &mut Vec<i16>,
    debug: &mut Vec<(i16, i16)>,
)
    ensures
        final(sink)@ == old(sink)@ + censored(samples@, plan@, beep@),
        final(debug)@ == old(debug)@ + mirrored(samples@, plan@, beep@),
{
    let ranges = plan.ranges();
    let ghost before = sink@;
    let ghost seen = debug@;
    let mut cursor: usize = 0;
    let mut i: usize = 0;
    while i < samples.len()
        invariant
            i <= samples@.len(),
            ranges@ == plan@,
            is_merged(ranges@),
            cursor <= ranges@.len(),
            forall|j: int| 0 <= j < cursor ==> (#[trigger] ranges@[j]).end_sample <= i,
            sink@.len() == before.len() + i,
            debug@.len() == seen.len() + i,
            forall|k: int| 0 <= k < before.len() ==> sink@[k] == before[k],
            forall|k: int| 0 <= k < seen.len() ==> debug@[k] == seen[k],
            forall|k: int|
                0 <= k < i ==> sink@[before.len() + k] == censored_sample(
                    samples@[k],
                    k,
                    plan@,
                    beep@,
                ),
            forall|k: int|
                0 <= k < i ==> debug@[seen.len() + k] == (
                    samples@[k],
                    censored_sample(samples@[k], k, plan@, beep@),
                ),
        decreases samples@.len() - i,
    {
        let (next, out) = overlay_step(ranges, beep, cursor, i as u64, samples[i]);
        cursor = next;
        sink.push(out);
        debug.push((samples[i], out));
        i += 1;
    }
    assert(sink@ =~= before + censored(samples@, plan@, beep@));
    assert(debug@ =~= seen + mirrored(samples@, plan@, beep@));
}

} // verus!
