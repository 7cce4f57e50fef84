//! The pipeline from recognition events to censored samples.
//!
//! Every finalized event is searched and mapped to sample ranges, the ranges
//! of all events are merged into one plan for the whole stream, and the plan
//! is overlaid on the samples in one pass. The plan is complete before the
//! first sample is written.

use crate::overlay::{censored, write_all, BeepWaveform};
use crate::ranges::{is_merge_of, merged_plan, CensorshipPlan, PlanBuilder, SampleRange};
use crate::recognition::RecognitionEvent;
use crate::timeline::{event_degraded, event_ranges, TimelineMatcher};
use vstd::prelude::*;

verus! {

/// The ranges that a list of events gives rise to: those of each event, in
/// the order of the events.
pub open spec fn stream_ranges(
    events: Seq<RecognitionEvent>,
    patterns: Seq<Vec<u8>>,
    sample_rate: u32,
    min_confidence_ppm: u32,
) -> Seq<SampleRange>
    decreases events.len(),
{
    if events.len() == 0 {
        Seq::empty()
    } else {
        stream_ranges(events.drop_last(), patterns, sample_rate, min_confidence_ppm) + event_ranges(
            events.last(),
            patterns,
            sample_rate,
            min_confidence_ppm,
        )
    }
}

/// Some event of the list has its ranges by interpolation.
pub open spec fn any_degraded(events: Seq<RecognitionEvent>) -> bool {
    exists|k: int| 0 <= k < events.len() && event_degraded(#[trigger] events[k])
}

/// The plan for a stream, and whether any of it rests on interpolation.
#[derive(Debug)]
pub struct StreamPlan {
    /// The merged ranges to censor.
    pub plan: CensorshipPlan,
    /// Whether some event had no word-level timing, so that its ranges are
    /// less precise.
    pub degraded: bool,
}

/// Makes the plan for a stream of `stream_len` samples from the events that
/// its transcription gave: the merge of the ranges of all events.
pub fn plan_stream(matcher: &TimelineMatcher, events: &[RecognitionEvent], stream_len: u64) -> (out:
    StreamPlan)
    ensures
        out.plan.spec_stream_len() == stream_len,
        out.plan@ == merged_plan(
            stream_ranges(
                events@,
                matcher.spec_patterns(),
                matcher.spec_sample_rate(),
                matcher.spec_min_confidence_ppm(),
            ),
            stream_len,
        ),
        is_merge_of(
            out.plan@,
            stream_ranges(
                events@,
                matcher.spec_patterns(),
                matcher.spec_sample_rate(),
                matcher.spec_min_confidence_ppm(),
            ),
            stream_len,
        ),
        out.degraded == any_degraded(events@),
{
    let mut builder = PlanBuilder::new();
    let mut degraded = false;
    let mut k: usize = 0;
    while k < events.len()
        invariant
            k <= events@.len(),
            builder@ == stream_ranges(
                events@.subrange(0, k as int),
                matcher.spec_patterns(),
                matcher.spec_sample_rate(),
                matcher.spec_min_confidence_ppm(),
            ),
            degraded == any_degraded(events@.subrange(0, k as int)),
        decreases events@.len() - k,
    {
        let timeline = matcher.match_event(&events[k]);
        builder.add(timeline.ranges.as_slice());
        let ghost seen = events@.subrange(0, k as int);
        let ghost grown = events@.subrange(0, k + 1);
        proof {
            assert(grown.drop_last() =~= seen);
            assert(grown.last() == events@[k as int]);
            if any_degraded(seen) {
                let j = choose|j: int| 0 <= j < seen.len() && event_degraded(#[trigger] seen[j]);
                assert(event_degraded(grown[j]));
            }
            if timeline.degraded {
                assert(event_degraded(grown[k as int]));
            }
            if any_degraded(grown) {
                let j = choose|j: int| 0 <= j < grown.len() && event_degraded(#[trigger] grown[j]);
                if j < k {
                    assert(event_degraded(seen[j]));
                }
            }
        }
        degraded = degraded || timeline.degraded;
        k += 1;
    }
    assert(events@.subrange(0, k as int) =~= events@);
    StreamPlan { plan: builder.freeze(stream_len), degraded }
}

/// Censors a whole stream that is held in memory: makes the plan from the
/// events and appends to `sink` what the overlay writer emits for the
/// samples. Says whether any of the plan rests on interpolation.
pub fn censor_stream(
    samples: &[i16],
    events: &[RecognitionEvent],
    matcher: &TimelineMatcher,
    beep: &BeepWaveform,
    sink: &mut Vec<i16>,
) -> (degraded: bool)
    ensures
        final(sink)@ == old(sink)@ + censored(
            samples@,
            merged_plan(
                stream_ranges(
                    events@,
                    matcher.spec_patterns(),
                    matcher.spec_sample_rate(),
                    matcher.spec_min_confidence_ppm(),
                ),
                samples@.len() as u64,
            ),
            beep@,
        ),
        degraded == any_degraded(events@),
{
    let out = plan_stream(matcher, events, samples.len() as u64);
    write_all(samples, &out.plan, beep, sink);
    out.degraded
}

} // verus!
