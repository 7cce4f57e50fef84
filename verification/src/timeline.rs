//! The timeline matcher.
//!
//! A finalized transcript is searched for the listed patterns, and every
//! occurrence is turned into a range of absolute sample indices. Where the
//! recognizer gives word-level timing, the range is that of the words which
//! the occurrence touches, and an occurrence that touches a word of too
//! little confidence is dropped. Where it gives none, the range is found by
//! linear interpolation over the samples of the utterance, and the result is
//! marked as degraded.
//!
//! Offsets into a transcript are byte offsets. The words of a transcript are
//! taken to stand in it in order with one byte between each two.

use crate::ranges::SampleRange;
use crate::recognition::{RecognitionEvent, WordSpan};
use crate::search::{all_matches, find_matches, Match};
use vstd::prelude::*;

verus! {

/// The sample index nearest to a time: microseconds times samples per second,
/// over a million, rounded half up.
pub open spec fn rounded_sample(micros: int, sample_rate: int) -> int {
    (micros * sample_rate + 500_000) / 1_000_000
}

/// The sample index nearest to a time, or the largest index that can be
/// written down where the nearest lies beyond it.
pub open spec fn sample_at_time(micros: u64, sample_rate: u32) -> u64 {
    let exact = rounded_sample(micros as int, sample_rate as int);
    if exact <= u64::MAX {
        exact as u64
    } else {
        u64::MAX
    }
}

/// Offset in the transcript at which word `i` starts: the lengths of the
/// words before it, and one byte behind each of them.
pub open spec fn word_offset(words: Seq<WordSpan>, i: int) -> int
    decreases i,
{
    if i <= 0 {
        0
    } else {
        word_offset(words, i - 1) + words[i - 1].text@.len() + 1
    }
}

/// The occurrence `m` shares at least one byte with word `i`.
pub open spec fn word_overlaps(words: Seq<WordSpan>, i: int, m: Match) -> bool {
    &&& m.char_start < m.char_end
    &&& words[i].text@.len() > 0
    &&& m.char_start < word_offset(words, i) + words[i].text@.len()
    &&& word_offset(words, i) < m.char_end
}

/// The earlier of two times.
pub open spec fn earlier(a: u64, b: u64) -> u64 {
    if a <= b {
        a
    } else {
        b
    }
}

/// The later of two times.
pub open spec fn later(a: u64, b: u64) -> u64 {
    if a >= b {
        a
    } else {
        b
    }
}

/// The earliest start and the latest end among those of the first `n` words
/// that the occurrence touches; nothing where it touches none of them.
pub open spec fn word_extent(words: Seq<WordSpan>, m: Match, n: int) -> Option<(u64, u64)>
    decreases n,
{
    if n <= 0 {
        None
    } else {
        let before = word_extent(words, m, n - 1);
        let w = words[n - 1];
        if word_overlaps(words, n - 1, m) {
            match before {
                None => Some((w.start_micros, w.end_micros)),
                Some((s, e)) => Some((earlier(s, w.start_micros), later(e, w.end_micros))),
            }
        } else {
            before
        }
    }
}

/// Every word that the occurrence touches has more than the least
/// confidence.
pub open spec fn words_confident(words: Seq<WordSpan>, m: Match, min_confidence_ppm: u32) -> bool {
    forall|i: int|
        0 <= i < words.len() && #[trigger] word_overlaps(words, i, m) ==> words[i].confidence_ppm
            > min_confidence_ppm
}

/// The range of an occurrence by word-level timing: from the earliest start
/// to the latest end of the words that it touches. There is none where it
/// touches no word, and none where it touches a word of too little
/// confidence.
pub open spec fn timed_range(
    m: Match,
    words: Seq<WordSpan>,
    sample_rate: u32,
    min_confidence_ppm: u32,
) -> Option<SampleRange> {
    if words_confident(words, m, min_confidence_ppm) {
        match word_extent(words, m, words.len() as int) {
            Some((s, e)) => Some(
                SampleRange {
                    start_sample: sample_at_time(s, sample_rate),
                    end_sample: sample_at_time(e, sample_rate),
                },
            ),
            None => None,
        }
    } else {
        None
    }
}

/// The ranges of a list of occurrences by word-level timing, in the order of
/// the occurrences, without those that have none.
pub open spec fn timed_ranges(
    found: Seq<Match>,
    words: Seq<WordSpan>,
    sample_rate: u32,
    min_confidence_ppm: u32,
) -> Seq<SampleRange>
    decreases found.len(),
{
    if found.len() == 0 {
        Seq::empty()
    } else {
        let rest = timed_ranges(found.drop_last(), words, sample_rate, min_confidence_ppm);
        match timed_range(found.last(), words, sample_rate, min_confidence_ppm) {
            Some(r) => rest.push(r),
            None => rest,
        }
    }
}

/// The sample index that stands for an offset into a transcript of
/// `text_len` bytes, by linear interpolation over the samples of `extent`,
/// rounded down. An offset behind the end of the transcript counts as its
/// end; in an empty transcript every offset stands for the start of the
/// extent.
pub open spec fn interpolated_sample(offset: int, text_len: int, extent: SampleRange) -> int {
    if text_len <= 0 {
        extent.start_sample as int
    } else {
        let at = if offset < text_len {
            offset
        } else {
            text_len
        };
        extent.start_sample + (at * extent.spec_len()) / text_len
    }
}

/// The range of an occurrence by linear interpolation.
pub open spec fn interpolated_range(m: Match, text_len: int, extent: SampleRange) -> SampleRange {
    SampleRange {
        start_sample: interpolated_sample(m.char_start as int, text_len, extent) as u64,
        end_sample: interpolated_sample(m.char_end as int, text_len, extent) as u64,
    }
}

/// The ranges of a list of occurrences by linear interpolation, one for each
/// occurrence, in their order.
pub open spec fn interpolated_ranges(found: Seq<Match>, text_len: int, extent: SampleRange) -> Seq<
    SampleRange,
> {
    Seq::new(found.len(), |k: int| interpolated_range(found[k], text_len, extent))
}

/// The ranges that an event gives rise to. A partial event gives none.
pub open spec fn event_ranges(
    event: RecognitionEvent,
    patterns: Seq<Vec<u8>>,
    sample_rate: u32,
    min_confidence_ppm: u32,
) -> Seq<SampleRange> {
    match event {
        RecognitionEvent::Partial { text } => Seq::empty(),
        RecognitionEvent::Finalized { text, word_spans, extent } => {
            let found = all_matches(patterns, text@);
            match word_spans {
                Some(words) => timed_ranges(found, words@, sample_rate, min_confidence_ppm),
                None => interpolated_ranges(found, text@.len() as int, extent),
            }
        },
    }
}

/// Whether the ranges of an event are found by interpolation, for want of
/// word-level timing.
pub open spec fn event_degraded(event: RecognitionEvent) -> bool {
    event matches RecognitionEvent::Finalized { word_spans, .. } && word_spans is None
}

/// The word extent of an occurrence bounds the times of the words that it
/// touches: its start is the start of one of them and not later than any, its
/// end is the end of one of them and not earlier than any.
pub proof fn lemma_word_extent_bounds(words: Seq<WordSpan>, m: Match, n: int)
    requires
        0 <= n <= words.len(),
    ensures
        word_extent(words, m, n) is None <==> forall|i: int|
            0 <= i < n ==> !#[trigger] word_overlaps(words, i, m),
        word_extent(words, m, n) matches Some((s, e)) ==> {
            &&& forall|i: int|
                0 <= i < n && #[trigger] word_overlaps(words, i, m) ==> s <= words[i].start_micros
                    && words[i].end_micros <= e
            &&& exists|i: int|
                0 <= i < n && #[trigger] word_overlaps(words, i, m) && words[i].start_micros == s
            &&& exists|i: int|
                0 <= i < n && #[trigger] word_overlaps(words, i, m) && words[i].end_micros == e
        },
    decreases n,
{
    if n > 0 {
        lemma_word_extent_bounds(words, m, n - 1);
        let before = word_extent(words, m, n - 1);
        if word_overlaps(words, n - 1, m) {
            match before {
                None => {},
                Some((s, e)) => {
                    let i = choose|i: int|
                        0 <= i < n - 1 && #[trigger] word_overlaps(words, i, m)
                            && words[i].start_micros == s;
                    let j = choose|j: int|
                        0 <= j < n - 1 && #[trigger] word_overlaps(words, j, m)
                            && words[j].end_micros == e;
                    assert(word_overlaps(words, i, m));
                    assert(word_overlaps(words, j, m));
                },
            }
        } else {
            match before {
                None => {},
                Some((s, e)) => {
                    let i = choose|i: int|
                        0 <= i < n - 1 && #[trigger] word_overlaps(words, i, m)
                            && words[i].start_micros == s;
                    let j = choose|j: int|
                        0 <= j < n - 1 && #[trigger] word_overlaps(words, j, m)
                            && words[j].end_micros == e;
                    assert(word_overlaps(words, i, m));
                    assert(word_overlaps(words, j, m));
                },
            }
        }
    }
}

/// Turns a time in microseconds into the nearest sample index at the given
/// rate, halves rounded up. The index stops at the largest that a `u64`
/// holds.
pub fn time_to_sample(micros: u64, sample_rate: u32) -> (s: u64)
    ensures
        s == sample_at_time(micros, sample_rate),
{
    assert((micros as int) * (sample_rate as int) <= 0xffff_ffff_ffff_ffff * 0xffff_ffff)
        by (nonlinear_arith)
        requires
            0 <= micros <= 0xffff_ffff_ffff_ffff,
            0 <= sample_rate <= 0xffff_ffff,
    ;
    let product: u128 = (micros as u128) * (sample_rate as u128);
    let exact: u128 = (product + 500_000) / 1_000_000;
    if exact <= 0xffff_ffff_ffff_ffff {
        exact as u64
    } else {
        u64::MAX
    }
}

/// The range of one occurrence by word-level timing.
pub fn word_timed_range(
    m: &Match,
    words: &[WordSpan],
    sample_rate: u32,
    min_confidence_ppm: u32,
) -> (r: Option<SampleRange>)
    ensures
        r == timed_range(*m, words@, sample_rate, min_confidence_ppm),
{
    let count = words.len();
    let mut offset: u128 = 0;
    let mut extent: Option<(u64, u64)> = None;
    let mut confident = true;
    let mut i: usize = 0;
    while i < count
        invariant
            count == words@.len(),
            i <= count,
            offset == word_offset(words@, i as int),
            offset <= i * 0x1_0000_0000_0000_0000,
            extent == word_extent(words@, *m, i as int),
            confident <==> forall|j: int|
                0 <= j < i && #[trigger] word_overlaps(words@, j, *m) ==> words@[j].confidence_ppm
                    > min_confidence_ppm,
        decreases count - i,
    {
        let len = words[i].text.len() as u128;
        let overlaps = m.char_start < m.char_end && len > 0 && (m.char_start as u128) < offset
            + len && offset < (m.char_end as u128);
        assert(overlaps == word_overlaps(words@, i as int, *m));
        if overlaps {
            if words[i].confidence_ppm <= min_confidence_ppm {
                confident = false;
            }
            let start = words[i].start_micros;
            let end = words[i].end_micros;
            extent =
            match extent {
                None => Some((start, end)),
                Some((s, e)) => Some(
                    (
                        if s <= start {
                            s
                        } else {
                            start
                        },
                        if e >= end {
                            e
                        } else {
                            end
                        },
                    ),
                ),
            };
        }
        offset = offset + len + 1;
        i += 1;
    }
    if !confident {
        return None;
    }
    match extent {
        None => None,
        Some((s, e)) => Some(
            SampleRange {
                start_sample: time_to_sample(s, sample_rate),
                end_sample: time_to_sample(e, sample_rate),
            },
        ),
    }
}

/// The sample index that stands for an offset into a transcript, by linear
/// interpolation over the samples of `extent`, rounded down.
pub fn interpolate(offset: usize, text_len: usize, extent: &SampleRange) -> (s: u64)
    ensures
        s == interpolated_sample(offset as int, text_len as int, *extent),
        extent.is_ordered() ==> extent.start_sample <= s <= extent.end_sample,
{
    if text_len == 0 {
        return extent.start_sample;
    }
    let at = if offset < text_len {
        offset
    } else {
        text_len
    };
    let len = extent.len();
    assert(0 <= (at as int) * (len as int) <= 0xffff_ffff_ffff_ffff * 0xffff_ffff_ffff_ffff)
        by (nonlinear_arith)
        requires
            0 <= at <= 0xffff_ffff_ffff_ffff,
            0 <= len <= 0xffff_ffff_ffff_ffff,
    ;
    assert(((at as int) * (len as int)) / (text_len as int) <= len) by (nonlinear_arith)
        requires
            0 <= at <= text_len,
            0 < text_len,
            0 <= len,
    ;
    let product: u128 = (at as u128) * (len as u128);
    let step: u128 = product / (text_len as u128);
    extent.start_sample + (step as u64)
}

/// The ranges of a list of occurrences by linear interpolation over the
/// samples of `extent`.
pub fn interpolate_matches(found: &[Match], text_len: usize, extent: &SampleRange) -> (ranges: Vec<
    SampleRange,
>)
    ensures
        ranges@ == interpolated_ranges(found@, text_len as int, *extent),
{
    let mut ranges: Vec<SampleRange> = Vec::new();
    let mut k: usize = 0;
    while k < found.len()
        invariant
            k <= found@.len(),
            ranges@.len() == k,
            forall|j: int|
                0 <= j < k ==> ranges@[j] == interpolated_range(
                    found@[j],
                    text_len as int,
                    *extent,
                ),
        decreases found@.len() - k,
    {
        let start = interpolate(found[k].char_start, text_len, extent);
        let end = interpolate(found[k].char_end, text_len, extent);
        ranges.push(SampleRange { start_sample: start, end_sample: end });
        k += 1;
    }
    assert(ranges@ =~= interpolated_ranges(found@, text_len as int, *extent));
    ranges
}

/// The ranges of an event's occurrences, and how they were found.
#[derive(Debug)]
pub struct Timeline {
    /// One range for each occurrence that has one, in the order of the
    /// occurrences. Ranges may overlap and repeat: merging is not done here.
    pub ranges: Vec<SampleRange>,
    /// Whether the ranges were found by interpolation, for want of
    /// word-level timing, and are less precise for it.
    pub degraded: bool,
}

/// The matcher: the patterns to look for, the sample rate of the stream, and
/// the confidence that a word must exceed to be matched at all.
#[derive(Debug)]
pub struct TimelineMatcher {
    patterns: Vec<Vec<u8>>,
    sample_rate: u32,
    min_confidence_ppm: u32,
}

impl TimelineMatcher {
    /// The patterns that the matcher looks for.
    pub closed spec fn spec_patterns(&self) -> Seq<Vec<u8>> {
        self.patterns@
    }

    /// The sample rate of the stream.
    pub closed spec fn spec_sample_rate(&self) -> u32 {
        self.sample_rate
    }

    /// The confidence, in parts per million, that a word must exceed.
    pub closed spec fn spec_min_confidence_ppm(&self) -> u32 {
        self.min_confidence_ppm
    }

    /// A matcher for a list of patterns. The order of the patterns decides
    /// only the number that each is reported under.
    pub fn new(patterns: Vec<Vec<u8>>, sample_rate: u32, min_confidence_ppm: u32) -> (matcher:
        TimelineMatcher)
        ensures
            matcher.spec_patterns() == patterns@,
            matcher.spec_sample_rate() == sample_rate,
            matcher.spec_min_confidence_ppm() == min_confidence_ppm,
    {
        TimelineMatcher { patterns, sample_rate, min_confidence_ppm }
    }

    /// The patterns that the matcher looks for.
    pub fn patterns(&self) -> (p: &Vec<Vec<u8>>)
        ensures
            p@ == self.spec_patterns(),
    {
        &self.patterns
    }

    /// The ranges of the occurrences by word-level timing.
    pub fn timed(&self, found: &[Match], words: &[WordSpan]) -> (ranges: Vec<SampleRange>)
        ensures
            ranges@ == timed_ranges(
                found@,
                words@,
                self.spec_sample_rate(),
                self.spec_min_confidence_ppm(),
            ),
    {
        let mut ranges: Vec<SampleRange> = Vec::new();
        let mut k: usize = 0;
        while k < found.len()
            invariant
                k <= found@.len(),
                ranges@ == timed_ranges(
                    found@.subrange(0, k as int),
                    words@,
                    self.spec_sample_rate(),
                    self.spec_min_confidence_ppm(),
                ),
            decreases found@.len() - k,
        {
            assert(found@.subrange(0, k + 1).drop_last() =~= found@.subrange(0, k as int));
            match word_timed_range(&found[k], words, self.sample_rate, self.min_confidence_ppm) {
                Some(r) => {
                    ranges.push(r);
                },
                None => {},
            }
            k += 1;
        }
        assert(found@.subrange(0, k as int) =~= found@);
        ranges
    }

    /// Searches a finalized transcript for the patterns and turns every
    /// occurrence into a range of samples: by word-level timing where the
    /// event has it, by interpolation over the utterance's samples where it
    /// has not, in which case the timeline is marked as degraded. A partial
    /// event gives no ranges.
    pub fn match_event(&self, event: &RecognitionEvent) -> (timeline: Timeline)
        ensures
            timeline.ranges@ == event_ranges(
                *event,
                self.spec_patterns(),
                self.spec_sample_rate(),
                self.spec_min_confidence_ppm(),
            ),
            timeline.degraded == event_degraded(*event),
    {
        match event {
            RecognitionEvent::Partial { text: _ } => Timeline {
                ranges: Vec::new(),
                degraded: false,
            },
            RecognitionEvent::Finalized { text, word_spans, extent } => {
                let found = find_matches(self.patterns.as_slice(), text.as_slice());
                match word_spans {
                    Some(words) => Timeline {
                        ranges: self.timed(found.as_slice(), words.as_slice()),
                        degraded: false,
                    },
                    None => Timeline {
                        ranges: interpolate_matches(found.as_slice(), text.len(), extent),
                        degraded: true,
                    },
                }
            },
        }
    }
}

} // verus!
