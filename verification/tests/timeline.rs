use audio_censor::ranges::SampleRange;
use audio_censor::recognition::{RecognitionEvent, WordSpan};
use audio_censor::search::Match;
use audio_censor::timeline::{interpolate, time_to_sample, word_timed_range, TimelineMatcher};

fn range(start_sample: u64, end_sample: u64) -> SampleRange {
    SampleRange { start_sample, end_sample }
}

fn micros(seconds: f64) -> u64 {
    (seconds * 1_000_000.0).round() as u64
}

fn ppm(confidence: f64) -> u32 {
    (confidence * 1_000_000.0).round() as u32
}

fn word(text: &str, start: f64, end: f64, confidence: f64) -> WordSpan {
    WordSpan {
        text: text.as_bytes().to_vec(),
        start_micros: micros(start),
        end_micros: micros(end),
        confidence_ppm: ppm(confidence),
    }
}

fn hit(pattern_id: usize, char_start: usize, char_end: usize) -> Match {
    Match { pattern_id, char_start, char_end }
}

fn matcher(list: &[&str]) -> TimelineMatcher {
    TimelineMatcher::new(
        list.iter().map(|p| p.as_bytes().to_vec()).collect(),
        16000,
        900_000,
    )
}

fn finalized(text: &str, words: Option<Vec<WordSpan>>, extent: SampleRange) -> RecognitionEvent {
    RecognitionEvent::Finalized {
        text: text.as_bytes().to_vec(),
        word_spans: words,
        extent,
    }
}

#[test]
fn time_to_sample_multiplies_and_rounds() {
    assert_eq!(time_to_sample(400_000, 16000), 6400);
    assert_eq!(time_to_sample(620_000, 16000), 9920);
    assert_eq!(time_to_sample(0, 16000), 0);
    assert_eq!(time_to_sample(1_000_000, 44100), 44100);
    assert_eq!(time_to_sample(1_000_000, 0), 0);
}

#[test]
fn time_to_sample_rounds_half_up() {
    assert_eq!(time_to_sample(31, 16000), 0);
    assert_eq!(time_to_sample(32, 16000), 1);
    assert_eq!(time_to_sample(500_000, 1), 1);
    assert_eq!(time_to_sample(499_999, 1), 0);
    assert_eq!(time_to_sample(1_500_000, 1), 2);
}

#[test]
fn time_to_sample_stops_at_the_largest_index() {
    assert_eq!(time_to_sample(u64::MAX, u32::MAX), u64::MAX);
    assert_eq!(time_to_sample(u64::MAX, 1_000_000), u64::MAX);
    assert_eq!(time_to_sample(u64::MAX, 1), 18_446_744_073_710);
}

#[test]
fn interpolate_is_linear_and_rounds_down() {
    let extent = range(1000, 2000);
    assert_eq!(interpolate(0, 10, &extent), 1000);
    assert_eq!(interpolate(5, 10, &extent), 1500);
    assert_eq!(interpolate(10, 10, &extent), 2000);
    assert_eq!(interpolate(1, 3, &extent), 1333);
    assert_eq!(interpolate(2, 3, &extent), 1666);
}

#[test]
fn interpolate_handles_the_edges() {
    assert_eq!(interpolate(99, 10, &range(1000, 2000)), 2000);
    assert_eq!(interpolate(4, 0, &range(1000, 2000)), 1000);
    assert_eq!(interpolate(5, 10, &range(2000, 1000)), 2000);
    assert_eq!(interpolate(usize::MAX, usize::MAX, &range(0, u64::MAX)), u64::MAX);
}

#[test]
fn word_timed_range_takes_the_word_under_the_match() {
    let words = vec![
        word("well", 0.10, 0.30, 1.0),
        word("damn", 0.40, 0.62, 0.95),
        word("it", 0.70, 0.80, 1.0),
    ];
    let r = word_timed_range(&hit(0, 5, 9), &words, 16000, 900_000);
    assert_eq!(r, Some(range(6400, 9920)));
}

#[test]
fn word_timed_range_spans_all_touched_words() {
    let words = vec![
        word("well", 0.10, 0.30, 1.0),
        word("damn", 0.40, 0.62, 0.95),
        word("it", 0.70, 0.80, 1.0),
    ];
    let r = word_timed_range(&hit(0, 5, 12), &words, 16000, 900_000);
    assert_eq!(r, Some(range(6400, 12800)));
    let r = word_timed_range(&hit(0, 3, 6), &words, 16000, 900_000);
    assert_eq!(r, Some(range(1600, 9920)));
}

#[test]
fn word_timed_range_takes_the_earliest_start_and_latest_end() {
    let words = vec![word("ab", 0.50, 0.60, 1.0), word("cd", 0.20, 0.90, 1.0)];
    let r = word_timed_range(&hit(0, 0, 5), &words, 1000, 0);
    assert_eq!(r, Some(range(200, 900)));
}

#[test]
fn word_timed_range_drops_a_match_on_a_doubtful_word() {
    let words = vec![word("damn", 0.40, 0.62, 0.5)];
    assert_eq!(word_timed_range(&hit(0, 0, 4), &words, 16000, 900_000), None);
    let words = vec![word("damn", 0.40, 0.62, 0.9)];
    assert_eq!(word_timed_range(&hit(0, 0, 4), &words, 16000, 900_000), None);
    let words = vec![word("damn", 0.40, 0.62, 0.900001)];
    assert_eq!(
        word_timed_range(&hit(0, 0, 4), &words, 16000, 900_000),
        Some(range(6400, 9920))
    );
}

#[test]
fn word_timed_range_drops_a_match_that_touches_one_doubtful_word() {
    let words = vec![word("god", 0.10, 0.30, 0.99), word("damn", 0.40, 0.62, 0.5)];
    assert_eq!(word_timed_range(&hit(0, 0, 8), &words, 16000, 900_000), None);
    assert_eq!(
        word_timed_range(&hit(0, 0, 3), &words, 16000, 900_000),
        Some(range(1600, 4800))
    );
}

#[test]
fn word_timed_range_needs_a_word() {
    let words = vec![word("a", 0.1, 0.2, 1.0), word("b", 0.3, 0.4, 1.0)];
    assert_eq!(word_timed_range(&hit(0, 1, 2), &words, 16000, 900_000), None);
    assert_eq!(word_timed_range(&hit(0, 3, 9), &words, 16000, 900_000), None);
    assert_eq!(word_timed_range(&hit(0, 0, 1), &[], 16000, 900_000), None);
}

#[test]
fn match_event_uses_word_timing() {
    let event = finalized(
        "well damn it",
        Some(vec![
            word("well", 0.10, 0.30, 1.0),
            word("damn", 0.40, 0.62, 0.95),
            word("it", 0.70, 0.80, 1.0),
        ]),
        range(0, 16000),
    );
    let timeline = matcher(&["damn", "it"]).match_event(&event);
    assert_eq!(timeline.ranges, vec![range(6400, 9920), range(11200, 12800)]);
    assert!(!timeline.degraded);
}

#[test]
fn match_event_keeps_overlapping_ranges() {
    let event = finalized(
        "goddamn",
        Some(vec![word("goddamn", 1.0, 2.0, 1.0)]),
        range(0, 48000),
    );
    let timeline = matcher(&["god", "damn", "goddamn"]).match_event(&event);
    assert_eq!(
        timeline.ranges,
        vec![range(16000, 32000), range(16000, 32000), range(16000, 32000)]
    );
}

#[test]
fn match_event_interpolates_without_word_timing() {
    let event = finalized("well damn it!", None, range(13000, 26000));
    let timeline = matcher(&["damn"]).match_event(&event);
    assert_eq!(timeline.ranges, vec![range(18000, 22000)]);
    assert!(timeline.degraded);
}

#[test]
fn match_event_ignores_partial_events() {
    let event = RecognitionEvent::Partial { text: b"damn".to_vec() };
    let timeline = matcher(&["damn"]).match_event(&event);
    assert!(timeline.ranges.is_empty());
    assert!(!timeline.degraded);
}

#[test]
fn match_event_with_word_timing_and_no_words_finds_nothing() {
    let event = finalized("damn", Some(Vec::new()), range(0, 16000));
    let timeline = matcher(&["damn"]).match_event(&event);
    assert!(timeline.ranges.is_empty());
    assert!(!timeline.degraded);
}

#[test]
fn matcher_keeps_its_patterns() {
    let m = matcher(&["a", "bc"]);
    assert_eq!(m.patterns(), &vec![b"a".to_vec(), b"bc".to_vec()]);
}

#[test]
fn word_timed_range_skips_empty_words_and_empty_matches() {
    let words = vec![word("ab", 0.1, 0.2, 1.0), word("", 0.3, 0.4, 0.0), word("cd", 0.5, 0.6, 1.0)];
    assert_eq!(
        word_timed_range(&hit(0, 0, 6), &words, 1000, 900_000),
        Some(range(100, 600))
    );
    assert_eq!(word_timed_range(&hit(0, 1, 1), &words, 1000, 900_000), None);
    assert_eq!(word_timed_range(&hit(0, 2, 1), &words, 1000, 900_000), None);
}
