use audio_censor::audio::{AudioConfig, ConfigError};
use audio_censor::ranges::SampleRange;
use audio_censor::reader::Chunk;
use audio_censor::recognition::{
    DecodingState, Fetch, ProtocolError, RecognitionAdapter, RecognitionEvent, WordSpan,
};

fn mono16(sample_rate: u32) -> AudioConfig {
    AudioConfig { sample_rate, channel_count: 1, bits_per_sample: 16 }
}

fn chunk(start: u64, len: usize) -> Chunk {
    Chunk { start, samples: vec![0; len], carried: 0 }
}

fn word(text: &str) -> WordSpan {
    WordSpan {
        text: text.as_bytes().to_vec(),
        start_micros: 400_000,
        end_micros: 620_000,
        confidence_ppm: 950_000,
    }
}

fn open(with_words: bool) -> RecognitionAdapter {
    RecognitionAdapter::open(&mono16(16000), 16000, with_words).unwrap()
}

#[test]
fn open_refuses_other_formats() {
    let stereo = AudioConfig { sample_rate: 16000, channel_count: 2, bits_per_sample: 16 };
    assert_eq!(
        RecognitionAdapter::open(&stereo, 16000, true).err(),
        Some(ConfigError::NotMono)
    );
    let wide = AudioConfig { sample_rate: 16000, channel_count: 1, bits_per_sample: 24 };
    assert_eq!(
        RecognitionAdapter::open(&wide, 16000, true).err(),
        Some(ConfigError::NotSixteenBit)
    );
    assert_eq!(
        RecognitionAdapter::open(&mono16(44100), 16000, true).err(),
        Some(ConfigError::RateMismatch)
    );
    let both = AudioConfig { sample_rate: 8000, channel_count: 0, bits_per_sample: 8 };
    assert_eq!(
        RecognitionAdapter::open(&both, 16000, true).err(),
        Some(ConfigError::NotMono)
    );
}

#[test]
fn open_keeps_the_sample_rate() {
    let adapter = open(true);
    assert_eq!(adapter.sample_rate(), 16000);
    assert_eq!(adapter.pending(), Fetch::Nothing);
    assert!(!adapter.is_closed());
}

#[test]
fn submit_asks_for_the_result_that_fits_the_state() {
    let mut adapter = open(true);
    assert_eq!(adapter.submit(&chunk(0, 100), DecodingState::InProgress), Ok(Fetch::Partial));
    assert_eq!(adapter.pending(), Fetch::Partial);
    assert!(adapter.partial(b"da".to_vec()).is_ok());
    assert_eq!(adapter.submit(&chunk(100, 100), DecodingState::Finalized), Ok(Fetch::Final));
    assert!(adapter.finalized(b"damn".to_vec(), vec![word("damn")]).is_ok());
    assert_eq!(adapter.submit(&chunk(200, 100), DecodingState::Failed), Ok(Fetch::Nothing));
    assert_eq!(adapter.pending(), Fetch::Nothing);
    assert_eq!(adapter.submit(&chunk(300, 100), DecodingState::InProgress), Ok(Fetch::Partial));
}

#[test]
fn partial_event_carries_the_text() {
    let mut adapter = open(true);
    adapter.submit(&chunk(0, 100), DecodingState::InProgress).unwrap();
    assert_eq!(
        adapter.partial(b"da".to_vec()),
        Ok(RecognitionEvent::Partial { text: b"da".to_vec() })
    );
    assert_eq!(adapter.pending(), Fetch::Nothing);
}

#[test]
fn finalized_event_carries_words_and_extent() {
    let mut adapter = open(true);
    adapter.submit(&chunk(0, 16000), DecodingState::InProgress).unwrap();
    adapter.partial(Vec::new()).unwrap();
    adapter.submit(&chunk(15200, 16000), DecodingState::Finalized).unwrap();
    assert_eq!(
        adapter.finalized(b"damn".to_vec(), vec![word("damn")]),
        Ok(RecognitionEvent::Finalized {
            text: b"damn".to_vec(),
            word_spans: Some(vec![word("damn")]),
            extent: SampleRange { start_sample: 0, end_sample: 31200 },
        })
    );
    adapter.submit(&chunk(30400, 801), DecodingState::Finalized).unwrap();
    assert_eq!(
        adapter.finalized(Vec::new(), Vec::new()),
        Ok(RecognitionEvent::Finalized {
            text: Vec::new(),
            word_spans: Some(Vec::new()),
            extent: SampleRange { start_sample: 30400, end_sample: 31201 },
        })
    );
}

#[test]
fn finalized_event_has_no_words_without_word_timing() {
    let mut adapter = open(false);
    adapter.submit(&chunk(0, 50), DecodingState::Finalized).unwrap();
    assert_eq!(
        adapter.finalized(b"damn".to_vec(), vec![word("damn")]),
        Ok(RecognitionEvent::Finalized {
            text: b"damn".to_vec(),
            word_spans: None,
            extent: SampleRange { start_sample: 0, end_sample: 50 },
        })
    );
}

#[test]
fn a_final_result_is_taken_once() {
    let mut adapter = open(true);
    adapter.submit(&chunk(0, 50), DecodingState::Finalized).unwrap();
    assert!(adapter.finalized(Vec::new(), Vec::new()).is_ok());
    assert_eq!(
        adapter.finalized(Vec::new(), Vec::new()),
        Err(ProtocolError::NotRequested)
    );
}

#[test]
fn results_that_were_not_asked_for_are_refused() {
    let mut adapter = open(true);
    assert_eq!(adapter.partial(Vec::new()), Err(ProtocolError::NotRequested));
    assert_eq!(
        adapter.finalized(Vec::new(), Vec::new()),
        Err(ProtocolError::NotRequested)
    );
    adapter.submit(&chunk(0, 50), DecodingState::InProgress).unwrap();
    assert_eq!(
        adapter.finalized(Vec::new(), Vec::new()),
        Err(ProtocolError::NotRequested)
    );
    assert_eq!(adapter.pending(), Fetch::Partial);
    adapter.partial(Vec::new()).unwrap();
    adapter.submit(&chunk(50, 50), DecodingState::Finalized).unwrap();
    assert_eq!(adapter.partial(Vec::new()), Err(ProtocolError::NotRequested));
    assert_eq!(adapter.pending(), Fetch::Final);
}

#[test]
fn a_window_is_refused_while_a_result_is_pending() {
    let mut adapter = open(true);
    adapter.submit(&chunk(0, 50), DecodingState::Finalized).unwrap();
    assert_eq!(
        adapter.submit(&chunk(50, 50), DecodingState::InProgress),
        Err(ProtocolError::FetchPending)
    );
    assert_eq!(adapter.close(), Err(ProtocolError::FetchPending));
    assert_eq!(
        adapter.finalized(Vec::new(), Vec::new()),
        Ok(RecognitionEvent::Finalized {
            text: Vec::new(),
            word_spans: Some(Vec::new()),
            extent: SampleRange { start_sample: 0, end_sample: 50 },
        })
    );
}

#[test]
fn close_asks_for_one_last_final_result() {
    let mut adapter = open(true);
    adapter.submit(&chunk(0, 50), DecodingState::InProgress).unwrap();
    adapter.partial(Vec::new()).unwrap();
    assert_eq!(adapter.close(), Ok(Fetch::Final));
    assert!(adapter.is_closed());
    assert_eq!(
        adapter.finalized(b"damn".to_vec(), Vec::new()),
        Ok(RecognitionEvent::Finalized {
            text: b"damn".to_vec(),
            word_spans: Some(Vec::new()),
            extent: SampleRange { start_sample: 0, end_sample: 50 },
        })
    );
    assert_eq!(
        adapter.submit(&chunk(50, 50), DecodingState::InProgress),
        Err(ProtocolError::Closed)
    );
    assert_eq!(adapter.close(), Err(ProtocolError::Closed));
    assert_eq!(
        adapter.finalized(Vec::new(), Vec::new()),
        Err(ProtocolError::NotRequested)
    );
}

#[test]
fn closing_before_any_window_gives_an_empty_extent() {
    let mut adapter = open(true);
    assert_eq!(adapter.close(), Ok(Fetch::Final));
    assert_eq!(
        adapter.finalized(Vec::new(), Vec::new()),
        Ok(RecognitionEvent::Finalized {
            text: Vec::new(),
            word_spans: Some(Vec::new()),
            extent: SampleRange { start_sample: 0, end_sample: 0 },
        })
    );
}

#[test]
fn a_failed_window_counts_towards_the_extent() {
    let mut adapter = open(true);
    assert_eq!(adapter.submit(&chunk(0, 50), DecodingState::Failed), Ok(Fetch::Nothing));
    adapter.submit(&chunk(50, 50), DecodingState::Finalized).unwrap();
    assert_eq!(
        adapter.finalized(Vec::new(), Vec::new()),
        Ok(RecognitionEvent::Finalized {
            text: Vec::new(),
            word_spans: Some(Vec::new()),
            extent: SampleRange { start_sample: 0, end_sample: 100 },
        })
    );
}
