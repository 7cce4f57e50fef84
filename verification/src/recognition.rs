//! The recognition adapter.
//!
//! A streaming recognizer takes one window of samples at a time and answers
//! with its decoding state. The adapter does not run the recognizer: it keeps
//! the books around it. For each window it is told the state that the
//! recognizer answered with, says which result is to be fetched, and wraps
//! the fetched result into an event. It sees to it that a final result is
//! fetched once for each utterance boundary and never otherwise, and that
//! nothing is fed after the stream was closed.
//!
//! Times are whole microseconds and confidences whole parts per million, so
//! that all arithmetic on them is exact.

use crate::audio::{AudioConfig, ConfigError};
use crate::ranges::SampleRange;
use crate::reader::Chunk;
use vstd::prelude::*;

verus! {

/// What the recognizer says after it has taken a window.
#[derive(Clone, Copy, Debug, PartialEq, Eq, Structural)]
pub enum DecodingState {
    /// The utterance goes on; only a best guess is to be had.
    InProgress,
    /// An utterance has ended; its transcript is final.
    Finalized,
    /// The recognizer could not decode the window.
    Failed,
}

/// Which result is to be fetched from the recognizer next.
#[derive(Clone, Copy, Debug, PartialEq, Eq, Structural)]
pub enum Fetch {
    /// None: the window adds nothing to any transcript.
    Nothing,
    /// The best guess at the utterance in progress.
    Partial,
    /// The final result of the utterance that has ended.
    Final,
}

/// A use of the adapter out of turn.
#[derive(Clone, Copy, Debug, PartialEq, Eq, Structural)]
pub enum ProtocolError {
    /// A result that the adapter asked for has not been handed in yet.
    FetchPending,
    /// A result was handed in that the adapter did not ask for.
    NotRequested,
    /// The stream has been closed.
    Closed,
}

/// One recognized word with its place in time.
#[derive(Debug, PartialEq, Eq)]
pub struct WordSpan {
    /// The word, as UTF-8 bytes.
    pub text: Vec<u8>,
    /// Time from the start of the stream at which the word starts, in
    /// microseconds.
    pub start_micros: u64,
    /// Time from the start of the stream at which the word ends, in
    /// microseconds.
    pub end_micros: u64,
    /// The recognizer's confidence in the word, in parts per million.
    pub confidence_ppm: u32,
}

/// What the adapter makes of one fetched result.
#[derive(Debug, PartialEq, Eq)]
pub enum RecognitionEvent {
    /// The best guess at an utterance in progress. It may change, and nothing
    /// is censored on its account.
    Partial {
        /// The text so far, as UTF-8 bytes.
        text: Vec<u8>,
    },
    /// The transcript of an utterance that has ended.
    Finalized {
        /// The transcript, as UTF-8 bytes.
        text: Vec<u8>,
        /// The words of the transcript in order, where the recognizer gives
        /// word-level timing.
        word_spans: Option<Vec<WordSpan>>,
        /// The samples that the utterance was decoded from: from the first
        /// window fed since the utterance before to the last.
        extent: SampleRange,
    },
}

/// The samples of an utterance after one more window was fed: from the start
/// of what was fed before to the end of the window, or the window alone
/// where nothing was fed before.
pub open spec fn extended(extent: Option<SampleRange>, added: SampleRange) -> SampleRange {
    match extent {
        Some(e) => SampleRange { start_sample: e.start_sample, end_sample: added.end_sample },
        None => added,
    }
}

/// The samples of an utterance, or the empty range at the end of the last
/// window where no window was fed for it.
pub open spec fn extent_or_empty(extent: Option<SampleRange>, fed_up_to: u64) -> SampleRange {
    match extent {
        Some(e) => e,
        None => SampleRange { start_sample: fed_up_to, end_sample: fed_up_to },
    }
}

/// The books kept around one recognizer for one stream.
#[derive(Debug)]
pub struct RecognitionAdapter {
    sample_rate: u32,
    with_words: bool,
    pending: Fetch,
    closed: bool,
    extent: Option<SampleRange>,
    fed_up_to: u64,
}

impl RecognitionAdapter {
    /// The sample rate of the stream, fixed when the adapter was opened.
    pub closed spec fn spec_sample_rate(&self) -> u32 {
        self.sample_rate
    }

    /// Whether the recognizer gives word-level timing.
    pub closed spec fn spec_with_words(&self) -> bool {
        self.with_words
    }

    /// The result that the adapter has asked for and not yet been handed.
    pub closed spec fn spec_pending(&self) -> Fetch {
        self.pending
    }

    /// Whether the stream has been closed.
    pub closed spec fn spec_closed(&self) -> bool {
        self.closed
    }

    /// The samples fed since the last final result, if any were.
    pub closed spec fn spec_extent(&self) -> Option<SampleRange> {
        self.extent
    }

    /// The end of the last window fed, zero before the first.
    pub closed spec fn spec_fed_up_to(&self) -> u64 {
        self.fed_up_to
    }

    /// Opens the adapter for a stream, or refuses the stream's format: it
    /// must be mono and 16 bits wide, and its sample rate must be the one
    /// that the recognizer was built for.
    pub fn open(config: &AudioConfig, recognizer_rate: u32, with_words: bool) -> (r: Result<
        RecognitionAdapter,
        ConfigError,
    >)
        ensures
            r is Ok <==> (config.is_supported() && config.sample_rate == recognizer_rate),
            r matches Ok(a) ==> {
                &&& a.spec_sample_rate() == config.sample_rate
                &&& a.spec_with_words() == with_words
                &&& a.spec_pending() == Fetch::Nothing
                &&& !a.spec_closed()
                &&& a.spec_extent() == None::<SampleRange>
                &&& a.spec_fed_up_to() == 0
            },
            r matches Err(e) ==> e == if config.channel_count != 1 {
                ConfigError::NotMono
            } else if config.bits_per_sample != 16 {
                ConfigError::NotSixteenBit
            } else {
                ConfigError::RateMismatch
            },
    {
        match config.validate() {
            Err(e) => Err(e),
            Ok(()) => {
                if config.sample_rate != recognizer_rate {
                    Err(ConfigError::RateMismatch)
                } else {
                    Ok(
                        RecognitionAdapter {
                            sample_rate: config.sample_rate,
                            with_words,
                            pending: Fetch::Nothing,
                            closed: false,
                            extent: None,
                            fed_up_to: 0,
                        },
                    )
                }
            },
        }
    }

    /// The sample rate of the stream.
    pub fn sample_rate(&self) -> (rate: u32)
        ensures
            rate == self.spec_sample_rate(),
    {
        self.sample_rate
    }

    /// The result that the adapter has asked for and not yet been handed.
    pub fn pending(&self) -> (fetch: Fetch)
        ensures
            fetch == self.spec_pending(),
    {
        self.pending
    }

    /// Whether the stream has been closed.
    pub fn is_closed(&self) -> (b: bool)
        ensures
            b == self.spec_closed(),
    {
        self.closed
    }

    /// Books one window that was fed to the recognizer, with the state that
    /// the recognizer answered with, and says what to fetch: the final result
    /// at an utterance boundary, the partial result while decoding goes on,
    /// nothing after a failure. A failed window adds nothing to any
    /// transcript; the stream goes on.
    ///
    /// A window is refused, and nothing booked, after the stream was closed
    /// and while a result is still to be handed in.
    pub fn submit(&mut self, chunk: &Chunk, state: DecodingState) -> (r: Result<
        Fetch,
        ProtocolError,
    >)
        ensures
            final(self).spec_sample_rate() == old(self).spec_sample_rate(),
            final(self).spec_with_words() == old(self).spec_with_words(),
            final(self).spec_closed() == old(self).spec_closed(),
            r == if old(self).spec_closed() {
                Err::<Fetch, ProtocolError>(ProtocolError::Closed)
            } else if old(self).spec_pending() != Fetch::Nothing {
                Err::<Fetch, ProtocolError>(ProtocolError::FetchPending)
            } else {
                Ok::<Fetch, ProtocolError>(
                    match state {
                        DecodingState::InProgress => Fetch::Partial,
                        DecodingState::Finalized => Fetch::Final,
                        DecodingState::Failed => Fetch::Nothing,
                    },
                )
            },
            r matches Ok(fetch) ==> {
                &&& final(self).spec_pending() == fetch
                &&& final(self).spec_extent() == Some(
                    extended(old(self).spec_extent(), chunk.spec_extent()),
                )
                &&& final(self).spec_fed_up_to() == chunk.spec_extent().end_sample
            },
            r is Err ==> *final(self) == *old(self),
    {
        if self.closed {
            return Err(ProtocolError::Closed);
        }
        match self.pending {
            Fetch::Nothing => {},
            _ => {
                return Err(ProtocolError::FetchPending);
            },
        }
        let fetch = match state {
            DecodingState::InProgress => Fetch::Partial,
            DecodingState::Finalized => Fetch::Final,
            DecodingState::Failed => Fetch::Nothing,
        };
        let added = chunk.extent();
        let extent = match self.extent {
            Some(e) => SampleRange { start_sample: e.start_sample, end_sample: added.end_sample },
            None => added,
        };
        self.pending = fetch;
        self.extent = Some(extent);
        self.fed_up_to = added.end_sample;
        Ok(fetch)
    }

    /// Takes the partial result that the adapter asked for and wraps it into
    /// an event. It is refused unless the adapter asked for it.
    pub fn partial(&mut self, text: Vec<u8>) -> (r: Result<RecognitionEvent, ProtocolError>)
        ensures
            final(self).spec_sample_rate() == old(self).spec_sample_rate(),
            final(self).spec_with_words() == old(self).spec_with_words(),
            final(self).spec_closed() == old(self).spec_closed(),
            final(self).spec_extent() == old(self).spec_extent(),
            final(self).spec_fed_up_to() == old(self).spec_fed_up_to(),
            r is Ok <==> old(self).spec_pending() == Fetch::Partial,
            r matches Ok(event) ==> event == (RecognitionEvent::Partial { text })
                && final(self).spec_pending() == Fetch::Nothing,
            r matches Err(e) ==> e == ProtocolError::NotRequested && final(self).spec_pending()
                == old(self).spec_pending(),
    {
        match self.pending {
            Fetch::Partial => {
                self.pending = Fetch::Nothing;
                Ok(RecognitionEvent::Partial { text })
            },
            _ => Err(ProtocolError::NotRequested),
        }
    }

    /// Takes the final result that the adapter asked for and wraps it into
    /// an event, with the samples that the utterance was decoded from. The
    /// words are kept only where the recognizer gives word-level timing. The
    /// next utterance starts with the next window. The result is refused
    /// unless the adapter asked for it, so that no final result is taken
    /// twice.
    pub fn finalized(&mut self, text: Vec<u8>, words: Vec<WordSpan>) -> (r: Result<
        RecognitionEvent,
        ProtocolError,
    >)
        ensures
            final(self).spec_sample_rate() == old(self).spec_sample_rate(),
            final(self).spec_with_words() == old(self).spec_with_words(),
            final(self).spec_closed() == old(self).spec_closed(),
            final(self).spec_fed_up_to() == old(self).spec_fed_up_to(),
            r is Ok <==> old(self).spec_pending() == Fetch::Final,
            r matches Ok(event) ==> {
                &&& event == (RecognitionEvent::Finalized {
                    text,
                    word_spans: if old(self).spec_with_words() {
                        Some(words)
                    } else {
                        None
                    },
                    extent: extent_or_empty(old(self).spec_extent(), old(self).spec_fed_up_to()),
                })
                &&& final(self).spec_pending() == Fetch::Nothing
                &&& final(self).spec_extent() == None::<SampleRange>
            },
            r matches Err(e) ==> {
                &&& e == ProtocolError::NotRequested
                &&& final(self).spec_pending() == old(self).spec_pending()
                &&& final(self).spec_extent() == old(self).spec_extent()
            },
    {
        match self.pending {
            Fetch::Final => {
                let extent = match self.extent {
                    Some(e) => e,
                    None => SampleRange {
                        start_sample: self.fed_up_to,
                        end_sample: self.fed_up_to,
                    },
                };
                let word_spans = if self.with_words {
                    Some(words)
                } else {
                    None
                };
                self.pending = Fetch::Nothing;
                self.extent = None;
                Ok(RecognitionEvent::Finalized { text, word_spans, extent })
            },
            _ => Err(ProtocolError::NotRequested),
        }
    }

    /// Closes the stream, at its end or when its time is up. What the
    /// recognizer has gathered is to be fetched as one last final result;
    /// after that nothing more is accepted. Closing is refused after the
    /// stream was closed and while a result is still to be handed in.
    pub fn close(&mut self) -> (r: Result<Fetch, ProtocolError>)
        ensures
            final(self).spec_sample_rate() == old(self).spec_sample_rate(),
            final(self).spec_with_words() == old(self).spec_with_words(),
            final(self).spec_extent() == old(self).spec_extent(),
            final(self).spec_fed_up_to() == old(self).spec_fed_up_to(),
            r == if old(self).spec_closed() {
                Err::<Fetch, ProtocolError>(ProtocolError::Closed)
            } else if old(self).spec_pending() != Fetch::Nothing {
                Err::<Fetch, ProtocolError>(ProtocolError::FetchPending)
            } else {
                Ok::<Fetch, ProtocolError>(Fetch::Final)
            },
            r is Ok ==> final(self).spec_closed() && final(self).spec_pending() == Fetch::Final,
            r is Err ==> *final(self) == *old(self),
    {
        if self.closed {
            return Err(ProtocolError::Closed);
        }
        match self.pending {
            Fetch::Nothing => {},
            _ => {
                return Err(ProtocolError::FetchPending);
            },
        }
        self.closed = true;
        self.pending = Fetch::Final;
        Ok(Fetch::Final)
    }
}

} // verus!
