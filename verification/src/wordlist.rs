//! The word list.
//!
//! The list of words to censor is plain UTF-8 text with one pattern on each
//! line and no escaping. A line ends at a line feed; a carriage return just
//! before that line feed belongs to the line ending. The last line needs no
//! line ending. Every line is a pattern, an empty line too, so that the
//! number of a pattern is the number of its line, counted from zero.

use vstd::prelude::*;

verus! {

/// The line feed.
pub const LINE_FEED: u8 = 10;

/// The carriage return.
pub const CARRIAGE_RETURN: u8 = 13;

/// Number of bytes before the first line feed of the text, or the length of
/// the text where it has none.
pub open spec fn first_line_len(text: Seq<u8>) -> nat
    decreases text.len(),
{
    if text.len() == 0 || text[0] == LINE_FEED {
        0
    } else {
        1 + first_line_len(text.drop_first())
    }
}

/// A line without the carriage return at its end, if it has one.
pub open spec fn without_return(line: Seq<u8>) -> Seq<u8> {
    if line.len() > 0 && line.last() == CARRIAGE_RETURN {
        line.drop_last()
    } else {
        line
    }
}

/// The lines of a text. A line that ends in a line feed is given without its
/// line ending; what stands behind the last line feed is a line as it is,
/// unless it is empty.
pub open spec fn lines_of(text: Seq<u8>) -> Seq<Seq<u8>>
    decreases text.len(),
{
    if text.len() == 0 {
        Seq::empty()
    } else {
        let n = first_line_len(text);
        if n >= text.len() {
            seq![text]
        } else {
            seq![without_return(text.subrange(0, n as int))] + lines_of(
                text.subrange(n as int + 1, text.len() as int),
            )
        }
    }
}

/// The bytes of each pattern of a list.
pub open spec fn pattern_bytes(patterns: Seq<Vec<u8>>) -> Seq<Seq<u8>> {
    Seq::new(patterns.len(), |k: int| patterns[k]@)
}

/// The first line of a text ends where the first line feed stands.
proof fn lemma_first_line_len(text: Seq<u8>, n: int)
    requires
        0 <= n <= text.len(),
        forall|j: int| 0 <= j < n ==> text[j] != LINE_FEED,
        n == text.len() || text[n] == LINE_FEED,
    ensures
        first_line_len(text) == n,
    decreases n,
{
    if n > 0 {
        let rest = text.drop_first();
        assert forall|j: int| 0 <= j < n - 1 implies rest[j] != LINE_FEED by {
            assert(rest[j] == text[j + 1]);
        }
        lemma_first_line_len(rest, n - 1);
    }
}

/// Splits the text of a word list into its patterns, one for each line.
pub fn parse_word_list(text: &[u8]) -> (patterns: Vec<Vec<u8>>)
    ensures
        pattern_bytes(patterns@) == lines_of(text@),
{
    let total = text.len();
    let mut patterns: Vec<Vec<u8>> = Vec::new();
    let mut line: Vec<u8> = Vec::new();
    let mut start: usize = 0;
    let mut i: usize = 0;
    proof {
        assert(text@.subrange(0, total as int) =~= text@);
        assert(pattern_bytes(patterns@) + lines_of(text@) =~= lines_of(text@));
        assert(line@ =~= text@.subrange(0, 0));
    }
    while i < total
        invariant
            total == text@.len(),
            start <= i <= total,
            line@ == text@.subrange(start as int, i as int),
            forall|j: int| start <= j < i ==> text@[j] != LINE_FEED,
            lines_of(text@) == pattern_bytes(patterns@) + lines_of(
                text@.subrange(start as int, total as int),
            ),
        decreases total - i,
    {
        let byte = text[i];
        if byte == LINE_FEED {
            let ghost rest = text@.subrange(start as int, total as int);
            let ghost before = pattern_bytes(patterns@);
            let ghost whole = line@;
            proof {
                assert forall|j: int| 0 <= j < i - start implies rest[j] != LINE_FEED by {
                    assert(rest[j] == text@[start + j]);
                }
                lemma_first_line_len(rest, i - start);
                assert(rest.subrange(0, i - start) =~= whole);
                assert(rest.subrange(i - start + 1, rest.len() as int) =~= text@.subrange(
                    i + 1,
                    total as int,
                ));
            }
            let n = line.len();
            if n > 0 && line[n - 1] == CARRIAGE_RETURN {
                line.pop();
                assert(line@ =~= whole.drop_last());
            }
            assert(line@ == without_return(whole));
            patterns.push(line);
            line = Vec::new();
            start = i + 1;
            proof {
                assert(pattern_bytes(patterns@) =~= before.push(without_return(whole)));
                assert(before + (seq![without_return(whole)] + lines_of(
                    text@.subrange(i + 1, total as int),
                )) =~= before.push(without_return(whole)) + lines_of(
                    text@.subrange(i + 1, total as int),
                ));
                assert(text@.subrange(start as int, i + 1) =~= Seq::<u8>::empty());
            }
        } else {
            line.push(byte);
            assert(text@.subrange(start as int, i + 1) =~= text@.subrange(
                start as int,
                i as int,
            ).push(byte));
        }
        i += 1;
    }
    let ghost rest = text@.subrange(start as int, total as int);
    let ghost before = pattern_bytes(patterns@);
    if start < total {
        proof {
            assert forall|j: int| 0 <= j < rest.len() implies rest[j] != LINE_FEED by {
                assert(rest[j] == text@[start + j]);
            }
            lemma_first_line_len(rest, rest.len() as int);
        }
        patterns.push(line);
        assert(pattern_bytes(patterns@) =~= before.push(rest));
        assert(before + seq![rest] =~= before.push(rest));
    } else {
        assert(before + Seq::<Seq<u8>>::empty() =~= before);
    }
    patterns
}

} // verus!
