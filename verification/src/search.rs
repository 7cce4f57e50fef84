//! Multi-pattern search over a transcript.
//!
//! The search is exact and case-sensitive, over the bytes of the UTF-8 text,
//! with no regard to word boundaries. Offsets are byte offsets. Every
//! occurrence of every non-empty pattern is reported, also where occurrences
//! overlap; an empty pattern occurs nowhere.

use vstd::prelude::*;

verus! {

/// One occurrence of a pattern in a transcript, in byte offsets local to the
/// transcript. The occurrence is the half-open interval
/// `[char_start, char_end)`.
#[derive(Clone, Copy, Debug, PartialEq, Eq, Structural)]
pub struct Match {
    /// Index of the pattern in the pattern list.
    pub pattern_id: usize,
    /// Offset of the first byte of the occurrence.
    pub char_start: usize,
    /// Offset one past the last byte of the occurrence.
    pub char_end: usize,
}

/// The non-empty `pattern` stands in `haystack` at offset `start`.
pub open spec fn occurs_at(pattern: Seq<u8>, haystack: Seq<u8>, start: int) -> bool {
    &&& pattern.len() > 0
    &&& 0 <= start
    &&& start + pattern.len() <= haystack.len()
    &&& haystack.subrange(start, start + pattern.len()) == pattern
}

/// `m` is an occurrence of one of the patterns in the haystack.
pub open spec fn is_match(m: Match, patterns: Seq<Vec<u8>>, haystack: Seq<u8>) -> bool {
    &&& m.pattern_id < patterns.len()
    &&& occurs_at(patterns[m.pattern_id as int]@, haystack, m.char_start as int)
    &&& m.char_end == m.char_start + patterns[m.pattern_id as int]@.len()
}

/// Order in which occurrences are reported: by start, then by pattern.
pub open spec fn reported_before(a: Match, b: Match) -> bool {
    a.char_start < b.char_start || (a.char_start == b.char_start && a.pattern_id < b.pattern_id)
}

/// `found` is the result of the search: all occurrences of the patterns in
/// the haystack and nothing else, each once, by start and then by pattern.
pub open spec fn is_search_result(
    found: Seq<Match>,
    patterns: Seq<Vec<u8>>,
    haystack: Seq<u8>,
) -> bool {
    &&& forall|k: int| 0 <= k < found.len() ==> is_match(#[trigger] found[k], patterns, haystack)
    &&& is_ascending(found)
    &&& forall|m: Match| #[trigger] is_match(m, patterns, haystack) ==> found.contains(m)
}

/// The result of the search for the patterns in the haystack.
pub open spec fn all_matches(patterns: Seq<Vec<u8>>, haystack: Seq<u8>) -> Seq<Match> {
    choose|found: Seq<Match>| is_search_result(found, patterns, haystack)
}

/// The list is strictly ascending in the order of reporting.
pub open spec fn is_ascending(found: Seq<Match>) -> bool {
    forall|j: int, k: int|
        0 <= j < k < found.len() ==> reported_before(#[trigger] found[j], #[trigger] found[k])
}

/// Two strictly ascending lists with the same members are the same list.
proof fn lemma_ascending_unique(a: Seq<Match>, b: Seq<Match>)
    requires
        is_ascending(a),
        is_ascending(b),
        forall|m: Match| a.contains(m) <==> b.contains(m),
    ensures
        a == b,
    decreases a.len(),
{
    if a.len() == 0 {
        if b.len() > 0 {
            assert(b.contains(b[0]));
        }
        assert(a =~= b);
    } else if b.len() == 0 {
        assert(a.contains(a[0]));
    } else {
        let x = a.last();
        let y = b.last();
        assert(a.contains(x));
        assert(b.contains(y));
        let i = choose|i: int| 0 <= i < b.len() && b[i] == x;
        let j = choose|j: int| 0 <= j < a.len() && a[j] == y;
        if i < b.len() - 1 && j < a.len() - 1 {
            assert(reported_before(b[i], b[b.len() - 1]));
            assert(reported_before(a[j], a[a.len() - 1]));
        }
        assert(x == y);
        let af = a.drop_last();
        let bf = b.drop_last();
        assert forall|m: Match| af.contains(m) <==> bf.contains(m) by {
            lemma_front_members(a, m);
            lemma_front_members(b, m);
        }
        lemma_ascending_unique(af, bf);
        assert(a =~= af.push(x));
        assert(b =~= bf.push(y));
    }
}

/// The members of a strictly ascending list without its last member are the
/// members of the list other than the last.
proof fn lemma_front_members(a: Seq<Match>, m: Match)
    requires
        is_ascending(a),
        a.len() > 0,
    ensures
        a.drop_last().contains(m) <==> (a.contains(m) && m != a.last()),
{
    let front = a.drop_last();
    if front.contains(m) {
        let i = choose|i: int| 0 <= i < front.len() && front[i] == m;
        assert(a[i] == m);
        assert(reported_before(a[i], a[a.len() - 1]));
    }
    if a.contains(m) && m != a.last() {
        let i = choose|i: int| 0 <= i < a.len() && a[i] == m;
        assert(front[i] == m);
    }
}

/// The search has one result: two lists that are each a search result for
/// the same patterns and haystack are equal.
pub proof fn lemma_search_result_unique(
    a: Seq<Match>,
    b: Seq<Match>,
    patterns: Seq<Vec<u8>>,
    haystack: Seq<u8>,
)
    requires
        is_search_result(a, patterns, haystack),
        is_search_result(b, patterns, haystack),
    ensures
        a == b,
{
    assert forall|m: Match| a.contains(m) <==> b.contains(m) by {
        if a.contains(m) {
            let i = choose|i: int| 0 <= i < a.len() && a[i] == m;
            assert(is_match(a[i], patterns, haystack));
        }
        if b.contains(m) {
            let i = choose|i: int| 0 <= i < b.len() && b[i] == m;
            assert(is_match(b[i], patterns, haystack));
        }
    }
    lemma_ascending_unique(a, b);
}

/// Whether the non-empty `pattern` stands in `haystack` at offset `start`.
pub fn pattern_at(pattern: &[u8], haystack: &[u8], start: usize) -> (b: bool)
    ensures
        b == occurs_at(pattern@, haystack@, start as int),
{
    let n = pattern.len();
    let total = haystack.len();
    if n == 0 || start > total || n > total - start {
        return false;
    }
    let ghost window = haystack@.subrange(start as int, start + n);
    let mut i: usize = 0;
    while i < n
        invariant
            i <= n,
            n == pattern@.len(),
            total == haystack@.len(),
            start + n <= total,
            window == haystack@.subrange(start as int, start + n),
            forall|j: int| 0 <= j < i ==> haystack@[start + j] == pattern@[j],
        decreases n - i,
    {
        if haystack[start + i] != pattern[i] {
            assert(window[i as int] != pattern@[i as int]);
            return false;
        }
        i += 1;
    }
    assert(window =~= pattern@);
    true
}

/// Finds every occurrence of every non-empty pattern in the haystack. The
/// occurrences come by start, and at one start by pattern; overlapping
/// occurrences are all kept.
pub fn find_matches(patterns: &[Vec<u8>], haystack: &[u8]) -> (found: Vec<Match>)
    ensures
        is_search_result(found@, patterns@, haystack@),
        found@ == all_matches(patterns@, haystack@),
{
    let mut found: Vec<Match> = Vec::new();
    let total = haystack.len();
    let mut start: usize = 0;
    while start < total
        invariant
            total == haystack@.len(),
            start <= total,
            is_ascending(found@),
            forall|k: int|
                0 <= k < found@.len() ==> is_match(#[trigger] found@[k], patterns@, haystack@),
            forall|k: int| 0 <= k < found@.len() ==> (#[trigger] found@[k]).char_start < start,
            forall|m: Match|
                #[trigger] is_match(m, patterns@, haystack@) && m.char_start < start
                    ==> found@.contains(m),
        decreases haystack@.len() - start,
    {
        let mut p: usize = 0;
        while p < patterns.len()
            invariant
                total == haystack@.len(),
                start < total,
                p <= patterns@.len(),
                is_ascending(found@),
                forall|k: int|
                    0 <= k < found@.len() ==> is_match(#[trigger] found@[k], patterns@, haystack@),
                forall|k: int|
                    0 <= k < found@.len() ==> (#[trigger] found@[k]).char_start < start || (
                    found@[k].char_start == start && found@[k].pattern_id < p),
                forall|m: Match|
                    #[trigger] is_match(m, patterns@, haystack@) && (m.char_start < start || (
                    m.char_start == start && m.pattern_id < p)) ==> found@.contains(m),
            decreases patterns@.len() - p,
        {
            let ghost before = found@;
            if pattern_at(patterns[p].as_slice(), haystack, start) {
                let m = Match {
                    pattern_id: p,
                    char_start: start,
                    char_end: start + patterns[p].len(),
                };
                found.push(m);
                assert(found@[before.len() as int] == m);
            }
            proof {
                assert forall|m: Match|
                    #[trigger] is_match(m, patterns@, haystack@) && (m.char_start < start || (
                    m.char_start == start && m.pattern_id < p + 1)) implies found@.contains(m) by {
                    if m.char_start == start && m.pattern_id == p {
                        assert(found@[before.len() as int] == m);
                    } else {
                        assert(before.contains(m));
                        let i = choose|i: int| 0 <= i < before.len() && before[i] == m;
                        assert(found@[i] == m);
                    }
                }
            }
            p += 1;
        }
        start += 1;
    }
    proof {
        assert forall|m: Match| #[trigger] is_match(m, patterns@, haystack@) implies found@.contains(
            m,
        ) by {
            assert(m.char_start < haystack@.len());
        }
        assert(is_search_result(found@, patterns@, haystack@));
        lemma_search_result_unique(
            found@,
            all_matches(patterns@, haystack@),
            patterns@,
            haystack@,
        );
    }
    found
}

} // verus!
