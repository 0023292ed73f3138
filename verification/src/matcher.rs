use crate::completion_item::{ranges_wf, ByteRange};
use vstd::prelude::*;
use vstd::string::StringSliceAdditionalSpecFns;

verus! {

/// Length of the longest common leading byte run of `a` and `b`.
pub open spec fn common_prefix_len(a: Seq<u8>, b: Seq<u8>) -> nat
    decreases a.len(),
{
    if a.len() == 0 || b.len() == 0 || a[0] != b[0] {
        0
    } else {
        (1 + common_prefix_len(a.drop_first(), b.drop_first())) as nat
    }
}

/// The common prefix is no longer than either operand, its bytes agree
/// pairwise, and, where both operands go on, their next bytes differ.
pub proof fn lemma_common_prefix_len(a: Seq<u8>, b: Seq<u8>)
    ensures
        common_prefix_len(a, b) <= a.len(),
        common_prefix_len(a, b) <= b.len(),
        forall|j: int| 0 <= j < common_prefix_len(a, b) ==> a[j] == b[j],
        common_prefix_len(a, b) < a.len() && common_prefix_len(a, b) < b.len() ==> a[
            common_prefix_len(a, b) as int
        ] != b[common_prefix_len(a, b) as int],
    decreases a.len(),
{
    if !(a.len() == 0 || b.len() == 0 || a[0] != b[0]) {
        lemma_common_prefix_len(a.drop_first(), b.drop_first());
        let n = common_prefix_len(a, b);
        assert forall|j: int| 0 <= j < n implies a[j] == b[j] by {
            if j > 0 {
                assert(a.drop_first()[j - 1] == b.drop_first()[j - 1]);
            }
        }
    }
}

/// The common prefix length is exactly the first disagreement point.
proof fn lemma_common_prefix_len_is(a: Seq<u8>, b: Seq<u8>, i: int)
    requires
        0 <= i <= a.len(),
        i <= b.len(),
        forall|j: int| 0 <= j < i ==> a[j] == b[j],
        i == a.len() || i == b.len() || a[i] != b[i],
    ensures
        common_prefix_len(a, b) == i,
    decreases i,
{
    if i == 0 {
    } else {
        assert(a[0] == b[0]);
        lemma_common_prefix_len_is(a.drop_first(), b.drop_first(), i - 1);
    }
}

/// Whether `needle` occurs contiguously in `hay` starting at byte `i`.
pub open spec fn occurs_at(hay: Seq<u8>, needle: Seq<u8>, i: int) -> bool {
    &&& 0 <= i
    &&& i + needle.len() <= hay.len()
    &&& hay.subrange(i, i + needle.len() as int) == needle
}

/// Index of the first occurrence of `needle` in `hay` at or after `from`.
pub open spec fn first_occurrence_from(hay: Seq<u8>, needle: Seq<u8>, from: int) -> Option<int>
    decreases hay.len() - from + 1,
{
    if from + needle.len() > hay.len() {
        None
    } else if occurs_at(hay, needle, from) {
        Some(from)
    } else {
        first_occurrence_from(hay, needle, from + 1)
    }
}

/// What the first occurrence means: a found index is an occurrence preceded
/// by none, and a miss means there is no occurrence at all.
pub proof fn lemma_first_occurrence(hay: Seq<u8>, needle: Seq<u8>, from: int)
    ensures
        match first_occurrence_from(hay, needle, from) {
            Some(i) => occurs_at(hay, needle, i) && from <= i && forall|k: int|
                from <= k < i ==> !occurs_at(hay, needle, k),
            None => forall|k: int| from <= k ==> !occurs_at(hay, needle, k),
        },
    decreases hay.len() - from + 1,
{
    if from + needle.len() > hay.len() {
        assert forall|k: int| from <= k implies !occurs_at(hay, needle, k) by {}
    } else if occurs_at(hay, needle, from) {
    } else {
        lemma_first_occurrence(hay, needle, from + 1);
    }
}

/// An occurrence preceded by no earlier one at or after `from` is the first.
proof fn lemma_first_occurrence_at(hay: Seq<u8>, needle: Seq<u8>, from: int, i: int)
    requires
        from <= i,
        occurs_at(hay, needle, i),
        forall|k: int| from <= k < i ==> !occurs_at(hay, needle, k),
    ensures
        first_occurrence_from(hay, needle, from) == Some(i),
    decreases i - from,
{
    if from < i {
        lemma_first_occurrence_at(hay, needle, from + 1, i);
    }
}

/// With no occurrence at or after `from`, the search misses.
proof fn lemma_first_occurrence_none(hay: Seq<u8>, needle: Seq<u8>, from: int)
    requires
        forall|k: int| from <= k ==> !occurs_at(hay, needle, k),
    ensures
        first_occurrence_from(hay, needle, from) is None,
    decreases hay.len() - from + 1,
{
    if from + needle.len() <= hay.len() {
        lemma_first_occurrence_none(hay, needle, from + 1);
    }
}

/// How many leading bytes of a candidate's `text` the typed `prefix`
/// matches. Bytes are compared as given: any case-folding policy is the
/// caller's, applied before the call.
pub open spec fn matched_prefix_of(prefix: Seq<u8>, text: Seq<u8>) -> nat {
    common_prefix_len(prefix, text)
}

/// Where the matched leading bytes appear inside the display string: the
/// first contiguous occurrence as a single half-open range, or no range at
/// all when the match is empty or the display string does not contain the
/// matched run contiguously.
pub open spec fn matched_bytes_of(prefix: Seq<u8>, text: Seq<u8>, format: Seq<u8>) -> Seq<
    ByteRange,
> {
    let n = matched_prefix_of(prefix, text) as int;
    if n == 0 {
        Seq::empty()
    } else {
        match first_occurrence_from(format, prefix.take(n), 0) {
            Some(i) => seq![ByteRange { start: i as usize, end: (i + n) as usize }],
            None => Seq::empty(),
        }
    }
}

/// An empty typed prefix matches zero bytes of every candidate.
pub proof fn lemma_empty_prefix_matches_nothing(prefix: Seq<u8>, text: Seq<u8>)
    requires
        prefix.len() == 0,
    ensures
        matched_prefix_of(prefix, text) == 0,
        matched_bytes_of(prefix, text, Seq::empty()) == Seq::<ByteRange>::empty(),
{
}

/// The highlighting ranges are within bounds of the display string,
/// non-empty, sorted ascending and pairwise disjoint, for every
/// `(prefix, text, format)` triple whose display string fits in memory.
pub proof fn lemma_matched_bytes_wf(prefix: Seq<u8>, text: Seq<u8>, format: Seq<u8>)
    requires
        format.len() <= usize::MAX,
    ensures
        ranges_wf(matched_bytes_of(prefix, text, format), format.len()),
{
    let n = matched_prefix_of(prefix, text) as int;
    if n != 0 {
        lemma_common_prefix_len(prefix, text);
        lemma_first_occurrence(format, prefix.take(n), 0);
    }
}

/// Byte run comparison for [`common_prefix_len`].
fn common_prefix_len_exec(a: &[u8], b: &[u8]) -> (n: usize)
    ensures
        n == common_prefix_len(a@, b@),
{
    let al = a.len();
    let bl = b.len();
    let mut i: usize = 0;
    while i < al && i < bl && a[i] == b[i]
        invariant
            al == a@.len(),
            bl == b@.len(),
            0 <= i <= al,
            i <= bl,
            forall|j: int| 0 <= j < i ==> a@[j] == b@[j],
        decreases al - i,
    {
        i = i + 1;
    }
    proof {
        lemma_common_prefix_len_is(a@, b@, i as int);
    }
    i
}

/// Byte-wise check for [`occurs_at`].
fn occurs_at_exec(hay: &[u8], needle: &[u8], i: usize) -> (r: bool)
    requires
        i + needle@.len() <= hay@.len(),
    ensures
        r == occurs_at(hay@, needle@, i as int),
{
    let nl = needle.len();
    let hl = hay.len();
    let mut j: usize = 0;
    while j < nl
        invariant
            nl == needle@.len(),
            hl == hay@.len(),
            i + nl <= hl,
            0 <= j <= nl,
            forall|l: int| 0 <= l < j ==> hay@[i + l] == needle@[l],
        decreases nl - j,
    {
        if hay[i + j] != needle[j] {
            proof {
                if occurs_at(hay@, needle@, i as int) {
                    assert(hay@.subrange(i as int, i + needle@.len() as int)[j as int]
                        == needle@[j as int]);
                }
            }
            return false;
        }
        j = j + 1;
    }
    proof {
        assert(hay@.subrange(i as int, i + needle@.len() as int) =~= needle@);
    }
    true
}

/// Linear scan for [`first_occurrence_from`] starting at the front.
fn find_first(hay: &[u8], needle: &[u8]) -> (r: Option<usize>)
    requires
        needle@.len() >= 1,
    ensures
        match r {
            Some(i) => first_occurrence_from(hay@, needle@, 0) == Some(i as int),
            None => first_occurrence_from(hay@, needle@, 0) is None,
        },
{
    let nl = needle.len();
    let hl = hay.len();
    if nl > hl {
        proof {
            lemma_first_occurrence_none(hay@, needle@, 0);
        }
        return None;
    }
    let mut i: usize = 0;
    while i <= hl - nl
        invariant
            nl == needle@.len(),
            hl == hay@.len(),
            1 <= nl <= hl,
            0 <= i <= hl - nl + 1,
            forall|k: int| 0 <= k < i ==> !occurs_at(hay@, needle@, k),
        decreases hl - nl + 1 - i,
    {
        if occurs_at_exec(hay, needle, i) {
            proof {
                lemma_first_occurrence_at(hay@, needle@, 0, i as int);
            }
            return Some(i);
        }
        i = i + 1;
    }
    proof {
        assert forall|k: int| 0 <= k implies !occurs_at(hay@, needle@, k) by {
            if k >= i {
                assert(k + nl > hl);
            }
        }
        lemma_first_occurrence_none(hay@, needle@, 0);
    }
    None
}

/// Computes the match between the typed prefix and one candidate: the number
/// of leading bytes of `text` that `prefix` matches, and where those matched
/// bytes appear inside the display string `format`. All offsets are byte
/// offsets. When `format` does not contain the matched run contiguously, the
/// ranges degrade gracefully to an empty sequence.
pub fn compute(prefix: &Vec<u8>, text: &str, format: &str) -> (r: (u16, Vec<ByteRange>))
    requires
        prefix@.len() <= u16::MAX,
    ensures
        r.0 as nat == matched_prefix_of(prefix@, text.spec_bytes()),
        r.1@ == matched_bytes_of(prefix@, text.spec_bytes(), format.spec_bytes()),
        ranges_wf(r.1@, format.spec_bytes().len()),
{
    let text_bytes = text.as_bytes();
    let format_bytes = format.as_bytes();
    let format_len = format_bytes.len();
    proof {
        lemma_common_prefix_len(prefix@, text_bytes@);
    }
    let n = common_prefix_len_exec(prefix.as_slice(), text_bytes);
    if n == 0 {
        let ranges: Vec<ByteRange> = Vec::new();
        proof {
            assert(ranges@ =~= matched_bytes_of(prefix@, text.spec_bytes(), format.spec_bytes()));
        }
        return (0, ranges);
    }
    let needle: &[u8] = &prefix.as_slice()[0..n];
    proof {
        assert(needle@ =~= prefix@.take(n as int));
    }
    match find_first(format_bytes, needle) {
        Some(start) => {
            proof {
                lemma_first_occurrence(format_bytes@, needle@, 0);
            }
            let mut ranges: Vec<ByteRange> = Vec::new();
            ranges.push(ByteRange { start, end: start + n });
            proof {
                assert(ranges@ =~= matched_bytes_of(
                    prefix@,
                    text.spec_bytes(),
                    format.spec_bytes(),
                ));
            }
            (n as u16, ranges)
        },
        None => {
            let ranges: Vec<ByteRange> = Vec::new();
            proof {
                assert(ranges@ =~= matched_bytes_of(
                    prefix@,
                    text.spec_bytes(),
                    format.spec_bytes(),
                ));
            }
            (n as u16, ranges)
        },
    }
}

} // verus!
