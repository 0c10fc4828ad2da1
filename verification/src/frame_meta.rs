use vstd::prelude::*;

verus! {

/// A pluggable, stateless description of one framing grammar: the minimum
/// header length, a header-match predicate, and a total-frame-length query.
///
/// All three queries are pure functions over a byte slice. The `spec_*`
/// functions give the mathematical meaning of the grammar; the executable
/// functions must agree with them. The two lemmas are obligations every
/// grammar must discharge: the minimum header length is positive, and the
/// total-length query yields the "unknown" sentinel `0` on any slice whose
/// prefix does not match the header.
pub trait FrameMeta {
    /// Minimum number of bytes needed to recognize a frame header.
    spec fn spec_header_len() -> usize;

    /// Does the prefix of `data` look like the start of a valid frame?
    spec fn spec_match(data: Seq<u8>) -> bool;

    /// Total length in bytes (header + body) of the frame starting at the
    /// front of `data`, or `0` when it is not yet determinable.
    spec fn spec_total_len(data: Seq<u8>) -> usize;

    /// A grammar must have a nonzero minimum header length.
    proof fn lemma_header_len_positive()
        ensures
            Self::spec_header_len() >= 1,
    ;

    /// A slice shorter than the minimum header length never matches.
    proof fn lemma_short_slice_no_match(data: Seq<u8>)
        ensures
            data.len() < Self::spec_header_len() ==> !Self::spec_match(data),
    ;

    /// The total-length query returns the sentinel `0` on any slice that
    /// fails the header match.
    proof fn lemma_no_match_total_len_zero(data: Seq<u8>)
        ensures
            !Self::spec_match(data) ==> Self::spec_total_len(data) == 0,
    ;

    /// Returns the grammar's minimum header length.
    fn frame_header_len() -> (r: usize)
        ensures
            r == Self::spec_header_len(),
    ;

    /// Returns whether the prefix of `data` matches a frame header. Never
    /// reads past the slice bounds; a slice shorter than the minimum header
    /// length never matches.
    fn frame_match(data: &[u8]) -> (r: bool)
        ensures
            r == Self::spec_match(data@),
    ;

    /// Returns the total frame length for the frame starting at the front
    /// of `data`, or `0` when it cannot be determined yet.
    fn frame_totol_len(data: &[u8]) -> (r: usize)
        ensures
            r == Self::spec_total_len(data@),
    ;
}

/// A pending region is aligned when it is either too short to test against
/// the header, or its prefix matches the header.
pub open spec fn is_aligned<M: FrameMeta>(s: Seq<u8>) -> bool {
    s.len() < M::spec_header_len() || M::spec_match(s)
}

/// The pending region holds a recognizable frame header.
pub open spec fn spec_contains_frame<M: FrameMeta>(s: Seq<u8>) -> bool {
    s.len() >= M::spec_header_len() && M::spec_match(s)
}

/// The pending region holds at least one complete frame: the total-length
/// query yields `L` with `0 < L <= s.len()`.
pub open spec fn spec_frame_complete<M: FrameMeta>(s: Seq<u8>) -> bool {
    &&& s.len() >= M::spec_header_len()
    &&& 0 < M::spec_total_len(s) <= s.len()
}

/// The first offset at or after `i` at which the resynchronization scan of
/// `s` stops: either fewer bytes than the minimum header length remain, or
/// the suffix matches the header.
pub open spec fn sync_offset_from<M: FrameMeta>(s: Seq<u8>, i: nat) -> nat
    decreases s.len() + 1 - i,
{
    if i + M::spec_header_len() > s.len() {
        i
    } else if M::spec_match(s.skip(i as int)) {
        i
    } else {
        sync_offset_from::<M>(s, i + 1)
    }
}

/// The number of leading bytes that resynchronization drops from `s`: the
/// earliest offset at which either too few bytes remain to test the header,
/// or the header matches.
pub open spec fn sync_offset<M: FrameMeta>(s: Seq<u8>) -> nat {
    sync_offset_from::<M>(s, 0)
}

proof fn lemma_sync_offset_from_props<M: FrameMeta>(s: Seq<u8>, i: nat)
    requires
        i <= s.len(),
    ensures
        i <= sync_offset_from::<M>(s, i) <= s.len(),
        is_aligned::<M>(s.skip(sync_offset_from::<M>(s, i) as int)),
        forall|j: int| i <= j < sync_offset_from::<M>(s, i) ==> !M::spec_match(s.skip(j)),
    decreases s.len() - i,
{
    M::lemma_header_len_positive();
    if i + M::spec_header_len() > s.len() {
        assert(s.skip(i as int).len() < M::spec_header_len());
    } else if M::spec_match(s.skip(i as int)) {
    } else {
        lemma_sync_offset_from_props::<M>(s, i + 1);
    }
}

/// Resynchronization correctness: the scan never drops more bytes than the
/// region holds, the region left after dropping `sync_offset` bytes is
/// aligned (shorter than the minimum header length, or matching the header),
/// and no earlier offset would have matched.
pub proof fn lemma_sync_offset_props<M: FrameMeta>(s: Seq<u8>)
    ensures
        sync_offset::<M>(s) <= s.len(),
        is_aligned::<M>(s.skip(sync_offset::<M>(s) as int)),
        forall|j: int| 0 <= j < sync_offset::<M>(s) ==> !M::spec_match(s.skip(j)),
{
    lemma_sync_offset_from_props::<M>(s, 0);
}

/// An already-aligned region is left whole by resynchronization.
pub proof fn lemma_sync_offset_aligned<M: FrameMeta>(s: Seq<u8>)
    requires
        is_aligned::<M>(s),
    ensures
        sync_offset::<M>(s) == 0,
{
    assert(s.skip(0) == s);
}

/// A complete frame always begins with a recognizable header.
pub proof fn lemma_complete_implies_contains<M: FrameMeta>(s: Seq<u8>)
    requires
        spec_frame_complete::<M>(s),
    ensures
        spec_contains_frame::<M>(s),
{
    M::lemma_no_match_total_len_zero(s);
}

/// Completeness is a pure function of the pending bytes: it cannot change
/// while the pending region's content stays the same, so it persists until
/// an append or a consume alters that content.
pub proof fn lemma_complete_stable<M: FrameMeta>(s1: Seq<u8>, s2: Seq<u8>)
    requires
        spec_frame_complete::<M>(s1),
        s1 == s2,
    ensures
        spec_frame_complete::<M>(s2),
{
}

/// Round trip: a region holding exactly one well-formed frame (its header
/// matches and its total length equals the region's length) is left whole by
/// resynchronization, is complete, peeks as exactly itself, and after the
/// frame is consumed nothing is pending and nothing further is dropped.
pub proof fn lemma_round_trip<M: FrameMeta>(f: Seq<u8>)
    requires
        spec_contains_frame::<M>(f),
        M::spec_total_len(f) == f.len(),
    ensures
        sync_offset::<M>(f) == 0,
        spec_frame_complete::<M>(f),
        f.take(M::spec_total_len(f) as int) == f,
        f.skip(M::spec_total_len(f) as int).len() == 0,
        sync_offset::<M>(f.skip(M::spec_total_len(f) as int)) == 0,
{
    M::lemma_header_len_positive();
    lemma_sync_offset_aligned::<M>(f);
    assert(f.take(f.len() as int) =~= f);
    assert(f.skip(f.len() as int).len() == 0);
    lemma_sync_offset_aligned::<M>(f.skip(f.len() as int));
}

} // verus!
