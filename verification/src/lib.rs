pub mod frame_meta;
pub mod iap2_frame_meta;

use vstd::prelude::*;

verus! {

use crate::frame_meta::FrameMeta;
use crate::frame_meta::is_aligned;
use crate::frame_meta::sync_offset;
use crate::frame_meta::sync_offset_from;
use crate::frame_meta::lemma_sync_offset_props;
use crate::frame_meta::spec_contains_frame;
use crate::frame_meta::spec_frame_complete;
use vstd::slice::slice_subrange;

/// An error type indicating that no complete frame is available.
#[derive(Debug, PartialEq, Eq, Clone, Copy)]
pub struct Empty;

/// An error type indicating that the storage is full.
#[derive(Debug, PartialEq, Eq, Clone, Copy)]
pub struct Full;

/// A fixed-capacity frame-picking buffer over the framing grammar `M`.
///
/// The buffer owns a byte store of capacity `N` and accumulates a "pending"
/// region of not-yet-consumed bytes, viewed as `self@`. After every mutation
/// the pending region is resynchronized: leading bytes that cannot begin a
/// valid frame of `M` are dropped and counted, so the region always either
/// is shorter than the grammar's minimum header length or starts with a
/// matching header.
#[derive(Debug)]
pub struct FramePicker<const N: usize, M: FrameMeta> {
    storage: Vec<u8>,
    dropped: usize,
    _marker: core::marker::PhantomData<M>,
}

impl<const N: usize, M: FrameMeta> View for FramePicker<N, M> {
    type V = Seq<u8>;

    /// The pending region: the buffered, unconsumed bytes.
    closed spec fn view(&self) -> Seq<u8> {
        self.storage@
    }
}

impl<const N: usize, M: FrameMeta> FramePicker<N, M> {
    /// The pending region never exceeds the capacity, and is always either
    /// shorter than the minimum header length or aligned on a header.
    #[verifier::type_invariant]
    spec fn inv(self) -> bool {
        &&& self.storage@.len() <= N
        &&& is_aligned::<M>(self.storage@)
    }

    /// The number of bytes dropped by resynchronization so far.
    pub closed spec fn spec_dropped(&self) -> usize {
        self.dropped
    }

    /// Returns the number of bytes dropped by resynchronization so far.
    pub fn dropped(&self) -> (r: usize)
        ensures
            r == self.spec_dropped(),
    {
        self.dropped
    }

    /// Returns the length of the pending region.
    pub fn pending_len(&self) -> (r: usize)
        ensures
            r == self@.len(),
    {
        self.storage.len()
    }

    /// Creates a buffer with zero pending bytes and zero dropped bytes.
    pub fn new() -> (r: Self)
        ensures
            r@ == Seq::<u8>::empty(),
            r.spec_dropped() == 0,
            is_aligned::<M>(r@),
    {
        proof {
            M::lemma_header_len_positive();
        }
        Self { storage: Vec::with_capacity(N), dropped: 0, _marker: core::marker::PhantomData }
    }

    /// Removes the first `count` bytes of `buf`, shifting the rest down to
    /// index 0.
    fn drop_front(buf: &mut Vec<u8>, count: usize)
        requires
            count <= old(buf)@.len(),
        ensures
            final(buf)@ == old(buf)@.skip(count as int),
    {
        let ghost s = buf@;
        if count == 0 {
            proof {
                assert(s.skip(0) =~= s);
            }
            return ;
        }
        let n = buf.len();
        let mut k: usize = count;
        while k < n
            invariant
                count <= k <= n,
                n == s.len(),
                buf@.len() == n,
                forall|j: int| 0 <= j < k - count ==> buf@[j] == s[count + j],
                forall|j: int| k <= j < n ==> buf@[j] == s[j],
            decreases n - k,
        {
            let v = buf[k];
            buf[k - count] = v;
            k += 1;
        }
        buf.truncate(n - count);
        proof {
            assert(buf@ =~= s.skip(count as int));
        }
    }

    /// Scans the pending bytes in `buf` for the earliest offset at which
    /// either fewer bytes than the minimum header length remain or the
    /// header matches, drops everything before it, and returns the number of
    /// bytes dropped.
    fn align_buffer_with_header(buf: &mut Vec<u8>) -> (k: usize)
        ensures
            k == sync_offset::<M>(old(buf)@),
            k <= old(buf)@.len(),
            final(buf)@ == old(buf)@.skip(k as int),
    {
        let ghost s = buf@;
        proof {
            M::lemma_header_len_positive();
        }
        let header_len = M::frame_header_len();
        let mut search_at: usize = 0;
        while buf.len() - search_at >= header_len && !M::frame_match(
            slice_subrange(buf.as_slice(), search_at, buf.len()),
        )
            invariant
                buf@ == s,
                search_at <= s.len(),
                M::spec_header_len() >= 1,
                header_len == M::spec_header_len(),
                sync_offset_from::<M>(s, search_at as nat) == sync_offset::<M>(s),
            decreases s.len() - search_at,
        {
            proof {
                assert(s.skip(search_at as int) =~= s.subrange(
                    search_at as int,
                    s.len() as int,
                ));
            }
            search_at += 1;
        }
        proof {
            assert(s.skip(search_at as int) =~= s.subrange(search_at as int, s.len() as int));
            assert(sync_offset_from::<M>(s, search_at as nat) == search_at);
        }
        Self::drop_front(buf, search_at);
        search_at
    }

    /// Appends `data` to the pending region, then resynchronizes.
    ///
    /// Fails with `Full`, leaving the buffer unchanged, when the bytes do
    /// not fit within the remaining capacity; the call is all-or-nothing.
    /// On success returns the number of bytes accepted (always
    /// `data.len()`); resynchronization then drops the earliest bytes that
    /// cannot begin a valid frame and counts them into the dropped total.
    pub fn feed_data(&mut self, data: &[u8]) -> (r: Result<usize, Full>)
        requires
            old(self).spec_dropped() + N <= usize::MAX,
        ensures
            r is Ok <==> old(self)@.len() + data@.len() <= N,
            r matches Ok(n) ==> n == data@.len(),
            r is Err ==> *final(self) == *old(self),
            r is Ok ==> ({
                let combined = old(self)@ + data@;
                &&& final(self)@ == combined.skip(sync_offset::<M>(combined) as int)
                &&& final(self).spec_dropped() == old(self).spec_dropped() + sync_offset::<M>(
                    combined,
                )
            }),
            final(self)@.len() <= N,
            is_aligned::<M>(final(self)@),
    {
        proof {
            use_type_invariant(&*self);
            M::lemma_header_len_positive();
        }
        if data.len() > N - self.storage.len() {
            return Err(Full);
        }
        let mut buf: Vec<u8> = Vec::new();
        core::mem::swap(&mut buf, &mut self.storage);
        let ghost old_pending = buf@;
        buf.extend_from_slice(data);
        proof {
            assert(buf@ =~= old_pending + data@);
        }
        let k = Self::align_buffer_with_header(&mut buf);
        proof {
            lemma_sync_offset_props::<M>(old_pending + data@);
        }
        self.dropped = self.dropped + k;
        core::mem::swap(&mut buf, &mut self.storage);
        Ok(data.len())
    }

    /// Returns whether the pending region is at least as long as the
    /// minimum header length and its prefix matches a frame header. This
    /// can hold even while the frame is still streaming in.
    pub fn contain_frame(&self) -> (r: bool)
        ensures
            r == spec_contains_frame::<M>(self@),
    {
        if self.storage.len() < M::frame_header_len() {
            return false;
        }
        M::frame_match(self.storage.as_slice())
    }

    /// Returns whether a complete frame is present: the grammar's
    /// total-length query on the pending region yields `L` with
    /// `0 < L <= pending length`.
    pub fn frame_complete(&self) -> (r: bool)
        ensures
            r == spec_frame_complete::<M>(self@),
    {
        if self.storage.len() < M::frame_header_len() {
            return false;
        }
        let total_len = M::frame_totol_len(self.storage.as_slice());
        total_len > 0 && total_len <= self.storage.len()
    }

    /// Returns a zero-copy view of the first complete frame in the pending
    /// region, without mutating the buffer; fails with `Empty` when no
    /// complete frame is present.
    pub fn acquire_frame(&self) -> (r: Result<&[u8], Empty>)
        ensures
            r is Ok <==> spec_frame_complete::<M>(self@),
            r matches Ok(frame) ==> frame@ == self@.take(M::spec_total_len(self@) as int),
    {
        if self.frame_complete() {
            let total_len = M::frame_totol_len(self.storage.as_slice());
            let data = slice_subrange(self.storage.as_slice(), 0, total_len);
            Ok(data)
        } else {
            Err(Empty)
        }
    }

    /// Consumes the first complete frame: the pending region is shifted
    /// left by the frame's total length and resynchronized, with any newly
    /// exposed garbage dropped and counted. Fails with `Empty`, leaving the
    /// buffer unchanged, when no complete frame is present.
    pub fn release_frame(&mut self) -> (r: Result<(), Empty>)
        requires
            old(self).spec_dropped() + N <= usize::MAX,
        ensures
            r is Ok <==> spec_frame_complete::<M>(old(self)@),
            r is Err ==> *final(self) == *old(self),
            r is Ok ==> ({
                let rest = old(self)@.skip(M::spec_total_len(old(self)@) as int);
                &&& final(self)@ == rest.skip(sync_offset::<M>(rest) as int)
                &&& final(self).spec_dropped() == old(self).spec_dropped() + sync_offset::<M>(rest)
            }),
            final(self)@.len() <= N,
            is_aligned::<M>(final(self)@),
    {
        proof {
            use_type_invariant(&*self);
            M::lemma_header_len_positive();
        }
        if !self.frame_complete() {
            return Err(Empty);
        }
        let total_len = M::frame_totol_len(self.storage.as_slice());
        let mut buf: Vec<u8> = Vec::new();
        core::mem::swap(&mut buf, &mut self.storage);
        let ghost rest = buf@.skip(total_len as int);
        Self::drop_front(&mut buf, total_len);
        let k = Self::align_buffer_with_header(&mut buf);
        proof {
            lemma_sync_offset_props::<M>(rest);
        }
        self.dropped = self.dropped + k;
        core::mem::swap(&mut buf, &mut self.storage);
        Ok(())
    }

    /// Applies `f` to a view of the first complete frame, then consumes the
    /// frame and returns `f`'s result; fails with `Empty`, without invoking
    /// `f`, when no complete frame is present. The view handed to `f` is
    /// only valid during the call.
    pub fn dequeue_frame_with<F, R>(&mut self, f: F) -> (r: Result<R, Empty>) where
        F: FnOnce(&[u8]) -> R,

        requires
            old(self).spec_dropped() + N <= usize::MAX,
            forall|s: &[u8]|
                spec_frame_complete::<M>(old(self)@) && s@ == old(self)@.take(
                    M::spec_total_len(old(self)@) as int,
                ) ==> #[trigger] call_requires(f, (s,)),
        ensures
            r is Ok <==> spec_frame_complete::<M>(old(self)@),
            r is Err ==> *final(self) == *old(self),
            r matches Ok(v) ==> ({
                let frame = old(self)@.take(M::spec_total_len(old(self)@) as int);
                let rest = old(self)@.skip(M::spec_total_len(old(self)@) as int);
                &&& (exists|s: &[u8]| s@ == frame && call_ensures(f, (s,), v))
                &&& final(self)@ == rest.skip(sync_offset::<M>(rest) as int)
                &&& final(self).spec_dropped() == old(self).spec_dropped() + sync_offset::<M>(rest)
            }),
    {
        match self.acquire_frame() {
            Ok(frame) => {
                let result = f(frame);
                let _ = self.release_frame();
                Ok(result)
            },
            Err(e) => Err(e),
        }
    }
}

} // verus!
