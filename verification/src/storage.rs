//! The persistence interface a segment writes through, and an in-memory
//! implementation of it.
//!
//! The core never performs raw I/O: every disk effect goes through
//! [`SegmentStorage`], whose contract models, per segment file, the ordered
//! batches of the log and the raw index bytes.

use crate::batching::{BatchV, MessagesBatch, METADATA_BYTES_LEN};
use crate::error::Error;
use crate::index::IndexRange;
use vstd::prelude::*;

verus! {

/// The framed size of one batch.
pub open spec fn spec_batch_size(b: BatchV) -> int {
    METADATA_BYTES_LEN + b.messages.len()
}

/// The total framed size of a batch list.
pub open spec fn spec_batches_size(bs: Seq<BatchV>) -> int
    decreases bs.len(),
{
    if bs.len() == 0 {
        0int
    } else {
        spec_batch_size(bs[0]) + spec_batches_size(bs.drop_first())
    }
}

/// The batches of `bs` whose header byte positions fall in `[lo, hi]`, when
/// laid out one after another starting at byte `pos`.
pub open spec fn spec_select_from(bs: Seq<BatchV>, pos: int, lo: int, hi: int) -> Seq<BatchV>
    decreases bs.len(),
{
    if bs.len() == 0 {
        Seq::empty()
    } else {
        let rest = spec_select_from(bs.drop_first(), pos + spec_batch_size(bs[0]), lo, hi);
        if lo <= pos <= hi {
            seq![bs[0]] + rest
        } else {
            rest
        }
    }
}

/// The batches of a segment file whose positions fall in `[lo, hi]`.
pub open spec fn spec_select_batches(bs: Seq<BatchV>, lo: int, hi: int) -> Seq<BatchV> {
    spec_select_from(bs, 0, lo, hi)
}

/// Names one segment file: the partition it belongs to, down the
/// hierarchy, and the segment's start offset. Two segments of different
/// partitions may share a start offset; their files are distinct.
#[derive(Debug, Clone, Copy, PartialEq, Eq, Structural)]
pub struct SegmentKey {
    pub stream_id: u32,
    pub topic_id: u32,
    pub partition_id: u32,
    pub start_offset: u64,
}

/// Persistence for segment files, keyed by the owning partition and the
/// segment's start offset. `batches` models the ordered log records of one
/// file and `index_bytes` its raw offset-index bytes; a segment never
/// written to is empty.
pub trait SegmentStorage {
    /// The batches persisted in the named segment file, in file order.
    spec fn batches(&self, key: SegmentKey) -> Seq<BatchV>;

    /// The persisted offset-index bytes of that segment file.
    spec fn index_bytes(&self, key: SegmentKey) -> Seq<u8>;

    /// Appends the framed batches to the segment's log file and returns the
    /// bytes written. The append is atomic: on failure the file is
    /// unchanged.
    fn save_messages(&mut self, key: SegmentKey, batches: &Vec<MessagesBatch>) -> (r: Result<
        u32,
        Error,
    >)
        requires
            spec_batches_size(batches.deep_view()) <= u32::MAX,
        ensures
            match r {
                Ok(n) => final(self).batches(key) == old(self).batches(key)
                    + batches.deep_view() && n == spec_batches_size(batches.deep_view()),
                Err(e) => final(self).batches(key) == old(self).batches(key)
                    && e is IoError,
            },
            forall|k2: SegmentKey|
                k2 != key ==> final(self).batches(k2) == old(self).batches(k2),
            forall|k2: SegmentKey| final(self).index_bytes(k2) == old(self).index_bytes(k2),
    ;

    /// Appends the given bytes to the segment's index file.
    fn save_index(&mut self, key: SegmentKey, bytes: &Vec<u8>) -> (r: Result<(), Error>)
        ensures
            match r {
                Ok(()) => final(self).index_bytes(key) == old(self).index_bytes(key) + bytes@,
                Err(e) => final(self).index_bytes(key) == old(self).index_bytes(key)
                    && e is IoError,
            },
            forall|k2: SegmentKey|
                k2 != key ==> final(self).index_bytes(k2) == old(self).index_bytes(k2),
            forall|k2: SegmentKey| final(self).batches(k2) == old(self).batches(k2),
    ;

    /// Loads the batches whose file positions fall in the bracket, in file
    /// order.
    fn load_messages(&self, key: SegmentKey, index_range: &IndexRange) -> (r: Result<
        Vec<MessagesBatch>,
        Error,
    >)
        ensures
            match r {
                Ok(bs) => bs.deep_view() == spec_select_batches(
                    self.batches(key),
                    index_range.start.position as int,
                    index_range.end.position as int,
                ),
                Err(e) => e is IoError,
            },
    ;

    /// Removes the segment's files.
    fn delete_segment(&mut self, key: SegmentKey) -> (r: Result<(), Error>)
        ensures
            match r {
                Ok(()) => final(self).batches(key) == Seq::<BatchV>::empty() && final(self).index_bytes(key) == Seq::<u8>::empty(),
                Err(e) => final(self).batches(key) == old(self).batches(key)
                    && final(self).index_bytes(key) == old(self).index_bytes(key)
                    && e is IoError,
            },
            forall|k2: SegmentKey|
                k2 != key ==> final(self).batches(k2) == old(self).batches(k2),
            forall|k2: SegmentKey|
                k2 != key ==> final(self).index_bytes(k2) == old(self).index_bytes(k2),
    ;
}

/// One in-memory segment file: its key and contents.
pub struct StoredSegment {
    pub key: SegmentKey,
    pub batches: Vec<MessagesBatch>,
    pub index_bytes: Vec<u8>,
}

/// In-memory storage: an association list of segment files. The first entry
/// with a given key holds that segment's contents.
pub struct InMemorySegmentStorage {
    pub segments: Vec<StoredSegment>,
}

/// The index of the first entry with the given key, if any.
pub open spec fn spec_find(entries: Seq<StoredSegment>, key: SegmentKey) -> Option<int>
    decreases entries.len(),
{
    if entries.len() == 0 {
        None
    } else if entries[0].key == key {
        Some(0int)
    } else {
        match spec_find(entries.drop_first(), key) {
            Some(i) => Some(i + 1),
            None => None,
        }
    }
}

/// `spec_find` returns the first matching index.
pub proof fn lemma_find_first(entries: Seq<StoredSegment>, key: SegmentKey, i: int)
    requires
        0 <= i < entries.len(),
        entries[i].key == key,
        forall|j: int| 0 <= j < i ==> entries[j].key != key,
    ensures
        spec_find(entries, key) == Some(i),
    decreases entries.len(),
{
    if entries[0].key == key {
        assert(i == 0);
    } else {
        let t = entries.drop_first();
        assert(t[i - 1] == entries[i]);
        assert(forall|j: int| 0 <= j < i - 1 ==> #[trigger] t[j] == entries[j + 1]);
        lemma_find_first(t, key, i - 1);
    }
}

/// `spec_find` misses exactly when no entry matches.
pub proof fn lemma_find_none(entries: Seq<StoredSegment>, key: SegmentKey)
    requires
        forall|j: int| 0 <= j < entries.len() ==> entries[j].key != key,
    ensures
        spec_find(entries, key) is None,
    decreases entries.len(),
{
    if entries.len() > 0 {
        let t = entries.drop_first();
        assert(forall|j: int| 0 <= j < t.len() ==> #[trigger] t[j] == entries[j + 1]);
        lemma_find_none(t, key);
    }
}

/// A found entry carries the key it was found for.
pub proof fn lemma_find_some(entries: Seq<StoredSegment>, key: SegmentKey)
    ensures
        match spec_find(entries, key) {
            Some(j) => 0 <= j < entries.len() && entries[j].key == key,
            None => true,
        },
    decreases entries.len(),
{
    if entries.len() > 0 && entries[0].key != key {
        lemma_find_some(entries.drop_first(), key);
    }
}

/// Two entry lists with the same keys in the same places are searched the
/// same way.
pub proof fn lemma_find_same_keys(a: Seq<StoredSegment>, b: Seq<StoredSegment>, key: SegmentKey)
    requires
        a.len() == b.len(),
        forall|j: int| 0 <= j < a.len() ==> a[j].key == #[trigger] b[j].key,
    ensures
        spec_find(a, key) == spec_find(b, key),
    decreases a.len(),
{
    if a.len() > 0 {
        let ta = a.drop_first();
        let tb = b.drop_first();
        assert(forall|j: int| 0 <= j < ta.len() ==> #[trigger] ta[j] == a[j + 1]);
        assert(forall|j: int| 0 <= j < tb.len() ==> #[trigger] tb[j] == b[j + 1]);
        lemma_find_same_keys(ta, tb, key);
    }
}

/// Updating one entry moves `spec_find` results for its key to the updated
/// contents and leaves other keys alone.
pub proof fn lemma_find_update(entries: Seq<StoredSegment>, i: int, e: StoredSegment, key: SegmentKey)
    requires
        0 <= i < entries.len(),
        e.key == entries[i].key,
    ensures
        spec_find(entries.update(i, e), key) == spec_find(entries, key),
    decreases entries.len(),
{
    let u = entries.update(i, e);
    if entries.len() > 0 {
        if i == 0 {
            if entries[0].key == key {
            } else {
                assert(u.drop_first() =~= entries.drop_first());
            }
        } else {
            assert(u[0] == entries[0]);
            if entries[0].key == key {
            } else {
                assert(u.drop_first() =~= entries.drop_first().update(i - 1, e));
                assert(entries.drop_first()[i - 1] == entries[i]);
                lemma_find_update(entries.drop_first(), i - 1, e, key);
            }
        }
    }
}

impl InMemorySegmentStorage {
    /// Builds an empty store.
    pub fn new() -> (r: Self)
        ensures
            forall|k2: SegmentKey| r.batches(k2) == Seq::<BatchV>::empty(),
            forall|k2: SegmentKey| r.index_bytes(k2) == Seq::<u8>::empty(),
    {
        let r = InMemorySegmentStorage { segments: Vec::new() };
        proof {
            assert forall|k2: SegmentKey| r.batches(k2) == Seq::<BatchV>::empty() by {
                assert(spec_find(r.segments@, k2) is None);
            }
            assert forall|k2: SegmentKey| r.index_bytes(k2) == Seq::<u8>::empty() by {
                assert(spec_find(r.segments@, k2) is None);
            }
        }
        r
    }

    /// Finds the position of the segment entry for the key.
    fn find_entry(&self, key: SegmentKey) -> (r: Option<usize>)
        ensures
            match r {
                Some(i) => spec_find(self.segments@, key) == Some(i as int) && i
                    < self.segments@.len() && self.segments@[i as int].key == key,
                None => spec_find(self.segments@, key) is None,
            },
    {
        let mut i: usize = 0;
        while i < self.segments.len()
            invariant
                i <= self.segments@.len(),
                forall|j: int| 0 <= j < i ==> self.segments@[j].key != key,
            decreases self.segments@.len() - i,
        {
            if self.segments[i].key == key {
                proof {
                    lemma_find_first(self.segments@, key, i as int);
                }
                return Some(i);
            }
            i = i + 1;
        }
        proof {
            lemma_find_none(self.segments@, key);
        }
        None
    }

    /// Makes sure an entry for the key exists and returns its
    /// position.
    fn ensure_entry(&mut self, key: SegmentKey) -> (r: usize)
        ensures
            r < final(self).segments@.len(),
            spec_find(final(self).segments@, key) == Some(r as int),
            final(self).segments@[r as int].key == key,
            final(self).batches(key) == old(self).batches(key),
            final(self).index_bytes(key) == old(self).index_bytes(key),
            forall|k2: SegmentKey| final(self).batches(k2) == old(self).batches(k2),
            forall|k2: SegmentKey| final(self).index_bytes(k2) == old(self).index_bytes(k2),
    {
        match self.find_entry(key) {
            Some(i) => i,
            None => {
                let entry = StoredSegment {
                    key,
                    batches: Vec::new(),
                    index_bytes: Vec::new(),
                };
                let i = self.segments.len();
                let ghost old_entries = self.segments@;
                self.segments.push(entry);
                proof {
                    lemma_find_push(old_entries, self.segments@[i as int], key);
                    assert(self.segments@[i as int].batches.deep_view() =~= Seq::<
                        BatchV,
                    >::empty());
                    assert(self.segments@[i as int].index_bytes@ =~= Seq::<u8>::empty());
                    assert forall|k2: SegmentKey| #[trigger] self.batches(k2) == old(self).batches(
                        k2,
                    ) by {
                        lemma_find_push_other(old_entries, self.segments@[i as int], k2);
                        lemma_find_some(old_entries, k2);
                        lemma_find_some(self.segments@, k2);
                        if k2 == key {
                            assert(spec_find(old_entries, k2) is None);
                            assert(self.segments@[i as int].batches.deep_view() =~= Seq::<
                                BatchV,
                            >::empty());
                        }
                    }
                    assert forall|k2: SegmentKey| #[trigger] self.index_bytes(k2) == old(
                        self,
                    ).index_bytes(k2) by {
                        lemma_find_push_other(old_entries, self.segments@[i as int], k2);
                        lemma_find_some(old_entries, k2);
                        lemma_find_some(self.segments@, k2);
                        if k2 == key {
                            assert(spec_find(old_entries, k2) is None);
                            assert(self.segments@[i as int].index_bytes@ =~= Seq::<u8>::empty());
                        }
                    }
                }
                i
            },
        }
    }
}

/// Pushing a fresh entry makes `spec_find` of its key land on it when the
/// key was absent.
pub proof fn lemma_find_push(entries: Seq<StoredSegment>, e: StoredSegment, key: SegmentKey)
    requires
        spec_find(entries, key) is None,
        e.key == key,
    ensures
        spec_find(entries.push(e), key) == Some(entries.len() as int),
    decreases entries.len(),
{
    if entries.len() == 0 {
        assert(entries.push(e)[0] == e);
    } else {
        assert(entries.push(e)[0] == entries[0]);
        assert(entries.push(e).drop_first() =~= entries.drop_first().push(e));
        lemma_find_push(entries.drop_first(), e, key);
    }
}

/// Pushing an entry never changes where other keys are found, and a key
/// found before is found at the same place after.
pub proof fn lemma_find_push_other(entries: Seq<StoredSegment>, e: StoredSegment, key: SegmentKey)
    ensures
        spec_find(entries, key) is Some ==> spec_find(entries.push(e), key) == spec_find(
            entries,
            key,
        ),
        spec_find(entries, key) is None && e.key != key ==> spec_find(
            entries.push(e),
            key,
        ) is None,
    decreases entries.len(),
{
    if entries.len() == 0 {
        assert(entries.push(e).len() == 1);
        assert(entries.push(e)[0] == e);
        assert(entries.push(e).drop_first() =~= Seq::<StoredSegment>::empty());
        if e.key != key {
            assert(spec_find(Seq::<StoredSegment>::empty(), key) is None);
            assert(spec_find(entries.push(e), key) is None);
        }
    } else {
        assert(entries.push(e)[0] == entries[0]);
        assert(entries.push(e).drop_first() =~= entries.drop_first().push(e));
        lemma_find_push_other(entries.drop_first(), e, key);
    }
}

impl SegmentStorage for InMemorySegmentStorage {
    /// The batches of the first entry for the key, or empty.
    open spec fn batches(&self, key: SegmentKey) -> Seq<BatchV> {
        match spec_find(self.segments@, key) {
            Some(i) => self.segments@[i].batches.deep_view(),
            None => Seq::empty(),
        }
    }

    /// The index bytes of the first entry for the key, or empty.
    open spec fn index_bytes(&self, key: SegmentKey) -> Seq<u8> {
        match spec_find(self.segments@, key) {
            Some(i) => self.segments@[i].index_bytes@,
            None => Seq::empty(),
        }
    }

    fn save_messages(&mut self, key: SegmentKey, batches: &Vec<MessagesBatch>) -> (r: Result<
        u32,
        Error,
    >) {
        let i = self.ensure_entry(key);
        let ghost mid = *self;
        let n = batches.len();
        let mut total: u32 = 0;
        let mut k: usize = 0;
        proof {
            lemma_batches_size_nonneg(batches.deep_view());
            assert(batches.deep_view().subrange(0, 0) =~= Seq::<BatchV>::empty());
            assert(mid.segments@[i as int].batches.deep_view() + Seq::<BatchV>::empty()
                =~= mid.segments@[i as int].batches.deep_view());
        }
        while k < n
            invariant
                k <= n,
                n == batches@.len(),
                i < self.segments@.len(),
                self.segments@.len() == mid.segments@.len(),
                forall|j: int|
                    0 <= j < self.segments@.len() && j != i ==> self.segments@[j]
                        == #[trigger] mid.segments@[j],
                self.segments@[i as int].key == key,
                mid.segments@[i as int].key == key,
                self.segments@[i as int].index_bytes == mid.segments@[i as int].index_bytes,
                self.segments@[i as int].batches.deep_view() == mid.segments@[i as int].batches.deep_view()
                    + batches.deep_view().subrange(0, k as int),
                total == spec_batches_size(batches.deep_view().subrange(0, k as int)),
                spec_batches_size(batches.deep_view()) <= u32::MAX,
            decreases n - k,
        {
            proof {
                let dv = batches.deep_view();
                lemma_batches_size_push(dv.subrange(0, k as int), dv[k as int]);
                assert(dv.subrange(0, k as int).push(dv[k as int]) =~= dv.subrange(0, k + 1));
                lemma_batches_size_split(dv, k + 1);
                lemma_batches_size_nonneg(dv.subrange(k + 1, dv.len() as int));
                lemma_batches_size_nonneg(dv.subrange(0, k as int));
                lemma_batch_size_nonneg_all(dv);
                assert(spec_batches_size(dv.subrange(0, k + 1)) <= spec_batches_size(dv));
                assert(total + spec_batch_size(dv[k as int]) <= u32::MAX);
            }
            let b = batches[k].clone();
            let ghost bview = b@;
            let sz = METADATA_BYTES_LEN + b.messages.len() as u32;
            let ghost before = self.segments@;
            let entry = &mut self.segments[i];
            entry.batches.push(b);
            total = total + sz;
            k = k + 1;
            proof {
                assert(bview == batches.deep_view()[k - 1]);
                assert(self.segments@[i as int].batches.deep_view()
                    =~= before[i as int].batches.deep_view().push(bview));
                assert(self.segments@[i as int].batches.deep_view()
                    =~= mid.segments@[i as int].batches.deep_view() + batches.deep_view().subrange(
                    0,
                    k as int,
                ));
            }
        }
        proof {
            assert(batches.deep_view().subrange(0, n as int) =~= batches.deep_view());
            assert forall|j: int|
                0 <= j < self.segments@.len() implies self.segments@[j].key
                == #[trigger] mid.segments@[j].key by {}
            assert forall|k2: SegmentKey| k2 != key implies #[trigger] self.batches(k2) == old(
                self,
            ).batches(k2) by {
                lemma_find_same_keys(self.segments@, mid.segments@, k2);
                lemma_find_some(self.segments@, k2);
            }
            assert forall|k2: SegmentKey| #[trigger] self.index_bytes(k2) == old(self).index_bytes(
                k2,
            ) by {
                lemma_find_same_keys(self.segments@, mid.segments@, k2);
                lemma_find_some(self.segments@, k2);
            }
            lemma_find_same_keys(self.segments@, mid.segments@, key);
        }
        Ok(total)
    }

    fn save_index(&mut self, key: SegmentKey, bytes: &Vec<u8>) -> (r: Result<(), Error>) {
        let i = self.ensure_entry(key);
        let cur = self.segments[i].index_bytes.len();
        if bytes.len() > usize::MAX - cur {
            return Err(Error::IoError);
        }
        let ghost mid = *self;
        let entry = &mut self.segments[i];
        crate::wire::put_bytes(&mut entry.index_bytes, bytes.as_slice());
        proof {
            assert forall|j: int|
                0 <= j < self.segments@.len() implies self.segments@[j].key
                == #[trigger] mid.segments@[j].key by {}
            assert forall|k2: SegmentKey| k2 != key implies #[trigger] self.index_bytes(k2) == old(
                self,
            ).index_bytes(k2) by {
                lemma_find_same_keys(self.segments@, mid.segments@, k2);
                lemma_find_some(self.segments@, k2);
            }
            assert forall|k2: SegmentKey| #[trigger] self.batches(k2) == old(self).batches(k2) by {
                lemma_find_same_keys(self.segments@, mid.segments@, k2);
                lemma_find_some(self.segments@, k2);
            }
            lemma_find_same_keys(self.segments@, mid.segments@, key);
        }
        Ok(())
    }

    fn load_messages(&self, key: SegmentKey, index_range: &IndexRange) -> (r: Result<
        Vec<MessagesBatch>,
        Error,
    >) {
        let lo = index_range.start.position;
        let hi = index_range.end.position;
        match self.find_entry(key) {
            None => {
                proof {
                    assert(spec_select_from(Seq::<BatchV>::empty(), 0, lo as int, hi as int)
                        =~= Seq::<BatchV>::empty());
                }
                let empty: Vec<MessagesBatch> = Vec::new();
                proof {
                    assert(empty.deep_view() =~= Seq::<BatchV>::empty());
                }
                Ok(empty)
            },
            Some(i) => {
                let entry = &self.segments[i];
                let mut out: Vec<MessagesBatch> = Vec::new();
                let mut pos: u64 = 0;
                let mut k: usize = 0;
                let ghost all = entry.batches.deep_view();
                proof {
                    lemma_select_extend(all, 0, 0, lo as int, hi as int, Seq::<BatchV>::empty());
                }
                while k < entry.batches.len()
                    invariant
                        k <= all.len(),
                        all == entry.batches.deep_view(),
                        entry == self.segments@[i as int],
                        pos == spec_batches_size(all.subrange(0, k as int)),
                        spec_select_batches(all, lo as int, hi as int) == out.deep_view()
                            + spec_select_from(
                            all.subrange(k as int, all.len() as int),
                            pos as int,
                            lo as int,
                            hi as int,
                        ),
                    decreases all.len() - k,
                {
                    proof {
                        lemma_batch_size_nonneg_all(all);
                        lemma_batches_size_push(all.subrange(0, k as int), all[k as int]);
                        assert(all.subrange(0, k as int).push(all[k as int]) =~= all.subrange(
                            0,
                            k + 1,
                        ));
                        assert(all.subrange(k as int, all.len() as int)[0] == all[k as int]);
                        assert(all.subrange(k as int, all.len() as int).drop_first()
                            =~= all.subrange(k + 1, all.len() as int));
                    }
                    let b = &entry.batches[k];
                    let take = (lo as u64) <= pos && pos <= (hi as u64);
                    let ghost old_out = out.deep_view();
                    if take {
                        out.push(b.clone());
                    }
                    let ml: u64 = b.messages.len() as u64;
                    pos = match pos.checked_add(METADATA_BYTES_LEN as u64) {
                        Some(p) => match p.checked_add(ml) {
                            Some(p2) => p2,
                            None => {
                                return Err(Error::IoError);
                            },
                        },
                        None => {
                            return Err(Error::IoError);
                        },
                    };
                    k = k + 1;
                    proof {
                        if take {
                            assert(out.deep_view() =~= old_out.push(all[k - 1]));
                            assert(old_out.push(all[k - 1]) + spec_select_from(
                                all.subrange(k as int, all.len() as int),
                                pos as int,
                                lo as int,
                                hi as int,
                            ) =~= old_out + (seq![all[k - 1]] + spec_select_from(
                                all.subrange(k as int, all.len() as int),
                                pos as int,
                                lo as int,
                                hi as int,
                            )));
                        }
                    }
                }
                proof {
                    assert(all.subrange(all.len() as int, all.len() as int) =~= Seq::<
                        BatchV,
                    >::empty());
                    assert(out.deep_view() + Seq::<BatchV>::empty() =~= out.deep_view());
                }
                Ok(out)
            },
        }
    }

    fn delete_segment(&mut self, key: SegmentKey) -> (r: Result<(), Error>) {
        match self.find_entry(key) {
            None => Ok(()),
            Some(i) => {
                let ghost before = self.segments@;
                let entry = &mut self.segments[i];
                entry.batches.clear();
                entry.index_bytes.clear();
                proof {
                    assert forall|j: int|
                        0 <= j < self.segments@.len() implies self.segments@[j].key
                        == #[trigger] before[j].key by {}
                    lemma_find_same_keys(self.segments@, before, key);
                    assert(self.segments@[i as int].batches.deep_view() =~= Seq::<BatchV>::empty());
                    assert(self.segments@[i as int].index_bytes@ =~= Seq::<u8>::empty());
                    assert forall|k2: SegmentKey| k2 != key implies #[trigger] self.batches(k2)
                        == old(self).batches(k2) by {
                        lemma_find_same_keys(self.segments@, before, k2);
                        lemma_find_some(self.segments@, k2);
                    }
                    assert forall|k2: SegmentKey| k2 != key implies #[trigger] self.index_bytes(k2)
                        == old(self).index_bytes(k2) by {
                        lemma_find_same_keys(self.segments@, before, k2);
                        lemma_find_some(self.segments@, k2);
                    }
                }
                Ok(())
            },
        }
    }
}

/// Every batch size is non-negative, so list sizes are monotone under
/// splitting.
pub proof fn lemma_batch_size_nonneg_all(bs: Seq<BatchV>)
    ensures
        forall|i: int| 0 <= i < bs.len() ==> spec_batch_size(#[trigger] bs[i]) >= 17,
{
}

/// The total size of a batch list is non-negative.
pub proof fn lemma_batches_size_nonneg(bs: Seq<BatchV>)
    ensures
        spec_batches_size(bs) >= 0,
    decreases bs.len(),
{
    if bs.len() > 0 {
        lemma_batches_size_nonneg(bs.drop_first());
    }
}

/// Appending one batch adds its size.
pub proof fn lemma_batches_size_push(bs: Seq<BatchV>, b: BatchV)
    ensures
        spec_batches_size(bs.push(b)) == spec_batches_size(bs) + spec_batch_size(b),
    decreases bs.len(),
{
    if bs.len() == 0 {
        assert(bs.push(b)[0] == b);
        assert(bs.push(b).drop_first() =~= Seq::<BatchV>::empty());
        assert(spec_batches_size(bs.push(b)) == spec_batch_size(bs.push(b)[0])
            + spec_batches_size(bs.push(b).drop_first()));
        assert(spec_batches_size(Seq::<BatchV>::empty()) == 0);
    } else {
        assert(bs.push(b)[0] == bs[0]);
        assert(bs.push(b).drop_first() =~= bs.drop_first().push(b));
        lemma_batches_size_push(bs.drop_first(), b);
        assert(spec_batches_size(bs.push(b)) == spec_batch_size(bs[0]) + spec_batches_size(
            bs.drop_first().push(b),
        ));
    }
}

/// Splitting a batch list splits its total size.
pub proof fn lemma_batches_size_split(bs: Seq<BatchV>, i: int)
    requires
        0 <= i <= bs.len(),
    ensures
        spec_batches_size(bs) == spec_batches_size(bs.subrange(0, i)) + spec_batches_size(
            bs.subrange(i, bs.len() as int),
        ),
    decreases i,
{
    if i == 0 {
        assert(bs.subrange(0, 0) =~= Seq::<BatchV>::empty());
        assert(bs.subrange(0, bs.len() as int) =~= bs);
    } else {
        lemma_batches_size_split(bs, i - 1);
        lemma_batches_size_push(bs.subrange(0, i - 1), bs[i - 1]);
        assert(bs.subrange(0, i - 1).push(bs[i - 1]) =~= bs.subrange(0, i));
        assert(bs.subrange(i - 1, bs.len() as int)[0] == bs[i - 1]);
        assert(bs.subrange(i - 1, bs.len() as int).drop_first() =~= bs.subrange(
            i,
            bs.len() as int,
        ));
    }
}

/// Concatenation adds sizes.
pub proof fn lemma_batches_size_concat(a: Seq<BatchV>, b: Seq<BatchV>)
    ensures
        spec_batches_size(a + b) == spec_batches_size(a) + spec_batches_size(b),
{
    lemma_batches_size_split(a + b, a.len() as int);
    assert((a + b).subrange(0, a.len() as int) =~= a);
    assert((a + b).subrange(a.len() as int, (a + b).len() as int) =~= b);
}


/// The selection over a whole list equals what a scan that has consumed a
/// prefix still expects: used to seed the read loop.
pub proof fn lemma_select_extend(
    bs: Seq<BatchV>,
    pos: int,
    k: int,
    lo: int,
    hi: int,
    acc: Seq<BatchV>,
)
    requires
        k == 0,
        pos == 0,
        acc == Seq::<BatchV>::empty(),
    ensures
        spec_select_batches(bs, lo, hi) == acc + spec_select_from(
            bs.subrange(k, bs.len() as int),
            pos,
            lo,
            hi,
        ),
{
    assert(bs.subrange(0, bs.len() as int) =~= bs);
    assert(acc + spec_select_from(bs, 0, lo, hi) =~= spec_select_from(bs, 0, lo, hi));
}

} // verus!
