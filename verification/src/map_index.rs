//! Reading of a persisted index from payload values to points.

use itertools::Itertools;
use vstd::prelude::*;

use crate::arith::{min_int, saturating_mul_usize};
use crate::counter::HardwareCounterCell;
use crate::error::{OperationError, OperationResult};
use crate::integer_postings::{IntegerPosting, IntegerPostingAtom, IntegerPostingBatch};
use crate::types::PointOffsetType;

verus! {

/// From this many atoms on, bucket offsets are read in one go.
pub const PREFETCHED_OFFSETS_MIN_ATOMS: usize = 64;

/// Up to this size, the table of bucket offsets is read in one go.
pub const PREFETCHED_OFFSETS_MAX_TABLE_BYTES: usize = 262144;

/// Size of one bucket offset in bytes.
pub const BUCKET_OFFSET_SIZE: usize = 8;

/// Size of one point in a posting in bytes.
pub const POINT_SIZE: usize = 4;

/// Many atoms and a small table.
pub open spec fn prefetches_offsets(atom_count: nat, bucket_table_bytes: nat) -> bool {
    atom_count >= PREFETCHED_OFFSETS_MIN_ATOMS && bucket_table_bytes
        <= PREFETCHED_OFFSETS_MAX_TABLE_BYTES
}

/// Tell whether the bucket offsets are read in one go.
pub fn should_prefetch_offsets(atom_count: usize, bucket_table_bytes: usize) -> (r: bool)
    ensures
        r == prefetches_offsets(atom_count as nat, bucket_table_bytes as nat),
{
    atom_count >= PREFETCHED_OFFSETS_MIN_ATOMS && bucket_table_bytes
        <= PREFETCHED_OFFSETS_MAX_TABLE_BYTES
}

/// How an index is stored.
#[derive(Clone, Copy, Debug, PartialEq, Eq, Structural)]
pub enum StorageType {
    Mmap { is_on_disk: bool },
}

/// What the reading logic knows of an index without reading its storage.
#[derive(Debug)]
pub struct UniversalMapIndex {
    /// Deletion flags of the points.
    pub deleted: Vec<bool>,
    pub deleted_count: usize,
    /// Number of point slots, deleted ones included.
    pub point_slots: usize,
    /// Number of distinct values.
    pub keys_count: usize,
    pub total_key_value_pairs: usize,
    pub is_on_disk: bool,
    pub ram_usage_bytes: usize,
    /// Bytes that are read of an entry besides its points.
    pub read_entry_overhead: usize,
}

/// The entry of one value.
#[derive(Debug)]
pub struct MapEntry<K> {
    pub key: K,
    /// Size of the stored key in bytes.
    pub key_bytes: usize,
    pub points: Vec<PointOffsetType>,
}

/// What reading the posting of one atom gave.
#[derive(Debug)]
pub struct PostingReply {
    pub atom_ordinal: usize,
    pub points: Option<Vec<PointOffsetType>>,
}

/// The deletion flag of a point, if it has one.
pub open spec fn deletion_flag(deleted: Seq<bool>, point_id: PointOffsetType) -> Option<bool> {
    if point_id < deleted.len() {
        Some(deleted[point_id as int])
    } else {
        None
    }
}

/// The points of a list that a rule keeps, in order.
pub open spec fn kept_points(
    points: Seq<PointOffsetType>,
    keeps: spec_fn(PointOffsetType) -> bool,
) -> Seq<PointOffsetType>
    decreases points.len(),
{
    if points.len() == 0 {
        Seq::empty()
    } else {
        let previous = kept_points(points.drop_last(), keeps);
        if keeps(points.last()) {
            previous.push(points.last())
        } else {
            previous
        }
    }
}

/// The kept points are exactly those of the list that the rule keeps, and no more than there are.
pub proof fn lemma_kept_points(
    points: Seq<PointOffsetType>,
    keeps: spec_fn(PointOffsetType) -> bool,
)
    ensures
        kept_points(points, keeps).len() <= points.len(),
        forall|p: PointOffsetType| #[trigger]
            kept_points(points, keeps).contains(p) <==> points.contains(p) && keeps(p),
    decreases points.len(),
{
    if points.len() > 0 {
        let rest = points.drop_last();
        lemma_kept_points(rest, keeps);
        let previous = kept_points(rest, keeps);
        let list = kept_points(points, keeps);
        assert forall|p: PointOffsetType| #[trigger] list.contains(p) <==> points.contains(p)
            && keeps(p) by {
            assert(previous.contains(p) <==> rest.contains(p) && keeps(p));
            if rest.contains(p) {
                let i = choose|i: int| 0 <= i < rest.len() && rest[i] == p;
                assert(points[i] == p);
            }
            if points.contains(p) {
                let i = choose|i: int| 0 <= i < points.len() && points[i] == p;
                if i < rest.len() {
                    assert(rest[i] == p);
                }
            }
            if previous.contains(p) {
                let i = choose|i: int| 0 <= i < previous.len() && previous[i] == p;
                assert(list[i] == p);
            }
            if list.contains(p) {
                let i = choose|i: int| 0 <= i < list.len() && list[i] == p;
                if i < previous.len() {
                    assert(previous[i] == p);
                }
            }
            if keeps(points.last()) && p == points.last() {
                assert(list[previous.len() as int] == p);
                assert(points[points.len() - 1] == p);
            }
        }
    }
}

/// Points without a set deletion flag. A point without a flag counts as present.
pub open spec fn not_deleted(deleted: Seq<bool>) -> spec_fn(PointOffsetType) -> bool {
    |p: PointOffsetType| deletion_flag(deleted, p) != Some(true)
}

/// Points with an unset deletion flag before the first deferred one. A point without a flag counts
/// as deleted.
pub open spec fn visible_points(
    deleted: Seq<bool>,
    deferred: Option<PointOffsetType>,
) -> spec_fn(PointOffsetType) -> bool {
    |p: PointOffsetType|
        deletion_flag(deleted, p) == Some(false) && match deferred {
            Some(first) => p < first,
            None => true,
        }
}

/// Number of distinct points in a list.
///
/// Calls `unique().count()` of `itertools`, which counts every value once, however often it
/// occurs.
#[verifier::external_body]
fn count_unique(points: Vec<PointOffsetType>) -> (count: usize)
    ensures
        count == points@.to_set().len(),
{
    points.into_iter().unique().count()
}

/// The value may be what a read gives.
pub open spec fn reads_to<T, R: Fn(PointOffsetType) -> OperationResult<T>>(
    read: &R,
    point_id: PointOffsetType,
    value: OperationResult<T>,
) -> bool {
    read.ensures((point_id,), value)
}

/// The check of the values of a point gave this. A deleted point has no values, and a failed read
/// counts as no.
pub open spec fn any_checked<R: Fn(PointOffsetType) -> OperationResult<bool>>(
    deleted: Seq<bool>,
    check_stored: &R,
    idx: PointOffsetType,
    r: bool,
) -> bool {
    if deletion_flag(deleted, idx) == Some(true) {
        !r
    } else {
        exists|checked: OperationResult<bool>| #[trigger]
            reads_to(check_stored, idx, checked) && r == (checked matches Ok(true))
    }
}

/// Reading something of a point that is surely present gave this. A failed read counts as nothing.
pub open spec fn value_given<T, R: Fn(PointOffsetType) -> OperationResult<Option<T>>>(
    deleted: Seq<bool>,
    read_value: &R,
    idx: PointOffsetType,
    r: Option<T>,
) -> bool {
    if deletion_flag(deleted, idx) == Some(false) {
        exists|read: OperationResult<Option<T>>| #[trigger]
            reads_to(read_value, idx, read) && r == (match read {
                Ok(value) => value,
                Err(_) => None,
            })
    } else {
        r is None
    }
}

/// The points that are given for what reading the entry of a value gave, with the bytes counted.
pub open spec fn points_given(
    index: UniversalMapIndex,
    read: OperationResult<Option<Vec<PointOffsetType>>>,
    before: HardwareCounterCell,
    after: HardwareCounterCell,
    r: Seq<PointOffsetType>,
) -> bool {
    match read {
        Ok(Some(points)) => {
            &&& r == kept_points(points@, not_deleted(index.deleted@))
            &&& after == index.counted(
                before,
                points@.len() * POINT_SIZE as nat + index.read_entry_overhead as nat,
            )
        },
        Ok(None) => r.len() == 0 && after == index.counted(
            before,
            index.read_entry_overhead as nat,
        ),
        Err(_) => r.len() == 0 && after == before,
    }
}

impl UniversalMapIndex {
    /// The deletion flag of a point, if it has one.
    fn flag(&self, point_id: PointOffsetType) -> (r: Option<bool>)
        ensures
            r == deletion_flag(self.deleted@, point_id),
    {
        if (point_id as usize) < self.deleted.len() {
            Some(self.deleted[point_id as usize])
        } else {
            None
        }
    }

    /// The counter after bytes of this index were read. Only reads from disk count.
    pub open spec fn counted(&self, counter: HardwareCounterCell, delta: nat) -> HardwareCounterCell {
        if self.is_on_disk {
            counter.with_payload_read(delta)
        } else {
            counter
        }
    }

    /// Count bytes of this index that were read.
    fn count_read(&self, hw_counter: &mut HardwareCounterCell, delta: usize)
        ensures
            *final(hw_counter) == self.counted(*old(hw_counter), delta as nat),
    {
        if self.is_on_disk {
            hw_counter.incr_payload_index_io_read(delta);
        }
    }

    /// Tell whether some value of a point passes a check. `check_stored` reads the values of the
    /// point and checks them, and a failed read counts as no.
    pub fn check_values_any<R: Fn(PointOffsetType) -> OperationResult<bool>>(
        &self,
        idx: PointOffsetType,
        hw_counter: &mut HardwareCounterCell,
        check_stored: &R,
    ) -> (r: bool)
        requires
            check_stored.requires((idx,)),
        ensures
            *final(hw_counter) == self.counted(*old(hw_counter), 1),
            any_checked(self.deleted@, check_stored, idx, r),
    {
        self.count_read(hw_counter, 1);
        match self.flag(idx) {
            Some(true) => {
                return false;
            },
            _ => {},
        }
        let checked = check_stored(idx);
        proof {
            assert(reads_to(check_stored, idx, checked));
        }
        match checked {
            Ok(b) => b,
            Err(_) => false,
        }
    }

    /// The values of a point that is surely present, if they can be read.
    pub fn get_values<T, R: Fn(PointOffsetType) -> OperationResult<Option<Vec<T>>>>(
        &self,
        idx: PointOffsetType,
        read_values: &R,
    ) -> (r: Option<Vec<T>>)
        requires
            read_values.requires((idx,)),
        ensures
            value_given(self.deleted@, read_values, idx, r),
    {
        match self.flag(idx) {
            Some(false) => {
                let read = read_values(idx);
                proof {
                    assert(reads_to(read_values, idx, read));
                }
                match read {
                    Ok(values) => values,
                    Err(_) => None,
                }
            },
            _ => None,
        }
    }

    /// The number of values of a point that is surely present, if it can be read.
    pub fn values_count<R: Fn(PointOffsetType) -> OperationResult<Option<usize>>>(
        &self,
        idx: PointOffsetType,
        read_count: &R,
    ) -> (r: Option<usize>)
        requires
            read_count.requires((idx,)),
        ensures
            value_given(self.deleted@, read_count, idx, r),
    {
        match self.flag(idx) {
            Some(false) => {
                let read = read_count(idx);
                proof {
                    assert(reads_to(read_count, idx, read));
                }
                match read {
                    Ok(count) => count,
                    Err(_) => None,
                }
            },
            _ => None,
        }
    }

    /// Number of points that are not deleted.
    pub fn get_indexed_points(&self) -> (count: usize)
        ensures
            count == (if self.point_slots >= self.deleted_count {
                self.point_slots - self.deleted_count
            } else {
                0
            }),
    {
        self.point_slots.saturating_sub(self.deleted_count)
    }

    /// Number of value-point pairs, without those of deleted points.
    pub fn get_values_count(&self) -> (count: usize)
        ensures
            count == self.total_key_value_pairs,
    {
        self.total_key_value_pairs
    }

    /// Number of distinct values.
    pub fn get_unique_values_count(&self) -> (count: usize)
        ensures
            count == self.keys_count,
    {
        self.keys_count
    }

    /// The number of points of a value, from what reading its entry gave. A failed read counts as
    /// no entry.
    pub fn get_count_for_value(
        &self,
        read: OperationResult<Option<usize>>,
        hw_counter: &mut HardwareCounterCell,
    ) -> (r: Option<usize>)
        ensures
            *final(hw_counter) == self.counted(
                *old(hw_counter),
                self.read_entry_overhead as nat,
            ),
            r == (match read {
                Ok(count) => count,
                Err(_) => None,
            }),
    {
        self.count_read(hw_counter, self.read_entry_overhead);
        match read {
            Ok(count) => count,
            Err(_) => None,
        }
    }

    /// The points of a list that a deletion flag does not hide.
    fn keep_not_deleted(&self, points: &[PointOffsetType]) -> (r: Vec<PointOffsetType>)
        ensures
            r@ == kept_points(points@, not_deleted(self.deleted@)),
    {
        let mut r: Vec<PointOffsetType> = Vec::new();
        let mut i: usize = 0;
        proof {
            assert(points@.take(0) =~= Seq::empty());
        }
        while i < points.len()
            invariant
                i <= points@.len(),
                r@ == kept_points(points@.take(i as int), not_deleted(self.deleted@)),
            decreases points@.len() - i,
        {
            proof {
                assert(points@.take(i + 1).drop_last() =~= points@.take(i as int));
                assert(points@.take(i + 1).last() == points@[i as int]);
            }
            match self.flag(points[i]) {
                Some(true) => {},
                _ => {
                    r.push(points[i]);
                },
            }
            i = i + 1;
        }
        proof {
            assert(points@.take(i as int) =~= points@);
        }
        r
    }

    /// The points of a list that are surely present and come before the first deferred one.
    fn keep_visible(
        &self,
        points: &[PointOffsetType],
        deferred_internal_id: Option<PointOffsetType>,
    ) -> (r: Vec<PointOffsetType>)
        ensures
            r@ == kept_points(points@, visible_points(self.deleted@, deferred_internal_id)),
    {
        let ghost keeps = visible_points(self.deleted@, deferred_internal_id);
        let mut r: Vec<PointOffsetType> = Vec::new();
        let mut i: usize = 0;
        proof {
            assert(points@.take(0) =~= Seq::empty());
        }
        while i < points.len()
            invariant
                i <= points@.len(),
                keeps == visible_points(self.deleted@, deferred_internal_id),
                r@ == kept_points(points@.take(i as int), keeps),
            decreases points@.len() - i,
        {
            proof {
                assert(points@.take(i + 1).drop_last() =~= points@.take(i as int));
                assert(points@.take(i + 1).last() == points@[i as int]);
            }
            let point_id: PointOffsetType = points[i];
            let early = match deferred_internal_id {
                Some(deferred) => point_id < deferred,
                None => true,
            };
            match self.flag(point_id) {
                Some(false) => {
                    if early {
                        r.push(point_id);
                    }
                },
                _ => {},
            }
            i = i + 1;
        }
        proof {
            assert(points@.take(i as int) =~= points@);
        }
        r
    }

    /// The points of a value, from what reading its entry gave. A failed read counts as no entry,
    /// and counts no bytes.
    pub fn get_iterator(
        &self,
        read: OperationResult<Option<Vec<PointOffsetType>>>,
        hw_counter: &mut HardwareCounterCell,
    ) -> (r: Vec<PointOffsetType>)
        ensures
            points_given(*self, read, *old(hw_counter), *final(hw_counter), r@),
    {
        match read {
            Ok(Some(points)) => {
                let bytes: usize = saturating_mul_usize(points.len(), POINT_SIZE).saturating_add(
                    self.read_entry_overhead,
                );
                self.count_read(hw_counter, bytes);
                self.keep_not_deleted(points.as_slice())
            },
            Ok(None) => {
                self.count_read(hw_counter, self.read_entry_overhead);
                Vec::new()
            },
            Err(_) => Vec::new(),
        }
    }

    /// Number of distinct visible points in the entry of a value.
    pub fn count_visible(
        &self,
        points: &[PointOffsetType],
        deferred_internal_id: Option<PointOffsetType>,
    ) -> (count: usize)
        ensures
            count == visible_count(self.deleted@, deferred_internal_id, points@),
    {
        count_unique(self.keep_visible(points, deferred_internal_id))
    }

    /// Hand the number of distinct visible points of every entry to `f`, until `f` fails.
    pub fn for_each_count_per_value<K, F: Fn(&K, usize) -> OperationResult<()>>(
        &self,
        entries: &Vec<MapEntry<K>>,
        deferred_internal_id: Option<PointOffsetType>,
        f: &F,
    ) -> (r: OperationResult<()>)
        requires
            forall|key: &K, count: usize| #[trigger] f.requires((key, count)),
        ensures
            counts_handed(f, self.deleted@, deferred_internal_id, entries@, r),
    {
        let mut i: usize = 0;
        while i < entries.len()
            invariant
                i <= entries@.len(),
                forall|key: &K, count: usize| #[trigger] f.requires((key, count)),
                forall|j: int|
                    0 <= j < i ==> hands_count(
                        f,
                        self.deleted@,
                        deferred_internal_id,
                        #[trigger] entries@[j],
                        Ok(()),
                    ),
            decreases entries@.len() - i,
        {
            let count: usize = self.count_visible(
                entries[i].points.as_slice(),
                deferred_internal_id,
            );
            let reply = f(&entries[i].key, count);
            proof {
                assert(f.ensures((&entries@[i as int].key, count), reply));
                assert(hands_count(
                    f,
                    self.deleted@,
                    deferred_internal_id,
                    entries@[i as int],
                    reply,
                ));
            }
            match reply {
                Ok(nothing) => {
                    proof {
                        assert(reply == Ok::<(), OperationError>(()));
                    }
                },
                Err(error) => {
                    return Err(error);
                },
            }
            i = i + 1;
        }
        Ok(())
    }

    /// How this index is stored.
    pub fn storage_type(&self) -> (r: StorageType)
        ensures
            r == (StorageType::Mmap { is_on_disk: self.is_on_disk }),
    {
        StorageType::Mmap { is_on_disk: self.is_on_disk }
    }

    /// Bytes of memory that this index holds.
    pub fn ram_usage_bytes(&self) -> (bytes: usize)
        ensures
            bytes == self.ram_usage_bytes,
    {
        self.ram_usage_bytes
    }

    /// Name of this kind of index in telemetry.
    pub fn telemetry_index_type(&self) -> (name: &'static str)
        ensures
            name@ == "mmap_map"@,
    {
        "mmap_map"
    }

    /// Whether reads go to disk.
    pub fn is_on_disk(&self) -> (r: bool)
        ensures
            r == self.is_on_disk,
    {
        self.is_on_disk
    }
}

/// Number of distinct visible points of an entry.
pub open spec fn visible_count(
    deleted: Seq<bool>,
    deferred: Option<PointOffsetType>,
    points: Seq<PointOffsetType>,
) -> nat {
    kept_points(points, visible_points(deleted, deferred)).to_set().len()
}

/// The reply may be what `f` gives for an entry and its number of distinct visible points.
pub open spec fn hands_count<K, F: Fn(&K, usize) -> OperationResult<()>>(
    f: &F,
    deleted: Seq<bool>,
    deferred: Option<PointOffsetType>,
    entry: MapEntry<K>,
    reply: OperationResult<()>,
) -> bool {
    exists|count: usize|
        count == visible_count(deleted, deferred, entry.points@) && #[trigger] f.ensures(
            (&entry.key, count),
            reply,
        )
}

/// The number of distinct visible points of every entry was handed to `f`, until `f` failed.
pub open spec fn counts_handed<K, F: Fn(&K, usize) -> OperationResult<()>>(
    f: &F,
    deleted: Seq<bool>,
    deferred: Option<PointOffsetType>,
    entries: Seq<MapEntry<K>>,
    r: OperationResult<()>,
) -> bool {
    match r {
        Ok(_) => forall|i: int|
            0 <= i < entries.len() ==> hands_count(
                f,
                deleted,
                deferred,
                #[trigger] entries[i],
                Ok(()),
            ),
        Err(error) => exists|i: int|
            {
                &&& 0 <= i < entries.len()
                &&& hands_count(f, deleted, deferred, #[trigger] entries[i], Err(error))
                &&& forall|j: int|
                    0 <= j < i ==> hands_count(
                        f,
                        deleted,
                        deferred,
                        #[trigger] entries[j],
                        Ok(()),
                    )
            },
    }
}

/// Bytes that walking the first entries reads: their keys and the points that were taken.
pub open spec fn walked_bytes<K>(
    entries: Seq<MapEntry<K>>,
    taken: Seq<usize>,
    n: int,
) -> nat
    decreases n,
{
    if n <= 0 {
        0
    } else {
        walked_bytes(entries, taken, n - 1) + entries[n - 1].key_bytes as nat + taken[n - 1] as nat
            * POINT_SIZE as nat
    }
}

/// For an entry and its present points `f` may take this many of the points and give this result.
pub open spec fn hands_points<
    K,
    F: Fn(&K, &Vec<PointOffsetType>) -> (usize, OperationResult<()>),
>(
    f: &F,
    deleted: Seq<bool>,
    entry: MapEntry<K>,
    taken: usize,
    result: OperationResult<()>,
) -> bool {
    exists|points: Vec<PointOffsetType>|
        points@ == kept_points(entry.points@, visible_points(deleted, None))
            && #[trigger] f.ensures((&entry.key, &points), (taken, result))
}

/// `f` took this many points of each of the first entries and did not fail.
pub open spec fn points_handed<
    K,
    F: Fn(&K, &Vec<PointOffsetType>) -> (usize, OperationResult<()>),
>(
    f: &F,
    deleted: Seq<bool>,
    entries: Seq<MapEntry<K>>,
    taken: Seq<usize>,
    n: int,
) -> bool {
    forall|i: int|
        0 <= i < n ==> hands_points(f, deleted, #[trigger] entries[i], taken[i], Ok(()))
}

/// All entries were walked, or those up to the first one that `f` failed on. `f` took this many
/// points of each of them.
pub open spec fn entries_walked<
    K,
    F: Fn(&K, &Vec<PointOffsetType>) -> (usize, OperationResult<()>),
>(
    f: &F,
    deleted: Seq<bool>,
    entries: Seq<MapEntry<K>>,
    taken: Seq<usize>,
    r: OperationResult<()>,
) -> bool {
    let n = taken.len() as int;
    match r {
        Ok(_) => n == entries.len() && points_handed(f, deleted, entries, taken, n),
        Err(error) => {
            &&& 0 < n <= entries.len()
            &&& points_handed(f, deleted, entries, taken, n - 1)
            &&& hands_points(f, deleted, entries[n - 1], taken[n - 1], Err(error))
        },
    }
}

/// The present points of every entry were handed to `f`, until `f` failed, and the bytes of what it
/// took were counted.
pub open spec fn values_walked<
    K,
    F: Fn(&K, &Vec<PointOffsetType>) -> (usize, OperationResult<()>),
>(
    index: UniversalMapIndex,
    f: &F,
    entries: Seq<MapEntry<K>>,
    before: HardwareCounterCell,
    after: HardwareCounterCell,
    r: OperationResult<()>,
) -> bool {
    exists|taken: Seq<usize>|
        {
            &&& #[trigger] entries_walked(f, index.deleted@, entries, taken, r)
            &&& after == index.counted(
                before,
                walked_bytes(entries, taken, taken.len() as int),
            )
        }
}

/// `f` can be given any points, and takes no more of them than there are.
pub open spec fn can_take_points<
    K,
    F: Fn(&K, &Vec<PointOffsetType>) -> (usize, OperationResult<()>),
>(f: &F) -> bool {
    &&& forall|key: &K, points: &Vec<PointOffsetType>| #[trigger] f.requires((key, points))
    &&& forall|key: &K, points: &Vec<PointOffsetType>, reply: (usize, OperationResult<()>)|
        #[trigger] f.ensures((key, points), reply) ==> reply.0 <= points@.len()
}

/// One more entry was walked.
proof fn lemma_walked_prefix<K>(
    entries: Seq<MapEntry<K>>,
    taken: Seq<usize>,
    next: usize,
    n: int,
)
    requires
        n <= taken.len(),
    ensures
        walked_bytes(entries, taken.push(next), n) == walked_bytes(entries, taken, n),
    decreases n,
{
    if n > 0 {
        lemma_walked_prefix(entries, taken, next, n - 1);
    }
}

/// The points of one atom in all replies, in the order of the replies.
pub open spec fn replied_points(
    replies: Seq<PostingReply>,
    deleted: Seq<bool>,
    atom_ordinal: int,
) -> Seq<PointOffsetType>
    decreases replies.len(),
{
    if replies.len() == 0 {
        Seq::empty()
    } else {
        let previous = replied_points(replies.drop_last(), deleted, atom_ordinal);
        match replies.last().points {
            Some(points) if replies.last().atom_ordinal == atom_ordinal => previous
                + kept_points(points@, not_deleted(deleted)),
            _ => previous,
        }
    }
}

/// Bytes that the replies stand for.
pub open spec fn replied_bytes(replies: Seq<PostingReply>, overhead: nat) -> nat
    decreases replies.len(),
{
    if replies.len() == 0 {
        0
    } else {
        replied_bytes(replies.drop_last(), overhead) + overhead + match replies.last().points {
            Some(points) => points@.len() * POINT_SIZE as nat,
            None => 0,
        }
    }
}

/// Every reply belongs to an atom.
pub open spec fn replies_in_range(replies: Seq<PostingReply>, atom_count: nat) -> bool {
    forall|i: int| 0 <= i < replies.len() ==> (#[trigger] replies[i]).atom_ordinal < atom_count
}

/// No atom is replied to twice.
pub open spec fn replies_once(replies: Seq<PostingReply>) -> bool {
    forall|i: int, j: int|
        0 <= i < j < replies.len() ==> (#[trigger] replies[i]).atom_ordinal != (
        #[trigger] replies[j]).atom_ordinal
}

/// When no atom is replied to twice, its points are those of its own reply.
pub proof fn lemma_replied_points(
    replies: Seq<PostingReply>,
    deleted: Seq<bool>,
    atom_ordinal: int,
)
    requires
        replies_once(replies),
    ensures
        forall|i: int|
            0 <= i < replies.len() && (#[trigger] replies[i]).atom_ordinal == atom_ordinal
                ==> replied_points(replies, deleted, atom_ordinal) == (match replies[i].points {
                Some(points) => kept_points(points@, not_deleted(deleted)),
                None => Seq::empty(),
            }),
        (forall|i: int|
            0 <= i < replies.len() ==> (#[trigger] replies[i]).atom_ordinal != atom_ordinal)
            ==> replied_points(replies, deleted, atom_ordinal).len() == 0,
    decreases replies.len(),
{
    if replies.len() > 0 {
        let rest = replies.drop_last();
        assert forall|i: int, j: int| 0 <= i < j < rest.len() implies (
        #[trigger] rest[i]).atom_ordinal != (#[trigger] rest[j]).atom_ordinal by {
            assert(replies[i].atom_ordinal != replies[j].atom_ordinal);
        }
        lemma_replied_points(rest, deleted, atom_ordinal);
        let last = replies.last();
        if last.atom_ordinal == atom_ordinal {
            assert forall|i: int| 0 <= i < rest.len() implies (#[trigger] rest[i]).atom_ordinal
                != atom_ordinal by {
                assert(replies[i].atom_ordinal != replies[replies.len() - 1].atom_ordinal);
            }
            assert(replied_points(rest, deleted, atom_ordinal) =~= Seq::empty());
            assert forall|i: int|
                0 <= i < replies.len() && (#[trigger] replies[i]).atom_ordinal
                    == atom_ordinal implies replied_points(replies, deleted, atom_ordinal) == (
            match replies[i].points {
                Some(points) => kept_points(points@, not_deleted(deleted)),
                None => Seq::empty(),
            }) by {
                if i < rest.len() {
                    assert(rest[i].atom_ordinal != atom_ordinal);
                }
                match last.points {
                    Some(points) => {
                        assert(replied_points(replies, deleted, atom_ordinal) =~= kept_points(
                            points@,
                            not_deleted(deleted),
                        ));
                    },
                    None => {},
                }
            }
        } else {
            assert forall|i: int|
                0 <= i < replies.len() && (#[trigger] replies[i]).atom_ordinal
                    == atom_ordinal implies replied_points(replies, deleted, atom_ordinal) == (
            match replies[i].points {
                Some(points) => kept_points(points@, not_deleted(deleted)),
                None => Seq::empty(),
            }) by {
                assert(rest[i] == replies[i]);
            }
            if forall|i: int|
                0 <= i < replies.len() ==> (#[trigger] replies[i]).atom_ordinal != atom_ordinal {
                assert forall|i: int| 0 <= i < rest.len() implies (
                #[trigger] rest[i]).atom_ordinal != atom_ordinal by {
                    assert(replies[i].atom_ordinal != atom_ordinal);
                }
            }
        }
    }
}

/// Replies may arrive in any order: the points of every atom are the same.
pub proof fn lemma_reply_order_is_irrelevant(
    a: Seq<PostingReply>,
    b: Seq<PostingReply>,
    deleted: Seq<bool>,
    atom_ordinal: int,
)
    requires
        replies_once(a),
        a.to_multiset() == b.to_multiset(),
    ensures
        replied_points(a, deleted, atom_ordinal) == replied_points(b, deleted, atom_ordinal),
{
    broadcast use vstd::seq_lib::group_to_multiset_ensures;

    assert(a.no_duplicates()) by {
        assert forall|i: int, j: int| 0 <= i < a.len() && 0 <= j < a.len() && i != j implies a[i]
            != a[j] by {
            if i < j {
                assert(a[i].atom_ordinal != a[j].atom_ordinal);
            } else {
                assert(a[j].atom_ordinal != a[i].atom_ordinal);
            }
        }
    }
    a.lemma_multiset_has_no_duplicates();
    b.lemma_multiset_has_no_duplicates_conv();
    assert forall|i: int| 0 <= i < b.len() implies a.contains(#[trigger] b[i]) by {
        assert(b.contains(b[i]));
        assert(b.to_multiset().count(b[i]) > 0);
    }
    assert forall|i: int| 0 <= i < a.len() implies b.contains(#[trigger] a[i]) by {
        assert(a.contains(a[i]));
        assert(a.to_multiset().count(a[i]) > 0);
    }
    assert forall|i: int, j: int| 0 <= i < j < b.len() implies (#[trigger] b[i]).atom_ordinal != (
    #[trigger] b[j]).atom_ordinal by {
        assert(a.contains(b[i]) && a.contains(b[j]));
        let x = choose|x: int| 0 <= x < a.len() && a[x] == b[i];
        let y = choose|y: int| 0 <= y < a.len() && a[y] == b[j];
        assert(b[i] != b[j]);
        if x < y {
            assert(a[x].atom_ordinal != a[y].atom_ordinal);
        } else {
            assert(a[y].atom_ordinal != a[x].atom_ordinal);
        }
    }
    lemma_replied_points(a, deleted, atom_ordinal);
    lemma_replied_points(b, deleted, atom_ordinal);
    if exists|i: int| 0 <= i < a.len() && (#[trigger] a[i]).atom_ordinal == atom_ordinal {
        let i = choose|i: int| 0 <= i < a.len() && (#[trigger] a[i]).atom_ordinal == atom_ordinal;
        assert(b.contains(a[i]));
        let j = choose|j: int| 0 <= j < b.len() && b[j] == a[i];
        assert(b[j].atom_ordinal == atom_ordinal);
    } else {
        assert forall|j: int| 0 <= j < b.len() implies (#[trigger] b[j]).atom_ordinal
            != atom_ordinal by {
            assert(a.contains(b[j]));
            let i = choose|i: int| 0 <= i < a.len() && a[i] == b[j];
            assert(a[i].atom_ordinal != atom_ordinal);
        }
        assert(replied_points(a, deleted, atom_ordinal) =~= Seq::empty());
        assert(replied_points(b, deleted, atom_ordinal) =~= Seq::empty());
    }
}

/// The postings of a batch as the replies give them.
pub open spec fn postings_from_replies(
    atoms: Seq<IntegerPostingAtom>,
    replies: Seq<PostingReply>,
    deleted: Seq<bool>,
    single_valued: bool,
    batch: IntegerPostingBatch,
) -> bool {
    &&& batch.single_valued == single_valued
    &&& batch.postings@.len() == atoms.len()
    &&& forall|a: int|
        0 <= a < atoms.len() ==> (#[trigger] batch.postings@[a]).query_mask == atoms[a].query_mask
            && batch.postings@[a].point_ids@ == replied_points(replies, deleted, a)
}

/// The replies may be what reading the postings of the atoms gives.
pub open spec fn replies_as<
    R: Fn(&[IntegerPostingAtom], bool) -> OperationResult<Vec<PostingReply>>,
>(
    read_postings: &R,
    atoms: &[IntegerPostingAtom],
    prefetch: bool,
    replies: OperationResult<Vec<PostingReply>>,
) -> bool {
    read_postings.ensures((atoms, prefetch), replies)
}

/// Size of the table of bucket offsets.
pub open spec fn table_bytes(keys_count: nat) -> nat {
    min_int((keys_count * BUCKET_OFFSET_SIZE as nat) as int, usize::MAX as int) as nat
}

impl UniversalMapIndex {
    /// Hand the present points of every entry to `f`, until `f` fails.
    ///
    /// `f` takes points from the first one on, and tells how many it took. Only these are counted
    /// as read.
    pub fn for_each_value_map<
        K,
        F: Fn(&K, &Vec<PointOffsetType>) -> (usize, OperationResult<()>),
    >(
        &self,
        entries: &Vec<MapEntry<K>>,
        hw_counter: &mut HardwareCounterCell,
        f: &F,
    ) -> (r: OperationResult<()>)
        requires
            can_take_points::<K, F>(f),
        ensures
            values_walked(*self, f, entries@, *old(hw_counter), *final(hw_counter), r),
    {
        let ghost mut taken: Seq<usize> = Seq::empty();
        let mut i: usize = 0;
        while i < entries.len()
            invariant
                i <= entries@.len(),
                taken.len() == i,
                can_take_points::<K, F>(f),
                points_handed(f, self.deleted@, entries@, taken, i as int),
                *hw_counter == self.counted(
                    *old(hw_counter),
                    walked_bytes(entries@, taken, i as int),
                ),
            decreases entries@.len() - i,
        {
            let points = self.keep_visible(entries[i].points.as_slice(), None);
            self.count_read(hw_counter, entries[i].key_bytes);
            let (count, result) = f(&entries[i].key, &points);
            self.count_read(hw_counter, saturating_mul_usize(count, POINT_SIZE));
            proof {
                let before = taken;
                assert(f.ensures((&entries@[i as int].key, &points), (count, result)));
                assert(hands_points(f, self.deleted@, entries@[i as int], count, result));
                lemma_walked_prefix(entries@, before, count, i as int);
                taken = taken.push(count);
                assert(walked_bytes(entries@, taken, i + 1) == walked_bytes(
                    entries@,
                    before,
                    i as int,
                ) + entries@[i as int].key_bytes + count * POINT_SIZE);
                assert forall|j: int| 0 <= j < i implies hands_points(
                    f,
                    self.deleted@,
                    #[trigger] entries@[j],
                    taken[j],
                    Ok(()),
                ) by {
                    assert(taken[j] == before[j]);
                }
            }
            match result {
                Ok(nothing) => {
                    proof {
                        assert(result == Ok::<(), OperationError>(()));
                    }
                },
                Err(error) => {
                    proof {
                        assert(entries_walked(
                            f,
                            self.deleted@,
                            entries@,
                            taken,
                            Err::<(), OperationError>(error),
                        ));
                    }
                    return Err(error);
                },
            }
            i = i + 1;
        }
        proof {
            assert(entries_walked(
                f,
                self.deleted@,
                entries@,
                taken,
                Ok::<(), OperationError>(()),
            ));
        }
        Ok(())
    }

    /// The values of the surely present points among `points`, in order, until a read fails.
    pub fn for_points_values<T, R: Fn(PointOffsetType) -> OperationResult<Option<Vec<T>>>>(
        &self,
        points: &[PointOffsetType],
        read_values: &R,
    ) -> (r: (Vec<(PointOffsetType, Vec<T>)>, OperationResult<()>))
        requires
            forall|p: PointOffsetType| #[trigger] read_values.requires((p,)),
        ensures
            values_visited(self.deleted@, read_values, points@, r.0@, r.1),
    {
        let mut list: Vec<(PointOffsetType, Vec<T>)> = Vec::new();
        let mut i: usize = 0;
        proof {
            assert(visited(self.deleted@, read_values, points@, 0, list@));
        }
        while i < points.len()
            invariant
                i <= points@.len(),
                forall|p: PointOffsetType| #[trigger] read_values.requires((p,)),
                visited(self.deleted@, read_values, points@, i as int, list@),
            decreases points@.len() - i,
        {
            let idx: PointOffsetType = points[i];
            let ghost before = list@;
            match self.flag(idx) {
                Some(false) => {
                    let read = read_values(idx);
                    proof {
                        assert(reads_to(read_values, idx, read));
                    }
                    match read {
                        Ok(Some(values)) => {
                            list.push((idx, values));
                            proof {
                                assert(list@.drop_last() =~= before);
                                assert(list@.last() == (idx, values));
                            }
                        },
                        Ok(None) => {},
                        Err(error) => {
                            let result = (list, Err(error));
                            proof {
                                assert(visited_until(
                                    self.deleted@,
                                    read_values,
                                    points@,
                                    i as int,
                                    result.0@,
                                    result.1,
                                ));
                            }
                            return result;
                        },
                    }
                },
                _ => {},
            }
            i = i + 1;
        }
        let result = (list, Ok(()));
        proof {
            assert(visited_until(
                self.deleted@,
                read_values,
                points@,
                i as int,
                result.0@,
                result.1,
            ));
        }
        result
    }

    /// Place the points of every reply behind its atom.
    ///
    /// Replies may arrive out of order, so each of them is written back by atom ordinal and
    /// exposed in the order of the atoms.
    pub fn collect_postings(
        &self,
        atoms: &[IntegerPostingAtom],
        replies: &Vec<PostingReply>,
        single_valued: bool,
        hw_counter: &mut HardwareCounterCell,
    ) -> (batch: IntegerPostingBatch)
        requires
            replies_in_range(replies@, atoms@.len()),
        ensures
            postings_from_replies(atoms@, replies@, self.deleted@, single_valued, batch),
            *final(hw_counter) == self.counted(
                *old(hw_counter),
                replied_bytes(replies@, self.read_entry_overhead as nat),
            ),
    {
        let mut postings: Vec<IntegerPosting> = Vec::with_capacity(atoms.len());
        proof {
            assert(replies@.take(0) =~= Seq::empty());
        }
        while postings.len() < atoms.len()
            invariant
                postings@.len() <= atoms@.len(),
                forall|a: int|
                    0 <= a < postings@.len() ==> (#[trigger] postings@[a]).query_mask
                        == atoms@[a].query_mask && postings@[a].point_ids@.len() == 0,
            decreases atoms@.len() - postings@.len(),
        {
            let a: usize = postings.len();
            postings.push(
                IntegerPosting { query_mask: atoms[a].query_mask, point_ids: Vec::new() },
            );
        }
        let mut i: usize = 0;
        proof {
            assert forall|a: int| 0 <= a < postings@.len() implies (
            #[trigger] postings@[a]).point_ids@ == replied_points(
                replies@.take(0),
                self.deleted@,
                a,
            ) by {
                assert(postings@[a].point_ids@ =~= Seq::empty());
            }
        }
        while i < replies.len()
            invariant
                i <= replies@.len(),
                replies_in_range(replies@, atoms@.len()),
                postings@.len() == atoms@.len(),
                forall|a: int|
                    0 <= a < postings@.len() ==> (#[trigger] postings@[a]).query_mask
                        == atoms@[a].query_mask && postings@[a].point_ids@ == replied_points(
                        replies@.take(i as int),
                        self.deleted@,
                        a,
                    ),
                *hw_counter == self.counted(
                    *old(hw_counter),
                    replied_bytes(
                        replies@.take(i as int),
                        self.read_entry_overhead as nat,
                    ),
                ),
            decreases replies@.len() - i,
        {
            let ghost before = postings@;
            proof {
                assert(replies@.take(i + 1).drop_last() =~= replies@.take(i as int));
                assert(replies@.take(i + 1).last() == replies@[i as int]);
            }
            let ordinal: usize = replies[i].atom_ordinal;
            self.count_read(hw_counter, self.read_entry_overhead);
            match &replies[i].points {
                Some(points) => {
                    self.count_read(hw_counter, saturating_mul_usize(points.len(), POINT_SIZE));
                    let mut kept = self.keep_not_deleted(points.as_slice());
                    let posting = &mut postings[ordinal];
                    posting.point_ids.append(&mut kept);
                },
                None => {},
            }
            proof {
                assert forall|a: int| 0 <= a < postings@.len() implies (
                #[trigger] postings@[a]).query_mask == atoms@[a].query_mask
                    && postings@[a].point_ids@ == replied_points(
                    replies@.take(i + 1),
                    self.deleted@,
                    a,
                ) by {
                    assert(before[a].query_mask == atoms@[a].query_mask);
                    if a != ordinal {
                        assert(postings@[a] == before[a]);
                    }
                }
                assert(*hw_counter == self.counted(
                    *old(hw_counter),
                    replied_bytes(replies@.take(i + 1), self.read_entry_overhead as nat),
                ));
            }
            i = i + 1;
        }
        proof {
            assert(replies@.take(i as int) =~= replies@);
        }
        IntegerPostingBatch { postings, single_valued }
    }

    /// The bucket offsets of a batch of atoms are read in one go.
    pub open spec fn prefetches(&self, atom_count: nat) -> bool {
        prefetches_offsets(atom_count, table_bytes(self.keys_count as nat))
    }

    /// Bytes of bucket offsets that are read in one go for a batch of atoms.
    pub open spec fn prefetched_bytes(&self, atom_count: nat) -> nat {
        if self.prefetches(atom_count) {
            table_bytes(self.keys_count as nat)
        } else {
            0
        }
    }

    /// Read all requested integer postings at once. The bucket offsets are read in one go where
    /// many atoms meet a small table.
    ///
    /// `read_postings` reads the postings of atoms and tells the atom of each by its ordinal.
    pub fn batched_integer_postings<
        R: Fn(&[IntegerPostingAtom], bool) -> OperationResult<Vec<PostingReply>>,
    >(
        &self,
        atoms: &[IntegerPostingAtom],
        hw_counter: &mut HardwareCounterCell,
        single_valued: bool,
        read_postings: &R,
    ) -> (r: OperationResult<IntegerPostingBatch>)
        requires
            forall|prefetch: bool| #[trigger] read_postings.requires((atoms, prefetch)),
            forall|prefetch: bool, replies: Vec<PostingReply>|
                #[trigger] read_postings.ensures((atoms, prefetch), Ok(replies))
                    ==> replies_in_range(replies@, atoms@.len()),
        ensures
            postings_read(
                *self,
                atoms,
                single_valued,
                read_postings,
                *old(hw_counter),
                *final(hw_counter),
                r,
            ),
    {
        let bucket_table_bytes: usize = saturating_mul_usize(self.keys_count, BUCKET_OFFSET_SIZE);
        let prefetch = should_prefetch_offsets(atoms.len(), bucket_table_bytes);
        if prefetch {
            self.count_read(hw_counter, bucket_table_bytes);
        }
        let replies = read_postings(atoms, prefetch);
        proof {
            assert(replies_as(read_postings, atoms, prefetch, replies));
        }
        let ghost given = replies;
        match replies {
            Ok(list) => {
                let batch = self.collect_postings(atoms, &list, single_valued, hw_counter);
                proof {
                    assert(given == Ok::<Vec<PostingReply>, OperationError>(list));
                    assert(prefetch == self.prefetches(atoms@.len()));
                    assert(*hw_counter == self.counted(
                        *old(hw_counter),
                        self.prefetched_bytes(atoms@.len()) + replied_bytes(
                            list@,
                            self.read_entry_overhead as nat,
                        ),
                    ));
                }
                Ok(batch)
            },
            Err(error) => Err(error),
        }
    }
}

/// The postings of a batch of atoms were read like this, with the bytes counted.
pub open spec fn postings_read<
    R: Fn(&[IntegerPostingAtom], bool) -> OperationResult<Vec<PostingReply>>,
>(
    index: UniversalMapIndex,
    atoms: &[IntegerPostingAtom],
    single_valued: bool,
    read_postings: &R,
    before: HardwareCounterCell,
    after: HardwareCounterCell,
    r: OperationResult<IntegerPostingBatch>,
) -> bool {
    exists|replies: OperationResult<Vec<PostingReply>>|
        {
            &&& #[trigger] replies_as(
                read_postings,
                atoms,
                index.prefetches(atoms@.len()),
                replies,
            )
            &&& match replies {
                Err(error) => {
                    &&& r == Err::<IntegerPostingBatch, OperationError>(error)
                    &&& after == index.counted(
                        before,
                        index.prefetched_bytes(atoms@.len()),
                    )
                },
                Ok(list) => {
                    &&& r matches Ok(batch)
                    &&& postings_from_replies(
                        atoms@,
                        list@,
                        index.deleted@,
                        single_valued,
                        batch,
                    )
                    &&& after == index.counted(
                        before,
                        index.prefetched_bytes(atoms@.len()) + replied_bytes(
                            list@,
                            index.read_entry_overhead as nat,
                        ),
                    )
                },
            }
        }
}

/// The list holds the values of the surely present points among the first `n`, and `end` tells
/// whether these were all points or reading the next one failed.
pub open spec fn visited_until<T, R: Fn(PointOffsetType) -> OperationResult<Option<Vec<T>>>>(
    deleted: Seq<bool>,
    read_values: &R,
    points: Seq<PointOffsetType>,
    n: int,
    list: Seq<(PointOffsetType, Vec<T>)>,
    end: OperationResult<()>,
) -> bool {
    &&& 0 <= n <= points.len()
    &&& visited(deleted, read_values, points, n, list)
    &&& match end {
        Ok(_) => n == points.len(),
        Err(error) => {
            &&& n < points.len()
            &&& deletion_flag(deleted, points[n]) == Some(false)
            &&& reads_to(read_values, points[n], Err(error))
        },
    }
}

/// The list holds the values of the surely present points up to the first failure.
pub open spec fn values_visited<T, R: Fn(PointOffsetType) -> OperationResult<Option<Vec<T>>>>(
    deleted: Seq<bool>,
    read_values: &R,
    points: Seq<PointOffsetType>,
    list: Seq<(PointOffsetType, Vec<T>)>,
    end: OperationResult<()>,
) -> bool {
    exists|n: int| #[trigger] visited_until(deleted, read_values, points, n, list, end)
}

/// The list holds the values of the surely present points among the first `n`, as they were read.
pub open spec fn visited<T, R: Fn(PointOffsetType) -> OperationResult<Option<Vec<T>>>>(
    deleted: Seq<bool>,
    read_values: &R,
    points: Seq<PointOffsetType>,
    n: int,
    list: Seq<(PointOffsetType, Vec<T>)>,
) -> bool
    decreases n,
{
    if n <= 0 {
        list.len() == 0
    } else if deletion_flag(deleted, points[n - 1]) != Some(false) {
        visited(deleted, read_values, points, n - 1, list)
    } else {
        ||| reads_to(read_values, points[n - 1], Ok(None)) && visited(
            deleted,
            read_values,
            points,
            n - 1,
            list,
        )
        ||| list.len() > 0 && list.last().0 == points[n - 1] && reads_to(
            read_values,
            points[n - 1],
            Ok(Some(list.last().1)),
        ) && visited(deleted, read_values, points, n - 1, list.drop_last())
    }
}

} // verus!
