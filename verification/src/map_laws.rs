//! What holds of an index from payload values to points, whatever is stored in it.

use vstd::prelude::*;

use crate::counter::HardwareCounterCell;
use crate::error::{OperationError, OperationResult};
use crate::filter::IntPayloadType;
use crate::integer_postings::{IntegerPostingAtom, IntegerPostingBatch};
use crate::map_index::{
    any_checked, counts_handed, entries_walked, hands_count, hands_points, kept_points,
    lemma_replied_points, not_deleted, points_given, postings_from_replies, postings_read,
    replied_bytes, replied_points, replies_as, replies_once, value_given, values_visited, values_walked,
    visible_points, visited, visited_until, walked_bytes, MapEntry, PostingReply,
    UniversalMapIndex,
};
use crate::types::PointOffsetType;

verus! {

/// The flag of the point says that it is deleted.
pub open spec fn flagged(deleted: Seq<bool>) -> spec_fn(PointOffsetType) -> bool {
    |p: PointOffsetType| p < deleted.len() && deleted[p as int]
}

/// The point has no flag that says it is deleted.
pub open spec fn unflagged(deleted: Seq<bool>) -> spec_fn(PointOffsetType) -> bool {
    |p: PointOffsetType| p < deleted.len() ==> !deleted[p as int]
}

/// The point has a flag, which says that it is not deleted.
pub open spec fn present(deleted: Seq<bool>) -> spec_fn(PointOffsetType) -> bool {
    |p: PointOffsetType| p < deleted.len() && !deleted[p as int]
}

/// The point is present and comes before the first point that is not indexed yet.
pub open spec fn present_before(
    deleted: Seq<bool>,
    first: Option<PointOffsetType>,
) -> spec_fn(PointOffsetType) -> bool {
    |p: PointOffsetType|
        p < deleted.len() && !deleted[p as int] && (first is Some ==> p < first->0)
}

/// Keeping points is filtering.
proof fn lemma_kept_is_filtered(
    points: Seq<PointOffsetType>,
    keeps: spec_fn(PointOffsetType) -> bool,
)
    ensures
        kept_points(points, keeps) == points.filter(keeps),
    decreases points.len(),
{
    reveal(Seq::filter);
    if points.len() > 0 {
        lemma_kept_is_filtered(points.drop_last(), keeps);
    } else {
        assert(kept_points(points, keeps) =~= points.filter(keeps));
    }
}

/// The rules for points in other words.
proof fn lemma_rules(deleted: Seq<bool>, first: Option<PointOffsetType>)
    ensures
        not_deleted(deleted) == unflagged(deleted),
        visible_points(deleted, first) == present_before(deleted, first),
        visible_points(deleted, None) == present(deleted),
{
    assert(not_deleted(deleted) =~= unflagged(deleted));
    assert(visible_points(deleted, first) =~= present_before(deleted, first));
    assert(visible_points(deleted, None) =~= present(deleted));
}

/// Only the bytes read of payload indexes were counted, and this many of them, as far as they fit.
pub open spec fn counts_bytes(
    before: HardwareCounterCell,
    after: HardwareCounterCell,
    bytes: int,
) -> bool {
    &&& after.cpu == before.cpu
    &&& after.cpu_multiplier == before.cpu_multiplier
    &&& after.vector_io_read == before.vector_io_read
    &&& after.vector_io_read_multiplier == before.vector_io_read_multiplier
    &&& after.payload_index_io_read == (if before.payload_index_io_read + bytes <= usize::MAX {
        before.payload_index_io_read + bytes
    } else {
        usize::MAX as int
    })
}

/// The points given for a value are those of its entry without the deleted ones, in the order of the
/// entry. Reading an entry from disk counts four bytes for each of its points and the bytes around
/// them. Reading from memory counts nothing, and so does a failed read.
pub proof fn lemma_deleted_points_are_not_given(
    index: UniversalMapIndex,
    read: OperationResult<Option<Vec<PointOffsetType>>>,
    before: HardwareCounterCell,
    after: HardwareCounterCell,
    r: Seq<PointOffsetType>,
)
    requires
        points_given(index, read, before, after, r),
    ensures
        r == (match read {
            Ok(Some(points)) => points@.filter(unflagged(index.deleted@)),
            _ => Seq::empty(),
        }),
        forall|p: PointOffsetType| #[trigger] r.contains(p) ==> !flagged(index.deleted@)(p),
        index.is_on_disk && read is Ok ==> counts_bytes(
            before,
            after,
            index.read_entry_overhead + match read->Ok_0 {
                Some(points) => 4 * points@.len(),
                None => 0,
            },
        ),
        !index.is_on_disk || read is Err ==> after == before,
{
    lemma_rules(index.deleted@, None);
    match read {
        Ok(Some(points)) => {
            lemma_kept_is_filtered(points@, unflagged(index.deleted@));
            assert forall|p: PointOffsetType| #[trigger] r.contains(p) implies !flagged(
                index.deleted@,
            )(p) by {
                let i = choose|i: int| 0 <= i < r.len() && r[i] == p;
                assert(unflagged(index.deleted@)(r[i]));
            }
        },
        _ => {
            assert(r =~= Seq::empty());
        },
    }
}

/// The value of an entry was handed out with the number of its distinct chosen points, and this came
/// of it.
pub open spec fn counted_as<K, F: Fn(&K, usize) -> OperationResult<()>>(
    f: &F,
    entry: MapEntry<K>,
    chosen: spec_fn(PointOffsetType) -> bool,
    result: OperationResult<()>,
) -> bool {
    exists|count: usize|
        {
            &&& #[trigger] f.ensures((&entry.key, count), result)
            &&& count == entry.points@.filter(chosen).to_set().len()
        }
}

/// The counts that are handed out for values count the distinct points of each entry that are
/// present and come before the first point that is not indexed yet.
pub proof fn lemma_counts_are_of_present_points<K, F: Fn(&K, usize) -> OperationResult<()>>(
    f: &F,
    deleted: Seq<bool>,
    first: Option<PointOffsetType>,
    entries: Seq<MapEntry<K>>,
    r: OperationResult<()>,
)
    requires
        counts_handed(f, deleted, first, entries, r),
    ensures
        r is Ok ==> forall|i: int|
            0 <= i < entries.len() ==> counted_as(
                f,
                #[trigger] entries[i],
                present_before(deleted, first),
                Ok(()),
            ),
        r matches Err(error) ==> exists|i: int|
            0 <= i < entries.len() && counted_as(
                f,
                #[trigger] entries[i],
                present_before(deleted, first),
                Err(error),
            ),
{
    lemma_rules(deleted, first);
    assert forall|entry: MapEntry<K>, result: OperationResult<()>| #[trigger]
        hands_count(f, deleted, first, entry, result) implies counted_as(
        f,
        entry,
        present_before(deleted, first),
        result,
    ) by {
        lemma_kept_is_filtered(entry.points@, present_before(deleted, first));
    }
}

/// The value of an entry was handed out with its chosen points, in the order of the entry.
pub open spec fn handed_with<
    K,
    F: Fn(&K, &Vec<PointOffsetType>) -> (usize, OperationResult<()>),
>(
    f: &F,
    entry: MapEntry<K>,
    chosen: spec_fn(PointOffsetType) -> bool,
    result: OperationResult<()>,
) -> bool {
    exists|points: Vec<PointOffsetType>, taken: usize|
        {
            &&& #[trigger] f.ensures((&entry.key, &points), (taken, result))
            &&& points@ == entry.points@.filter(chosen)
        }
}

/// A walk over the values hands out every value with the present points of its entry, in the order of
/// the entry, until it fails.
pub proof fn lemma_values_come_with_present_points<
    K,
    F: Fn(&K, &Vec<PointOffsetType>) -> (usize, OperationResult<()>),
>(
    index: UniversalMapIndex,
    f: &F,
    entries: Seq<MapEntry<K>>,
    before: HardwareCounterCell,
    after: HardwareCounterCell,
    r: OperationResult<()>,
)
    requires
        values_walked(index, f, entries, before, after, r),
    ensures
        r is Ok ==> forall|i: int|
            0 <= i < entries.len() ==> handed_with(
                f,
                #[trigger] entries[i],
                present(index.deleted@),
                Ok(()),
            ),
        r matches Err(error) ==> exists|i: int|
            0 <= i < entries.len() && handed_with(
                f,
                #[trigger] entries[i],
                present(index.deleted@),
                Err(error),
            ),
        !index.is_on_disk ==> after == before,
        index.is_on_disk ==> exists|bytes: int| bytes >= 0 && #[trigger] counts_bytes(
            before,
            after,
            bytes,
        ),
{
    lemma_rules(index.deleted@, None);
    let taken = choose|taken: Seq<usize>|
        {
            &&& #[trigger] entries_walked(f, index.deleted@, entries, taken, r)
            &&& after == index.counted(
                before,
                walked_bytes(entries, taken, taken.len() as int),
            )
        };
    if index.is_on_disk {
        assert(counts_bytes(
            before,
            after,
            walked_bytes(entries, taken, taken.len() as int) as int,
        ));
    }
    assert forall|entry: MapEntry<K>, count: usize, result: OperationResult<()>| #[trigger]
        hands_points(f, index.deleted@, entry, count, result) implies handed_with(
        f,
        entry,
        present(index.deleted@),
        result,
    ) by {
        let points = choose|points: Vec<PointOffsetType>|
            points@ == kept_points(entry.points@, visible_points(index.deleted@, None))
                && #[trigger] f.ensures((&entry.key, &points), (count, result));
        lemma_kept_is_filtered(entry.points@, present(index.deleted@));
        assert(f.ensures((&entry.key, &points), (count, result)));
    }
    if r is Err {
        let last = entries[taken.len() - 1];
        assert(hands_points(
            f,
            index.deleted@,
            last,
            taken[taken.len() - 1],
            Err(r->Err_0),
        ));
    } else {
        assert forall|i: int| 0 <= i < entries.len() implies handed_with(
            f,
            #[trigger] entries[i],
            present(index.deleted@),
            Ok(()),
        ) by {
            assert(hands_points(f, index.deleted@, entries[i], taken[i], Ok(())));
        }
    }
}

/// A deleted point passes no check, and another one passes when its stored values do.
pub proof fn lemma_deleted_points_pass_no_check<R: Fn(PointOffsetType) -> OperationResult<bool>>(
    deleted: Seq<bool>,
    check_stored: &R,
    idx: PointOffsetType,
    passes: spec_fn(PointOffsetType) -> bool,
    r: bool,
)
    requires
        any_checked(deleted, check_stored, idx, r),
        forall|p: PointOffsetType, checked: OperationResult<bool>| #[trigger]
            check_stored.ensures((p,), checked) ==> checked == Ok::<bool, OperationError>(
                passes(p),
            ),
    ensures
        r == (!flagged(deleted)(idx) && passes(idx)),
{
}

/// What is stored for a point is given for points that are present, and for no others.
pub proof fn lemma_only_present_points_have_values<
    T,
    R: Fn(PointOffsetType) -> OperationResult<Option<T>>,
>(
    deleted: Seq<bool>,
    read_value: &R,
    idx: PointOffsetType,
    stored: spec_fn(PointOffsetType) -> Option<T>,
    r: Option<T>,
)
    requires
        value_given(deleted, read_value, idx, r),
        forall|p: PointOffsetType, read: OperationResult<Option<T>>| #[trigger]
            read_value.ensures((p,), read) ==> read == Ok::<Option<T>, OperationError>(stored(p)),
    ensures
        r == (if present(deleted)(idx) {
            stored(idx)
        } else {
            None
        }),
{
}

/// The values of points are listed for the points that are present and have some, in the order of the
/// points, each with its own.
pub proof fn lemma_values_belong_to_points<
    T,
    R: Fn(PointOffsetType) -> OperationResult<Option<Vec<T>>>,
>(
    deleted: Seq<bool>,
    read_values: &R,
    points: Seq<PointOffsetType>,
    stored: spec_fn(PointOffsetType) -> Option<Seq<T>>,
    list: Seq<(PointOffsetType, Vec<T>)>,
    end: OperationResult<()>,
)
    requires
        values_visited(deleted, read_values, points, list, end),
        forall|p: PointOffsetType, read: OperationResult<Option<Vec<T>>>| #[trigger]
            read_values.ensures((p,), read) ==> match read {
                Ok(Some(values)) => stored(p) == Some(values@),
                Ok(None) => stored(p) is None,
                Err(_) => false,
            },
    ensures
        end is Ok,
        Seq::new(list.len(), |k: int| list[k].0) == points.filter(has_values(deleted, stored)),
        forall|k: int| #![trigger list[k]]
            0 <= k < list.len() ==> stored(list[k].0) == Some(list[k].1@),
{
    let n = choose|n: int| #[trigger] visited_until(deleted, read_values, points, n, list, end);
    lemma_visited(deleted, read_values, points, stored, n, list);
    assert(points.take(n) =~= points);
}

/// The point is present and has values.
pub open spec fn has_values<T>(
    deleted: Seq<bool>,
    stored: spec_fn(PointOffsetType) -> Option<Seq<T>>,
) -> spec_fn(PointOffsetType) -> bool {
    |p: PointOffsetType| p < deleted.len() && !deleted[p as int] && stored(p) is Some
}

/// The values of the first points.
proof fn lemma_visited<T, R: Fn(PointOffsetType) -> OperationResult<Option<Vec<T>>>>(
    deleted: Seq<bool>,
    read_values: &R,
    points: Seq<PointOffsetType>,
    stored: spec_fn(PointOffsetType) -> Option<Seq<T>>,
    n: int,
    list: Seq<(PointOffsetType, Vec<T>)>,
)
    requires
        0 <= n <= points.len(),
        visited(deleted, read_values, points, n, list),
        forall|p: PointOffsetType, read: OperationResult<Option<Vec<T>>>| #[trigger]
            read_values.ensures((p,), read) ==> match read {
                Ok(Some(values)) => stored(p) == Some(values@),
                Ok(None) => stored(p) is None,
                Err(_) => false,
            },
    ensures
        Seq::new(list.len(), |k: int| list[k].0) == points.take(n).filter(
            has_values(deleted, stored),
        ),
        forall|k: int| #![trigger list[k]]
            0 <= k < list.len() ==> stored(list[k].0) == Some(list[k].1@),
    decreases n,
{
    reveal(Seq::filter);
    let chosen = has_values(deleted, stored);
    let ids = Seq::new(list.len(), |k: int| list[k].0);
    if n == 0 {
        assert(points.take(0) =~= Seq::empty());
        assert(ids =~= points.take(0).filter(chosen));
    } else {
        assert(points.take(n).drop_last() =~= points.take(n - 1));
        let p = points[n - 1];
        if p >= deleted.len() || deleted[p as int] {
            lemma_visited(deleted, read_values, points, stored, n - 1, list);
        } else if stored(p) is None {
            lemma_visited(deleted, read_values, points, stored, n - 1, list);
        } else {
            let rest = list.drop_last();
            lemma_visited(deleted, read_values, points, stored, n - 1, rest);
            let rest_ids = Seq::new(rest.len(), |k: int| rest[k].0);
            assert(ids =~= rest_ids.push(p));
            assert forall|k: int| #![trigger list[k]] 0 <= k < list.len() implies stored(list[k].0)
                == Some(list[k].1@) by {
                if k < rest.len() {
                    assert(list[k] == rest[k]);
                }
            }
        }
    }
}

/// The replies are right: every atom is replied to once, with the stored points of its value.
pub open spec fn replies_are_right(
    atoms: Seq<IntegerPostingAtom>,
    replies: Seq<PostingReply>,
    stored: spec_fn(IntPayloadType) -> Option<Seq<PointOffsetType>>,
) -> bool {
    &&& forall|i: int, j: int|
        0 <= i < j < replies.len() ==> (#[trigger] replies[i]).atom_ordinal != (
        #[trigger] replies[j]).atom_ordinal
    &&& forall|a: int|
        #![trigger atoms[a]]
        0 <= a < atoms.len() ==> exists|i: int|
            0 <= i < replies.len() && (#[trigger] replies[i]).atom_ordinal == a
    &&& forall|i: int|
        0 <= i < replies.len() ==> {
            let reply = #[trigger] replies[i];
            &&& reply.atom_ordinal < atoms.len()
            &&& stored(atoms[reply.atom_ordinal as int].value) == match reply.points {
                Some(points) => Some(points@),
                None => None,
            }
        }
}

/// The postings of a batch are those of its atoms, in the order of the atoms and each with the mask
/// of its atom: the stored points of the value without the deleted ones. The order in which replies
/// arrive makes no difference.
pub proof fn lemma_postings_belong_to_atoms<
    R: Fn(&[IntegerPostingAtom], bool) -> OperationResult<Vec<PostingReply>>,
>(
    index: UniversalMapIndex,
    atoms: &[IntegerPostingAtom],
    single_valued: bool,
    read_postings: &R,
    stored: spec_fn(IntPayloadType) -> Option<Seq<PointOffsetType>>,
    before: HardwareCounterCell,
    after: HardwareCounterCell,
    r: OperationResult<IntegerPostingBatch>,
)
    requires
        postings_read(index, atoms, single_valued, read_postings, before, after, r),
        forall|prefetch: bool, replies: OperationResult<Vec<PostingReply>>| #[trigger]
            read_postings.ensures((atoms, prefetch), replies) ==> replies is Ok
                && replies_are_right(atoms@, replies->Ok_0@, stored),
    ensures
        r is Ok,
        r->Ok_0.single_valued == single_valued,
        r->Ok_0.postings@.len() == atoms@.len(),
        forall|a: int|
            0 <= a < atoms@.len() ==> {
                let posting = #[trigger] r->Ok_0.postings@[a];
                &&& posting.query_mask == atoms@[a].query_mask
                &&& posting.point_ids@ == match stored(atoms@[a].value) {
                    Some(points) => points.filter(unflagged(index.deleted@)),
                    None => Seq::empty(),
                }
            },
        !index.is_on_disk ==> after == before,
{
    lemma_rules(index.deleted@, None);
    let replies = choose|replies: OperationResult<Vec<PostingReply>>|
        {
            &&& #[trigger] replies_as(
                read_postings,
                atoms,
                index.prefetches(atoms@.len()),
                replies,
            )
            &&& match replies {
                Err(error) => {
                    &&& r == Err::<IntegerPostingBatch, OperationError>(error)
                    &&& after == index.counted(before, index.prefetched_bytes(atoms@.len()))
                },
                Ok(list) => {
                    &&& r matches Ok(batch)
                    &&& postings_from_replies(
                        atoms@,
                        list@,
                        index.deleted@,
                        single_valued,
                        batch,
                    )
                    &&& after == index.counted(
                        before,
                        index.prefetched_bytes(atoms@.len()) + replied_bytes(
                            list@,
                            index.read_entry_overhead as nat,
                        ),
                    )
                },
            }
        };
    let list = replies->Ok_0@;
    assert(replies_are_right(atoms@, list, stored));
    assert(replies_once(list));
    assert forall|a: int| 0 <= a < atoms@.len() implies {
        let posting = #[trigger] r->Ok_0.postings@[a];
        &&& posting.query_mask == atoms@[a].query_mask
        &&& posting.point_ids@ == match stored(atoms@[a].value) {
            Some(points) => points.filter(unflagged(index.deleted@)),
            None => Seq::empty(),
        }
    } by {
        let atom = atoms@[a];
        let i = choose|i: int| 0 <= i < list.len() && (#[trigger] list[i]).atom_ordinal == a;
        lemma_replied_points(list, index.deleted@, a);
        assert(replied_points(list, index.deleted@, a) == match list[i].points {
            Some(points) => kept_points(points@, not_deleted(index.deleted@)),
            None => Seq::empty(),
        });
        if list[i].points is Some {
            lemma_kept_is_filtered(list[i].points->0@, unflagged(index.deleted@));
        }
    }
}

} // verus!
