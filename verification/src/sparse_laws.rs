//! What looking entries up by sparse reads of a file finds.

use vstd::prelude::*;

use crate::arith::is_pow2;
use crate::sparse_reader::{
    begins_entry, grows_to, key_differs, le_value, lemma_reads_grow, parses_to, waits, Entry,
    ParsedEntry, PipelineDriver, Processed, ReadError, ReadResult, Request, BUCKET_OFFSET_BYTES,
};

verus! {

/// An entry as a file holds it.
pub ghost struct StoredEntry {
    /// Bytes of its key.
    pub key: Seq<u8>,
    /// Number of bytes from its start to the end of the parts that are wanted of it.
    pub wanted: nat,
}

/// The bytes start with the entry, and `parse` reads it from as many of them as have arrived: the
/// key may be seen early, and it is seen when all wanted parts are there.
pub open spec fn holds_entry<P: Fn(&Vec<u8>) -> ReadResult<ParsedEntry>>(
    bytes: Seq<u8>,
    parse: &P,
    stored: StoredEntry,
) -> bool {
    &&& 0 < stored.wanted <= bytes.len()
    &&& forall|buf: Vec<u8>, parsed: ReadResult<ParsedEntry>| #[trigger]
        parse.ensures((&buf,), parsed) && buf@.len() <= bytes.len() && buf@ == bytes.take(
            buf@.len() as int,
        ) ==> {
            &&& parsed is Ok
            &&& parsed->Ok_0.satisfies_kind == (buf@.len() >= stored.wanted)
            &&& parsed->Ok_0.satisfies_kind ==> parsed->Ok_0.key is Some
            &&& parsed->Ok_0.key is Some ==> parsed->Ok_0.key->0@ == stored.key
        }
}

/// The entry and the range that were scheduled.
pub open spec fn scheduled<U>(
    next: ReadResult<Option<(Entry<U>, std::ops::Range<u64>)>>,
) -> (Entry<U>, std::ops::Range<u64>) {
    next->Ok_0->Some_0
}

/// Every run of reads of the file that begins with this one ends after at most so many more reads,
/// and it ends well.
pub open spec fn always_ends<U, P: Fn(&Vec<u8>) -> ReadResult<ParsedEntry>>(
    driver: PipelineDriver<U>,
    file: Seq<u8>,
    parse: &P,
    entry: Entry<U>,
    start: int,
    end: int,
    more: nat,
    well: spec_fn(ReadResult<Processed<U>>) -> bool,
) -> bool
    decreases more,
{
    &&& 0 <= start <= end <= file.len()
    &&& forall|after: PipelineDriver<U>, r: ReadResult<Processed<U>>|
        #![trigger driver.processed(&after, entry, file.subrange(start, end), parse, r)]
        driver.processed(&after, entry, file.subrange(start, end), parse, r) && after.same_map(
            &driver,
        ) ==> if r is Ok && r->Ok_0 is Pending {
            &&& more > 0
            &&& after.spec_queue().len() == driver.spec_queue().len() + 1
            &&& forall|
                resumed: PipelineDriver<U>,
                next: ReadResult<Option<(Entry<U>, std::ops::Range<u64>)>>,
            |
                #![trigger
                    after.refill_outcome(after.spec_queue().last(), next),
                    resumed.same_map(&driver)]
                after.refill_outcome(after.spec_queue().last(), next) && resumed.same_map(&driver)
                    && resumed.spec_queue() == driver.spec_queue() ==> match next {
                    Ok(Some((entry, range))) => always_ends(
                        resumed,
                        file,
                        parse,
                        entry,
                        range.start as int,
                        range.end as int,
                        (more - 1) as nat,
                        well,
                    ),
                    Ok(None) => false,
                    Err(error) => well(Err(error)),
                }
        } else {
            well(r)
        }
}

/// The entry was found, with the bytes that the file has from its start on, up to at least the end
/// of the wanted parts. When a key was asked for and the entry has another one, it is missing.
pub open spec fn finds<U>(
    user_data: U,
    requested: Option<Seq<u8>>,
    bytes: Seq<u8>,
    stored: StoredEntry,
) -> spec_fn(ReadResult<Processed<U>>) -> bool {
    |r: ReadResult<Processed<U>>|
        if requested is None || requested->0 == stored.key {
            &&& r is Ok
            &&& r->Ok_0 is Found
            &&& r->Ok_0->Found_0 == user_data
            &&& stored.wanted <= r->Ok_0->Found_1@.len() <= bytes.len()
            &&& r->Ok_0->Found_1@ == bytes.take(r->Ok_0->Found_1@.len() as int)
        } else {
            r == Ok::<Processed<U>, ReadError>(Processed::Missing(user_data))
        }
}

/// The sizes are far from what positions can count.
pub open spec fn has_moderate_sizes<U>(driver: PipelineDriver<U>) -> bool {
    &&& driver.spec_file_len() < 0x4000_0000_0000_0000
    &&& 0 < driver.spec_read_size() <= 0x4000_0000_0000_0000
    &&& driver.spec_key_size() <= 0x4000_0000_0000_0000
}

/// The entry is being read from this position, and so many bytes of it have arrived.
spec fn is_reading<U>(
    entry: Entry<U>,
    user_data: U,
    file: Seq<u8>,
    at: int,
    arrived: int,
    max_len: Option<u64>,
    requested: Option<Seq<u8>>,
    stored: StoredEntry,
) -> bool {
    &&& entry.user_data == user_data
    &&& entry.state is ReadingEntry
    &&& entry.state->byte_offset == at
    &&& entry.state->buf@ == file.subrange(at, at + arrived)
    &&& entry.state->max_len == max_len
    &&& match entry.state->awaited_key {
        Some(key) => requested == Some(key@),
        None => requested is None || requested->0 == stored.key,
    }
}

/// The next power of two of a moderate number is moderate.
proof fn lemma_moderate_growth(
    arrived: nat,
    key_size: u64,
    max_len: Option<u64>,
    expected_len: u64,
)
    requires
        grows_to(arrived, key_size, max_len, expected_len),
        arrived + 1 <= 0x4000_0000_0000_0000,
        key_size <= 0x4000_0000_0000_0000,
    ensures
        expected_len <= 0x4000_0000_0000_0000,
{
    vstd::arithmetic::power2::lemma2_to64();
    vstd::arithmetic::power2::lemma2_to64_rest();
    assert(vstd::arithmetic::power2::pow2(62) == 0x4000_0000_0000_0000);
    assert(is_pow2(0x4000_0000_0000_0000));
}

/// Reading an entry ends with it.
proof fn lemma_entry_ends<U, P: Fn(&Vec<u8>) -> ReadResult<ParsedEntry>>(
    driver: PipelineDriver<U>,
    file: Seq<u8>,
    parse: &P,
    entry: Entry<U>,
    start: int,
    end: int,
    more: nat,
    user_data: U,
    at: int,
    max_len: Option<u64>,
    requested: Option<Seq<u8>>,
    stored: StoredEntry,
)
    requires
        has_moderate_sizes(driver),
        driver.spec_file_len() == file.len(),
        0 <= at <= start < end <= file.len(),
        holds_entry(file.skip(at), parse, stored),
        max_len is Some ==> stored.wanted <= max_len->0 && at + max_len->0 <= u64::MAX,
        is_reading(entry, user_data, file, at, start - at, max_len, requested, stored),
        more + end >= file.len(),
    ensures
        always_ends(
            driver,
            file,
            parse,
            entry,
            start,
            end,
            more,
            finds(user_data, requested, file.skip(at), stored),
        ),
    decreases more,
{
    let bytes = file.skip(at);
    let well = finds(user_data, requested, bytes, stored);
    let data = file.subrange(start, end);
    let arrived = file.subrange(at, end);
    assert(entry.state->buf@ + data =~= arrived);
    assert(arrived =~= bytes.take(end - at));
    assert forall|after: PipelineDriver<U>, r: ReadResult<Processed<U>>|
        #![trigger driver.processed(&after, entry, data, parse, r)]
        driver.processed(&after, entry, data, parse, r) && after.same_map(
            &driver,
        ) implies if r is Ok && r->Ok_0 is Pending {
        &&& more > 0
        &&& after.spec_queue().len() == driver.spec_queue().len() + 1
        &&& forall|
            resumed: PipelineDriver<U>,
            next: ReadResult<Option<(Entry<U>, std::ops::Range<u64>)>>,
        |
            #![trigger
                after.refill_outcome(after.spec_queue().last(), next),
                resumed.same_map(&driver)]
            after.refill_outcome(after.spec_queue().last(), next) && resumed.same_map(&driver)
                && resumed.spec_queue() == driver.spec_queue() ==> match next {
                Ok(Some((entry, range))) => always_ends(
                    resumed,
                    file,
                    parse,
                    entry,
                    range.start as int,
                    range.end as int,
                    (more - 1) as nat,
                    well,
                ),
                Ok(None) => false,
                Err(error) => well(Err(error)),
            }
    } else {
        well(r)
    } by {
        let awaited = entry.state->awaited_key;
        let parsed_result = choose|parsed: ReadResult<ParsedEntry>|
            {
                &&& #[trigger] parses_to(parse, arrived, parsed)
                &&& match parsed {
                    Err(error) => r == Err::<Processed<U>, ReadError>(error)
                        && after.spec_queue() == driver.spec_queue(),
                    Ok(parsed) => driver.completes(
                        &after,
                        user_data,
                        entry.state->byte_offset,
                        arrived,
                        max_len,
                        awaited,
                        parsed,
                        r,
                    ),
                }
            };
        assert(parses_to(parse, arrived, parsed_result));
        let buf = choose|buf: Vec<u8>|
            buf@ == arrived && #[trigger] parse.ensures((&buf,), parsed_result);
        assert(buf@ == bytes.take(buf@.len() as int));
        let parsed = parsed_result->Ok_0;
        assert(driver.completes(
            &after,
            user_data,
            entry.state->byte_offset,
            arrived,
            max_len,
            awaited,
            parsed,
            r,
        ));
        if key_differs(awaited, parsed) {
            assert(well(r));
        } else if parsed.satisfies_kind {
            assert(well(r));
        } else {
            let waiting = after.spec_queue().last();
            assert(waits(
                waiting,
                user_data,
                entry.state->byte_offset,
                arrived,
                driver.spec_key_size(),
                max_len,
                awaited,
                parsed,
            ));
            let expected = waiting.state->expected_len;
            lemma_reads_grow(arrived.len(), driver.spec_key_size(), max_len, expected);
            lemma_moderate_growth(arrived.len(), driver.spec_key_size(), max_len, expected);
            assert forall|
                resumed: PipelineDriver<U>,
                next: ReadResult<Option<(Entry<U>, std::ops::Range<u64>)>>,
            |
                #![trigger
                    after.refill_outcome(waiting, next),
                    resumed.same_map(&driver)]
                after.refill_outcome(waiting, next) && resumed.same_map(&driver)
                    && resumed.spec_queue() == driver.spec_queue() implies match next {
                Ok(Some((entry, range))) => always_ends(
                    resumed,
                    file,
                    parse,
                    entry,
                    range.start as int,
                    range.end as int,
                    (more - 1) as nat,
                    well,
                ),
                Ok(None) => false,
                Err(error) => well(Err(error)),
            } by {
                let (again, range) = scheduled(next);
                assert(again == waiting);
                assert(range.start == end);
                lemma_entry_ends(
                    resumed,
                    file,
                    parse,
                    again,
                    range.start as int,
                    range.end as int,
                    (more - 1) as nat,
                    user_data,
                    at,
                    max_len,
                    requested,
                    stored,
                );
            }
        }
    }
}

/// The offset that a slot of the bucket table of a file holds.
pub open spec fn slot_offset(file: Seq<u8>, buckets_pos: u64, slot: u64) -> nat {
    le_value(
        file.subrange(
            buckets_pos + slot * BUCKET_OFFSET_BYTES,
            buckets_pos + slot * BUCKET_OFFSET_BYTES + BUCKET_OFFSET_BYTES,
        ),
    )
}

/// A key is found exactly when it is stored: in a file with a bucket table and entries behind
/// it, looking a key up ends with the entry whose offset the table has in the slot of the key, when
/// that entry has the key, and otherwise with the report that the key is missing.
pub proof fn lemma_key_is_looked_up<U, P: Fn(&Vec<u8>) -> ReadResult<ParsedEntry>>(
    driver: PipelineDriver<U>,
    file: Seq<u8>,
    parse: &P,
    user_data: U,
    requested_key: Vec<u8>,
    slot: u64,
    stored: StoredEntry,
    next: ReadResult<Option<(Entry<U>, std::ops::Range<u64>)>>,
)
    requires
        has_moderate_sizes(driver),
        driver.spec_file_len() == file.len(),
        driver.spec_buckets_pos() + (slot + 1) * BUCKET_OFFSET_BYTES <= file.len(),
        driver.spec_entries_start() + slot_offset(file, driver.spec_buckets_pos(), slot)
            <= file.len(),
        holds_entry(
            file.skip(
                driver.spec_entries_start() + slot_offset(file, driver.spec_buckets_pos(), slot),
            ),
            parse,
            stored,
        ),
        driver.request_outcome(
            user_data,
            Request::Key { requested_key, hash: Some(slot) },
            next,
        ),
    ensures
        next is Ok && next->Ok_0 is Some,
        always_ends(
            driver,
            file,
            parse,
            scheduled(next).0,
            scheduled(next).1.start as int,
            scheduled(next).1.end as int,
            (file.len() + 1) as nat,
            finds(
                user_data,
                Some(requested_key@),
                file.skip(
                    driver.spec_entries_start() + slot_offset(
                        file,
                        driver.spec_buckets_pos(),
                        slot,
                    ),
                ),
                stored,
            ),
        ),
{
    let at = driver.spec_entries_start() + slot_offset(file, driver.spec_buckets_pos(), slot);
    let place = driver.spec_buckets_pos() + slot * BUCKET_OFFSET_BYTES;
    let (entry, range) = scheduled(next);
    let more = (file.len() + 1) as nat;
    let well = finds(user_data, Some(requested_key@), file.skip(at), stored);
    assert(range.start == place && range.end == place + BUCKET_OFFSET_BYTES);
    let data = file.subrange(range.start as int, range.end as int);
    assert(le_value(data) == slot_offset(file, driver.spec_buckets_pos(), slot));
    assert forall|after: PipelineDriver<U>, r: ReadResult<Processed<U>>|
        #![trigger driver.processed(&after, entry, data, parse, r)]
        driver.processed(&after, entry, data, parse, r) && after.same_map(
            &driver,
        ) implies if r is Ok && r->Ok_0 is Pending {
        &&& more > 0
        &&& after.spec_queue().len() == driver.spec_queue().len() + 1
        &&& forall|
            resumed: PipelineDriver<U>,
            next: ReadResult<Option<(Entry<U>, std::ops::Range<u64>)>>,
        |
            #![trigger
                after.refill_outcome(after.spec_queue().last(), next),
                resumed.same_map(&driver)]
            after.refill_outcome(after.spec_queue().last(), next) && resumed.same_map(&driver)
                && resumed.spec_queue() == driver.spec_queue() ==> match next {
                Ok(Some((entry, range))) => always_ends(
                    resumed,
                    file,
                    parse,
                    entry,
                    range.start as int,
                    range.end as int,
                    (more - 1) as nat,
                    well,
                ),
                Ok(None) => false,
                Err(error) => well(Err(error)),
            }
    } else {
        well(r)
    } by {
        let waiting = after.spec_queue().last();
        assert(begins_entry(
            waiting,
            user_data,
            at,
            driver.spec_read_size(),
            None,
            Some(requested_key),
        ));
        assert forall|
            resumed: PipelineDriver<U>,
            again: ReadResult<Option<(Entry<U>, std::ops::Range<u64>)>>,
        |
            #![trigger
                after.refill_outcome(waiting, again),
                resumed.same_map(&driver)]
            after.refill_outcome(waiting, again) && resumed.same_map(&driver)
                && resumed.spec_queue() == driver.spec_queue() implies match again {
            Ok(Some((entry, range))) => always_ends(
                resumed,
                file,
                parse,
                entry,
                range.start as int,
                range.end as int,
                (more - 1) as nat,
                well,
            ),
            Ok(None) => false,
            Err(error) => well(Err(error)),
        } by {
            let (first, part) = scheduled(again);
            assert(first == waiting);
            assert(waiting.state->buf@ =~= file.subrange(at, at));
            lemma_entry_ends(
                resumed,
                file,
                parse,
                first,
                part.start as int,
                part.end as int,
                (more - 1) as nat,
                user_data,
                at,
                None,
                Some(requested_key@),
                stored,
            );
        }
    }
}

/// The entry at an offset is found, whatever its key.
pub proof fn lemma_offset_is_looked_up<U, P: Fn(&Vec<u8>) -> ReadResult<ParsedEntry>>(
    driver: PipelineDriver<U>,
    file: Seq<u8>,
    parse: &P,
    user_data: U,
    offset: u64,
    stored: StoredEntry,
    next: ReadResult<Option<(Entry<U>, std::ops::Range<u64>)>>,
)
    requires
        has_moderate_sizes(driver),
        driver.spec_file_len() == file.len(),
        driver.spec_entries_start() + offset <= file.len(),
        holds_entry(file.skip(driver.spec_entries_start() + offset), parse, stored),
        driver.request_outcome(user_data, Request::Offset(offset), next),
    ensures
        next is Ok && next->Ok_0 is Some,
        always_ends(
            driver,
            file,
            parse,
            scheduled(next).0,
            scheduled(next).1.start as int,
            scheduled(next).1.end as int,
            file.len(),
            finds(user_data, None, file.skip(driver.spec_entries_start() + offset), stored),
        ),
{
    let at = driver.spec_entries_start() + offset;
    let (entry, range) = scheduled(next);
    assert(entry.state->buf@ =~= file.subrange(at, at));
    lemma_entry_ends(
        driver,
        file,
        parse,
        entry,
        range.start as int,
        range.end as int,
        file.len(),
        user_data,
        at,
        None,
        None,
        stored,
    );
}

/// A key whose exact range is known is found exactly when the entry there has it.
pub proof fn lemma_key_at_offset_is_looked_up<U, P: Fn(&Vec<u8>) -> ReadResult<ParsedEntry>>(
    driver: PipelineDriver<U>,
    file: Seq<u8>,
    parse: &P,
    user_data: U,
    requested_key: Vec<u8>,
    offset: u64,
    length: u64,
    stored: StoredEntry,
    next: ReadResult<Option<(Entry<U>, std::ops::Range<u64>)>>,
)
    requires
        has_moderate_sizes(driver),
        driver.spec_file_len() == file.len(),
        driver.spec_entries_start() + offset + length <= file.len(),
        stored.wanted <= length,
        holds_entry(file.skip(driver.spec_entries_start() + offset), parse, stored),
        driver.request_outcome(
            user_data,
            Request::KeyAtOffset { requested_key, offset, length },
            next,
        ),
    ensures
        next is Ok && next->Ok_0 is Some,
        scheduled(next).1.start == driver.spec_entries_start() + offset,
        scheduled(next).1.end == driver.spec_entries_start() + offset + length,
        always_ends(
            driver,
            file,
            parse,
            scheduled(next).0,
            scheduled(next).1.start as int,
            scheduled(next).1.end as int,
            file.len(),
            finds(
                user_data,
                Some(requested_key@),
                file.skip(driver.spec_entries_start() + offset),
                stored,
            ),
        ),
{
    let at = driver.spec_entries_start() + offset;
    let (entry, range) = scheduled(next);
    assert(entry.state->buf@ =~= file.subrange(at, at));
    lemma_entry_ends(
        driver,
        file,
        parse,
        entry,
        range.start as int,
        range.end as int,
        file.len(),
        user_data,
        at,
        Some(length),
        Some(requested_key@),
        stored,
    );
}

} // verus!
