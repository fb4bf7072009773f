//! Driver of sparse reads of a persisted hash map.
//!
//! The driver decides which byte ranges are read next and what a completed read means. Performing
//! the reads is left to the caller.

use std::collections::VecDeque;
use std::ops::Range;

use vstd::prelude::*;
use zerocopy::FromBytes;

use crate::arith::{is_next_pow2, max_int, max_u64, min_int, min_u64, next_power_of_two_u64};

verus! {

/// Size of a stored bucket offset in bytes.
pub const BUCKET_OFFSET_BYTES: u64 = 8;

/// Why an entry could not be read.
#[derive(Debug)]
pub struct ReadError {
    pub message: String,
}

/// Result of a step of a sparse read.
pub type ReadResult<T> = Result<T, ReadError>;

/// The result is an error with the given text.
pub open spec fn read_failed<T>(r: ReadResult<T>, text: Seq<char>) -> bool {
    r matches Err(error) && error.message@ == text
}

fn read_err(message: &str) -> (error: ReadError)
    ensures
        error.message@ == message@,
{
    ReadError { message: message.to_owned() }
}

/// What is asked of the map. Keys are given by their stored bytes.
#[derive(Debug)]
pub enum Request {
    /// The entry at an offset, whatever its key.
    Offset(u64),
    /// The entry of a key. `hash` is its place in the bucket table, if it has one.
    Key { requested_key: Vec<u8>, hash: Option<u64> },
    /// The entry of a key whose exact range is known from the bucket table.
    KeyAtOffset { requested_key: Vec<u8>, offset: u64, length: u64 },
}

/// How far an entry has been read.
#[derive(Debug)]
pub enum State {
    /// The bucket offset of the entry is being read.
    ReadingOffset { requested_key: Vec<u8> },
    /// The entry is being read. `buf` holds what arrived so far.
    ReadingEntry {
        byte_offset: u64,
        buf: Vec<u8>,
        expected_len: u64,
        /// Length of the entry at most, where the next offset is known.
        max_len: Option<u64>,
        /// Key that the entry must have, until it has been seen to have it.
        awaited_key: Option<Vec<u8>>,
    },
}

/// An entry on its way.
#[derive(Debug)]
pub struct Entry<U> {
    pub user_data: U,
    pub state: State,
}

/// What is known of an entry that arrived in part or as a whole.
#[derive(Debug)]
pub struct ParsedEntry {
    /// Stored bytes of the key, if they have arrived.
    pub key: Option<Vec<u8>>,
    /// All wanted parts have arrived.
    pub satisfies_kind: bool,
}

/// What a completed read means.
#[derive(Debug)]
pub enum Processed<U> {
    /// The map has no entry for the request.
    Missing(U),
    /// The wanted parts of the entry are in the buffer.
    Found(U, Vec<u8>),
    /// The entry waits for another read.
    Pending,
}

/// Requests without an entry that were met, and the read to schedule next.
#[derive(Debug)]
pub struct Scheduled<U> {
    pub misses: Vec<U>,
    pub next: ReadResult<Option<(Entry<U>, Range<u64>)>>,
}

/// State of a sparse read.
#[derive(Debug)]
pub struct PipelineDriver<U> {
    /// Position of the first entry in the file.
    entries_start: u64,
    /// Position of the bucket table in the file.
    buckets_pos: u64,
    file_len: u64,
    entry_read_size_est: u64,
    key_size_est: u64,
    queue: Vec<Entry<U>>,
}

/// A byte range or the text of a fault.
pub ghost enum RangeOutcome {
    Fault(Seq<char>),
    Bytes(int, int),
}

/// The next range of an entry that was read in part: from behind what arrived up to the expected
/// length, but neither beyond the exact range of the entry nor beyond the file.
pub open spec fn refill_range(
    byte_offset: u64,
    arrived: nat,
    expected_len: u64,
    max_len: Option<u64>,
    file_len: u64,
) -> RangeOutcome {
    let start = byte_offset + arrived;
    let expected_end = byte_offset + expected_len;
    if start > u64::MAX {
        RangeOutcome::Fault("persisted-hashmap entry read offset overflow"@)
    } else if expected_end > u64::MAX {
        RangeOutcome::Fault("persisted-hashmap entry read length overflow"@)
    } else {
        match max_len {
            Some(limit) => {
                let end = min_int(min_int(expected_end, byte_offset + limit), file_len as int);
                if byte_offset + limit > u64::MAX {
                    RangeOutcome::Fault("persisted-hashmap exact entry range overflow"@)
                } else if end <= start {
                    RangeOutcome::Fault(
                        "persisted-hashmap entry is truncated within its exact byte range"@,
                    )
                } else {
                    RangeOutcome::Bytes(start, end)
                }
            },
            None => {
                let end = min_int(expected_end, file_len as int);
                if end <= start {
                    RangeOutcome::Fault("unexpected eof"@)
                } else {
                    RangeOutcome::Bytes(start, end)
                }
            },
        }
    }
}

/// A refill continues exactly where the arrived bytes end, reads at least one byte, and stays
/// inside the file and inside the exact range of the entry.
pub proof fn lemma_refill_range(
    byte_offset: u64,
    arrived: nat,
    expected_len: u64,
    max_len: Option<u64>,
    file_len: u64,
)
    ensures
        refill_range(byte_offset, arrived, expected_len, max_len, file_len) matches
            RangeOutcome::Bytes(start, end) ==> {
            &&& start == byte_offset + arrived
            &&& start < end <= file_len
            &&& end <= byte_offset + expected_len
            &&& max_len matches Some(limit) ==> end <= byte_offset + limit
        },
{
}

/// A range clipped to the file.
pub open spec fn clipped(start: int, end: int, file_len: u64) -> RangeOutcome {
    RangeOutcome::Bytes(min_int(start, file_len as int), min_int(end, file_len as int))
}

/// The entry is the beginning of reading an entry.
pub open spec fn begins_entry<U>(
    entry: Entry<U>,
    user_data: U,
    byte_offset: int,
    expected_len: u64,
    max_len: Option<u64>,
    requested_key: Option<Vec<u8>>,
) -> bool {
    &&& entry.user_data == user_data
    &&& entry.state matches State::ReadingEntry {
        byte_offset: at,
        buf,
        expected_len: expected,
        max_len: limit,
        awaited_key: key,
    }
    &&& at == byte_offset
    &&& buf@.len() == 0
    &&& expected == expected_len
    &&& limit == max_len
    &&& key == requested_key
}

/// The request is for a key without an entry.
pub open spec fn is_miss(request: Request) -> bool {
    request matches Request::Key { hash: None, .. }
}

impl<U> PipelineDriver<U> {
    /// Position of the first entry.
    pub closed spec fn spec_entries_start(&self) -> u64 {
        self.entries_start
    }

    /// Position of the bucket table.
    pub closed spec fn spec_buckets_pos(&self) -> u64 {
        self.buckets_pos
    }

    /// Length of the file.
    pub closed spec fn spec_file_len(&self) -> u64 {
        self.file_len
    }

    /// Bytes that are read of an entry at first.
    pub closed spec fn spec_read_size(&self) -> u64 {
        self.entry_read_size_est
    }

    /// Bytes that a key is expected to take.
    pub closed spec fn spec_key_size(&self) -> u64 {
        self.key_size_est
    }

    /// Entries that wait for another read, the next one last.
    pub closed spec fn spec_queue(&self) -> Seq<Entry<U>> {
        self.queue@
    }

    /// Everything but the queue is unchanged.
    pub open spec fn same_map(&self, other: &Self) -> bool {
        &&& self.spec_entries_start() == other.spec_entries_start()
        &&& self.spec_buckets_pos() == other.spec_buckets_pos()
        &&& self.spec_file_len() == other.spec_file_len()
        &&& self.spec_read_size() == other.spec_read_size()
        &&& self.spec_key_size() == other.spec_key_size()
    }

    /// Only entries whose offset is known wait for another read.
    pub open spec fn wf(&self) -> bool {
        forall|i: int|
            0 <= i < self.spec_queue().len() ==> (#[trigger] self.spec_queue()[i]).state
                is ReadingEntry
    }

    /// A driver without waiting entries.
    pub fn new(
        entries_start: u64,
        buckets_pos: u64,
        file_len: u64,
        entry_read_size_est: u64,
        key_size_est: u64,
    ) -> (driver: Self)
        ensures
            driver.wf(),
            driver.spec_entries_start() == entries_start,
            driver.spec_buckets_pos() == buckets_pos,
            driver.spec_file_len() == file_len,
            driver.spec_read_size() == entry_read_size_est,
            driver.spec_key_size() == key_size_est,
            driver.spec_queue().len() == 0,
    {
        PipelineDriver {
            entries_start,
            buckets_pos,
            file_len,
            entry_read_size_est,
            key_size_est,
            queue: Vec::new(),
        }
    }

    /// Where the read of a request starts and ends, before it is clipped to the file.
    pub open spec fn request_range(&self, request: Request) -> RangeOutcome {
        match request {
            Request::Offset(offset) => {
                let start = self.spec_entries_start() + offset;
                if start > u64::MAX {
                    RangeOutcome::Fault("persisted-hashmap entry offset overflow"@)
                } else if start + self.spec_read_size() > u64::MAX {
                    RangeOutcome::Fault("persisted-hashmap entry read length overflow"@)
                } else {
                    RangeOutcome::Bytes(start, start + self.spec_read_size())
                }
            },
            Request::Key { requested_key, hash } => {
                let delta = hash->0 * BUCKET_OFFSET_BYTES;
                let start = self.spec_buckets_pos() + delta;
                if delta > u64::MAX {
                    RangeOutcome::Fault("persisted-hashmap bucket offset overflow"@)
                } else if start > u64::MAX {
                    RangeOutcome::Fault("persisted-hashmap bucket position overflow"@)
                } else if start + BUCKET_OFFSET_BYTES > u64::MAX {
                    RangeOutcome::Fault("persisted-hashmap bucket read overflow"@)
                } else {
                    RangeOutcome::Bytes(start, start + BUCKET_OFFSET_BYTES)
                }
            },
            Request::KeyAtOffset { requested_key, offset, length } => {
                let start = self.spec_entries_start() + offset;
                if start > u64::MAX {
                    RangeOutcome::Fault("persisted-hashmap exact entry offset overflow"@)
                } else if start + length > u64::MAX {
                    RangeOutcome::Fault("persisted-hashmap exact entry range overflow"@)
                } else {
                    RangeOutcome::Bytes(start, start + length)
                }
            },
        }
    }

    /// The entry that a request starts.
    pub open spec fn starts(
        &self,
        user_data: U,
        request: Request,
        entry: Entry<U>,
    ) -> bool {
        match request {
            Request::Offset(offset) => begins_entry(
                entry,
                user_data,
                self.spec_entries_start() + offset,
                self.spec_read_size(),
                None,
                None,
            ),
            Request::Key { requested_key, hash } => entry.user_data == user_data && entry.state
                == (State::ReadingOffset { requested_key }),
            Request::KeyAtOffset { requested_key, offset, length } => begins_entry(
                entry,
                user_data,
                self.spec_entries_start() + offset,
                length,
                Some(length),
                Some(requested_key),
            ),
        }
    }

    /// What scheduling gives for a request that is no miss.
    pub open spec fn request_outcome(
        &self,
        user_data: U,
        request: Request,
        next: ReadResult<Option<(Entry<U>, Range<u64>)>>,
    ) -> bool {
        match self.request_range(request) {
            RangeOutcome::Fault(text) => read_failed(next, text),
            RangeOutcome::Bytes(start, end) => {
                &&& next matches Ok(Some((entry, range)))
                &&& self.starts(user_data, request, entry)
                &&& clipped(start, end, self.spec_file_len()) == RangeOutcome::Bytes(
                    range.start as int,
                    range.end as int,
                )
            },
        }
    }

    /// What scheduling gives for a waiting entry.
    pub open spec fn refill_outcome(
        &self,
        waiting: Entry<U>,
        next: ReadResult<Option<(Entry<U>, Range<u64>)>>,
    ) -> bool {
        match waiting.state {
            State::ReadingOffset { .. } => false,
            State::ReadingEntry { byte_offset, buf, expected_len, max_len, .. } => {
                match refill_range(
                    byte_offset,
                    buf@.len(),
                    expected_len,
                    max_len,
                    self.spec_file_len(),
                ) {
                    RangeOutcome::Fault(text) => read_failed(next, text),
                    RangeOutcome::Bytes(start, end) => {
                        &&& next matches Ok(Some((entry, range)))
                        &&& entry == waiting
                        &&& range.start == start
                        &&& range.end == end
                    },
                }
            },
        }
    }

    /// The next range of a waiting entry.
    fn refill(&self, state: &State) -> (r: ReadResult<Range<u64>>)
        requires
            state is ReadingEntry,
        ensures
            match *state {
                State::ReadingOffset { .. } => true,
                State::ReadingEntry { byte_offset, buf, expected_len, max_len, .. } => {
                    match refill_range(
                        byte_offset,
                        buf@.len(),
                        expected_len,
                        max_len,
                        self.spec_file_len(),
                    ) {
                        RangeOutcome::Fault(text) => read_failed(r, text),
                        RangeOutcome::Bytes(start, end) => r matches Ok(range) && range.start
                            == start && range.end == end,
                    }
                },
            },
    {
        match state {
            State::ReadingOffset { .. } => Err(read_err("unexpected eof")),
            State::ReadingEntry { byte_offset, buf, expected_len, max_len, awaited_key: _ } => {
                let start: u64 = match byte_offset.checked_add(buf.len() as u64) {
                    Some(start) => start,
                    None => {
                        return Err(read_err("persisted-hashmap entry read offset overflow"));
                    },
                };
                let expected_end: u64 = match byte_offset.checked_add(*expected_len) {
                    Some(end) => end,
                    None => {
                        return Err(read_err("persisted-hashmap entry read length overflow"));
                    },
                };
                let exact_end: u64 = match max_len {
                    Some(max_len) => match byte_offset.checked_add(*max_len) {
                        Some(max_end) => min_u64(expected_end, max_end),
                        None => {
                            return Err(read_err("persisted-hashmap exact entry range overflow"));
                        },
                    },
                    None => expected_end,
                };
                let end: u64 = min_u64(exact_end, self.file_len);
                if end <= start {
                    return match max_len {
                        Some(_) => Err(
                            read_err(
                                "persisted-hashmap entry is truncated within its exact byte range",
                            ),
                        ),
                        None => Err(read_err("unexpected eof")),
                    };
                }
                Ok(start..end)
            },
        }
    }

    /// The range of a request, clipped to the file.
    fn clip(&self, start: u64, end: u64) -> (range: Range<u64>)
        ensures
            clipped(start as int, end as int, self.spec_file_len()) == RangeOutcome::Bytes(
                range.start as int,
                range.end as int,
            ),
    {
        min_u64(start, self.file_len)..min_u64(end, self.file_len)
    }

    /// Start reading the entry of a request that is no miss.
    fn start_request(&self, user_data: U, request: Request) -> (next: ReadResult<
        Option<(Entry<U>, Range<u64>)>,
    >)
        requires
            !is_miss(request),
        ensures
            self.request_outcome(user_data, request, next),
    {
        match request {
            Request::Offset(offset) => {
                let byte_offset: u64 = match self.entries_start.checked_add(offset) {
                    Some(at) => at,
                    None => {
                        return Err(read_err("persisted-hashmap entry offset overflow"));
                    },
                };
                let range_end: u64 = match byte_offset.checked_add(self.entry_read_size_est) {
                    Some(end) => end,
                    None => {
                        return Err(read_err("persisted-hashmap entry read length overflow"));
                    },
                };
                let state = State::ReadingEntry {
                    byte_offset,
                    buf: Vec::new(),
                    expected_len: self.entry_read_size_est,
                    max_len: None,
                    awaited_key: None,
                };
                Ok(Some((Entry { user_data, state }, self.clip(byte_offset, range_end))))
            },
            Request::Key { requested_key, hash } => {
                let place: u64 = match hash {
                    Some(place) => place,
                    None => 0,
                };
                let bucket_delta: u64 = match place.checked_mul(BUCKET_OFFSET_BYTES) {
                    Some(delta) => delta,
                    None => {
                        return Err(read_err("persisted-hashmap bucket offset overflow"));
                    },
                };
                let bucket_byte_offset: u64 = match self.buckets_pos.checked_add(bucket_delta) {
                    Some(at) => at,
                    None => {
                        return Err(read_err("persisted-hashmap bucket position overflow"));
                    },
                };
                let range_end: u64 = match bucket_byte_offset.checked_add(BUCKET_OFFSET_BYTES) {
                    Some(end) => end,
                    None => {
                        return Err(read_err("persisted-hashmap bucket read overflow"));
                    },
                };
                let state = State::ReadingOffset { requested_key };
                Ok(Some((Entry { user_data, state }, self.clip(bucket_byte_offset, range_end))))
            },
            Request::KeyAtOffset { requested_key, offset, length } => {
                let byte_offset: u64 = match self.entries_start.checked_add(offset) {
                    Some(at) => at,
                    None => {
                        return Err(read_err("persisted-hashmap exact entry offset overflow"));
                    },
                };
                let range_end: u64 = match byte_offset.checked_add(length) {
                    Some(end) => end,
                    None => {
                        return Err(read_err("persisted-hashmap exact entry range overflow"));
                    },
                };
                let state = State::ReadingEntry {
                    byte_offset,
                    buf: Vec::new(),
                    expected_len: length,
                    max_len: Some(length),
                    awaited_key: Some(requested_key),
                };
                Ok(Some((Entry { user_data, state }, self.clip(byte_offset, range_end))))
            },
        }
    }

    /// Produce the next entry to schedule.
    ///
    /// A waiting entry goes first. Otherwise requests are taken in order: those without an entry
    /// in the map are reported as misses, and the first other one is scheduled.
    pub fn schedule_next_entry(&mut self, requests: &mut VecDeque<(U, Request)>) -> (r: Scheduled<U>)
        requires
            old(self).wf(),
        ensures
            final(self).wf(),
            final(self).same_map(old(self)),
            if old(self).spec_queue().len() > 0 {
                &&& final(self).spec_queue() == old(self).spec_queue().drop_last()
                &&& final(requests)@ == old(requests)@
                &&& r.misses@.len() == 0
                &&& old(self).refill_outcome(old(self).spec_queue().last(), r.next)
            } else {
                &&& final(self).spec_queue() == old(self).spec_queue()
                &&& r.misses@.len() <= old(requests)@.len()
                &&& forall|i: int|
                    0 <= i < r.misses@.len() ==> is_miss((#[trigger] old(requests)@[i]).1)
                        && r.misses@[i] == old(requests)@[i].0
                &&& if r.misses@.len() == old(requests)@.len() {
                    (r.next matches Ok(None)) && final(requests)@.len() == 0
                } else {
                    let request = old(requests)@[r.misses@.len() as int];
                    &&& !is_miss(request.1)
                    &&& old(self).request_outcome(request.0, request.1, r.next)
                    &&& final(requests)@ == old(requests)@.skip((r.misses@.len() + 1) as int)
                }
            },
    {
        let mut misses: Vec<U> = Vec::new();
        let ghost waiting = self.queue@;
        if self.queue.len() > 0 {
            let last: usize = self.queue.len() - 1;
            let entry = self.queue.remove(last);
            proof {
                assert(entry == waiting.last());
                assert(waiting[waiting.len() - 1].state is ReadingEntry);
                assert(self.queue@ =~= waiting.drop_last());
                assert forall|i: int| 0 <= i < self.spec_queue().len() implies (
                #[trigger] self.spec_queue()[i]).state is ReadingEntry by {
                    assert(self.spec_queue()[i] == waiting[i]);
                }
            }
            let next = match self.refill(&entry.state) {
                Ok(range) => Ok(Some((entry, range))),
                Err(error) => Err(error),
            };
            return Scheduled { misses, next };
        }
        let ghost given = requests@;
        proof {
            assert(given.skip(0) =~= given);
        }
        loop
            invariant
                *self == *old(self),
                self.spec_queue().len() == 0,
                misses@.len() <= given.len(),
                requests@ == given.skip(misses@.len() as int),
                given == old(requests)@,
                forall|i: int|
                    0 <= i < misses@.len() ==> is_miss((#[trigger] given[i]).1) && misses@[i]
                        == given[i].0,
            decreases requests@.len(),
        {
            match requests.pop_front() {
                None => {
                    return Scheduled { misses, next: Ok(None) };
                },
                Some((user_data, request)) => {
                    proof {
                        assert(given[misses@.len() as int] == (user_data, request));
                        assert(given.skip(misses@.len() as int).subrange(
                            1,
                            given.len() - misses@.len(),
                        ) =~= given.skip((misses@.len() + 1) as int));
                    }
                    let miss = match &request {
                        Request::Key { requested_key: _, hash } => match hash {
                            Some(_) => false,
                            None => true,
                        },
                        _ => false,
                    };
                    if miss {
                        misses.push(user_data);
                    } else {
                        let next = self.start_request(user_data, request);
                        return Scheduled { misses, next };
                    }
                },
            }
        }
    }
}

/// Value of bytes with the lowest one first.
pub open spec fn le_value(bytes: Seq<u8>) -> nat
    decreases bytes.len(),
{
    if bytes.len() == 0 {
        0
    } else {
        bytes[0] as nat + 256 * le_value(bytes.skip(1))
    }
}

/// Read a number from exactly eight bytes, the lowest one first.
///
/// Calls `U64::read_from_bytes` of `zerocopy` for its little-endian type, which fails exactly when
/// the number of bytes is another one, and `get` on what it read.
#[verifier::external_body]
fn read_le_u64(data: &[u8]) -> (r: Option<u64>)
    ensures
        match r {
            Some(value) => data@.len() == 8 && value == le_value(data@),
            None => data@.len() != 8,
        },
{
    match zerocopy::little_endian::U64::read_from_bytes(data) {
        Ok(value) => Some(value.get()),
        Err(_) => None,
    }
}

/// Read a stored bucket offset.
pub fn parse_bucket_offset(data: &[u8]) -> (r: ReadResult<u64>)
    ensures
        if data@.len() == 8 {
            r matches Ok(offset) && offset == le_value(data@)
        } else {
            read_failed(r, "can't read bucket offset"@)
        },
{
    match read_le_u64(data) {
        Some(offset) => Ok(offset),
        None => Err(read_err("can't read bucket offset")),
    }
}

/// Tell whether two keys have the same bytes.
fn same_bytes(a: &Vec<u8>, b: &Vec<u8>) -> (r: bool)
    ensures
        r == (a@ == b@),
{
    if a.len() != b.len() {
        return false;
    }
    let mut i: usize = 0;
    while i < a.len()
        invariant
            i <= a@.len(),
            a@.len() == b@.len(),
            forall|j: int| 0 <= j < i ==> a@[j] == b@[j],
        decreases a@.len() - i,
    {
        if a[i] != b[i] {
            return false;
        }
        i = i + 1;
    }
    proof {
        assert(a@ =~= b@);
    }
    true
}

/// How much of an entry is expected next: the least power of two above what arrived or the size of
/// a key, whichever is more, but not more than the entry can have.
pub open spec fn grows_to(
    arrived: nat,
    key_size: u64,
    max_len: Option<u64>,
    expected_len: u64,
) -> bool {
    exists|power: int| #[trigger]
        is_next_pow2((arrived + 1) as int, power) && expected_len == (match max_len {
            Some(limit) => min_int(max_int(power, key_size as int), limit as int),
            None => max_int(power, key_size as int),
        })
}

/// Every refill expects more than has arrived, so reading an entry makes progress.
pub proof fn lemma_reads_grow(
    arrived: nat,
    key_size: u64,
    max_len: Option<u64>,
    expected_len: u64,
)
    requires
        grows_to(arrived, key_size, max_len, expected_len),
        max_len matches Some(limit) ==> arrived < limit,
    ensures
        expected_len > arrived,
{
}

/// The key of the entry has arrived and is another one than asked for.
pub open spec fn key_differs(awaited_key: Option<Vec<u8>>, parsed: ParsedEntry) -> bool {
    awaited_key matches Some(key) && parsed.key matches Some(stored) && key@ != stored@
}

/// The entry waits for more bytes than arrived.
pub open spec fn waits<U>(
    entry: Entry<U>,
    user_data: U,
    byte_offset: u64,
    arrived: Seq<u8>,
    key_size: u64,
    max_len: Option<u64>,
    awaited_key: Option<Vec<u8>>,
    parsed: ParsedEntry,
) -> bool {
    &&& entry.user_data == user_data
    &&& entry.state matches State::ReadingEntry {
        byte_offset: at,
        buf,
        expected_len,
        max_len: limit,
        awaited_key: key,
    }
    &&& at == byte_offset
    &&& buf@ == arrived
    &&& grows_to(arrived.len(), key_size, max_len, expected_len)
    &&& limit == max_len
    &&& key == (if parsed.key is Some {
        None
    } else {
        awaited_key
    })
}

/// The result of parsing may be what `parse` gives for bytes.
pub open spec fn parses_to<P: Fn(&Vec<u8>) -> ReadResult<ParsedEntry>>(
    parse: &P,
    bytes: Seq<u8>,
    parsed: ReadResult<ParsedEntry>,
) -> bool {
    exists|buf: Vec<u8>| buf@ == bytes && #[trigger] parse.ensures((&buf,), parsed)
}

impl<U> PipelineDriver<U> {
    /// What an entry that arrived so far means, and what waits afterwards.
    pub open spec fn completes(
        &self,
        after: &Self,
        user_data: U,
        byte_offset: u64,
        arrived: Seq<u8>,
        max_len: Option<u64>,
        awaited_key: Option<Vec<u8>>,
        parsed: ParsedEntry,
        r: ReadResult<Processed<U>>,
    ) -> bool {
        if key_differs(awaited_key, parsed) {
            r == Ok::<Processed<U>, ReadError>(Processed::Missing(user_data))
                && after.spec_queue() == self.spec_queue()
        } else if parsed.satisfies_kind {
            &&& r matches Ok(Processed::Found(data, buf))
            &&& data == user_data
            &&& buf@ == arrived
            &&& after.spec_queue() == self.spec_queue()
        } else if max_len matches Some(limit) && arrived.len() >= limit {
            read_failed(r, "persisted-hashmap entry is truncated within its exact byte range"@)
                && after.spec_queue() == self.spec_queue()
        } else {
            &&& r matches Ok(Processed::Pending)
            &&& after.spec_queue().len() == self.spec_queue().len() + 1
            &&& after.spec_queue().drop_last() == self.spec_queue()
            &&& waits(
                after.spec_queue().last(),
                user_data,
                byte_offset,
                arrived,
                self.spec_key_size(),
                max_len,
                awaited_key,
                parsed,
            )
        }
    }

    /// Decide what an entry that arrived so far means.
    pub fn complete_entry(
        &mut self,
        user_data: U,
        byte_offset: u64,
        buf: Vec<u8>,
        max_len: Option<u64>,
        awaited_key: Option<Vec<u8>>,
        parsed: ParsedEntry,
    ) -> (r: ReadResult<Processed<U>>)
        requires
            old(self).wf(),
            buf@.len() < 0x8000_0000_0000_0000,
        ensures
            final(self).wf(),
            final(self).same_map(old(self)),
            old(self).completes(
                final(self),
                user_data,
                byte_offset,
                buf@,
                max_len,
                awaited_key,
                parsed,
                r,
            ),
    {
        let ghost given_key = awaited_key;
        let mut still_awaited = awaited_key;
        let seen = match &parsed.key {
            Some(stored) => {
                match &still_awaited {
                    Some(key) => {
                        if !same_bytes(key, stored) {
                            return Ok(Processed::Missing(user_data));
                        }
                    },
                    None => {},
                }
                true
            },
            None => false,
        };
        if seen {
            still_awaited = None;
        }
        if parsed.satisfies_kind {
            return Ok(Processed::Found(user_data, buf));
        }
        let arrived: u64 = buf.len() as u64;
        match max_len {
            Some(limit) => {
                if arrived >= limit {
                    return Err(
                        read_err(
                            "persisted-hashmap entry is truncated within its exact byte range",
                        ),
                    );
                }
            },
            None => {},
        }
        let power: u64 = next_power_of_two_u64(arrived + 1);
        let next_expected_len: u64 = max_u64(power, self.key_size_est);
        let expected_len: u64 = match max_len {
            Some(limit) => min_u64(next_expected_len, limit),
            None => next_expected_len,
        };
        let ghost before = self.queue@;
        let entry = Entry {
            user_data,
            state: State::ReadingEntry {
                byte_offset,
                buf,
                expected_len,
                max_len,
                awaited_key: still_awaited,
            },
        };
        self.queue.push(entry);
        proof {
            assert(is_next_pow2((buf@.len() + 1) as int, power as int));
            assert(self.spec_queue().drop_last() =~= before);
            assert forall|i: int| 0 <= i < self.spec_queue().len() implies (
            #[trigger] self.spec_queue()[i]).state is ReadingEntry by {
                if i < before.len() {
                    assert(self.spec_queue()[i] == before[i]);
                    assert(old(self).spec_queue()[i].state is ReadingEntry);
                }
            }
        }
        Ok(Processed::Pending)
    }

    /// What a completed read means, and what waits afterwards.
    pub open spec fn processed<P: Fn(&Vec<u8>) -> ReadResult<ParsedEntry>>(
        &self,
        after: &Self,
        entry: Entry<U>,
        data: Seq<u8>,
        parse: &P,
        r: ReadResult<Processed<U>>,
    ) -> bool {
        match entry.state {
            State::ReadingOffset { requested_key } => {
                let at = self.spec_entries_start() + le_value(data);
                if data.len() != 8 {
                    read_failed(r, "can't read bucket offset"@) && after.spec_queue()
                        == self.spec_queue()
                } else if at > u64::MAX {
                    read_failed(r, "persisted-hashmap entry offset overflow"@)
                        && after.spec_queue() == self.spec_queue()
                } else {
                    &&& r matches Ok(Processed::Pending)
                    &&& after.spec_queue().len() == self.spec_queue().len() + 1
                    &&& after.spec_queue().drop_last() == self.spec_queue()
                    &&& begins_entry(
                        after.spec_queue().last(),
                        entry.user_data,
                        at,
                        self.spec_read_size(),
                        None,
                        Some(requested_key),
                    )
                }
            },
            State::ReadingEntry { byte_offset, buf, max_len, awaited_key, .. } => exists|
                parsed: ReadResult<ParsedEntry>,
            |
                {
                    &&& #[trigger] parses_to(parse, buf@ + data, parsed)
                    &&& match parsed {
                        Err(error) => r == Err::<Processed<U>, ReadError>(error)
                            && after.spec_queue() == self.spec_queue(),
                        Ok(parsed) => self.completes(
                            after,
                            entry.user_data,
                            byte_offset,
                            buf@ + data,
                            max_len,
                            awaited_key,
                            parsed,
                            r,
                        ),
                    }
                },
        }
    }

    /// Process a completed read result. `parse` tells what has arrived of an entry.
    pub fn process<P: Fn(&Vec<u8>) -> ReadResult<ParsedEntry>>(
        &mut self,
        entry: Entry<U>,
        data: &[u8],
        parse: &P,
    ) -> (r: ReadResult<Processed<U>>)
        requires
            old(self).wf(),
            forall|buf: &Vec<u8>| #[trigger] parse.requires((buf,)),
            match entry.state {
                State::ReadingOffset { .. } => true,
                State::ReadingEntry { buf, .. } => buf@.len() + data@.len()
                    < 0x8000_0000_0000_0000,
            },
        ensures
            final(self).wf(),
            final(self).same_map(old(self)),
            old(self).processed(final(self), entry, data@, parse, r),
    {
        match entry.state {
            State::ReadingOffset { requested_key } => {
                let entry_offset: u64 = match parse_bucket_offset(data) {
                    Ok(offset) => offset,
                    Err(error) => {
                        return Err(error);
                    },
                };
                let byte_offset: u64 = match self.entries_start.checked_add(entry_offset) {
                    Some(at) => at,
                    None => {
                        return Err(read_err("persisted-hashmap entry offset overflow"));
                    },
                };
                let ghost before = self.queue@;
                self.queue.push(
                    Entry {
                        user_data: entry.user_data,
                        state: State::ReadingEntry {
                            byte_offset,
                            buf: Vec::new(),
                            expected_len: self.entry_read_size_est,
                            max_len: None,
                            awaited_key: Some(requested_key),
                        },
                    },
                );
                proof {
                    assert(self.spec_queue().drop_last() =~= before);
                    assert forall|i: int| 0 <= i < self.spec_queue().len() implies (
                    #[trigger] self.spec_queue()[i]).state is ReadingEntry by {
                        if i < before.len() {
                            assert(self.spec_queue()[i] == before[i]);
                            assert(old(self).spec_queue()[i].state is ReadingEntry);
                        }
                    }
                }
                Ok(Processed::Pending)
            },
            State::ReadingEntry { byte_offset, buf, expected_len: _, max_len, awaited_key } => {
                let mut bytes = buf;
                bytes.extend_from_slice(data);
                let parsed = parse(&bytes);
                proof {
                    assert(bytes@ =~= buf@ + data@);
                    assert(parses_to(parse, buf@ + data@, parsed));
                }
                match parsed {
                    Ok(parsed_entry) => self.complete_entry(
                        entry.user_data,
                        byte_offset,
                        bytes,
                        max_len,
                        awaited_key,
                        parsed_entry,
                    ),
                    Err(error) => Err(error),
                }
            },
        }
    }
}

} // verus!
