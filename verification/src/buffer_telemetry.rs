//! Ledger of the device buffers that are alive, per device, buffer type and label.

use vstd::prelude::*;

use crate::arith::{max_int, max_u64};
use crate::entries::{
    distinct_keys, entries_map, has_key, lemma_entries_insert, lemma_entries_map,
    lemma_entries_update,
};
use crate::text::{lemma_precedes, precedes, text_order, TextOrder};

verus! {

/// What a device buffer is used for.
#[derive(Clone, Copy, Debug, PartialEq, Eq, Structural)]
pub enum BufferType {
    Uniform,
    Storage,
    CpuToGpu,
    GpuToCpu,
}

impl BufferType {
    /// Position in listings.
    pub open spec fn spec_rank(self) -> int {
        match self {
            BufferType::Uniform => 0,
            BufferType::Storage => 1,
            BufferType::CpuToGpu => 2,
            BufferType::GpuToCpu => 3,
        }
    }

    fn rank(self) -> (r: u8)
        ensures
            r == self.spec_rank(),
    {
        match self {
            BufferType::Uniform => 0,
            BufferType::Storage => 1,
            BufferType::CpuToGpu => 2,
            BufferType::GpuToCpu => 3,
        }
    }
}

/// Counters of a group of buffers.
#[derive(Clone, Copy, Debug, PartialEq, Eq, Structural)]
pub struct BufferTelemetryStats {
    pub current_logical_bytes: u64,
    pub current_allocation_bytes: u64,
    pub peak_logical_bytes: u64,
    pub peak_allocation_bytes: u64,
    pub live_buffers: u64,
    pub peak_live_buffers: u64,
    pub allocation_count: u64,
    pub free_count: u64,
}

/// Counters of a group that never had a buffer.
pub open spec fn no_stats() -> BufferTelemetryStats {
    BufferTelemetryStats {
        current_logical_bytes: 0,
        current_allocation_bytes: 0,
        peak_logical_bytes: 0,
        peak_allocation_bytes: 0,
        live_buffers: 0,
        peak_live_buffers: 0,
        allocation_count: 0,
        free_count: 0,
    }
}

impl Default for BufferTelemetryStats {
    fn default() -> (stats: Self)
        ensures
            stats == no_stats(),
    {
        BufferTelemetryStats {
            current_logical_bytes: 0,
            current_allocation_bytes: 0,
            peak_logical_bytes: 0,
            peak_allocation_bytes: 0,
            live_buffers: 0,
            peak_live_buffers: 0,
            allocation_count: 0,
            free_count: 0,
        }
    }
}

impl BufferTelemetryStats {
    /// No peak is below its current value.
    pub open spec fn wf(self) -> bool {
        &&& self.current_logical_bytes <= self.peak_logical_bytes
        &&& self.current_allocation_bytes <= self.peak_allocation_bytes
        &&& self.live_buffers <= self.peak_live_buffers
    }

    /// One more buffer can be counted.
    pub open spec fn has_room(self, logical_bytes: u64, allocation_bytes: u64) -> bool {
        &&& self.current_logical_bytes + logical_bytes <= u64::MAX
        &&& self.current_allocation_bytes + allocation_bytes <= u64::MAX
        &&& self.live_buffers < u64::MAX
        &&& self.allocation_count < u64::MAX
    }

    /// The counters after one more buffer.
    pub open spec fn increased(self, logical_bytes: u64, allocation_bytes: u64) -> Self {
        let logical = self.current_logical_bytes + logical_bytes;
        let allocation = self.current_allocation_bytes + allocation_bytes;
        let live = self.live_buffers + 1;
        BufferTelemetryStats {
            current_logical_bytes: logical as u64,
            current_allocation_bytes: allocation as u64,
            peak_logical_bytes: max_int(self.peak_logical_bytes as int, logical) as u64,
            peak_allocation_bytes: max_int(self.peak_allocation_bytes as int, allocation) as u64,
            live_buffers: live as u64,
            peak_live_buffers: max_int(self.peak_live_buffers as int, live) as u64,
            allocation_count: (self.allocation_count + 1) as u64,
            free_count: self.free_count,
        }
    }

    /// The counters are too small for a buffer of this size to be alive.
    pub open spec fn underflows(self, logical_bytes: u64, allocation_bytes: u64) -> bool {
        ||| self.current_logical_bytes < logical_bytes
        ||| self.current_allocation_bytes < allocation_bytes
        ||| self.live_buffers == 0
    }

    /// The counters after one buffer less. None of them falls below zero.
    pub open spec fn decreased(self, logical_bytes: u64, allocation_bytes: u64) -> Self {
        BufferTelemetryStats {
            current_logical_bytes: max_int(0, self.current_logical_bytes - logical_bytes) as u64,
            current_allocation_bytes: max_int(
                0,
                self.current_allocation_bytes - allocation_bytes,
            ) as u64,
            live_buffers: max_int(0, self.live_buffers - 1) as u64,
            free_count: (self.free_count + 1) as u64,
            ..self
        }
    }
}

/// Counting a buffer and releasing it again restores the current counters, raises both event
/// counts by one, and leaves peaks at least as high as before.
pub proof fn lemma_release_undoes_allocation(
    stats: BufferTelemetryStats,
    logical_bytes: u64,
    allocation_bytes: u64,
)
    requires
        stats.has_room(logical_bytes, allocation_bytes),
        stats.free_count < u64::MAX,
    ensures
        ({
            let there = stats.increased(logical_bytes, allocation_bytes);
            let back = there.decreased(logical_bytes, allocation_bytes);
            &&& !there.underflows(logical_bytes, allocation_bytes)
            &&& one_event_later(back, stats)
        }),
{
}

/// One buffer came and went: the same bytes and buffers are alive, one more allocation and one more
/// release are counted, and no peak is lower.
pub open spec fn one_event_later(a: BufferTelemetryStats, b: BufferTelemetryStats) -> bool {
    &&& a.current_logical_bytes == b.current_logical_bytes
    &&& a.current_allocation_bytes == b.current_allocation_bytes
    &&& a.live_buffers == b.live_buffers
    &&& a.allocation_count == b.allocation_count + 1
    &&& a.free_count == b.free_count + 1
    &&& a.peak_logical_bytes >= b.peak_logical_bytes
    &&& a.peak_allocation_bytes >= b.peak_allocation_bytes
    &&& a.peak_live_buffers >= b.peak_live_buffers
}

/// Peaks never fall below current values, and releasing never changes a peak.
pub proof fn lemma_peaks(stats: BufferTelemetryStats, logical_bytes: u64, allocation_bytes: u64)
    requires
        stats.wf(),
    ensures
        stats.has_room(logical_bytes, allocation_bytes) ==> stats.increased(
            logical_bytes,
            allocation_bytes,
        ).wf(),
        stats.decreased(logical_bytes, allocation_bytes).wf(),
        stats.decreased(logical_bytes, allocation_bytes).peak_logical_bytes
            == stats.peak_logical_bytes,
        stats.decreased(logical_bytes, allocation_bytes).peak_allocation_bytes
            == stats.peak_allocation_bytes,
        stats.decreased(logical_bytes, allocation_bytes).peak_live_buffers
            == stats.peak_live_buffers,
{
}

fn increase(stats: &mut BufferTelemetryStats, logical_bytes: u64, allocation_bytes: u64)
    requires
        old(stats).has_room(logical_bytes, allocation_bytes),
    ensures
        *final(stats) == old(stats).increased(logical_bytes, allocation_bytes),
{
    stats.current_logical_bytes = stats.current_logical_bytes + logical_bytes;
    stats.current_allocation_bytes = stats.current_allocation_bytes + allocation_bytes;
    stats.live_buffers = stats.live_buffers + 1;
    stats.allocation_count = stats.allocation_count + 1;
    stats.peak_logical_bytes = max_u64(stats.peak_logical_bytes, stats.current_logical_bytes);
    stats.peak_allocation_bytes =
    max_u64(stats.peak_allocation_bytes, stats.current_allocation_bytes);
    stats.peak_live_buffers = max_u64(stats.peak_live_buffers, stats.live_buffers);
}

/// Count a released buffer, and tell whether the counters were too small for it.
fn decrease(stats: &mut BufferTelemetryStats, logical_bytes: u64, allocation_bytes: u64) -> (r: bool)
    requires
        old(stats).free_count < u64::MAX,
    ensures
        *final(stats) == old(stats).decreased(logical_bytes, allocation_bytes),
        r == old(stats).underflows(logical_bytes, allocation_bytes),
{
    let underflow = stats.current_logical_bytes < logical_bytes || stats.current_allocation_bytes
        < allocation_bytes || stats.live_buffers == 0;
    if underflow {
        stats.current_logical_bytes = stats.current_logical_bytes.saturating_sub(logical_bytes);
        stats.current_allocation_bytes =
        stats.current_allocation_bytes.saturating_sub(allocation_bytes);
        stats.live_buffers = stats.live_buffers.saturating_sub(1);
    } else {
        stats.current_logical_bytes = stats.current_logical_bytes - logical_bytes;
        stats.current_allocation_bytes = stats.current_allocation_bytes - allocation_bytes;
        stats.live_buffers = stats.live_buffers - 1;
    }
    stats.free_count = stats.free_count + 1;
    underflow
}

/// Counters of the buffers of one label and type.
#[derive(Debug)]
pub struct BufferLabelTelemetry {
    pub label: String,
    pub buffer_type: BufferType,
    pub stats: BufferTelemetryStats,
}

/// Counters of one device.
#[derive(Debug)]
pub struct BufferDeviceTelemetry {
    pub device_id: u64,
    pub device_name: String,
    pub queue_index: usize,
    pub total: BufferTelemetryStats,
    pub by_type: Vec<(BufferType, BufferTelemetryStats)>,
    pub by_label: Vec<BufferLabelTelemetry>,
}

/// Counters of all devices.
#[derive(Debug)]
pub struct BufferTelemetrySnapshot {
    pub devices: Vec<BufferDeviceTelemetry>,
}

/// Type and label of a group of buffers.
pub type LabelKey = (BufferType, Seq<char>);

/// What is known of one device.
#[verifier::ext_equal]
pub ghost struct DeviceView {
    pub device_name: Seq<char>,
    pub queue_index: nat,
    pub total: BufferTelemetryStats,
    pub by_type: Map<BufferType, BufferTelemetryStats>,
    pub by_label: Map<LabelKey, BufferTelemetryStats>,
}

/// The label list as pairs.
pub open spec fn label_entries(
    list: Seq<BufferLabelTelemetry>,
) -> Seq<(LabelKey, BufferTelemetryStats)> {
    list.map_values(|entry: BufferLabelTelemetry| ((entry.buffer_type, entry.label@), entry.stats))
}

/// The first key is listed before the second one: by type, then by label.
pub open spec fn label_before(a: LabelKey, b: LabelKey) -> bool {
    a.0.spec_rank() < b.0.spec_rank() || (a.0 == b.0 && precedes(a.1, b.1))
}

/// The list is ordered by type.
pub open spec fn types_ordered(list: Seq<(BufferType, BufferTelemetryStats)>) -> bool {
    forall|i: int, j: int|
        0 <= i < j < list.len() ==> (#[trigger] list[i]).0.spec_rank() < (
        #[trigger] list[j]).0.spec_rank()
}

/// The list is ordered by type and label.
pub open spec fn labels_ordered(list: Seq<(LabelKey, BufferTelemetryStats)>) -> bool {
    forall|i: int, j: int|
        0 <= i < j < list.len() ==> label_before((#[trigger] list[i]).0, (#[trigger] list[j]).0)
}

impl View for BufferDeviceTelemetry {
    type V = DeviceView;

    open spec fn view(&self) -> DeviceView {
        DeviceView {
            device_name: self.device_name@,
            queue_index: self.queue_index as nat,
            total: self.total,
            by_type: entries_map(self.by_type@),
            by_label: entries_map(label_entries(self.by_label@)),
        }
    }
}

impl BufferDeviceTelemetry {
    /// The lists are ordered.
    pub open spec fn wf(&self) -> bool {
        types_ordered(self.by_type@) && labels_ordered(label_entries(self.by_label@))
    }
}

/// The device list as pairs.
pub open spec fn device_entries(list: Seq<BufferDeviceTelemetry>) -> Seq<(u64, DeviceView)> {
    list.map_values(|device: BufferDeviceTelemetry| (device.device_id, device@))
}

/// The devices are ordered by number and each of them is ordered inside.
pub open spec fn devices_ordered(list: Seq<BufferDeviceTelemetry>) -> bool {
    &&& forall|i: int, j: int|
        0 <= i < j < list.len() ==> (#[trigger] list[i]).device_id < (#[trigger] list[j]).device_id
    &&& forall|i: int| 0 <= i < list.len() ==> (#[trigger] list[i]).wf()
}

proof fn lemma_types_distinct(list: Seq<(BufferType, BufferTelemetryStats)>)
    requires
        types_ordered(list),
    ensures
        distinct_keys(list),
{
}

proof fn lemma_labels_distinct(list: Seq<(LabelKey, BufferTelemetryStats)>)
    requires
        labels_ordered(list),
    ensures
        distinct_keys(list),
{
    assert forall|i: int, j: int| 0 <= i < j < list.len() implies (#[trigger] list[i]).0 != (
    #[trigger] list[j]).0 by {
        assert(label_before(list[i].0, list[j].0));
        lemma_precedes(list[i].0.1, list[i].0.1, list[i].0.1);
    }
}

proof fn lemma_devices_distinct(list: Seq<BufferDeviceTelemetry>)
    requires
        devices_ordered(list),
    ensures
        distinct_keys(device_entries(list)),
{
    let entries = device_entries(list);
    assert forall|i: int, j: int| 0 <= i < j < entries.len() implies (#[trigger] entries[i]).0 != (
    #[trigger] entries[j]).0 by {
        assert(list[i].device_id < list[j].device_id);
    }
}

/// The counters of a key, or empty ones.
pub open spec fn stats_or_none<K>(
    map: Map<K, BufferTelemetryStats>,
    key: K,
) -> BufferTelemetryStats {
    if map.contains_key(key) {
        map[key]
    } else {
        no_stats()
    }
}

/// Where a type stands or belongs.
fn type_position(
    list: &Vec<(BufferType, BufferTelemetryStats)>,
    buffer_type: BufferType,
) -> (p: usize)
    requires
        types_ordered(list@),
    ensures
        p <= list@.len(),
        forall|i: int|
            0 <= i < p ==> (#[trigger] list@[i]).0.spec_rank() < buffer_type.spec_rank(),
        forall|i: int|
            p <= i < list@.len() ==> (#[trigger] list@[i]).0.spec_rank()
                >= buffer_type.spec_rank(),
{
    let mut p: usize = 0;
    while p < list.len() && list[p].0.rank() < buffer_type.rank()
        invariant
            p <= list@.len(),
            forall|i: int|
                0 <= i < p ==> (#[trigger] list@[i]).0.spec_rank() < buffer_type.spec_rank(),
        decreases list@.len() - p,
    {
        p = p + 1;
    }
    proof {
        if p < list@.len() {
            assert forall|i: int| p <= i < list@.len() implies (
            #[trigger] list@[i]).0.spec_rank() >= buffer_type.spec_rank() by {
                if i > p {
                    assert(list@[p as int].0.spec_rank() < list@[i].0.spec_rank());
                }
            }
        }
    }
    p
}

/// Where a type and label stand or belong.
fn label_position(
    list: &Vec<BufferLabelTelemetry>,
    buffer_type: BufferType,
    label: &str,
) -> (r: (usize, bool))
    requires
        labels_ordered(label_entries(list@)),
    ensures
        r.0 <= list@.len(),
        r.1 ==> r.0 < list@.len() && label_entries(list@)[r.0 as int].0 == (buffer_type, label@),
        !r.1 ==> !has_key(label_entries(list@), (buffer_type, label@)),
        forall|i: int|
            0 <= i < r.0 ==> label_before(
                (#[trigger] label_entries(list@)[i]).0,
                (buffer_type, label@),
            ),
        !r.1 ==> forall|i: int|
            r.0 <= i < list@.len() ==> label_before(
                (buffer_type, label@),
                (#[trigger] label_entries(list@)[i]).0,
            ),
{
    let ghost entries = label_entries(list@);
    let ghost key = (buffer_type, label@);
    let mut p: usize = 0;
    while p < list.len()
        invariant
            p <= list@.len(),
            entries == label_entries(list@),
            key == (buffer_type, label@),
            labels_ordered(entries),
            forall|i: int| 0 <= i < p ==> label_before((#[trigger] entries[i]).0, key),
        decreases list@.len() - p,
    {
        let mine: u8 = list[p].buffer_type.rank();
        let wanted: u8 = buffer_type.rank();
        let order = if mine < wanted {
            TextOrder::Before
        } else if mine > wanted {
            TextOrder::After
        } else {
            text_order(list[p].label.as_str(), label)
        };
        proof {
            assert(entries[p as int].0 == (
                list@[p as int].buffer_type,
                list@[p as int].label@,
            ));
        }
        match order {
            TextOrder::Before => {
                p = p + 1;
            },
            TextOrder::Same => {
                return (p, true);
            },
            TextOrder::After => {
                proof {
                    assert(label_before(key, entries[p as int].0));
                    assert forall|i: int| p <= i < list@.len() implies label_before(
                        key,
                        (#[trigger] entries[i]).0,
                    ) by {
                        if i > p {
                            assert(label_before(entries[p as int].0, entries[i].0));
                            lemma_precedes(key.1, entries[p as int].0.1, entries[i].0.1);
                        }
                    }
                    lemma_label_absent(entries, key, p as int);
                }
                return (p, false);
            },
        }
    }
    proof {
        lemma_label_absent(entries, key, p as int);
    }
    (p, false)
}

/// A key that lies between two neighbours is not in the list.
proof fn lemma_label_absent(
    entries: Seq<(LabelKey, BufferTelemetryStats)>,
    key: LabelKey,
    p: int,
)
    requires
        0 <= p <= entries.len(),
        forall|i: int| 0 <= i < p ==> label_before((#[trigger] entries[i]).0, key),
        forall|i: int| p <= i < entries.len() ==> label_before(key, (#[trigger] entries[i]).0),
    ensures
        !has_key(entries, key),
{
    lemma_precedes(key.1, key.1, key.1);
    if has_key(entries, key) {
        let i = choose|i: int| 0 <= i < entries.len() && (#[trigger] entries[i]).0 == key;
        if i < p {
            assert(label_before(entries[i].0, key));
        } else {
            assert(label_before(key, entries[i].0));
        }
    }
}

/// Look up the counters of a type.
fn get_type(
    list: &Vec<(BufferType, BufferTelemetryStats)>,
    buffer_type: BufferType,
) -> (r: Option<BufferTelemetryStats>)
    requires
        types_ordered(list@),
    ensures
        match r {
            Some(stats) => entries_map(list@).contains_key(buffer_type) && entries_map(
                list@,
            )[buffer_type] == stats,
            None => !entries_map(list@).contains_key(buffer_type),
        },
{
    let p: usize = type_position(list, buffer_type);
    proof {
        lemma_types_distinct(list@);
        lemma_entries_map(list@);
    }
    if p < list.len() && list[p].0.rank() == buffer_type.rank() {
        proof {
            assert(list@[p as int].0 == buffer_type);
        }
        Some(list[p].1)
    } else {
        proof {
            if has_key(list@, buffer_type) {
                let i = choose|i: int|
                    0 <= i < list@.len() && (#[trigger] list@[i]).0 == buffer_type;
                assert(i == p || list@[p as int].0.spec_rank() < list@[i].0.spec_rank() || i < p);
            }
        }
        None
    }
}

/// Set the counters of a type.
fn put_type(
    list: &mut Vec<(BufferType, BufferTelemetryStats)>,
    buffer_type: BufferType,
    stats: BufferTelemetryStats,
)
    requires
        types_ordered(old(list)@),
    ensures
        types_ordered(final(list)@),
        entries_map(final(list)@) == entries_map(old(list)@).insert(buffer_type, stats),
{
    let p: usize = type_position(list, buffer_type);
    let ghost before = list@;
    proof {
        lemma_types_distinct(before);
    }
    if p < list.len() && list[p].0.rank() == buffer_type.rank() {
        proof {
            assert(before[p as int].0 == buffer_type);
            lemma_entries_update(before, p as int, stats);
        }
        list.set(p, (buffer_type, stats));
        proof {
            assert forall|i: int, j: int| 0 <= i < j < list@.len() implies (
            #[trigger] list@[i]).0.spec_rank() < (#[trigger] list@[j]).0.spec_rank() by {
                assert(list@[i].0 == before[i].0 && list@[j].0 == before[j].0);
            }
        }
    } else {
        proof {
            if has_key(before, buffer_type) {
                let i = choose|i: int|
                    0 <= i < before.len() && (#[trigger] before[i]).0 == buffer_type;
                assert(i == p || before[p as int].0.spec_rank() < before[i].0.spec_rank() || i < p);
            }
            lemma_entries_insert(before, p as int, buffer_type, stats);
        }
        list.insert(p, (buffer_type, stats));
        proof {
            assert forall|i: int, j: int| 0 <= i < j < list@.len() implies (
            #[trigger] list@[i]).0.spec_rank() < (#[trigger] list@[j]).0.spec_rank() by {
                let x = if i < p {
                    before[i].0
                } else if i == p {
                    buffer_type
                } else {
                    before[i - 1].0
                };
                let y = if j < p {
                    before[j].0
                } else if j == p {
                    buffer_type
                } else {
                    before[j - 1].0
                };
                assert(list@[i].0 == x && list@[j].0 == y);
            }
        }
    }
}

/// Look up the counters of a type and label.
fn get_label(
    list: &Vec<BufferLabelTelemetry>,
    buffer_type: BufferType,
    label: &str,
) -> (r: Option<BufferTelemetryStats>)
    requires
        labels_ordered(label_entries(list@)),
    ensures
        match r {
            Some(stats) => entries_map(label_entries(list@)).contains_key((buffer_type, label@))
                && entries_map(label_entries(list@))[(buffer_type, label@)] == stats,
            None => !entries_map(label_entries(list@)).contains_key((buffer_type, label@)),
        },
{
    let (p, found) = label_position(list, buffer_type, label);
    proof {
        lemma_labels_distinct(label_entries(list@));
        lemma_entries_map(label_entries(list@));
    }
    if found {
        proof {
            assert(label_entries(list@)[p as int].1 == list@[p as int].stats);
        }
        Some(list[p].stats)
    } else {
        None
    }
}

/// Set the counters of a type and label.
fn put_label(
    list: &mut Vec<BufferLabelTelemetry>,
    buffer_type: BufferType,
    label: &str,
    stats: BufferTelemetryStats,
)
    requires
        labels_ordered(label_entries(old(list)@)),
    ensures
        labels_ordered(label_entries(final(list)@)),
        entries_map(label_entries(final(list)@)) == entries_map(
            label_entries(old(list)@),
        ).insert((buffer_type, label@), stats),
{
    let (p, found) = label_position(list, buffer_type, label);
    let ghost before = label_entries(list@);
    let ghost key = (buffer_type, label@);
    proof {
        lemma_labels_distinct(before);
    }
    let entry = BufferLabelTelemetry { label: label.to_owned(), buffer_type, stats };
    if found {
        proof {
            lemma_entries_update(before, p as int, stats);
        }
        list.set(p, entry);
        proof {
            let after = label_entries(list@);
            assert(after =~= before.update(p as int, (key, stats)));
            assert forall|i: int, j: int| 0 <= i < j < after.len() implies label_before(
                (#[trigger] after[i]).0,
                (#[trigger] after[j]).0,
            ) by {
                assert(after[i].0 == before[i].0 && after[j].0 == before[j].0);
            }
        }
    } else {
        proof {
            lemma_entries_insert(before, p as int, key, stats);
        }
        list.insert(p, entry);
        proof {
            let after = label_entries(list@);
            assert(after =~= before.insert(p as int, (key, stats)));
            assert forall|i: int, j: int| 0 <= i < j < after.len() implies label_before(
                (#[trigger] after[i]).0,
                (#[trigger] after[j]).0,
            ) by {
                let x = if i < p {
                    before[i].0
                } else if i == p {
                    key
                } else {
                    before[i - 1].0
                };
                let y = if j < p {
                    before[j].0
                } else if j == p {
                    key
                } else {
                    before[j - 1].0
                };
                assert(after[i].0 == x && after[j].0 == y);
            }
        }
    }
}

impl DeviceView {
    /// A device without buffers.
    pub open spec fn fresh(device_name: Seq<char>, queue_index: nat) -> DeviceView {
        DeviceView {
            device_name,
            queue_index,
            total: no_stats(),
            by_type: Map::empty(),
            by_label: Map::empty(),
        }
    }

    /// One more buffer can be counted on the device, for its type and for its label.
    pub open spec fn has_room(
        self,
        label: Seq<char>,
        buffer_type: BufferType,
        logical_bytes: u64,
        allocation_bytes: u64,
    ) -> bool {
        &&& self.total.has_room(logical_bytes, allocation_bytes)
        &&& stats_or_none(self.by_type, buffer_type).has_room(logical_bytes, allocation_bytes)
        &&& stats_or_none(self.by_label, (buffer_type, label)).has_room(
            logical_bytes,
            allocation_bytes,
        )
    }

    /// The device with one more buffer.
    pub open spec fn allocated(
        self,
        label: Seq<char>,
        buffer_type: BufferType,
        logical_bytes: u64,
        allocation_bytes: u64,
    ) -> DeviceView {
        let key = (buffer_type, label);
        DeviceView {
            total: self.total.increased(logical_bytes, allocation_bytes),
            by_type: self.by_type.insert(
                buffer_type,
                stats_or_none(self.by_type, buffer_type).increased(
                    logical_bytes,
                    allocation_bytes,
                ),
            ),
            by_label: self.by_label.insert(
                key,
                stats_or_none(self.by_label, key).increased(logical_bytes, allocation_bytes),
            ),
            ..self
        }
    }

    /// One more release can be counted.
    pub open spec fn can_release(self, label: Seq<char>, buffer_type: BufferType) -> bool {
        &&& self.total.free_count < u64::MAX
        &&& stats_or_none(self.by_type, buffer_type).free_count < u64::MAX
        &&& stats_or_none(self.by_label, (buffer_type, label)).free_count < u64::MAX
    }

    /// The device with one buffer less. Where the type is not known, the label is not looked at.
    pub open spec fn released(
        self,
        label: Seq<char>,
        buffer_type: BufferType,
        logical_bytes: u64,
        allocation_bytes: u64,
    ) -> DeviceView {
        let key = (buffer_type, label);
        let total = self.total.decreased(logical_bytes, allocation_bytes);
        if !self.by_type.contains_key(buffer_type) {
            DeviceView { total, ..self }
        } else {
            let by_type = self.by_type.insert(
                buffer_type,
                self.by_type[buffer_type].decreased(logical_bytes, allocation_bytes),
            );
            if !self.by_label.contains_key(key) {
                DeviceView { total, by_type, ..self }
            } else {
                DeviceView {
                    total,
                    by_type,
                    by_label: self.by_label.insert(
                        key,
                        self.by_label[key].decreased(logical_bytes, allocation_bytes),
                    ),
                    ..self
                }
            }
        }
    }

    /// No peak of the device is below its current value.
    pub open spec fn peaks_hold(self) -> bool {
        &&& self.total.wf()
        &&& forall|t: BufferType|
            self.by_type.contains_key(t) ==> (#[trigger] self.by_type[t]).wf()
        &&& forall|key: LabelKey|
            self.by_label.contains_key(key) ==> (#[trigger] self.by_label[key]).wf()
    }
}

/// Counting and releasing keeps every peak at or above its current value.
pub proof fn lemma_device_peaks(
    device: DeviceView,
    label: Seq<char>,
    buffer_type: BufferType,
    logical_bytes: u64,
    allocation_bytes: u64,
)
    requires
        device.peaks_hold(),
    ensures
        device.has_room(label, buffer_type, logical_bytes, allocation_bytes) ==> device.allocated(
            label,
            buffer_type,
            logical_bytes,
            allocation_bytes,
        ).peaks_hold(),
        device.released(label, buffer_type, logical_bytes, allocation_bytes).peaks_hold(),
{
    let key = (buffer_type, label);
    lemma_peaks(device.total, logical_bytes, allocation_bytes);
    lemma_peaks(stats_or_none(device.by_type, buffer_type), logical_bytes, allocation_bytes);
    lemma_peaks(stats_or_none(device.by_label, key), logical_bytes, allocation_bytes);
}

/// Releasing a buffer after counting it restores the current counters of the device, of the type
/// and of the label, raises both of their event counts by one, lowers no peak, and touches no other
/// type or label.
pub proof fn lemma_device_release_undoes_allocation(
    device: DeviceView,
    label: Seq<char>,
    buffer_type: BufferType,
    logical_bytes: u64,
    allocation_bytes: u64,
)
    requires
        device.has_room(label, buffer_type, logical_bytes, allocation_bytes),
        device.can_release(label, buffer_type),
    ensures
        ({
            let key = (buffer_type, label);
            let back = device.allocated(
                label,
                buffer_type,
                logical_bytes,
                allocation_bytes,
            ).released(label, buffer_type, logical_bytes, allocation_bytes);
            &&& one_event_later(back.total, device.total)
            &&& one_event_later(
                back.by_type[buffer_type],
                stats_or_none(device.by_type, buffer_type),
            )
            &&& one_event_later(back.by_label[key], stats_or_none(device.by_label, key))
            &&& forall|t: BufferType|
                t != buffer_type ==> stats_or_none(back.by_type, t) == #[trigger] stats_or_none(
                    device.by_type,
                    t,
                )
            &&& forall|k: LabelKey|
                k != key ==> stats_or_none(back.by_label, k) == #[trigger] stats_or_none(
                    device.by_label,
                    k,
                )
        }),
{
    let key = (buffer_type, label);
    lemma_release_undoes_allocation(device.total, logical_bytes, allocation_bytes);
    lemma_release_undoes_allocation(
        stats_or_none(device.by_type, buffer_type),
        logical_bytes,
        allocation_bytes,
    );
    lemma_release_undoes_allocation(
        stats_or_none(device.by_label, key),
        logical_bytes,
        allocation_bytes,
    );
}

/// What the ledger knew of a released buffer. The flags tell which counters were too small for
/// it and stopped at zero.
#[derive(Clone, Copy, Debug, PartialEq, Eq, Structural)]
pub enum BufferFreeOutcome {
    MissingDevice,
    MissingType { total_underflow: bool },
    MissingLabel { total_underflow: bool, type_underflow: bool },
    Recorded { total_underflow: bool, type_underflow: bool, label_underflow: bool },
}

/// What releasing a buffer of a device reports.
pub open spec fn free_outcome(
    device: DeviceView,
    label: Seq<char>,
    buffer_type: BufferType,
    logical_bytes: u64,
    allocation_bytes: u64,
) -> BufferFreeOutcome {
    let key = (buffer_type, label);
    let total_underflow = device.total.underflows(logical_bytes, allocation_bytes);
    if !device.by_type.contains_key(buffer_type) {
        BufferFreeOutcome::MissingType { total_underflow }
    } else {
        let type_underflow = device.by_type[buffer_type].underflows(
            logical_bytes,
            allocation_bytes,
        );
        if !device.by_label.contains_key(key) {
            BufferFreeOutcome::MissingLabel { total_underflow, type_underflow }
        } else {
            BufferFreeOutcome::Recorded {
                total_underflow,
                type_underflow,
                label_underflow: device.by_label[key].underflows(logical_bytes, allocation_bytes),
            }
        }
    }
}

fn stats_or_default(stats: Option<BufferTelemetryStats>) -> (r: BufferTelemetryStats)
    ensures
        r == (match stats {
            Some(s) => s,
            None => no_stats(),
        }),
{
    match stats {
        Some(s) => s,
        None => BufferTelemetryStats::default(),
    }
}

/// Tell whether one more buffer can be counted.
fn stats_have_room(
    stats: &BufferTelemetryStats,
    logical_bytes: u64,
    allocation_bytes: u64,
) -> (r: bool)
    ensures
        r == stats.has_room(logical_bytes, allocation_bytes),
{
    logical_bytes <= u64::MAX - stats.current_logical_bytes && allocation_bytes <= u64::MAX
        - stats.current_allocation_bytes && stats.live_buffers < u64::MAX && stats.allocation_count
        < u64::MAX
}

impl BufferDeviceTelemetry {
    fn record(
        &mut self,
        label: &str,
        buffer_type: BufferType,
        logical_bytes: u64,
        allocation_bytes: u64,
    )
        requires
            old(self).wf(),
            old(self)@.has_room(label@, buffer_type, logical_bytes, allocation_bytes),
        ensures
            final(self).wf(),
            final(self).device_id == old(self).device_id,
            final(self)@ == old(self)@.allocated(
                label@,
                buffer_type,
                logical_bytes,
                allocation_bytes,
            ),
    {
        let mut of_type = stats_or_default(get_type(&self.by_type, buffer_type));
        let mut of_label = stats_or_default(get_label(&self.by_label, buffer_type, label));
        increase(&mut self.total, logical_bytes, allocation_bytes);
        increase(&mut of_type, logical_bytes, allocation_bytes);
        put_type(&mut self.by_type, buffer_type, of_type);
        increase(&mut of_label, logical_bytes, allocation_bytes);
        put_label(&mut self.by_label, buffer_type, label, of_label);
        proof {
            assert(self@ =~= old(self)@.allocated(
                label@,
                buffer_type,
                logical_bytes,
                allocation_bytes,
            ));
        }
    }

    fn release(
        &mut self,
        label: &str,
        buffer_type: BufferType,
        logical_bytes: u64,
        allocation_bytes: u64,
    ) -> (r: BufferFreeOutcome)
        requires
            old(self).wf(),
            old(self)@.can_release(label@, buffer_type),
        ensures
            final(self).wf(),
            final(self).device_id == old(self).device_id,
            final(self)@ == old(self)@.released(
                label@,
                buffer_type,
                logical_bytes,
                allocation_bytes,
            ),
            r == free_outcome(
                old(self)@,
                label@,
                buffer_type,
                logical_bytes,
                allocation_bytes,
            ),
    {
        let known_type = get_type(&self.by_type, buffer_type);
        let known_label = get_label(&self.by_label, buffer_type, label);
        let total_underflow = decrease(&mut self.total, logical_bytes, allocation_bytes);
        match known_type {
            None => BufferFreeOutcome::MissingType { total_underflow },
            Some(stats) => {
                let mut of_type = stats;
                let type_underflow = decrease(&mut of_type, logical_bytes, allocation_bytes);
                put_type(&mut self.by_type, buffer_type, of_type);
                match known_label {
                    None => BufferFreeOutcome::MissingLabel { total_underflow, type_underflow },
                    Some(stats) => {
                        let mut of_label = stats;
                        let label_underflow = decrease(
                            &mut of_label,
                            logical_bytes,
                            allocation_bytes,
                        );
                        put_label(&mut self.by_label, buffer_type, label, of_label);
                        BufferFreeOutcome::Recorded {
                            total_underflow,
                            type_underflow,
                            label_underflow,
                        }
                    },
                }
            },
        }
    }
}

/// The device that buffers are allocated on.
#[derive(Debug)]
pub struct Device {
    pub telemetry_id: u64,
    pub name: String,
    pub telemetry_queue_index: usize,
}

/// The ledger of all devices.
#[derive(Debug)]
pub struct BufferTelemetryLedger {
    devices: Vec<BufferDeviceTelemetry>,
}

impl View for BufferTelemetryLedger {
    type V = Map<u64, DeviceView>;

    closed spec fn view(&self) -> Map<u64, DeviceView> {
        entries_map(device_entries(self.devices@))
    }
}

/// The device of a number, or a fresh one.
pub open spec fn device_or_fresh(
    ledger: Map<u64, DeviceView>,
    device_id: u64,
    device_name: Seq<char>,
    queue_index: nat,
) -> DeviceView {
    if ledger.contains_key(device_id) {
        ledger[device_id]
    } else {
        DeviceView::fresh(device_name, queue_index)
    }
}

impl BufferTelemetryLedger {
    closed spec fn ordered(&self) -> bool {
        devices_ordered(self.devices@)
    }

    /// The ledger is in order, and no peak is below its current value.
    pub closed spec fn wf(&self) -> bool {
        &&& self.ordered()
        &&& forall|id: u64| self@.contains_key(id) ==> (#[trigger] self@[id]).peaks_hold()
    }

    /// No peak of a ledger in order is below its current value.
    pub proof fn lemma_wf_peaks(&self)
        requires
            self.wf(),
        ensures
            forall|id: u64| self@.contains_key(id) ==> (#[trigger] self@[id]).peaks_hold(),
    {
    }

    /// A ledger without devices.
    pub fn new() -> (ledger: Self)
        ensures
            ledger.wf(),
            ledger@ == Map::<u64, DeviceView>::empty(),
    {
        BufferTelemetryLedger { devices: Vec::new() }
    }

    /// Where a device stands or belongs.
    fn device_position(&self, device_id: u64) -> (r: (usize, bool))
        requires
            self.ordered(),
        ensures
            r.0 <= self.devices@.len(),
            r.1 == self@.contains_key(device_id),
            r.1 ==> r.0 < self.devices@.len() && self.devices@[r.0 as int].device_id == device_id
                && self.devices@[r.0 as int]@ == self@[device_id],
            !r.1 ==> !has_key(device_entries(self.devices@), device_id),
            forall|i: int|
                0 <= i < r.0 ==> (#[trigger] self.devices@[i]).device_id < device_id,
            !r.1 ==> forall|i: int|
                r.0 <= i < self.devices@.len() ==> (#[trigger] self.devices@[i]).device_id
                    > device_id,
    {
        let ghost entries = device_entries(self.devices@);
        let mut p: usize = 0;
        while p < self.devices.len() && self.devices[p].device_id < device_id
            invariant
                p <= self.devices@.len(),
                forall|i: int|
                    0 <= i < p ==> (#[trigger] self.devices@[i]).device_id < device_id,
            decreases self.devices@.len() - p,
        {
            p = p + 1;
        }
        let found = p < self.devices.len() && self.devices[p].device_id == device_id;
        proof {
            lemma_devices_distinct(self.devices@);
            lemma_entries_map(entries);
            if found {
                assert(entries[p as int] == (device_id, self.devices@[p as int]@));
            } else {
                assert forall|i: int| p <= i < self.devices@.len() implies (
                #[trigger] self.devices@[i]).device_id > device_id by {
                    if i > p {
                        assert(self.devices@[p as int].device_id < self.devices@[i].device_id);
                    }
                }
                if has_key(entries, device_id) {
                    let i = choose|i: int|
                        0 <= i < entries.len() && (#[trigger] entries[i]).0 == device_id;
                    assert(self.devices@[i].device_id == device_id);
                }
            }
        }
        (p, found)
    }

    /// Tell whether one more buffer can be counted without overflowing a counter.
    pub fn can_record_allocation(
        &self,
        device_id: u64,
        label: &str,
        buffer_type: BufferType,
        logical_bytes: u64,
        allocation_bytes: u64,
    ) -> (r: bool)
        requires
            self.wf(),
        ensures
            r == device_or_fresh(self@, device_id, Seq::empty(), 0).has_room(
                label@,
                buffer_type,
                logical_bytes,
                allocation_bytes,
            ),
    {
        let (p, found) = self.device_position(device_id);
        if found {
            let device = &self.devices[p];
            proof {
                assert(device.wf());
            }
            stats_have_room(&device.total, logical_bytes, allocation_bytes) && stats_have_room(
                &stats_or_default(get_type(&device.by_type, buffer_type)),
                logical_bytes,
                allocation_bytes,
            ) && stats_have_room(
                &stats_or_default(get_label(&device.by_label, buffer_type, label)),
                logical_bytes,
                allocation_bytes,
            )
        } else {
            stats_have_room(&BufferTelemetryStats::default(), logical_bytes, allocation_bytes)
        }
    }

    /// Count a buffer of a device.
    ///
    /// The result tells whether the device was known under another name or queue. The known
    /// identity is kept.
    pub fn record_allocation(
        &mut self,
        device_id: u64,
        device_name: &str,
        queue_index: usize,
        label: &str,
        buffer_type: BufferType,
        logical_bytes: u64,
        allocation_bytes: u64,
    ) -> (collision: bool)
        requires
            old(self).wf(),
            device_or_fresh(old(self)@, device_id, device_name@, queue_index as nat).has_room(
                label@,
                buffer_type,
                logical_bytes,
                allocation_bytes,
            ),
        ensures
            final(self).wf(),
            final(self)@ == old(self)@.insert(
                device_id,
                device_or_fresh(
                    old(self)@,
                    device_id,
                    device_name@,
                    queue_index as nat,
                ).allocated(label@, buffer_type, logical_bytes, allocation_bytes),
            ),
            collision == (old(self)@.contains_key(device_id) && (
            old(self)@[device_id].device_name != device_name@ || old(self)@[device_id].queue_index
                != queue_index)),
    {
        let (p, found) = self.device_position(device_id);
        let ghost given = self@;
        let ghost device = device_or_fresh(given, device_id, device_name@, queue_index as nat);
        proof {
            lemma_devices_distinct(self.devices@);
        }
        if !found {
            let fresh = BufferDeviceTelemetry {
                device_id,
                device_name: device_name.to_owned(),
                queue_index,
                total: BufferTelemetryStats::default(),
                by_type: Vec::new(),
                by_label: Vec::new(),
            };
            let ghost before = self.devices@;
            proof {
                assert(label_entries(fresh.by_label@) =~= Seq::empty());
                assert(fresh@ =~= device);
                lemma_entries_insert(
                    device_entries(before),
                    p as int,
                    device_id,
                    fresh@,
                );
            }
            self.devices.insert(p, fresh);
            proof {
                assert(device_entries(self.devices@) =~= device_entries(before).insert(
                    p as int,
                    (device_id, fresh@),
                ));
                assert forall|i: int, j: int| 0 <= i < j < self.devices@.len() implies (
                #[trigger] self.devices@[i]).device_id < (
                #[trigger] self.devices@[j]).device_id by {
                    let x = if i < p {
                        before[i].device_id
                    } else if i == p {
                        device_id
                    } else {
                        before[i - 1].device_id
                    };
                    let y = if j < p {
                        before[j].device_id
                    } else if j == p {
                        device_id
                    } else {
                        before[j - 1].device_id
                    };
                    assert(self.devices@[i].device_id == x && self.devices@[j].device_id == y);
                }
                assert forall|i: int| 0 <= i < self.devices@.len() implies (
                #[trigger] self.devices@[i]).wf() by {
                    if i < p {
                        assert(self.devices@[i] == before[i]);
                    } else if i > p {
                        assert(self.devices@[i] == before[i - 1]);
                    }
                }
            }
        }
        let collision = text_order(self.devices[p].device_name.as_str(), device_name)
            != TextOrder::Same || self.devices[p].queue_index != queue_index;
        let ghost middle = self.devices@;
        proof {
            assert(middle[p as int].wf());
            lemma_precedes(device_name@, device_name@, device_name@);
            lemma_precedes(middle[p as int].device_name@, device_name@, device_name@);
            lemma_devices_distinct(middle);
            assert(device_entries(middle)[p as int] == (device_id, device));
        }
        self.devices[p].record(label, buffer_type, logical_bytes, allocation_bytes);
        proof {
            let after = device.allocated(label@, buffer_type, logical_bytes, allocation_bytes);
            lemma_replaced_device(middle, self.devices@, p as int);
            assert(self@ == entries_map(device_entries(middle)).insert(device_id, after));
            assert(self@ =~= given.insert(device_id, after));
            if given.contains_key(device_id) {
                assert(given[device_id].peaks_hold());
            }
            lemma_device_peaks(device, label@, buffer_type, logical_bytes, allocation_bytes);
            assert forall|id: u64| self@.contains_key(id) implies (
            #[trigger] self@[id]).peaks_hold() by {
                if id != device_id {
                    assert(given[id].peaks_hold());
                }
            }
        }
        collision
    }

    /// Count a buffer of a device, from sizes in memory.
    pub fn record_buffer_allocation(
        &mut self,
        device: &Device,
        label: &str,
        buffer_type: BufferType,
        logical_bytes: usize,
        allocation_bytes: usize,
    ) -> (collision: bool)
        requires
            old(self).wf(),
            device_or_fresh(
                old(self)@,
                device.telemetry_id,
                device.name@,
                device.telemetry_queue_index as nat,
            ).has_room(label@, buffer_type, logical_bytes as u64, allocation_bytes as u64),
        ensures
            final(self).wf(),
            final(self)@ == old(self)@.insert(
                device.telemetry_id,
                device_or_fresh(
                    old(self)@,
                    device.telemetry_id,
                    device.name@,
                    device.telemetry_queue_index as nat,
                ).allocated(label@, buffer_type, logical_bytes as u64, allocation_bytes as u64),
            ),
            collision == (old(self)@.contains_key(device.telemetry_id) && (
            old(self)@[device.telemetry_id].device_name != device.name@
                || old(self)@[device.telemetry_id].queue_index != device.telemetry_queue_index)),
    {
        self.record_allocation(
            device.telemetry_id,
            device.name.as_str(),
            device.telemetry_queue_index,
            label,
            buffer_type,
            logical_bytes as u64,
            allocation_bytes as u64,
        )
    }

    /// Tell whether one more release can be counted without overflowing a counter.
    pub fn can_record_free(&self, device_id: u64, label: &str, buffer_type: BufferType) -> (r: bool)
        requires
            self.wf(),
        ensures
            r == (self@.contains_key(device_id) ==> self@[device_id].can_release(
                label@,
                buffer_type,
            )),
    {
        let (p, found) = self.device_position(device_id);
        if found {
            let device = &self.devices[p];
            proof {
                assert(device.wf());
            }
            device.total.free_count < u64::MAX && stats_or_default(
                get_type(&device.by_type, buffer_type),
            ).free_count < u64::MAX && stats_or_default(
                get_label(&device.by_label, buffer_type, label),
            ).free_count < u64::MAX
        } else {
            true
        }
    }

    /// Count a released buffer.
    pub fn record_buffer_free(
        &mut self,
        device_id: u64,
        label: &str,
        buffer_type: BufferType,
        logical_bytes: usize,
        allocation_bytes: usize,
    ) -> (r: BufferFreeOutcome)
        requires
            old(self).wf(),
            old(self)@.contains_key(device_id) ==> old(self)@[device_id].can_release(
                label@,
                buffer_type,
            ),
        ensures
            final(self).wf(),
            if old(self)@.contains_key(device_id) {
                &&& final(self)@ == old(self)@.insert(
                    device_id,
                    old(self)@[device_id].released(
                        label@,
                        buffer_type,
                        logical_bytes as u64,
                        allocation_bytes as u64,
                    ),
                )
                &&& r == free_outcome(
                    old(self)@[device_id],
                    label@,
                    buffer_type,
                    logical_bytes as u64,
                    allocation_bytes as u64,
                )
            } else {
                final(self)@ == old(self)@ && r == BufferFreeOutcome::MissingDevice
            },
    {
        let (p, found) = self.device_position(device_id);
        if !found {
            return BufferFreeOutcome::MissingDevice;
        }
        let ghost given = self@;
        let ghost before = self.devices@;
        proof {
            lemma_devices_distinct(before);
            assert(before[p as int].wf());
        }
        let r = self.devices[p].release(
            label,
            buffer_type,
            logical_bytes as u64,
            allocation_bytes as u64,
        );
        proof {
            let device = given[device_id];
            lemma_replaced_device(before, self.devices@, p as int);
            assert(device.peaks_hold());
            lemma_device_peaks(
                device,
                label@,
                buffer_type,
                logical_bytes as u64,
                allocation_bytes as u64,
            );
            assert forall|id: u64| self@.contains_key(id) implies (
            #[trigger] self@[id]).peaks_hold() by {
                if id != device_id {
                    assert(given[id].peaks_hold());
                }
            }
        }
        r
    }
}

/// Replacing one device by another state of it replaces its entry.
proof fn lemma_replaced_device(
    before: Seq<BufferDeviceTelemetry>,
    after: Seq<BufferDeviceTelemetry>,
    p: int,
)
    requires
        devices_ordered(before),
        0 <= p < before.len(),
        after.len() == before.len(),
        forall|i: int| 0 <= i < before.len() && i != p ==> #[trigger] after[i] == before[i],
        after[p].device_id == before[p].device_id,
        after[p].wf(),
    ensures
        devices_ordered(after),
        entries_map(device_entries(after)) == entries_map(device_entries(before)).insert(
            before[p].device_id,
            after[p]@,
        ),
{
    lemma_devices_distinct(before);
    let entries = device_entries(before);
    assert(entries[p].0 == before[p].device_id);
    lemma_entries_update(entries, p, after[p]@);
    assert(device_entries(after) =~= entries.update(p, (before[p].device_id, after[p]@)));
    assert forall|i: int, j: int| 0 <= i < j < after.len() implies (#[trigger] after[i]).device_id
        < (#[trigger] after[j]).device_id by {
        assert(after[i].device_id == before[i].device_id);
        assert(after[j].device_id == before[j].device_id);
    }
    assert forall|i: int| 0 <= i < after.len() implies (#[trigger] after[i]).wf() by {
        if i != p {
            assert(after[i] == before[i]);
        }
    }
}

/// A copy of a label list.
fn copy_labels(list: &Vec<BufferLabelTelemetry>) -> (r: Vec<BufferLabelTelemetry>)
    ensures
        label_entries(r@) == label_entries(list@),
{
    let mut r: Vec<BufferLabelTelemetry> = Vec::with_capacity(list.len());
    let mut i: usize = 0;
    while i < list.len()
        invariant
            i <= list@.len(),
            r@.len() == i,
            forall|j: int|
                0 <= j < i ==> (#[trigger] r@[j]).label@ == list@[j].label@ && r@[j].buffer_type
                    == list@[j].buffer_type && r@[j].stats == list@[j].stats,
        decreases list@.len() - i,
    {
        r.push(
            BufferLabelTelemetry {
                label: list[i].label.clone(),
                buffer_type: list[i].buffer_type,
                stats: list[i].stats,
            },
        );
        i = i + 1;
    }
    proof {
        assert(label_entries(r@) =~= label_entries(list@));
    }
    r
}

/// A copy of a type list.
fn copy_types(
    list: &Vec<(BufferType, BufferTelemetryStats)>,
) -> (r: Vec<(BufferType, BufferTelemetryStats)>)
    ensures
        r@ == list@,
{
    let mut r: Vec<(BufferType, BufferTelemetryStats)> = Vec::with_capacity(list.len());
    let mut i: usize = 0;
    while i < list.len()
        invariant
            i <= list@.len(),
            r@ == list@.take(i as int),
        decreases list@.len() - i,
    {
        r.push((list[i].0, list[i].1));
        proof {
            assert(list@.take(i + 1) =~= list@.take(i as int).push(list@[i as int]));
        }
        i = i + 1;
    }
    proof {
        assert(list@.take(i as int) =~= list@);
    }
    r
}

/// A copy of the ledger: the devices in the order of their numbers, their types in listing order,
/// their labels by type and then by text.
pub fn buffer_telemetry_snapshot(ledger: &BufferTelemetryLedger) -> (r: BufferTelemetrySnapshot)
    requires
        ledger.wf(),
    ensures
        devices_ordered(r.devices@),
        entries_map(device_entries(r.devices@)) == ledger@,
{
    let ghost given = ledger.devices@;
    let mut devices: Vec<BufferDeviceTelemetry> = Vec::with_capacity(ledger.devices.len());
    let mut i: usize = 0;
    while i < ledger.devices.len()
        invariant
            given == ledger.devices@,
            devices_ordered(given),
            i <= given.len(),
            devices@.len() == i,
            forall|j: int|
                0 <= j < i ==> (#[trigger] devices@[j]).device_id == given[j].device_id
                    && devices@[j]@ == given[j]@ && devices@[j].wf(),
        decreases given.len() - i,
    {
        let state = &ledger.devices[i];
        proof {
            assert(given[i as int].wf());
        }
        let device = BufferDeviceTelemetry {
            device_id: state.device_id,
            device_name: state.device_name.clone(),
            queue_index: state.queue_index,
            total: state.total,
            by_type: copy_types(&state.by_type),
            by_label: copy_labels(&state.by_label),
        };
        devices.push(device);
        i = i + 1;
    }
    proof {
        assert(device_entries(devices@) =~= device_entries(given));
        assert forall|a: int, b: int| 0 <= a < b < devices@.len() implies (
        #[trigger] devices@[a]).device_id < (#[trigger] devices@[b]).device_id by {
            assert(given[a].device_id < given[b].device_id);
        }
    }
    BufferTelemetrySnapshot { devices }
}

/// Two ordered listings of the same counters are the same listing.
pub proof fn lemma_listing_is_unique(a: Seq<BufferDeviceTelemetry>, b: Seq<BufferDeviceTelemetry>)
    requires
        devices_ordered(a),
        devices_ordered(b),
        entries_map(device_entries(a)) == entries_map(device_entries(b)),
    ensures
        device_entries(a) == device_entries(b),
{
    lemma_listing_prefix(a, b);
    lemma_listing_prefix(b, a);
    let x = device_entries(a);
    let y = device_entries(b);
    assert forall|i: int| 0 <= i < x.len() implies x[i] == y[i] by {
        assert(a[i].device_id == b[i].device_id);
        lemma_devices_distinct(a);
        lemma_devices_distinct(b);
        lemma_entries_map(x);
        lemma_entries_map(y);
        assert(x[i].0 == y[i].0);
    }
    assert(x =~= y);
}

/// The numbers of one listing are a prefix of the numbers of the other.
proof fn lemma_listing_prefix(a: Seq<BufferDeviceTelemetry>, b: Seq<BufferDeviceTelemetry>)
    requires
        devices_ordered(a),
        devices_ordered(b),
        entries_map(device_entries(a)) == entries_map(device_entries(b)),
    ensures
        a.len() <= b.len(),
        forall|i: int|
            0 <= i < a.len() ==> (#[trigger] a[i]).device_id == b[i].device_id,
{
    let x = device_entries(a);
    let y = device_entries(b);
    lemma_devices_distinct(a);
    lemma_devices_distinct(b);
    lemma_entries_map(x);
    lemma_entries_map(y);
    lemma_listing_step(a, b, a.len() as int);
}

proof fn lemma_listing_step(
    a: Seq<BufferDeviceTelemetry>,
    b: Seq<BufferDeviceTelemetry>,
    n: int,
)
    requires
        devices_ordered(a),
        devices_ordered(b),
        entries_map(device_entries(a)) == entries_map(device_entries(b)),
        0 <= n <= a.len(),
    ensures
        n <= b.len(),
        forall|i: int| 0 <= i < n ==> (#[trigger] a[i]).device_id == b[i].device_id,
    decreases n,
{
    if n > 0 {
        lemma_listing_step(a, b, n - 1);
        let x = device_entries(a);
        let y = device_entries(b);
        lemma_devices_distinct(a);
        lemma_devices_distinct(b);
        lemma_entries_map(x);
        lemma_entries_map(y);
        let id = a[n - 1].device_id;
        assert(x[n - 1].0 == id);
        assert(entries_map(y).contains_key(id));
        let p = choose|p: int| 0 <= p < y.len() && (#[trigger] y[p]).0 == id;
        assert(b[p].device_id == id);
        if p < n - 1 {
            assert(a[p].device_id == b[p].device_id);
            assert(a[p].device_id < a[n - 1].device_id);
        }
        if p > n - 1 {
            let other = b[n - 1].device_id;
            assert(b[n - 1].device_id < b[p].device_id);
            assert(y[n - 1].0 == other);
            assert(entries_map(x).contains_key(other));
            let q = choose|q: int| 0 <= q < x.len() && (#[trigger] x[q]).0 == other;
            assert(a[q].device_id == other);
            if q < n - 1 {
                assert(a[q].device_id == b[q].device_id);
                assert(b[q].device_id < b[n - 1].device_id);
            } else if q > n - 1 {
                assert(a[n - 1].device_id < a[q].device_id);
            }
        }
    }
}

} // verus!
