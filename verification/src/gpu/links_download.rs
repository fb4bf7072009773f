//! Reading links back from a device into a graph.

use vstd::prelude::*;

use crate::arith::min_usize;
use crate::buffer_telemetry::BufferType;
use crate::error::{
    always_stopped, can_poll, cancelled, check_process_stopped, may_stop, OperationError,
    OperationResult,
};
use crate::gpu::commands::{
    creations, executed, executed_all, lemma_transferred_push, overwrite, push_command, transferred,
    transferred_all, GpuCommand, Transfer,
};
use crate::gpu::links::{
    layer_fits, layer_image, layer_rows, layer_uploaded, lemma_placed_len, ready_for_upload,
    row_words, zeros, GpuLinks, LinksBuffer, LinksCommand, LinksDevice, LinksView,
};
use crate::graph::GraphLayers;
use crate::types::PointOffsetType;

verus! {

/// The point has links on the level.
pub open spec fn has_level(graph: GraphLayers, point_id: int, level: int) -> bool {
    0 <= point_id < graph.layers@.len() && 0 <= level < graph.layers@[point_id]@.len()
}

/// The points that have links on the level, in order.
pub open spec fn level_points(graph: GraphLayers, level: int, n: nat) -> Seq<PointOffsetType>
    decreases n,
{
    if n == 0 {
        Seq::empty()
    } else {
        let previous = level_points(graph, level, (n - 1) as nat);
        if has_level(graph, n - 1, level) {
            previous.push((n - 1) as PointOffsetType)
        } else {
            previous
        }
    }
}

/// The words of some points in the links buffer, one point after the other.
pub open spec fn rows_of(links: Seq<u32>, points: Seq<PointOffsetType>, stride: nat) -> Seq<u32>
    decreases points.len(),
{
    if points.len() == 0 {
        Seq::empty()
    } else {
        rows_of(links, points.drop_last(), stride) + links.subrange(
            points.last() * stride,
            points.last() * stride + stride,
        )
    }
}

/// The links in the words of a point.
pub open spec fn row_links(words: Seq<u32>, at: int) -> Seq<PointOffsetType> {
    words.subrange(at + 1, at + 1 + words[at])
}

/// The links that lead to points of the level.
pub open spec fn kept_links(
    graph: GraphLayers,
    level: int,
    links: Seq<PointOffsetType>,
) -> Seq<PointOffsetType>
    decreases links.len(),
{
    if links.len() == 0 {
        Seq::empty()
    } else {
        let previous = kept_links(graph, level, links.drop_last());
        if has_level(graph, links.last() as int, level) {
            previous.push(links.last())
        } else {
            previous
        }
    }
}

/// The links that lead to points below the level.
pub open spec fn bad_links(
    graph: GraphLayers,
    level: int,
    links: Seq<PointOffsetType>,
) -> Seq<PointOffsetType>
    decreases links.len(),
{
    if links.len() == 0 {
        Seq::empty()
    } else {
        let previous = bad_links(graph, level, links.drop_last());
        if has_level(graph, links.last() as int, level) {
            previous
        } else {
            previous.push(links.last())
        }
    }
}

/// The links of the first rows that lead to points below the level.
pub open spec fn all_bad_links(
    graph: GraphLayers,
    level: int,
    words: Seq<u32>,
    stride: nat,
    n: nat,
) -> Seq<PointOffsetType>
    decreases n,
{
    if n == 0 {
        Seq::empty()
    } else {
        all_bad_links(graph, level, words, stride, (n - 1) as nat) + bad_links(
            graph,
            level,
            row_links(words, (n - 1) * stride),
        )
    }
}

/// How many zeros are in the list.
pub open spec fn zero_count(list: Seq<PointOffsetType>) -> nat
    decreases list.len(),
{
    if list.len() == 0 {
        0
    } else {
        zero_count(list.drop_last()) + if list.last() == 0 {
            1nat
        } else {
            0nat
        }
    }
}

/// The graphs have the same points with the same levels.
pub open spec fn same_shape(a: GraphLayers, b: GraphLayers) -> bool {
    &&& a.m == b.m
    &&& a.m0 == b.m0
    &&& a.layers@.len() == b.layers@.len()
    &&& forall|p: int|
        0 <= p < a.layers@.len() ==> (#[trigger] a.layers@[p])@.len() == b.layers@[p]@.len()
}

/// The links of the points on the level come from their words. All other links are unchanged.
pub open spec fn links_replaced(
    before: GraphLayers,
    after: GraphLayers,
    level: int,
    points: Seq<PointOffsetType>,
    words: Seq<u32>,
    stride: nat,
) -> bool {
    &&& same_shape(before, after)
    &&& forall|p: int, l: int|
        (l != level || !is_point_of(points, p)) ==> #[trigger] after.links(p, l) == before.links(
            p,
            l,
        )
    &&& forall|i: int|
        0 <= i < points.len() ==> after.links((#[trigger] points[i]) as int, level) == kept_links(
            before,
            level,
            row_links(words, i * stride),
        )
}

/// The point is in the list.
pub open spec fn is_point_of(points: Seq<PointOffsetType>, p: int) -> bool {
    exists|i: int| 0 <= i < points.len() && #[trigger] points[i] == p
}

/// No row claims more links than fit in it, and every link leads to a point of the graph.
pub open spec fn valid_rows(words: Seq<u32>, stride: nat, points_count: nat) -> bool {
    forall|i: int| #[trigger]
        is_row(i, stride, words.len()) ==> valid_row(words, i * stride, stride, points_count)
}

/// The list has this row.
pub open spec fn is_row(i: int, stride: nat, len: nat) -> bool {
    0 <= i && (i + 1) * stride <= len
}

/// The row does not claim more links than fit in it, and its links lead to points of the graph.
pub open spec fn valid_row(words: Seq<u32>, at: int, stride: nat, points_count: nat) -> bool {
    &&& words[at] < stride
    &&& forall|j: int|
        at < j <= at + words[at] ==> #[trigger] words[j] < points_count
}

/// The device holds the links of all points and the transfer buffer back to the host.
pub open spec fn can_download(device: LinksDevice, links: LinksView, points_count: nat) -> bool {
    &&& !device.fault
    &&& device.pending.len() == 0
    &&& device.memory.contains_key(LinksBuffer::Links)
    &&& points_count * links.stride() <= device.memory[LinksBuffer::Links].len()
    &&& device.memory.contains_key(LinksBuffer::Download)
    &&& device.memory[LinksBuffer::Download].len() == links.patch_words()
}

/// The transfer buffer back to the host starts with the words of the points. Every other buffer
/// is unchanged.
pub open spec fn rows_gathered(
    before: LinksDevice,
    after: LinksDevice,
    points: Seq<PointOffsetType>,
    stride: nat,
) -> bool {
    &&& !after.fault
    &&& after.pending.len() == 0
    &&& after.memory.contains_key(LinksBuffer::Download)
    &&& after.memory[LinksBuffer::Download].len() == before.memory[LinksBuffer::Download].len()
    &&& after.memory[LinksBuffer::Download].take((points.len() * stride) as int) == rows_of(
        before.memory[LinksBuffer::Links],
        points,
        stride,
    )
    &&& after.memory.remove(LinksBuffer::Download) == before.memory.remove(LinksBuffer::Download)
}

/// The commands make no buffer and gather the words of the points, whatever the device holds.
pub open spec fn gathers_rows(
    commands: Seq<LinksCommand>,
    links: LinksView,
    points: Seq<PointOffsetType>,
    points_count: nat,
) -> bool {
    &&& creations(commands).len() == 0
    &&& forall|device: LinksDevice|
        can_download(device, links, points_count) ==> rows_gathered(
            device,
            #[trigger] executed_all(device, commands),
            points,
            links.stride(),
        )
}

/// The commands make the transfer buffer back to the host and do nothing else.
pub open spec fn makes_download_buffer(commands: Seq<LinksCommand>, links: LinksView) -> bool {
    &&& commands.len() == 1
    &&& creations(commands) == seq![
        (
            LinksBuffer::Download,
            "Download links staging buffer"@,
            BufferType::GpuToCpu,
            links.patch_words(),
        ),
    ]
}

/// Recorded copies of the points' words.
spec fn row_downloads(points: Seq<PointOffsetType>, stride: nat) -> Seq<Transfer<LinksBuffer>> {
    Seq::new(
        points.len(),
        |i: int|
            Transfer::Copy {
                source: LinksBuffer::Links,
                target: LinksBuffer::Download,
                source_at: (points[i] * stride) as nat,
                target_at: (i * stride) as nat,
                size: stride,
            },
    )
}

proof fn lemma_rows_of_len(links: Seq<u32>, points: Seq<PointOffsetType>, stride: nat)
    requires
        forall|i: int|
            0 <= i < points.len() ==> ((#[trigger] points[i]) + 1) * stride <= links.len(),
    ensures
        rows_of(links, points, stride).len() == points.len() * stride,
    decreases points.len(),
{
    if points.len() > 0 {
        lemma_rows_of_len(links, points.drop_last(), stride);
        let n = (points.len() - 1) as int;
        assert(points[n] == points.last());
        assert((points.last() + 1) * stride == points.last() * stride + stride && (n + 1) * stride
            == n * stride + stride && points.last() * stride >= 0) by (nonlinear_arith);
    } else {
        assert(0 * stride == 0) by (nonlinear_arith);
    }
}

/// The recorded copies gather the words of the points.
proof fn lemma_row_downloads(
    device: LinksDevice,
    links: LinksView,
    points: Seq<PointOffsetType>,
    points_count: nat,
)
    requires
        can_download(device, links, points_count),
        points.len() <= links.max_patched_points,
        forall|i: int| 0 <= i < points.len() ==> (#[trigger] points[i]) < points_count,
    ensures
        ({
            let after = transferred_all(device, row_downloads(points, links.stride()));
            &&& !after.fault
            &&& after.memory.contains_key(LinksBuffer::Download)
            &&& after.memory[LinksBuffer::Download].len() == links.patch_words()
            &&& after.memory[LinksBuffer::Download].take((points.len() * links.stride()) as int)
                == rows_of(device.memory[LinksBuffer::Links], points, links.stride())
            &&& after.memory.remove(LinksBuffer::Download) == device.memory.remove(
                LinksBuffer::Download,
            )
        }),
    decreases points.len(),
{
    let stride = links.stride();
    let all = device.memory[LinksBuffer::Links];
    if points.len() == 0 {
        assert(0 * stride == 0) by (nonlinear_arith);
        assert(device.memory[LinksBuffer::Download].take(0) =~= Seq::empty());
    } else {
        let previous = points.drop_last();
        let n = previous.len();
        lemma_row_downloads(device, links, previous, points_count);
        let copies = row_downloads(previous, stride);
        let copy = row_downloads(points, stride)[n as int];
        assert(row_downloads(points, stride) =~= copies.push(copy));
        lemma_transferred_push(device, copies, copy);
        let middle = transferred_all(device, copies);
        let after = transferred(middle, copy);
        let p = points.last() as int;
        assert(points[n as int] == p);
        assert((p + 1) * stride <= points_count * stride && (p + 1) * stride == p * stride + stride
            && (n + 1) * stride <= links.max_patched_points * stride && (n + 1) * stride == n
            * stride + stride && p * stride >= 0 && n * stride >= 0) by (nonlinear_arith)
            requires
                0 <= p < points_count,
                n + 1 <= links.max_patched_points,
        ;
        assert(middle.memory.remove(LinksBuffer::Download).contains_key(LinksBuffer::Links));
        assert(middle.memory.remove(LinksBuffer::Download)[LinksBuffer::Links] == all);
        assert forall|i: int| 0 <= i < previous.len() implies ((#[trigger] previous[i]) + 1)
            * stride <= all.len() by {
            assert(points[i] < points_count);
            assert((previous[i] + 1) * stride <= points_count * stride) by (nonlinear_arith)
                requires
                    previous[i] < points_count,
            ;
        }
        lemma_rows_of_len(all, previous, stride);
        let row = all.subrange(p * stride, p * stride + stride);
        let target = middle.memory[LinksBuffer::Download];
        assert(after.memory[LinksBuffer::Download] == overwrite(
            target,
            (n * stride) as int,
            row,
        ));
        let result = after.memory[LinksBuffer::Download].take((points.len() * stride) as int);
        assert(result =~= rows_of(all, previous, stride) + row) by {
            assert forall|i: int| 0 <= i < n * stride implies #[trigger] result[i] == rows_of(
                all,
                previous,
                stride,
            )[i] by {
                assert(target.take((n * stride) as int)[i] == target[i]);
            }
        }
        assert(after.memory.remove(LinksBuffer::Download) =~= middle.memory.remove(
            LinksBuffer::Download,
        ));
    }
}

/// Points of a level are in increasing order.
proof fn lemma_level_points(graph: GraphLayers, level: int, n: nat)
    requires
        n <= graph.layers@.len() <= u32::MAX,
    ensures
        points_of_level(graph, level, n, level_points(graph, level, n)),
    decreases n,
{
    if n > 0 {
        lemma_level_points(graph, level, (n - 1) as nat);
        let previous = level_points(graph, level, (n - 1) as nat);
        let points = level_points(graph, level, n);
        assert forall|i: int| 0 <= i < points.len() implies (#[trigger] points[i]) < n && has_level(
            graph,
            points[i] as int,
            level,
        ) by {
            if i < previous.len() {
                assert(points[i] == previous[i]);
            }
        }
        assert forall|i: int, j: int| 0 <= i < j < points.len() implies (#[trigger] points[i])
            < #[trigger] points[j] by {
            assert(points[i] == previous[i]);
            if j < previous.len() {
                assert(points[j] == previous[j]);
            }
        }
    }
}

/// Points below `n` with links on the level, in increasing order.
spec fn points_of_level(
    graph: GraphLayers,
    level: int,
    n: nat,
    points: Seq<PointOffsetType>,
) -> bool {
    &&& forall|i: int|
        0 <= i < points.len() ==> (#[trigger] points[i]) < n && has_level(
            graph,
            points[i] as int,
            level,
        )
    &&& forall|i: int, j: int|
        0 <= i < j < points.len() ==> (#[trigger] points[i]) < #[trigger] points[j]
}

impl GpuLinks {
    /// Make the transfer buffer back to the host.
    pub fn download_buffer(&self) -> (r: LinksCommand)
        requires
            self@.wf(),
        ensures
            makes_download_buffer(seq![r], self@),
            forall|device: LinksDevice|
                #![trigger executed(device, r)]
                !device.fault && device.pending.len() == 0 && device.memory.contains_key(
                    LinksBuffer::Links,
                ) ==> {
                    &&& executed(device, r).memory.contains_key(LinksBuffer::Download)
                    &&& executed(device, r).memory[LinksBuffer::Download].len()
                        == self@.patch_words()
                    &&& executed(device, r).memory.remove(LinksBuffer::Download)
                        == device.memory.remove(LinksBuffer::Download)
                    &&& executed(device, r).pending == device.pending
                    &&& !executed(device, r).fault
                },
    {
        let stride: usize = self.links_capacity() + 1;
        let words: usize = self.max_patched_points() * stride;
        let r = GpuCommand::Create {
            buffer: LinksBuffer::Download,
            label: "Download links staging buffer",
            buffer_type: BufferType::GpuToCpu,
            size: words,
        };
        proof {
            assert(seq![r].drop_last() =~= Seq::empty());
            assert(creations(seq![r].drop_last()) =~= Seq::empty());
            assert forall|device: LinksDevice|
                #![trigger executed(device, r)]
                !device.fault && device.pending.len() == 0 && device.memory.contains_key(
                    LinksBuffer::Links,
                ) implies executed(device, r).memory.remove(LinksBuffer::Download)
                == device.memory.remove(LinksBuffer::Download) by {
                assert(executed(device, r).memory.remove(LinksBuffer::Download)
                    =~= device.memory.remove(LinksBuffer::Download));
            }
        }
        r
    }

    /// Copy the words of some points to the transfer buffer back to the host.
    pub fn download_commands(
        &self,
        points: &Vec<PointOffsetType>,
        start: usize,
        end: usize,
        points_count: usize,
    ) -> (commands: Vec<LinksCommand>)
        requires
            self@.wf(),
            start <= end <= points@.len(),
            end - start <= self@.max_patched_points,
            points_count * self@.stride() <= usize::MAX,
            forall|i: int| start <= i < end ==> (#[trigger] points@[i]) < points_count,
        ensures
            gathers_rows(
                commands@,
                self@,
                points@.subrange(start as int, end as int),
                points_count as nat,
            ),
    {
        let stride: usize = self.links_capacity() + 1;
        let ghost chunk = points@.subrange(start as int, end as int);
        let mut commands: Vec<LinksCommand> = Vec::new();
        let mut i: usize = 0;
        proof {
            let none = row_downloads(chunk.take(0), stride as nat);
            assert forall|device: LinksDevice|
                #![trigger executed_all(device, commands@)]
                device.pending.len() == 0 implies executed_all(device, commands@) == (LinksDevice {
                pending: none,
                ..device
            }) by {
                assert(device.pending =~= none);
            }
        }
        while i < end - start
            invariant
                self@.wf(),
                start <= end <= points@.len(),
                i <= end - start <= self@.max_patched_points,
                stride == self@.stride(),
                points_count * stride <= usize::MAX,
                chunk == points@.subrange(start as int, end as int),
                forall|i: int| start <= i < end ==> (#[trigger] points@[i]) < points_count,
                creations(commands@).len() == 0,
                forall|device: LinksDevice|
                    #![trigger executed_all(device, commands@)]
                    device.pending.len() == 0 ==> executed_all(device, commands@) == (
                    LinksDevice {
                        pending: row_downloads(chunk.take(i as int), stride as nat),
                        ..device
                    }),
            decreases end - start - i,
        {
            let point_id: usize = points[start + i] as usize;
            proof {
                let s = stride as int;
                let p = point_id as int;
                let k = i as int;
                let m = self@.max_patched_points as int;
                assert(p * s <= points_count * s && 0 <= p * s) by (nonlinear_arith)
                    requires
                        0 <= p <= points_count,
                        0 <= s,
                ;
                assert(k * s <= m * s && 0 <= k * s) by (nonlinear_arith)
                    requires
                        0 <= k <= m,
                        0 <= s,
                ;
                assert(self@.patch_words() == m * s);
            }
            let ghost before = commands@;
            push_command(
                &mut commands,
                GpuCommand::Copy {
                    source: LinksBuffer::Links,
                    target: LinksBuffer::Download,
                    source_at: point_id * stride,
                    target_at: i * stride,
                    size: stride,
                },
            );
            proof {
                assert(chunk.take(i + 1) =~= chunk.take(i as int).push(chunk[i as int]));
                let next = row_downloads(chunk.take(i + 1), stride as nat);
                assert(next =~= row_downloads(chunk.take(i as int), stride as nat).push(
                    next[i as int],
                ));
            }
            i = i + 1;
        }
        let ghost copies = commands@;
        push_command(&mut commands, GpuCommand::Run);
        proof {
            assert(chunk.take(i as int) =~= chunk);
            assert forall|device: LinksDevice|
                can_download(device, self@, points_count as nat) implies rows_gathered(
                device,
                #[trigger] executed_all(device, commands@),
                chunk,
                self@.stride(),
            ) by {
                let recorded = executed_all(device, copies);
                let list = row_downloads(chunk, stride as nat);
                lemma_row_downloads(device, self@, chunk, points_count as nat);
                lemma_transferred_ignores_pending(device, list, list);
            }
        }
        commands
    }
}

/// Recorded work does the same whatever else is recorded.
proof fn lemma_transferred_ignores_pending(
    device: LinksDevice,
    pending: Seq<Transfer<LinksBuffer>>,
    transfers: Seq<Transfer<LinksBuffer>>,
)
    ensures
        transferred_all(LinksDevice { pending, ..device }, transfers) == (LinksDevice {
            pending,
            ..transferred_all(device, transfers)
        }),
    decreases transfers.len(),
{
    if transfers.len() > 0 {
        lemma_transferred_ignores_pending(device, pending, transfers.drop_last());
    }
}

/// What reading links back found.
#[derive(Clone, Copy, Debug, PartialEq, Eq, Structural)]
pub struct DownloadStats {
    /// Links that lead to points below the level. They were dropped.
    pub bad_links: usize,
    /// How many of them lead to the first point.
    pub zeroes: usize,
}

/// Which links are kept depends on the levels of the points alone.
proof fn lemma_same_shape_links(
    a: GraphLayers,
    b: GraphLayers,
    level: int,
    links: Seq<PointOffsetType>,
)
    requires
        same_shape(a, b),
    ensures
        kept_links(a, level, links) == kept_links(b, level, links),
        bad_links(a, level, links) == bad_links(b, level, links),
    decreases links.len(),
{
    if links.len() > 0 {
        lemma_same_shape_links(a, b, level, links.drop_last());
        let p = links.last() as int;
        if 0 <= p < a.layers@.len() {
            assert(a.layers@[p]@.len() == b.layers@[p]@.len());
        }
    }
}

/// Split the links of one row.
fn split_row(
    graph: &GraphLayers,
    level: usize,
    words: &Vec<u32>,
    at: usize,
    bad: &mut Vec<PointOffsetType>,
) -> (kept: Vec<PointOffsetType>)
    requires
        at + words@[at as int] < words@.len() <= usize::MAX,
    ensures
        kept@ == kept_links(*graph, level as int, row_links(words@, at as int)),
        final(bad)@ == old(bad)@ + bad_links(*graph, level as int, row_links(words@, at as int)),
{
    let count: usize = words[at] as usize;
    let ghost links = row_links(words@, at as int);
    let ghost given = bad@;
    let mut kept: Vec<PointOffsetType> = Vec::new();
    let mut j: usize = 0;
    proof {
        assert(given + bad_links(*graph, level as int, links.take(0)) =~= given);
    }
    while j < count
        invariant
            j <= count == words@[at as int],
            at + count < words@.len() <= usize::MAX,
            links == row_links(words@, at as int),
            kept@ == kept_links(*graph, level as int, links.take(j as int)),
            bad@ == given + bad_links(*graph, level as int, links.take(j as int)),
        decreases count - j,
    {
        let other: PointOffsetType = words[at + 1 + j];
        let other_id: usize = other as usize;
        proof {
            assert(links.take(j + 1).drop_last() =~= links.take(j as int));
            assert(links.take(j + 1).last() == other);
        }
        if other_id < graph.layers.len() && level < graph.layers[other_id].len() {
            kept.push(other);
        } else {
            bad.push(other);
        }
        proof {
            assert(bad@ =~= given + bad_links(*graph, level as int, links.take(j + 1)));
        }
        j = j + 1;
    }
    proof {
        assert(links.take(j as int) =~= links);
    }
    kept
}

/// Take over the links of some points from their words.
fn store_rows(
    graph: &mut GraphLayers,
    level: usize,
    points: &Vec<PointOffsetType>,
    start: usize,
    end: usize,
    words: &Vec<u32>,
    stride: usize,
    bad: &mut Vec<PointOffsetType>,
)
    requires
        stride > 0,
        start <= end <= points@.len(),
        words@.len() == (end - start) * stride,
        valid_rows(words@, stride as nat, old(graph).layers@.len()),
        points_of_level(*old(graph), level as int, old(graph).layers@.len(), points@),
    ensures
        links_replaced(
            *old(graph),
            *final(graph),
            level as int,
            points@.subrange(start as int, end as int),
            words@,
            stride as nat,
        ),
        final(bad)@ == old(bad)@ + all_bad_links(
            *old(graph),
            level as int,
            words@,
            stride as nat,
            (end - start) as nat,
        ),
{
    let ghost initial = *graph;
    let ghost given = bad@;
    let ghost chunk = points@.subrange(start as int, end as int);
    let mut i: usize = 0;
    proof {
        assert(given + all_bad_links(initial, level as int, words@, stride as nat, 0) =~= given);
    }
    while i < end - start
        invariant
            stride > 0,
            start <= end <= points@.len(),
            i <= end - start,
            words@.len() == (end - start) * stride,
            chunk == points@.subrange(start as int, end as int),
            initial == *old(graph),
            given == old(bad)@,
            valid_rows(words@, stride as nat, initial.layers@.len()),
            points_of_level(initial, level as int, initial.layers@.len(), points@),
            links_replaced(
                initial,
                *graph,
                level as int,
                chunk.take(i as int),
                words@,
                stride as nat,
            ),
            bad@ == given + all_bad_links(
                initial,
                level as int,
                words@,
                stride as nat,
                i as nat,
            ),
        decreases end - start - i,
    {
        let ghost before = *graph;
        let point_id: usize = points[start + i] as usize;
        let ghost s = stride as int;
        proof {
            assert(words@.len() == words.len());
            let k = i as int;
            let n = (end - start) as int;
            assert((k + 1) * s <= n * s && (k + 1) * s == k * s + s && 0 <= k * s)
                by (nonlinear_arith)
                requires
                    0 <= k < n,
                    0 < s,
            ;
            assert(is_row(k, stride as nat, words@.len()));
            assert(initial.layers@[point_id as int]@.len()
                == before.layers@[point_id as int]@.len());
            lemma_same_shape_links(initial, before, level as int, row_links(words@, k * s));
        }
        let at: usize = i * stride;
        let kept = split_row(graph, level, words, at, bad);
        graph.layers[point_id][level] = kept;
        proof {
            let now = chunk.take(i + 1);
            assert(same_shape(initial, *graph));
            assert forall|p: int, l: int|
                (l != level || !is_point_of(now, p)) implies #[trigger] graph.links(p, l)
                == initial.links(p, l) by {
                assert(now[i as int] == point_id);
                if l == level {
                    assert(!is_point_of(chunk.take(i as int), p)) by {
                        if is_point_of(chunk.take(i as int), p) {
                            let j = choose|j: int|
                                0 <= j < chunk.take(i as int).len() && #[trigger] chunk.take(
                                    i as int,
                                )[j] == p;
                            assert(now[j] == p);
                        }
                    }
                }
                assert(before.links(p, l) == initial.links(p, l));
                if 0 <= p < initial.layers@.len() {
                    assert(initial.layers@[p]@.len() == before.layers@[p]@.len());
                }
            }
            assert forall|j: int| 0 <= j < now.len() implies graph.links(
                (#[trigger] now[j]) as int,
                level as int,
            ) == kept_links(initial, level as int, row_links(words@, j * stride)) by {
                if j < i {
                    assert(chunk.take(i as int)[j] == now[j]);
                    assert(points@[start + j] < points@[start + i]);
                    assert(before.links(now[j] as int, level as int) == kept_links(
                        initial,
                        level as int,
                        row_links(words@, j * stride),
                    ));
                    assert(initial.layers@[now[j] as int]@.len()
                        == before.layers@[now[j] as int]@.len());
                } else {
                    assert(now[j] == point_id);
                }
            }
            assert(bad@ =~= given + all_bad_links(
                initial,
                level as int,
                words@,
                stride as nat,
                (i + 1) as nat,
            ));
        }
        i = i + 1;
    }
    proof {
        assert(chunk.take(i as int) =~= chunk);
    }
}

/// Count the zeros of a list.
fn count_zeros(list: &Vec<PointOffsetType>) -> (r: usize)
    ensures
        r == zero_count(list@),
        r <= list@.len(),
{
    let mut r: usize = 0;
    let mut i: usize = 0;
    while i < list.len()
        invariant
            i <= list@.len(),
            r <= i,
            r == zero_count(list@.take(i as int)),
        decreases list@.len() - i,
    {
        proof {
            assert(list@.take(i + 1).drop_last() =~= list@.take(i as int));
        }
        if list[i] == 0 {
            r = r + 1;
        }
        i = i + 1;
    }
    proof {
        assert(list@.take(i as int) =~= list@);
    }
    r
}

/// The reply to commands that gather the words of some points.
pub open spec fn fetched<D: Fn(Vec<LinksCommand>, usize) -> OperationResult<Vec<u32>>>(
    download: &D,
    links: LinksView,
    points: Seq<PointOffsetType>,
    points_count: nat,
    words: Seq<u32>,
) -> bool {
    exists|commands: Vec<LinksCommand>, count: usize, reply: Vec<u32>|
        {
            &&& #[trigger] download.ensures((commands, count), Ok(reply))
            &&& gathers_rows(commands@, links, points, points_count)
            &&& count == points.len() * links.stride()
            &&& reply@ == words
        }
}

/// The words are the replies for the points, chunk by chunk.
pub open spec fn fetched_all<D: Fn(Vec<LinksCommand>, usize) -> OperationResult<Vec<u32>>>(
    download: &D,
    links: LinksView,
    points: Seq<PointOffsetType>,
    points_count: nat,
    words: Seq<u32>,
) -> bool {
    &&& words.len() == points.len() * links.stride()
    &&& forall|start: int, end: int| #[trigger]
        is_chunk(start, end, links.max_patched_points, points.len()) ==> fetched(
            download,
            links,
            points.subrange(start, end),
            points_count,
            words.subrange(start * links.stride(), end * links.stride()),
        )
}

/// The range is a chunk: it starts at a multiple of the chunk size and is full or the last one.
pub open spec fn is_chunk(start: int, end: int, chunk_size: nat, len: nat) -> bool {
    &&& 0 <= start < end <= len
    &&& chunk_size > 0
    &&& start % (chunk_size as int) == 0
    &&& end == start + chunk_size || (end == len && end < start + chunk_size)
}

/// The transfer buffer back to the host was made.
pub open spec fn buffer_made<D: Fn(Vec<LinksCommand>, usize) -> OperationResult<Vec<u32>>>(
    download: &D,
    links: LinksView,
) -> bool {
    exists|commands: Vec<LinksCommand>, reply: Vec<u32>| #[trigger]
        download.ensures((commands, 0), Ok(reply)) && makes_download_buffer(commands@, links)
}

/// Making the transfer buffer back to the host failed with this error.
pub open spec fn buffer_refused<D: Fn(Vec<LinksCommand>, usize) -> OperationResult<Vec<u32>>>(
    download: &D,
    links: LinksView,
    error: OperationError,
) -> bool {
    exists|commands: Vec<LinksCommand>| #[trigger]
        download.ensures((commands, 0), Err(error)) && makes_download_buffer(commands@, links)
}

/// Reading the words of some points failed with this error.
pub open spec fn rows_refused<D: Fn(Vec<LinksCommand>, usize) -> OperationResult<Vec<u32>>>(
    download: &D,
    links: LinksView,
    points: Seq<PointOffsetType>,
    points_count: nat,
    error: OperationError,
) -> bool {
    exists|commands: Vec<LinksCommand>, count: usize|
        {
            &&& #[trigger] download.ensures((commands, count), Err(error))
            &&& gathers_rows(commands@, links, points, points_count)
            &&& count == points.len() * links.stride()
        }
}

/// The points of the chunk that starts here.
pub open spec fn chunk_at(
    points: Seq<PointOffsetType>,
    start: nat,
    chunk_size: nat,
) -> Seq<PointOffsetType> {
    points.subrange(
        start as int,
        if start + chunk_size < points.len() {
            (start + chunk_size) as int
        } else {
            points.len() as int
        },
    )
}

/// Words come in the number asked for, and they are rows of links.
pub open spec fn can_read_rows<D: Fn(Vec<LinksCommand>, usize) -> OperationResult<Vec<u32>>>(
    download: &D,
    stride: nat,
    points_count: nat,
) -> bool {
    &&& forall|commands: Vec<LinksCommand>, count: usize| #[trigger]
        download.requires((commands, count))
    &&& forall|commands: Vec<LinksCommand>, count: usize, words: Vec<u32>| #[trigger]
        download.ensures((commands, count), Ok(words)) ==> words@.len() == count && valid_rows(
            words@,
            stride,
            points_count,
        )
}

/// The points of the first chunks have the links that were read back.
pub open spec fn links_downloaded<D: Fn(Vec<LinksCommand>, usize) -> OperationResult<Vec<u32>>>(
    download: &D,
    links: LinksView,
    before: GraphLayers,
    after: GraphLayers,
    level: int,
    n: nat,
    words: Seq<u32>,
) -> bool {
    let points = level_points(before, level, before.layers@.len());
    &&& n <= points.len()
    &&& n % links.max_patched_points == 0 || n == points.len()
    &&& fetched_all(download, links, points.take(n as int), before.layers@.len(), words)
    &&& links_replaced(before, after, level, points.take(n as int), words, links.stride())
}

/// What is said at the end, when this many points of the level have their links: all of them on
/// success. Otherwise the transfer buffer could not be made, the work was stopped, or the next
/// chunk could not be read.
pub open spec fn download_ended<
    D: Fn(Vec<LinksCommand>, usize) -> OperationResult<Vec<u32>>,
    S: Fn() -> bool,
>(
    download: &D,
    is_stopped: &S,
    links: LinksView,
    before: GraphLayers,
    after: GraphLayers,
    level: int,
    n: nat,
    words: Seq<u32>,
    r: OperationResult<DownloadStats>,
) -> bool {
    let points = level_points(before, level, before.layers@.len());
    match r {
        Ok(stats) => {
            let dropped = all_bad_links(before, level, words, links.stride(), n);
            &&& buffer_made(download, links)
            &&& n == points.len()
            &&& stats.bad_links == dropped.len()
            &&& stats.zeroes == zero_count(dropped)
        },
        Err(error) => {
            ||| (n == 0 && after == before && buffer_refused(download, links, error))
            ||| (buffer_made(download, links) && n < points.len() && error is Cancelled && may_stop(
                is_stopped,
            ))
            ||| (buffer_made(download, links) && n < points.len() && rows_refused(
                download,
                links,
                chunk_at(points, n, links.max_patched_points),
                before.layers@.len(),
                error,
            ))
        },
    }
}

/// What reading the links of a level back into a graph comes to.
pub open spec fn download_outcome<
    D: Fn(Vec<LinksCommand>, usize) -> OperationResult<Vec<u32>>,
    S: Fn() -> bool,
>(
    download: &D,
    is_stopped: &S,
    links: LinksView,
    before: GraphLayers,
    after: GraphLayers,
    level: int,
    r: OperationResult<DownloadStats>,
) -> bool {
    exists|n: nat, words: Seq<u32>| #[trigger]
        links_downloaded(download, links, before, after, level, n, words) && download_ended(
            download,
            is_stopped,
            links,
            before,
            after,
            level,
            n,
            words,
            r,
        )
}

/// One more chunk of links.
proof fn lemma_next_chunk<D: Fn(Vec<LinksCommand>, usize) -> OperationResult<Vec<u32>>>(
    download: &D,
    links: LinksView,
    before: GraphLayers,
    middle: GraphLayers,
    after: GraphLayers,
    level: int,
    start: nat,
    end: nat,
    words: Seq<u32>,
    reply: Seq<u32>,
)
    requires
        before.layers@.len() <= u32::MAX,
        links_downloaded(download, links, before, middle, level, start, words),
        is_chunk(
            start as int,
            end as int,
            links.max_patched_points,
            level_points(before, level, before.layers@.len()).len(),
        ),
        fetched(
            download,
            links,
            level_points(before, level, before.layers@.len()).subrange(start as int, end as int),
            before.layers@.len(),
            reply,
        ),
        reply.len() == (end - start) * links.stride(),
        valid_rows(words, links.stride(), before.layers@.len()),
        valid_rows(reply, links.stride(), before.layers@.len()),
        links_replaced(
            middle,
            after,
            level,
            level_points(before, level, before.layers@.len()).subrange(start as int, end as int),
            reply,
            links.stride(),
        ),
    ensures
        links_downloaded(download, links, before, after, level, end, words + reply),
        valid_rows(words + reply, links.stride(), before.layers@.len()),
        all_bad_links(before, level, words + reply, links.stride(), end) == all_bad_links(
            before,
            level,
            words,
            links.stride(),
            start,
        ) + all_bad_links(middle, level, reply, links.stride(), (end - start) as nat),
{
    let stride = links.stride();
    let n = before.layers@.len();
    let points = level_points(before, level, n);
    let first = points.take(start as int);
    let chunk = points.subrange(start as int, end as int);
    let all = points.take(end as int);
    let total = words + reply;
    lemma_level_points(before, level, n);
    assert((end - start) * stride + start * stride == end * stride) by (nonlinear_arith);
    assert(total.len() == all.len() * stride);
    assert forall|i: int| #[trigger] is_row(i, stride, total.len()) implies valid_row(
        total,
        i * stride,
        stride,
        n,
    ) by {
        assert(i < end) by (nonlinear_arith)
            requires
                (i + 1) * stride <= end * stride,
                stride > 0,
        ;
        if i < start {
            lemma_first_rows(words, reply, stride, n, start, i);
        } else {
            lemma_last_rows(words, reply, stride, n, start, end, i);
        }
    }
    assert(same_shape(before, after)) by {
        assert forall|p: int| 0 <= p < n implies (#[trigger] before.layers@[p])@.len()
            == after.layers@[p]@.len() by {
            assert(middle.layers@[p]@.len() == after.layers@[p]@.len());
        }
    }
    assert forall|p: int, l: int| (l != level || !is_point_of(all, p)) implies
        #[trigger] after.links(p, l) == before.links(p, l) by {
        if l == level {
            if is_point_of(first, p) {
                let j = choose|j: int| 0 <= j < first.len() && #[trigger] first[j] == p;
                assert(all[j] == p);
            }
            if is_point_of(chunk, p) {
                let j = choose|j: int| 0 <= j < chunk.len() && #[trigger] chunk[j] == p;
                assert(all[start + j] == p);
            }
        }
        assert(middle.links(p, l) == before.links(p, l));
    }
    assert forall|i: int| 0 <= i < all.len() implies after.links(
        (#[trigger] all[i]) as int,
        level,
    ) == kept_links(before, level, row_links(total, i * stride)) by {
        if i < start {
            lemma_first_rows(words, reply, stride, n, start, i);
            assert(first[i] == all[i]);
            assert(!is_point_of(chunk, all[i] as int)) by {
                if is_point_of(chunk, all[i] as int) {
                    let j = choose|j: int|
                        0 <= j < chunk.len() && #[trigger] chunk[j] == all[i];
                    assert(points[i] < points[start + j]);
                }
            }
            assert(after.links(all[i] as int, level) == middle.links(all[i] as int, level));
        } else {
            lemma_last_rows(words, reply, stride, n, start, end, i);
            assert(chunk[i - start] == all[i]);
            lemma_same_shape_links(before, middle, level, row_links(total, i * stride));
        }
    }
    assert forall|a: int, b: int| #[trigger]
        is_chunk(a, b, links.max_patched_points, all.len()) implies fetched(
        download,
        links,
        all.subrange(a, b),
        n,
        total.subrange(a * stride, b * stride),
    ) by {
        let size = links.max_patched_points as int;
        if a >= start {
            vstd::arithmetic::div_mod::lemma_fundamental_div_mod(a, size);
            vstd::arithmetic::div_mod::lemma_fundamental_div_mod(start as int, size);
            assert(a == start) by (nonlinear_arith)
                requires
                    a == size * (a / size),
                    start == size * (start as int / size),
                    start <= a < end <= start + size,
                    size > 0,
            ;
            assert(all.subrange(a, b) =~= chunk);
            assert(total.subrange(a * stride, b * stride) =~= reply);
        } else {
            vstd::arithmetic::div_mod::lemma_fundamental_div_mod(a, size);
            vstd::arithmetic::div_mod::lemma_fundamental_div_mod(start as int, size);
            assert(a + size <= start) by (nonlinear_arith)
                requires
                    a == size * (a / size),
                    start == size * (start as int / size),
                    a < start,
                    size > 0,
            ;
            assert(is_chunk(a, b, links.max_patched_points, first.len()));
            assert(all.subrange(a, b) =~= first.subrange(a, b));
            assert(0 <= a * stride <= b * stride <= start * stride) by (nonlinear_arith)
                requires
                    0 <= a <= b <= start,
                    0 <= stride,
            ;
            assert(total.subrange(a * stride, b * stride) =~= words.subrange(
                a * stride,
                b * stride,
            ));
        }
    }
    lemma_bad_links_first(before, level, words, reply, stride, start, start);
    lemma_bad_links_last(before, middle, level, words, reply, stride, start, end, end);
    assert(end as int % links.max_patched_points as int == 0 || end == points.len()) by {
        if end == start + links.max_patched_points {
            vstd::arithmetic::div_mod::lemma_mod_add_multiples_vanish(
                start as int,
                links.max_patched_points as int,
            );
        }
    }
}

/// Rows of the first part.
proof fn lemma_first_rows(
    words: Seq<u32>,
    reply: Seq<u32>,
    stride: nat,
    points_count: nat,
    start: nat,
    i: int,
)
    requires
        stride > 0,
        words.len() == start * stride,
        valid_rows(words, stride, points_count),
        0 <= i < start,
    ensures
        row_links(words + reply, i * stride) == row_links(words, i * stride),
        valid_row(words + reply, i * stride, stride, points_count),
{
    assert((i + 1) * stride <= start * stride && i * stride + stride == (i + 1) * stride && 0 <= i
        * stride) by (nonlinear_arith)
        requires
            0 <= i < start,
            stride > 0,
    ;
    assert(is_row(i, stride, words.len()));
    assert(row_links(words + reply, i * stride) =~= row_links(words, i * stride));
}

/// Rows of the last part.
proof fn lemma_last_rows(
    words: Seq<u32>,
    reply: Seq<u32>,
    stride: nat,
    points_count: nat,
    start: nat,
    end: nat,
    i: int,
)
    requires
        stride > 0,
        words.len() == start * stride,
        reply.len() == (end - start) * stride,
        valid_rows(reply, stride, points_count),
        start <= i < end,
    ensures
        row_links(words + reply, i * stride) == row_links(reply, (i - start) * stride),
        valid_row(words + reply, i * stride, stride, points_count),
{
    let k = i - start;
    let at = k * stride;
    assert((k + 1) * stride <= (end - start) * stride && k * stride + stride == (k + 1) * stride
        && 0 <= k * stride && i * stride == start * stride + k * stride) by (nonlinear_arith)
        requires
            0 <= k < end - start,
            k == i - start,
            stride > 0,
    ;
    assert(is_row(k, stride, reply.len()));
    let total = words + reply;
    assert(total[i * stride] == reply[at]);
    assert(row_links(total, i * stride) =~= row_links(reply, at));
    assert forall|j: int| i * stride < j <= i * stride + total[i * stride] implies
        #[trigger] total[j] < points_count by {
        assert(total[j] == reply[j - words.len()]);
    }
}

/// Dropped links of the first part.
proof fn lemma_bad_links_first(
    graph: GraphLayers,
    level: int,
    words: Seq<u32>,
    reply: Seq<u32>,
    stride: nat,
    start: nat,
    n: nat,
)
    requires
        stride > 0,
        n <= start,
        words.len() == start * stride,
        valid_rows(words, stride, graph.layers@.len()),
    ensures
        all_bad_links(graph, level, words + reply, stride, n) == all_bad_links(
            graph,
            level,
            words,
            stride,
            n,
        ),
    decreases n,
{
    if n > 0 {
        lemma_bad_links_first(graph, level, words, reply, stride, start, (n - 1) as nat);
        lemma_first_rows(words, reply, stride, graph.layers@.len(), start, n - 1);
    }
}

/// Dropped links of the last part.
proof fn lemma_bad_links_last(
    graph: GraphLayers,
    other: GraphLayers,
    level: int,
    words: Seq<u32>,
    reply: Seq<u32>,
    stride: nat,
    start: nat,
    end: nat,
    n: nat,
)
    requires
        stride > 0,
        start <= n <= end,
        words.len() == start * stride,
        reply.len() == (end - start) * stride,
        same_shape(graph, other),
        valid_rows(words, stride, graph.layers@.len()),
        valid_rows(reply, stride, graph.layers@.len()),
    ensures
        all_bad_links(graph, level, words + reply, stride, n) == all_bad_links(
            graph,
            level,
            words,
            stride,
            start,
        ) + all_bad_links(other, level, reply, stride, (n - start) as nat),
    decreases n,
{
    if n == start {
        lemma_bad_links_first(graph, level, words, reply, stride, start, start);
        assert(all_bad_links(graph, level, words, stride, start) + all_bad_links(
            other,
            level,
            reply,
            stride,
            0,
        ) =~= all_bad_links(graph, level, words, stride, start));
    } else {
        lemma_bad_links_last(
            graph,
            other,
            level,
            words,
            reply,
            stride,
            start,
            end,
            (n - 1) as nat,
        );
        lemma_last_rows(words, reply, stride, graph.layers@.len(), start, end, n - 1);
        let row = row_links(words + reply, (n - 1) * stride);
        lemma_same_shape_links(graph, other, level, row);
        assert(all_bad_links(other, level, reply, stride, (n - start) as nat) == all_bad_links(
            other,
            level,
            reply,
            stride,
            (n - 1 - start) as nat,
        ) + bad_links(other, level, row));
        assert(all_bad_links(graph, level, words + reply, stride, n) =~= all_bad_links(
            graph,
            level,
            words,
            stride,
            start,
        ) + all_bad_links(other, level, reply, stride, (n - start) as nat));
    }
}

impl GpuLinks {
    /// Read the links of all points of a level back into the graph. Links that lead to points
    /// below the level are dropped and counted.
    ///
    /// `download` runs commands and reads words from the start of the transfer buffer back to the
    /// host. The first call makes that buffer, and every other one gathers the links of as many
    /// points as fit in it. When a call fails or the work is stopped, the links that were read
    /// before stay.
    pub fn download_links<
        D: Fn(Vec<LinksCommand>, usize) -> OperationResult<Vec<u32>>,
        S: Fn() -> bool,
    >(
        &self,
        level: usize,
        graph: &mut GraphLayers,
        download: &D,
        is_stopped: &S,
    ) -> (r: OperationResult<DownloadStats>)
        requires
            self@.wf(),
            self@.max_patched_points > 0,
            old(graph).layers@.len() <= u32::MAX,
            old(graph).layers@.len() * self@.stride() <= usize::MAX,
            can_read_rows(download, self@.stride(), old(graph).layers@.len()),
            can_poll(is_stopped),
        ensures
            download_outcome(
                download,
                is_stopped,
                self@,
                *old(graph),
                *final(graph),
                level as int,
                r,
            ),
            always_stopped(is_stopped) && level_points(
                *old(graph),
                level as int,
                old(graph).layers@.len(),
            ).len() > 0 ==> r is Err,
    {
        let ghost initial = *graph;
        let points_count: usize = graph.layers.len();
        let ghost n = points_count as nat;
        let ghost all_points = level_points(initial, level as int, n);
        let ghost mut words: Seq<u32> = Seq::empty();
        proof {
            lemma_level_points(initial, level as int, n);
            assert(0 * self@.stride() == 0) by (nonlinear_arith);
            assert(0nat % self@.max_patched_points == 0) by {
                vstd::arithmetic::div_mod::lemma_small_mod(0, self@.max_patched_points);
            }
            assert forall|i: int| #[trigger]
                is_row(i, self@.stride(), words.len()) implies valid_row(
                words,
                i * self@.stride(),
                self@.stride(),
                n,
            ) by {
                assert((i + 1) * self@.stride() > 0) by (nonlinear_arith)
                    requires
                        i >= 0,
                        self@.stride() > 0,
                ;
            }
            assert(links_downloaded(download, self@, initial, *graph, level as int, 0, words));
        }
        let mut setup: Vec<LinksCommand> = Vec::new();
        setup.push(self.download_buffer());
        let ghost asked = setup;
        proof {
            assert(asked@ =~= seq![asked@[0]]);
        }
        match download(setup, 0) {
            Ok(reply) => {
                assert(download.ensures((asked, 0), Ok(reply)));
            },
            Err(error) => {
                assert(download.ensures((asked, 0), Err(error)));
                return Err(error);
            },
        }
        let mut points: Vec<PointOffsetType> = Vec::new();
        let mut p: usize = 0;
        while p < points_count
            invariant
                p <= points_count == graph.layers@.len() <= u32::MAX,
                points@ == level_points(*graph, level as int, p as nat),
            decreases points_count - p,
        {
            if level < graph.layers[p].len() {
                points.push(p as PointOffsetType);
            }
            p = p + 1;
        }
        let stride: usize = self.links_capacity() + 1;
        let chunk_size: usize = self.max_patched_points();
        let mut bad: Vec<PointOffsetType> = Vec::new();
        let mut start: usize = 0;
        while start < points.len()
            invariant
                self@.wf(),
                stride == self@.stride(),
                chunk_size == self@.max_patched_points > 0,
                initial == *old(graph),
                initial.layers@.len() == points_count == n <= u32::MAX,
                points_count * stride <= usize::MAX,
                can_read_rows(download, self@.stride(), n),
                can_poll(is_stopped),
                buffer_made(download, self@),
                all_points == level_points(initial, level as int, n),
                points@ == all_points,
                points_of_level(initial, level as int, n, points@),
                start <= points@.len(),
                start > 0 ==> !always_stopped(is_stopped),
                start % chunk_size == 0 || start == points@.len(),
                links_downloaded(
                    download,
                    self@,
                    initial,
                    *graph,
                    level as int,
                    start as nat,
                    words,
                ),
                valid_rows(words, stride as nat, n),
                bad@ == all_bad_links(
                    initial,
                    level as int,
                    words,
                    stride as nat,
                    start as nat,
                ),
            decreases points@.len() - start,
        {
            match check_process_stopped(is_stopped) {
                Ok(_) => {},
                Err(error) => {
                    return Err(error);
                },
            }
            let ghost before = *graph;
            let left: usize = points.len() - start;
            let count: usize = min_usize(chunk_size, left);
            let end: usize = start + count;
            let ghost chunk = points@.subrange(start as int, end as int);
            proof {
                let c = count as int;
                let m = chunk_size as int;
                let s = stride as int;
                assert(0 <= c * s <= m * s) by (nonlinear_arith)
                    requires
                        0 <= c <= m,
                        0 <= s,
                ;
                assert(self@.patch_words() == m * s);
            }
            let commands = self.download_commands(&points, start, end, points_count);
            let ghost sent = commands;
            let reply = match download(commands, count * stride) {
                Ok(reply) => reply,
                Err(error) => {
                    proof {
                        assert(download.ensures((sent, (count * stride) as usize), Err(error)));
                        assert(chunk_at(points@, start as nat, chunk_size as nat) =~= chunk);
                    }
                    return Err(error);
                },
            };
            proof {
                assert(download.ensures((sent, (count * stride) as usize), Ok(reply)));
                assert(fetched(download, self@, chunk, n, reply@));
                assert(points_of_level(before, level as int, n, points@)) by {
                    assert forall|i: int| 0 <= i < points@.len() implies has_level(
                        before,
                        (#[trigger] points@[i]) as int,
                        level as int,
                    ) by {
                        assert(initial.layers@[points@[i] as int]@.len()
                            == before.layers@[points@[i] as int]@.len());
                    }
                }
            }
            store_rows(graph, level, &points, start, end, &reply, stride, &mut bad);
            proof {
                lemma_next_chunk(
                    download,
                    self@,
                    initial,
                    before,
                    *graph,
                    level as int,
                    start as nat,
                    end as nat,
                    words,
                    reply@,
                );
                words = words + reply@;
            }
            start = end;
        }
        proof {
            assert(all_points.take(all_points.len() as int) =~= all_points);
        }
        Ok(DownloadStats { bad_links: bad.len(), zeroes: count_zeros(&bad) })
    }
}

/// The words of a point in an uploaded layer.
proof fn lemma_image_row(
    graph: GraphLayers,
    level: int,
    n: nat,
    stride: nat,
    len: nat,
    point_id: int,
)
    requires
        0 <= point_id < n <= u32::MAX,
        n * stride <= len,
        forall|p: int|
            0 <= p < n ==> (#[trigger] graph.links(p, level)).len() < stride && graph.links(
                p,
                level,
            ).len() <= u32::MAX,
    ensures
        layer_image(graph, level, n, stride, len).len() == len,
        layer_image(graph, level, n, stride, len)[point_id * stride] == graph.links(
            point_id,
            level,
        ).len(),
        row_links(layer_image(graph, level, n, stride, len), point_id * stride) == graph.links(
            point_id,
            level,
        ),
    decreases n,
{
    let image = layer_image(graph, level, n, stride, len);
    let q = n - 1;
    let previous = layer_image(graph, level, q as nat, stride, len);
    let rows = layer_rows(graph, level, n);
    let links = graph.links(q, level);
    lemma_placed_len(zeros(len), rows, stride);
    lemma_placed_len(zeros(len), layer_rows(graph, level, q as nat), stride);
    assert(links.len() < stride);
    assert(q * stride + stride == n * stride && 0 <= q * stride) by (nonlinear_arith)
        requires
            q == n - 1,
            0 <= q,
            0 <= stride,
    ;
    assert(q * stride <= len);
    if links.len() > 0 {
        assert(rows.drop_last() =~= layer_rows(graph, level, q as nat));
        assert(rows.last() == (q as PointOffsetType, links));
        assert(image == overwrite(previous, q * stride, row_words(links)));
    } else {
        assert(image == previous);
    }
    if point_id < q {
        lemma_image_row(graph, level, q as nat, stride, len, point_id);
        let at = point_id * stride;
        assert(at + stride <= q * stride && 0 <= at) by (nonlinear_arith)
            requires
                0 <= point_id < q,
                at == point_id * stride,
                0 <= stride,
        ;
        assert(graph.links(point_id, level).len() < stride);
        assert(image[at] == previous[at]);
        assert(row_links(image, at) =~= row_links(previous, at));
    } else {
        let at = q * stride;
        if links.len() > 0 {
            assert(image[at] == row_words(links)[0]);
            assert(row_links(image, at) =~= links) by {
                assert forall|j: int| 0 <= j < links.len() implies #[trigger] row_links(
                    image,
                    at,
                )[j] == links[j] by {
                    assert(image[at + 1 + j] == row_words(links)[1 + j]);
                }
            }
        } else {
            lemma_image_rest(graph, level, q as nat, stride, len, at);
            assert(row_links(image, at) =~= links);
        }
    }
}

/// Behind the rows of the first points the uploaded layer holds zeros.
proof fn lemma_image_rest(graph: GraphLayers, level: int, n: nat, stride: nat, len: nat, at: int)
    requires
        n <= u32::MAX,
        n * stride <= at < len,
        forall|p: int| 0 <= p < n ==> (#[trigger] graph.links(p, level)).len() < stride,
    ensures
        layer_image(graph, level, n, stride, len).len() == len,
        layer_image(graph, level, n, stride, len)[at] == 0,
    decreases n,
{
    let rows = layer_rows(graph, level, n);
    lemma_placed_len(zeros(len), rows, stride);
    if n > 0 {
        let q = n - 1;
        let links = graph.links(q, level);
        assert(q * stride + stride == n * stride) by (nonlinear_arith)
            requires
                q == n - 1,
        ;
        assert(links.len() < stride);
        lemma_image_rest(graph, level, q as nat, stride, len, at);
        if links.len() > 0 {
            assert(rows.drop_last() =~= layer_rows(graph, level, q as nat));
            assert(rows.last() == (q as PointOffsetType, links));
        }
    }
}

/// A row among gathered rows.
proof fn lemma_row_of(
    links: Seq<u32>,
    points: Seq<PointOffsetType>,
    stride: nat,
    i: int,
)
    requires
        0 <= i < points.len(),
        forall|k: int|
            0 <= k < points.len() ==> ((#[trigger] points[k]) + 1) * stride <= links.len(),
    ensures
        rows_of(links, points, stride).len() == points.len() * stride,
        rows_of(links, points, stride).subrange(i * stride, (i + 1) * stride) == links.subrange(
            points[i] * stride,
            (points[i] + 1) * stride,
        ),
    decreases points.len(),
{
    let previous = points.drop_last();
    let n = previous.len() as int;
    lemma_rows_of_len(links, points, stride);
    assert forall|k: int| 0 <= k < previous.len() implies ((#[trigger] previous[k]) + 1) * stride
        <= links.len() by {
        assert(previous[k] == points[k]);
    }
    lemma_rows_of_len(links, previous, stride);
    let p = points.last() as int;
    assert(points[n] == p);
    assert((p + 1) * stride == p * stride + stride && (n + 1) * stride == n * stride + stride && 0
        <= n * stride && 0 <= p * stride) by (nonlinear_arith)
        requires
            0 <= p,
            0 <= n,
    ;
    let all = rows_of(links, points, stride);
    if i < n {
        lemma_row_of(links, previous, stride, i);
        assert((i + 1) * stride <= n * stride && 0 <= i * stride <= (i + 1) * stride)
            by (nonlinear_arith)
            requires
                0 <= i < n,
        ;
        assert(all.subrange(i * stride, (i + 1) * stride) =~= rows_of(
            links,
            previous,
            stride,
        ).subrange(i * stride, (i + 1) * stride));
    } else {
        assert(all.subrange(i * stride, (i + 1) * stride) =~= links.subrange(
            p * stride,
            (p + 1) * stride,
        ));
    }
}

/// All links are kept when every one leads to a point of the level.
pub proof fn lemma_kept_all(graph: GraphLayers, level: int, links: Seq<PointOffsetType>)
    requires
        forall|i: int|
            0 <= i < links.len() ==> has_level(graph, (#[trigger] links[i]) as int, level),
    ensures
        kept_links(graph, level, links) == links,
        bad_links(graph, level, links) == Seq::<PointOffsetType>::empty(),
    decreases links.len(),
{
    if links.len() > 0 {
        let previous = links.drop_last();
        assert forall|i: int| 0 <= i < previous.len() implies has_level(
            graph,
            (#[trigger] previous[i]) as int,
            level,
        ) by {
            assert(previous[i] == links[i]);
        }
        lemma_kept_all(graph, level, previous);
        assert(links[links.len() - 1] == links.last());
        assert(previous.push(links.last()) =~= links);
    } else {
        assert(links =~= Seq::empty());
    }
}

/// Links are kept in their order where they lead to points of the level, and all others are told.
pub proof fn lemma_links_lead_to_the_level(
    graph: GraphLayers,
    level: int,
    links: Seq<PointOffsetType>,
)
    ensures
        kept_links(graph, level, links) == links.filter(
            |p: PointOffsetType|
                p < graph.layers@.len() && 0 <= level < graph.layers@[p as int]@.len(),
        ),
        bad_links(graph, level, links) == links.filter(
            |p: PointOffsetType|
                !(p < graph.layers@.len() && 0 <= level < graph.layers@[p as int]@.len()),
        ),
    decreases links.len(),
{
    reveal(Seq::filter);
    if links.len() > 0 {
        lemma_links_lead_to_the_level(graph, level, links.drop_last());
    } else {
        assert(kept_links(graph, level, links) =~= links);
        assert(bad_links(graph, level, links) =~= links);
    }
}

/// Whenever words are gathered, the device holds these links and the transfer buffer, performs the
/// commands and gives back the first words of the transfer buffer.
pub open spec fn reads_device<D: Fn(Vec<LinksCommand>, usize) -> OperationResult<Vec<u32>>>(
    download: &D,
    links: LinksView,
    points_count: nat,
    image: Seq<u32>,
) -> bool {
    forall|
        commands: Vec<LinksCommand>,
        count: usize,
        reply: Vec<u32>,
        points: Seq<PointOffsetType>,
    |
        #[trigger] download.ensures((commands, count), Ok(reply)) && #[trigger] gathers_rows(
            commands@,
            links,
            points,
            points_count,
        ) ==> read_back(links, points_count, image, commands@, count as nat, reply@)
}

/// The words are the first ones of the transfer buffer after the commands.
pub open spec fn read_back(
    links: LinksView,
    points_count: nat,
    image: Seq<u32>,
    commands: Seq<LinksCommand>,
    count: nat,
    words: Seq<u32>,
) -> bool {
    exists|device: LinksDevice|
        {
            &&& can_download(device, links, points_count)
            &&& device.memory[LinksBuffer::Links] == image
            &&& words == #[trigger] executed_all(
                device,
                commands,
            ).memory[LinksBuffer::Download].take(count as int)
        }
}

/// The words of a point are its row on the device.
proof fn lemma_downloaded_row<D: Fn(Vec<LinksCommand>, usize) -> OperationResult<Vec<u32>>>(
    download: &D,
    links: LinksView,
    points: Seq<PointOffsetType>,
    points_count: nat,
    image: Seq<u32>,
    words: Seq<u32>,
    i: int,
)
    requires
        links.max_patched_points > 0,
        points_count * links.stride() <= image.len(),
        reads_device(download, links, points_count, image),
        fetched_all(download, links, points, points_count, words),
        forall|k: int| 0 <= k < points.len() ==> (#[trigger] points[k]) < points_count,
        0 <= i < points.len(),
    ensures
        words.subrange(i * links.stride(), (i + 1) * links.stride()) == image.subrange(
            points[i] * links.stride(),
            (points[i] + 1) * links.stride(),
        ),
        0 <= i * links.stride() < (i + 1) * links.stride() <= words.len(),
        (i + 1) * links.stride() == i * links.stride() + links.stride(),
{
    let stride = links.stride();
    let size = links.max_patched_points as int;
    let start = i - i % size;
    let end = if start + size < points.len() {
        start + size
    } else {
        points.len() as int
    };
    assert(start % size == 0 && 0 <= start <= i < start + size) by {
        vstd::arithmetic::div_mod::lemma_fundamental_div_mod(i, size);
        vstd::arithmetic::mul::lemma_mul_is_commutative(size, i / size);
        vstd::arithmetic::div_mod::lemma_mod_multiples_basic(i / size, size);
        vstd::arithmetic::div_mod::lemma_mod_bound(i, size);
        vstd::arithmetic::div_mod::lemma_mod_decreases(i as nat, size as nat);
    }
    assert(is_chunk(start, end, links.max_patched_points, points.len()));
    let chunk = points.subrange(start, end);
    let part = words.subrange(start * stride, end * stride);
    assert(fetched(download, links, chunk, points_count, part));
    let (commands, count, reply) = choose|
        commands: Vec<LinksCommand>,
        count: usize,
        reply: Vec<u32>,
    |
        {
            &&& #[trigger] download.ensures((commands, count), Ok(reply))
            &&& gathers_rows(commands@, links, chunk, points_count)
            &&& count == chunk.len() * links.stride()
            &&& reply@ == part
        };
    assert(read_back(links, points_count, image, commands@, count as nat, reply@));
    let device = choose|device: LinksDevice|
        {
            &&& can_download(device, links, points_count)
            &&& device.memory[LinksBuffer::Links] == image
            &&& reply@ == #[trigger] executed_all(
                device,
                commands@,
            ).memory[LinksBuffer::Download].take(count as int)
        };
    assert(rows_gathered(device, executed_all(device, commands@), chunk, stride));
    assert(part == rows_of(image, chunk, stride));
    assert forall|k: int| 0 <= k < chunk.len() implies ((#[trigger] chunk[k]) + 1) * stride
        <= image.len() by {
        assert(chunk[k] == points[start + k]);
        assert((chunk[k] + 1) * stride <= points_count * stride) by (nonlinear_arith)
            requires
                chunk[k] < points_count,
        ;
    }
    let k = i - start;
    lemma_row_of(image, chunk, stride, k);
    assert(chunk[k] == points[i]);
    assert(i * stride == start * stride + k * stride && (i + 1) * stride == start * stride + (k
        + 1) * stride && (i + 1) * stride == i * stride + stride && 0 <= start * stride && 0 <= k
        * stride && start * stride <= end * stride && end * stride <= points.len() * stride && (k
        + 1) * stride <= (end - start) * stride && end * stride == start * stride + (end - start)
        * stride) by (nonlinear_arith)
        requires
            i == start + k,
            0 <= start,
            0 <= k < end - start,
            end <= points.len(),
            stride > 0,
    ;
    assert(words.subrange(i * stride, (i + 1) * stride) =~= part.subrange(
        k * stride,
        (k + 1) * stride,
    ));
}

/// Two lists with the same row hold the same links there.
proof fn lemma_same_row(a: Seq<u32>, a_at: int, b: Seq<u32>, b_at: int, stride: nat)
    requires
        0 <= a_at,
        a_at + stride <= a.len(),
        0 <= b_at,
        b_at + stride <= b.len(),
        a.subrange(a_at, a_at + stride) == b.subrange(b_at, b_at + stride),
        b[b_at] < stride,
    ensures
        a[a_at] == b[b_at],
        row_links(a, a_at) == row_links(b, b_at),
{
    let row = a.subrange(a_at, a_at + stride);
    assert(row[0] == a[a_at]);
    assert(row[0] == b[b_at]);
    assert(row_links(a, a_at) =~= row.subrange(1, 1 + row[0]));
    assert(row_links(b, b_at) =~= row.subrange(1, 1 + row[0]));
}

/// The links that the device holds come back: when links were read from a device whose rows are
/// sound, every point of the level has the links of its row that lead to points of the level.
pub proof fn lemma_download_reads_device<
    D: Fn(Vec<LinksCommand>, usize) -> OperationResult<Vec<u32>>,
    S: Fn() -> bool,
>(
    download: &D,
    is_stopped: &S,
    links: LinksView,
    image: Seq<u32>,
    before: GraphLayers,
    after: GraphLayers,
    level: int,
    r: OperationResult<DownloadStats>,
    point_id: int,
)
    requires
        links.max_patched_points > 0,
        before.layers@.len() <= u32::MAX,
        before.layers@.len() * links.stride() <= image.len(),
        reads_device(download, links, before.layers@.len(), image),
        download_outcome(download, is_stopped, links, before, after, level, r),
        r is Ok,
        has_level(before, point_id, level),
        image[point_id * links.stride()] < links.stride(),
    ensures
        after.links(point_id, level) == kept_links(
            before,
            level,
            row_links(image, point_id * links.stride()),
        ),
{
    let stride = links.stride();
    let count = before.layers@.len();
    let points = level_points(before, level, count);
    let (n, words) = choose|n: nat, words: Seq<u32>| #[trigger]
        links_downloaded(download, links, before, after, level, n, words) && download_ended(
            download,
            is_stopped,
            links,
            before,
            after,
            level,
            n,
            words,
            r,
        );
    assert(points.take(n as int) =~= points);
    lemma_level_points(before, level, count);
    lemma_level_point_found(before, level, count, point_id);
    let i = choose|i: int| 0 <= i < points.len() && #[trigger] points[i] == point_id;
    lemma_downloaded_row(download, links, points, count, image, words, i);
    lemma_place(point_id, count, stride);
    lemma_same_row(words, i * stride, image, point_id * stride, stride);
    assert(after.links(points[i] as int, level) == kept_links(
        before,
        level,
        row_links(words, i * stride),
    ));
}

/// The place of a point's row.
proof fn lemma_place(point_id: int, points_count: nat, stride: nat)
    requires
        0 <= point_id < points_count,
    ensures
        0 <= point_id * stride,
        (point_id + 1) * stride == point_id * stride + stride,
        (point_id + 1) * stride <= points_count * stride,
{
    assert(0 <= point_id * stride && (point_id + 1) * stride == point_id * stride + stride && (
    point_id + 1) * stride <= points_count * stride) by (nonlinear_arith)
        requires
            0 <= point_id < points_count,
    ;
}

/// No link of the first rows leads below the level when none of each row does.
proof fn lemma_no_bad_links(graph: GraphLayers, level: int, words: Seq<u32>, stride: nat, n: nat)
    requires
        forall|i: int|
            0 <= i < n ==> bad_links(graph, level, #[trigger] row_at(words, stride, i)).len() == 0,
    ensures
        all_bad_links(graph, level, words, stride, n).len() == 0,
    decreases n,
{
    if n > 0 {
        lemma_no_bad_links(graph, level, words, stride, (n - 1) as nat);
        assert(bad_links(graph, level, row_at(words, stride, n - 1)).len() == 0);
    }
}

/// The links in the words of a point.
spec fn row_at(words: Seq<u32>, stride: nat, i: int) -> Seq<PointOffsetType> {
    row_links(words, i * stride)
}

/// What was uploaded comes back: when a layer of a graph was uploaded to a device and its links are
/// read back from there into a graph with the same points and levels, every point of the level has
/// its links again and no link is dropped.
pub proof fn lemma_upload_download<
    D: Fn(Vec<LinksCommand>, usize) -> OperationResult<Vec<u32>>,
    S: Fn() -> bool,
>(
    download: &D,
    is_stopped: &S,
    links: LinksView,
    given: LinksDevice,
    device: LinksDevice,
    graph: GraphLayers,
    before: GraphLayers,
    after: GraphLayers,
    level: int,
    r: OperationResult<DownloadStats>,
)
    requires
        links.max_patched_points > 0,
        graph.layers@.len() <= u32::MAX,
        ready_for_upload(given, links, graph.layers@.len()),
        layer_uploaded(given, device, links, graph, level, graph.layers@.len()),
        layer_fits(graph, level, graph.layers@.len(), links.links_capacity),
        forall|p: int| (#[trigger] graph.links(p, level)).len() <= u32::MAX,
        forall|p: int, i: int|
            0 <= i < graph.links(p, level).len() ==> has_level(
                graph,
                (#[trigger] graph.links(p, level)[i]) as int,
                level,
            ),
        same_shape(graph, before),
        reads_device(download, links, before.layers@.len(), device.memory[LinksBuffer::Links]),
        download_outcome(download, is_stopped, links, before, after, level, r),
        r is Ok,
    ensures
        forall|p: int|
            has_level(graph, p, level) ==> #[trigger] after.links(p, level) == graph.links(
                p,
                level,
            ),
        r == Ok::<DownloadStats, OperationError>(DownloadStats { bad_links: 0, zeroes: 0 }),
{
    let stride = links.stride();
    let count = graph.layers@.len();
    let points = level_points(before, level, count);
    let image = device.memory[LinksBuffer::Links];
    let len = given.memory[LinksBuffer::Links].len();
    assert forall|p: int| 0 <= p < count implies (#[trigger] graph.links(p, level)).len() < stride
        && graph.links(p, level).len() <= u32::MAX by {
        assert(graph.links(p, level).len() <= links.links_capacity);
    }
    lemma_placed_len(zeros(len), layer_rows(graph, level, count), stride);
    assert forall|p: int| has_level(graph, p, level) implies #[trigger] after.links(p, level)
        == graph.links(p, level) by {
        lemma_image_row(graph, level, count, stride, len, p);
        assert(graph.layers@[p]@.len() == before.layers@[p]@.len());
        lemma_download_reads_device(
            download,
            is_stopped,
            links,
            image,
            before,
            after,
            level,
            r,
            p,
        );
        lemma_kept_all(graph, level, graph.links(p, level));
        lemma_same_shape_links(graph, before, level, graph.links(p, level));
    }
    let (n, words) = choose|n: nat, words: Seq<u32>| #[trigger]
        links_downloaded(download, links, before, after, level, n, words) && download_ended(
            download,
            is_stopped,
            links,
            before,
            after,
            level,
            n,
            words,
            r,
        );
    assert(points.take(n as int) =~= points);
    lemma_level_points(before, level, count);
    assert forall|i: int| 0 <= i < n implies bad_links(
        before,
        level,
        #[trigger] row_at(words, stride, i),
    ).len() == 0 by {
        let p = points[i] as int;
        assert(graph.layers@[p]@.len() == before.layers@[p]@.len());
        lemma_downloaded_row(download, links, points, count, image, words, i);
        lemma_image_row(graph, level, count, stride, len, p);
        lemma_place(p, count, stride);
        lemma_same_row(words, i * stride, image, p * stride, stride);
        lemma_kept_all(graph, level, graph.links(p, level));
        lemma_same_shape_links(graph, before, level, graph.links(p, level));
    }
    lemma_no_bad_links(before, level, words, stride, n);
}

/// Every point of the level is among the points of the level.
proof fn lemma_level_point_found(graph: GraphLayers, level: int, n: nat, point_id: int)
    requires
        n <= graph.layers@.len() <= u32::MAX,
        0 <= point_id < n,
        has_level(graph, point_id, level),
    ensures
        is_point_of(level_points(graph, level, n), point_id),
    decreases n,
{
    let points = level_points(graph, level, n);
    if point_id < n - 1 {
        let previous = level_points(graph, level, (n - 1) as nat);
        lemma_level_point_found(graph, level, (n - 1) as nat, point_id);
        let i = choose|i: int| 0 <= i < previous.len() && #[trigger] previous[i] == point_id;
        assert(points[i] == point_id);
    } else {
        assert(points[points.len() - 1] == point_id);
    }
}

} // verus!
