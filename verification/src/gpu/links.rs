//! Resident projection of one graph layer on a device.

use vstd::prelude::*;
use vstd::arithmetic::div_mod::lemma_mod_add_multiples_vanish;

use crate::arith::{max_int, min_usize};
use crate::buffer_telemetry::BufferType;
use crate::error::{
    always_stopped, can_poll, cancelled, check_process_stopped, failed, may_stop, OperationError,
    OperationResult,
};
use crate::gpu::commands::{
    binding_list, blank_device, creations, descriptions, executed_all, lemma_transferred_one,
    lemma_transferred_two, overwrite, push_command, transferred, transferred_all, Binding,
    BindingKind, DeviceState, GpuCommand, Transfer, WORD_SIZE,
};
use crate::graph::GraphLayers;
use crate::text::{decimal, decimal_text, joined};
use crate::types::PointOffsetType;

verus! {

/// Size of the transfer buffer for links in bytes.
pub const LINKS_TRANSFER_BUFFER_SIZE: usize = 33554432;

/// The transfer buffer holds this many words.
pub const TRANSFER_WORDS: usize = 8388608;

/// Number of words of the parameters.
pub const PARAMS_WORDS: usize = 2;

/// The buffers of the projection.
#[derive(Clone, Copy, Debug, PartialEq, Eq, Structural)]
pub enum LinksBuffer {
    /// Neighbours.
    Links,
    /// Where the neighbours of every point start, in the compact form.
    Offsets,
    Params,
    /// Transfer buffer.
    Patch,
    /// Transfer buffer back to the host.
    Download,
}

/// Command for the buffers of the projection.
pub type LinksCommand = GpuCommand<LinksBuffer>;

/// Device as far as the projection sees it.
pub type LinksDevice = DeviceState<LinksBuffer>;

/// Device resources for links.
#[derive(Debug)]
pub struct GpuLinks {
    m: usize,
    links_capacity: usize,
    max_patched_points: usize,
    compact: bool,
    patch_buffer: bool,
    patched_points: Vec<(PointOffsetType, usize)>,
}

/// What the projection knows of itself.
pub ghost struct LinksView {
    /// Number of links per point of the uploaded layer.
    pub m: usize,
    /// Links per point at most, in the fixed-width form.
    pub links_capacity: nat,
    /// Points that fit in the transfer buffer.
    pub max_patched_points: nat,
    /// The projection is in the compact form.
    pub compact: bool,
    /// The transfer buffer has not been released.
    pub patch_buffer: bool,
    /// Points and link counts that wait in the transfer buffer.
    pub patched_points: Seq<(PointOffsetType, usize)>,
}

impl View for GpuLinks {
    type V = LinksView;

    closed spec fn view(&self) -> LinksView {
        LinksView {
            m: self.m,
            links_capacity: self.links_capacity as nat,
            max_patched_points: self.max_patched_points as nat,
            compact: self.compact,
            patch_buffer: self.patch_buffer,
            patched_points: self.patched_points@,
        }
    }
}

impl LinksView {
    /// Words per point.
    pub open spec fn stride(self) -> nat {
        self.links_capacity + 1
    }

    /// Words of the transfer buffer that hold points.
    pub open spec fn patch_words(self) -> nat {
        self.max_patched_points * self.stride()
    }

    /// Offsets in the transfer buffer can be computed.
    pub open spec fn wf(self) -> bool {
        &&& (self.patch_words() + PARAMS_WORDS) * WORD_SIZE <= usize::MAX
        &&& self.stride() * WORD_SIZE <= usize::MAX
        &&& self.patched_points.len() <= self.max_patched_points
        &&& forall|i: int|
            0 <= i < self.patched_points.len() ==> (#[trigger] self.patched_points[i]).1
                <= self.links_capacity
    }

    /// The device holds the buffers of this projection and waits for no work.
    pub open spec fn resident(self, device: LinksDevice) -> bool {
        &&& !device.fault
        &&& device.pending.len() == 0
        &&& device.memory.contains_key(LinksBuffer::Links)
        &&& device.memory.contains_key(LinksBuffer::Params)
        &&& device.memory[LinksBuffer::Params].len() == PARAMS_WORDS
        &&& device.memory.contains_key(LinksBuffer::Patch)
        &&& device.memory[LinksBuffer::Patch].len() == self.patch_words() + PARAMS_WORDS
    }
}

/// The parameters on the device.
pub open spec fn params_words(m: usize, links_capacity: nat) -> Seq<u32> {
    seq![m as u32, links_capacity as u32]
}

/// A point's words: the number of its links and the links.
pub open spec fn row_words(links: Seq<PointOffsetType>) -> Seq<u32> {
    seq![links.len() as u32] + links
}

/// The points with links on a layer, with their links.
pub open spec fn layer_rows(
    graph: GraphLayers,
    level: int,
    points_count: nat,
) -> Seq<(PointOffsetType, Seq<PointOffsetType>)>
    decreases points_count,
{
    if points_count == 0 {
        Seq::empty()
    } else {
        let previous = layer_rows(graph, level, (points_count - 1) as nat);
        let links = graph.links(points_count - 1, level);
        if links.len() > 0 {
            previous.push(((points_count - 1) as PointOffsetType, links))
        } else {
            previous
        }
    }
}

/// The links buffer with rows written to it, each of them at the place of its point.
pub open spec fn placed(
    words: Seq<u32>,
    rows: Seq<(PointOffsetType, Seq<PointOffsetType>)>,
    stride: nat,
) -> Seq<u32>
    decreases rows.len(),
{
    if rows.len() == 0 {
        words
    } else {
        overwrite(
            placed(words, rows.drop_last(), stride),
            rows.last().0 * stride,
            row_words(rows.last().1),
        )
    }
}

/// A buffer of zeros.
pub open spec fn zeros(len: nat) -> Seq<u32> {
    Seq::new(len, |i: int| 0u32)
}

/// The uploaded layer: zeros but for the rows of the points with links.
pub open spec fn layer_image(
    graph: GraphLayers,
    level: int,
    points_count: nat,
    stride: nat,
    len: nat,
) -> Seq<u32> {
    placed(zeros(len), layer_rows(graph, level, points_count), stride)
}

impl GpuLinks {
    /// The largest number of links that a point has on a layer.
    pub fn max_links_on_level(graph: &GraphLayers, points_count: usize, level: usize) -> (r: usize)
        ensures
            r == max_links(*graph, points_count as nat, level as int),
    {
        let mut r: usize = 0;
        let mut i: usize = 0;
        while i < points_count
            invariant
                i <= points_count,
                r == max_links(*graph, i as nat, level as int),
            decreases points_count - i,
        {
            let count: usize = graph.link_count(i, level);
            if count > r {
                r = count;
            }
            i = i + 1;
        }
        r
    }
}

/// The largest number of links among the first points.
pub open spec fn max_links(graph: GraphLayers, points_count: nat, level: int) -> nat
    decreases points_count,
{
    if points_count == 0 {
        0
    } else {
        max_int(
            max_links(graph, (points_count - 1) as nat, level) as int,
            graph.links(points_count - 1, level).len() as int,
        ) as nat
    }
}

/// No point has more links than the largest number.
pub proof fn lemma_max_links(graph: GraphLayers, points_count: nat, level: int, point_id: int)
    requires
        0 <= point_id < points_count,
    ensures
        graph.links(point_id, level).len() <= max_links(graph, points_count, level),
    decreases points_count,
{
    if point_id < points_count - 1 {
        lemma_max_links(graph, (points_count - 1) as nat, level, point_id);
    }
}

/// Some point has the largest number of links, unless none has any.
pub proof fn lemma_max_links_is_reached(graph: GraphLayers, points_count: nat, level: int)
    ensures
        max_links(graph, points_count, level) == 0 || exists|point_id: int|
            0 <= point_id < points_count && (#[trigger] graph.links(point_id, level)).len()
                == max_links(graph, points_count, level),
    decreases points_count,
{
    if points_count > 0 {
        let last = points_count - 1;
        lemma_max_links_is_reached(graph, last as nat, level);
        assert(graph.links(last, level).len() <= max_links(graph, points_count, level));
    }
}

/// The transfer buffer holds this many points of a stride.
pub open spec fn patch_points(links_capacity: nat) -> nat {
    LINKS_TRANSFER_BUFFER_SIZE as nat / ((links_capacity + 1) * WORD_SIZE as nat)
}

/// As many points fit in the transfer buffer as its size allows.
proof fn lemma_patch_points(links_capacity: nat)
    ensures
        patch_points(links_capacity) * (links_capacity + 1) * WORD_SIZE
            <= LINKS_TRANSFER_BUFFER_SIZE,
        patch_points(links_capacity) <= LINKS_TRANSFER_BUFFER_SIZE,
{
    let d = (links_capacity + 1) * WORD_SIZE as nat;
    let q = patch_points(links_capacity);
    vstd::arithmetic::div_mod::lemma_fundamental_div_mod(
        LINKS_TRANSFER_BUFFER_SIZE as int,
        d as int,
    );
    assert(q * d <= LINKS_TRANSFER_BUFFER_SIZE && q <= q * d) by (nonlinear_arith)
        requires
            LINKS_TRANSFER_BUFFER_SIZE as int == d as int * (LINKS_TRANSFER_BUFFER_SIZE as int
                / d as int) + LINKS_TRANSFER_BUFFER_SIZE as int % d as int,
            q == LINKS_TRANSFER_BUFFER_SIZE as int / d as int,
            0 <= LINKS_TRANSFER_BUFFER_SIZE as int % d as int,
            d >= 1,
    ;
    assert(q * (links_capacity + 1) * WORD_SIZE == q * d) by (nonlinear_arith)
        requires
            d == (links_capacity + 1) * WORD_SIZE,
    ;
}

/// The links and params after a fixed-width projection was made.
pub open spec fn made_fixed(
    device: LinksDevice,
    links: LinksView,
    points_count: nat,
) -> bool {
    &&& links.resident(device)
    &&& device.memory[LinksBuffer::Links] == zeros(points_count * links.stride())
    &&& device.memory[LinksBuffer::Params] == params_words(links.m, links.links_capacity)
}

impl GpuLinks {
    /// Make the mutable fixed-width projection. Every point gets the same number of words: the
    /// number of its links and room for the links.
    pub fn new(m: usize, links_capacity: usize, points_count: usize) -> (r: (
        GpuLinks,
        Vec<LinksCommand>,
    ))
        requires
            (links_capacity + 1) * WORD_SIZE <= usize::MAX,
            points_count * (links_capacity + 1) * WORD_SIZE <= usize::MAX,
        ensures
            r.0@ == (LinksView {
                m,
                links_capacity: links_capacity as nat,
                max_patched_points: patch_points(links_capacity as nat),
                compact: false,
                patch_buffer: true,
                patched_points: Seq::empty(),
            }),
            r.0@.wf(),
            creations(r.1@) == seq![
                (
                    LinksBuffer::Links,
                    "Links buffer"@,
                    BufferType::Storage,
                    points_count as nat * r.0@.stride(),
                ),
                (
                    LinksBuffer::Params,
                    "Links params buffer"@,
                    BufferType::Uniform,
                    PARAMS_WORDS as nat,
                ),
                (
                    LinksBuffer::Patch,
                    "Links patch buffer"@,
                    BufferType::CpuToGpu,
                    r.0@.patch_words() + PARAMS_WORDS as nat,
                ),
            ],
            descriptions(r.1@) == seq![
                seq![
                    (0nat, BindingKind::Uniform, LinksBuffer::Params),
                    (1nat, BindingKind::Storage, LinksBuffer::Links),
                ],
            ],
            forall|undefined: spec_fn(LinksBuffer, int) -> u32|
                made_fixed(
                    #[trigger] executed_all(blank_device(undefined), r.1@),
                    r.0@,
                    points_count as nat,
                ),
    {
        let mut commands: Vec<LinksCommand> = Vec::new();
        let stride: usize = links_capacity + 1;
        proof {
            lemma_patch_points(links_capacity as nat);
            assert(points_count * stride <= points_count * stride * WORD_SIZE) by (
            nonlinear_arith);
            let q = patch_points(links_capacity as nat) as int;
            assert(q * stride <= q * stride * WORD_SIZE) by (nonlinear_arith)
                requires
                    q >= 0,
            ;
        }
        let max_patched_points: usize = LINKS_TRANSFER_BUFFER_SIZE / (stride * WORD_SIZE);
        let patch_words: usize = max_patched_points * stride;
        push_command(
            &mut commands,
            GpuCommand::Create {
                buffer: LinksBuffer::Links,
                label: "Links buffer",
                buffer_type: BufferType::Storage,
                size: points_count * stride,
            },
        );
        push_command(
            &mut commands,
            GpuCommand::Create {
                buffer: LinksBuffer::Params,
                label: "Links params buffer",
                buffer_type: BufferType::Uniform,
                size: PARAMS_WORDS,
            },
        );
        push_command(
            &mut commands,
            GpuCommand::Create {
                buffer: LinksBuffer::Patch,
                label: "Links patch buffer",
                buffer_type: BufferType::CpuToGpu,
                size: patch_words + PARAMS_WORDS,
            },
        );
        let mut params: Vec<u32> = Vec::new();
        params.push(m as u32);
        params.push(links_capacity as u32);
        push_command(
            &mut commands,
            GpuCommand::Upload { buffer: LinksBuffer::Patch, at: 0, words: params },
        );
        push_command(
            &mut commands,
            GpuCommand::Copy {
                source: LinksBuffer::Patch,
                target: LinksBuffer::Params,
                source_at: 0,
                target_at: 0,
                size: PARAMS_WORDS,
            },
        );
        push_command(&mut commands, GpuCommand::Clear { buffer: LinksBuffer::Links });
        let ghost recorded = commands@;
        push_command(&mut commands, GpuCommand::Run);
        let mut bindings: Vec<Binding<LinksBuffer>> = Vec::new();
        bindings.push(
            Binding { point: 0, kind: BindingKind::Uniform, buffer: LinksBuffer::Params },
        );
        bindings.push(
            Binding { point: 1, kind: BindingKind::Storage, buffer: LinksBuffer::Links },
        );
        proof {
            assert(binding_list(bindings@) =~= seq![
                (0nat, BindingKind::Uniform, LinksBuffer::Params),
                (1nat, BindingKind::Storage, LinksBuffer::Links),
            ]);
        }
        push_command(&mut commands, GpuCommand::Describe { bindings });
        let links = GpuLinks {
            m,
            links_capacity,
            max_patched_points,
            compact: false,
            patch_buffer: true,
            patched_points: Vec::new(),
        };
        proof {
            let view = links@;
            assert(view.patched_points =~= Seq::empty());
            assert(creations(commands@) =~= seq![
                (
                    LinksBuffer::Links,
                    "Links buffer"@,
                    BufferType::Storage,
                    points_count as nat * view.stride(),
                ),
                (
                    LinksBuffer::Params,
                    "Links params buffer"@,
                    BufferType::Uniform,
                    PARAMS_WORDS as nat,
                ),
                (
                    LinksBuffer::Patch,
                    "Links patch buffer"@,
                    BufferType::CpuToGpu,
                    view.patch_words() + PARAMS_WORDS as nat,
                ),
            ]);
            assert(descriptions(commands@) =~= seq![binding_list(bindings@)]);
            assert forall|undefined: spec_fn(LinksBuffer, int) -> u32| made_fixed(
                #[trigger] executed_all(blank_device(undefined), commands@),
                view,
                points_count as nat,
            ) by {
                let start = blank_device(undefined);
                let before = executed_all(start, recorded);
                let copy = Transfer::Copy {
                    source: LinksBuffer::Patch,
                    target: LinksBuffer::Params,
                    source_at: 0,
                    target_at: 0,
                    size: PARAMS_WORDS as nat,
                };
                let clear = Transfer::Clear { buffer: LinksBuffer::Links };
                assert(before.pending =~= Seq::empty().push(copy).push(clear));
                lemma_transferred_two(before, copy, clear);
                let after = executed_all(start, commands@);
                assert(before.memory[LinksBuffer::Patch].subrange(0, 2) =~= params@);
                assert(after.memory[LinksBuffer::Params] =~= params_words(
                    m,
                    links_capacity as nat,
                ));
                assert(after.memory[LinksBuffer::Links] =~= zeros(
                    points_count as nat * view.stride(),
                ));
            }
        }
        (links, commands)
    }
}

/// The device with a row in the transfer buffer.
pub open spec fn with_row(
    device: LinksDevice,
    at: int,
    links: Seq<PointOffsetType>,
) -> LinksDevice {
    DeviceState {
        memory: device.memory.insert(
            LinksBuffer::Patch,
            overwrite(device.memory[LinksBuffer::Patch], at, row_words(links)),
        ),
        ..device
    }
}

/// The copies that move rows from the transfer buffer to their points.
pub open spec fn row_copies(
    patched: Seq<(PointOffsetType, usize)>,
    stride: nat,
) -> Seq<Transfer<LinksBuffer>> {
    Seq::new(
        patched.len(),
        |i: int|
            Transfer::Copy {
                source: LinksBuffer::Patch,
                target: LinksBuffer::Links,
                source_at: (i * stride) as nat,
                target_at: (patched[i].0 * stride) as nat,
                size: (patched[i].1 + 1) as nat,
            },
    )
}

/// The rows stand one after the other in the transfer buffer.
pub open spec fn rows_staged(
    patch: Seq<u32>,
    rows: Seq<(PointOffsetType, Seq<PointOffsetType>)>,
    stride: nat,
) -> bool {
    forall|i: int|
        0 <= i < rows.len() ==> {
            &&& i * stride + (#[trigger] rows[i]).1.len() + 1 <= patch.len()
            &&& patch.subrange(i * stride, i * stride + rows[i].1.len() + 1) == row_words(
                rows[i].1,
            )
        }
}

/// The noted points are those of the rows.
pub open spec fn rows_noted(
    patched: Seq<(PointOffsetType, usize)>,
    rows: Seq<(PointOffsetType, Seq<PointOffsetType>)>,
) -> bool {
    &&& patched.len() == rows.len()
    &&& forall|i: int|
        0 <= i < rows.len() ==> (#[trigger] patched[i]).0 == rows[i].0 && patched[i].1
            == rows[i].1.len()
}

/// Every row fits at the place of its point.
pub open spec fn rows_fit(
    rows: Seq<(PointOffsetType, Seq<PointOffsetType>)>,
    stride: nat,
    len: nat,
) -> bool {
    forall|i: int|
        0 <= i < rows.len() ==> (#[trigger] rows[i]).0 * stride + rows[i].1.len() + 1 <= len
}

/// Placing rows does not change the size of the buffer.
pub(crate) proof fn lemma_placed_len(
    words: Seq<u32>,
    rows: Seq<(PointOffsetType, Seq<PointOffsetType>)>,
    stride: nat,
)
    ensures
        placed(words, rows, stride).len() == words.len(),
    decreases rows.len(),
{
    if rows.len() > 0 {
        lemma_placed_len(words, rows.drop_last(), stride);
    }
}

/// Rows can be placed in two parts.
proof fn lemma_placed_concat(
    words: Seq<u32>,
    a: Seq<(PointOffsetType, Seq<PointOffsetType>)>,
    b: Seq<(PointOffsetType, Seq<PointOffsetType>)>,
    stride: nat,
)
    ensures
        placed(words, a + b, stride) == placed(placed(words, a, stride), b, stride),
    decreases b.len(),
{
    if b.len() == 0 {
        assert(a + b =~= a);
    } else {
        assert((a + b).drop_last() =~= a + b.drop_last());
        lemma_placed_concat(words, a, b.drop_last(), stride);
    }
}

/// Writing behind staged rows keeps them.
proof fn lemma_stage_row(
    patch: Seq<u32>,
    rows: Seq<(PointOffsetType, Seq<PointOffsetType>)>,
    stride: nat,
    point_id: PointOffsetType,
    links: Seq<PointOffsetType>,
)
    requires
        rows_staged(patch, rows, stride),
        forall|i: int| 0 <= i < rows.len() ==> (#[trigger] rows[i]).1.len() < stride,
        rows.len() * stride + links.len() + 1 <= patch.len(),
    ensures
        rows_staged(
            overwrite(patch, (rows.len() * stride) as int, row_words(links)),
            rows.push((point_id, links)),
            stride,
        ),
{
    let at = (rows.len() * stride) as int;
    let after = overwrite(patch, at, row_words(links));
    let all = rows.push((point_id, links));
    assert forall|i: int| 0 <= i < all.len() implies {
        &&& i * stride + (#[trigger] all[i]).1.len() + 1 <= after.len()
        &&& after.subrange(i * stride, i * stride + all[i].1.len() + 1) == row_words(all[i].1)
    } by {
        if i < rows.len() {
            assert(all[i] == rows[i]);
            assert(i * stride + stride <= rows.len() * stride) by (nonlinear_arith)
                requires
                    i + 1 <= rows.len(),
            ;
            assert(0 <= i * stride) by (nonlinear_arith)
                requires
                    0 <= i,
            ;
            assert(after.subrange(i * stride, i * stride + rows[i].1.len() + 1)
                =~= patch.subrange(i * stride, i * stride + rows[i].1.len() + 1));
        } else {
            assert(0 <= at) by (nonlinear_arith)
                requires
                    at == rows.len() * stride,
            ;
            assert(after.subrange(at, at + links.len() + 1) =~= row_words(links));
        }
    }
}

/// Copying staged rows places them.
proof fn lemma_copy_rows(
    state: LinksDevice,
    patched: Seq<(PointOffsetType, usize)>,
    rows: Seq<(PointOffsetType, Seq<PointOffsetType>)>,
    stride: nat,
)
    requires
        rows_noted(patched, rows),
        state.memory.contains_key(LinksBuffer::Patch),
        state.memory.contains_key(LinksBuffer::Links),
        rows_staged(state.memory[LinksBuffer::Patch], rows, stride),
        rows_fit(rows, stride, state.memory[LinksBuffer::Links].len()),
    ensures
        transferred_all(state, row_copies(patched, stride)) == (DeviceState {
            memory: state.memory.insert(
                LinksBuffer::Links,
                placed(state.memory[LinksBuffer::Links], rows, stride),
            ),
            ..state
        }),
    decreases rows.len(),
{
    let copies = row_copies(patched, stride);
    let links = state.memory[LinksBuffer::Links];
    if rows.len() == 0 {
        assert(copies =~= Seq::empty());
        assert(state.memory.insert(LinksBuffer::Links, placed(links, rows, stride))
            =~= state.memory);
    } else {
        let n = rows.len() - 1;
        let fewer = rows.drop_last();
        let noted = patched.drop_last();
        assert(copies.drop_last() =~= row_copies(noted, stride));
        assert forall|i: int| 0 <= i < fewer.len() implies (#[trigger] noted[i]).0 == fewer[i].0
            && noted[i].1 == fewer[i].1.len() by {
            assert(patched[i].0 == rows[i].0);
        }
        assert forall|i: int| 0 <= i < fewer.len() implies {
            &&& i * stride + (#[trigger] fewer[i]).1.len() + 1
                <= state.memory[LinksBuffer::Patch].len()
            &&& state.memory[LinksBuffer::Patch].subrange(
                i * stride,
                i * stride + fewer[i].1.len() + 1,
            ) == row_words(fewer[i].1)
        } by {
            assert(fewer[i] == rows[i]);
        }
        assert forall|i: int| 0 <= i < fewer.len() implies (#[trigger] fewer[i]).0 * stride
            + fewer[i].1.len() + 1 <= links.len() by {
            assert(fewer[i] == rows[i]);
        }
        lemma_copy_rows(state, noted, fewer, stride);
        lemma_placed_len(links, fewer, stride);
        let before = transferred_all(state, copies.drop_last());
        let (point_id, row) = rows[n];
        assert(patched[n].0 == point_id && patched[n].1 == row.len());
        assert(0 <= n * stride && 0 <= point_id * stride) by (nonlinear_arith)
            requires
                0 <= n,
        ;
        assert(rows[n].0 * stride + rows[n].1.len() + 1 <= links.len());
        let after = transferred_all(state, copies);
        assert(copies.last() == copies[n]);
        assert(after == transferred(before, copies[n]));
        assert(before.memory[LinksBuffer::Patch] == state.memory[LinksBuffer::Patch]);
        assert(after.memory =~= state.memory.insert(
            LinksBuffer::Links,
            placed(links, rows, stride),
        ));
    }
}

impl GpuLinks {
    /// The transfer buffer, unless it has been released.
    fn patch_buffer(&self) -> (r: OperationResult<LinksBuffer>)
        ensures
            if self@.patch_buffer {
                r matches Ok(buffer) && buffer == LinksBuffer::Patch
            } else {
                failed(r, "GPU links patch buffer has already been released"@)
            },
    {
        if self.patch_buffer {
            Ok(LinksBuffer::Patch)
        } else {
            Err(
                OperationError::service_error("GPU links patch buffer has already been released"),
            )
        }
    }

    /// Tell the device how many links a point has on the next layer.
    pub fn update_params(&mut self, commands: &mut Vec<LinksCommand>, m: usize) -> (r:
        OperationResult<()>)
        requires
            old(self)@.wf(),
        ensures
            final(self)@ == (LinksView { m, ..old(self)@ }),
            if old(self)@.patch_buffer {
                r is Ok
            } else {
                failed(r, "GPU links patch buffer has already been released"@)
                    && final(commands)@ == old(commands)@
            },
            r is Ok ==> forall|start: LinksDevice|
                old(self)@.resident(executed_all(start, old(commands)@)) ==> params_set(
                    executed_all(start, old(commands)@),
                    #[trigger] executed_all(start, final(commands)@),
                    final(self)@,
                ),
    {
        self.m = m;
        let patch = match self.patch_buffer() {
            Ok(buffer) => buffer,
            Err(error) => {
                return Err(error);
            },
        };
        let ghost view = self@;
        let ghost given = commands@;
        proof {
            assert(view.patch_words() <= view.patch_words() * WORD_SIZE) by (nonlinear_arith);
        }
        let at: usize = self.max_patched_points * (self.links_capacity + 1);
        let mut params: Vec<u32> = Vec::new();
        params.push(m as u32);
        params.push(self.links_capacity as u32);
        push_command(commands, GpuCommand::Upload { buffer: patch, at, words: params });
        push_command(
            commands,
            GpuCommand::Copy {
                source: patch,
                target: LinksBuffer::Params,
                source_at: at,
                target_at: 0,
                size: PARAMS_WORDS,
            },
        );
        let ghost recorded = commands@;
        push_command(commands, GpuCommand::Run);
        proof {
            assert forall|start: LinksDevice|
                view.resident(executed_all(start, given)) implies params_set(
                executed_all(start, given),
                #[trigger] executed_all(start, commands@),
                view,
            ) by {
                let first = executed_all(start, given);
                let before = executed_all(start, recorded);
                let copy = Transfer::Copy {
                    source: LinksBuffer::Patch,
                    target: LinksBuffer::Params,
                    source_at: at as nat,
                    target_at: 0,
                    size: PARAMS_WORDS as nat,
                };
                assert(before.pending =~= Seq::empty().push(copy));
                lemma_transferred_one(before, copy);
                assert(before.memory[LinksBuffer::Patch].subrange(at as int, at + 2) =~= params@);
                let after = executed_all(start, commands@);
                assert(after.memory[LinksBuffer::Params] =~= params_words(
                    m,
                    view.links_capacity,
                ));
            }
        }
        Ok(())
    }

    /// Release the transfer buffer after an immutable graph has been uploaded. Searches need only
    /// the resident links and params, so the staging allocation is not needed by a search cache.
    pub fn release_patch_buffer(&mut self) -> (r: OperationResult<()>)
        requires
            old(self)@.wf(),
        ensures
            if old(self)@.patched_points.len() > 0 {
                failed(r, "Cannot release GPU links patch buffer with pending patches"@)
                    && final(self)@ == old(self)@
            } else {
                r is Ok && final(self)@ == (LinksView { patch_buffer: false, ..old(self)@ })
            },
            final(self)@.wf(),
    {
        if self.patched_points.len() > 0 {
            return Err(
                OperationError::service_error(
                    "Cannot release GPU links patch buffer with pending patches",
                ),
            );
        }
        self.patch_buffer = false;
        Ok(())
    }

    /// Forget waiting patches and set all links to zero.
    pub fn clear(&mut self, commands: &mut Vec<LinksCommand>)
        requires
            old(self)@.wf(),
        ensures
            final(self)@ == (LinksView { patched_points: Seq::empty(), ..old(self)@ }),
            final(self)@.wf(),
            forall|start: LinksDevice|
                old(self)@.resident(executed_all(start, old(commands)@)) ==> cleared(
                    executed_all(start, old(commands)@),
                    #[trigger] executed_all(start, final(commands)@),
                ),
    {
        let ghost given = commands@;
        let ghost view = self@;
        if self.patched_points.len() > 0 {
            self.patched_points.clear();
        }
        push_command(commands, GpuCommand::Clear { buffer: LinksBuffer::Links });
        let ghost recorded = commands@;
        push_command(commands, GpuCommand::Run);
        proof {
            assert(self@.patched_points =~= Seq::empty());
            assert forall|start: LinksDevice|
                view.resident(executed_all(start, given)) implies cleared(
                executed_all(start, given),
                #[trigger] executed_all(start, commands@),
            ) by {
                let before = executed_all(start, recorded);
                let clear = Transfer::Clear { buffer: LinksBuffer::Links };
                assert(before.pending =~= Seq::empty().push(clear));
                lemma_transferred_one(before, clear);
                let first = executed_all(start, given);
                let after = executed_all(start, commands@);
                assert(first.pending =~= Seq::empty());
                assert(after.memory[LinksBuffer::Links] =~= zeros(
                    first.memory[LinksBuffer::Links].len(),
                ));
                assert(after.memory =~= first.memory.insert(
                    LinksBuffer::Links,
                    zeros(first.memory[LinksBuffer::Links].len()),
                ));
            }
        }
    }

    /// Links per point at most, in the fixed-width form.
    pub(crate) fn links_capacity(&self) -> (r: usize)
        ensures
            r == self@.links_capacity,
    {
        self.links_capacity
    }

    /// Points that fit in the transfer buffer.
    pub(crate) fn max_patched_points(&self) -> (r: usize)
        ensures
            r == self@.max_patched_points,
    {
        self.max_patched_points
    }

    /// The buffer of the neighbours.
    pub fn links_buffer(&self) -> (buffer: LinksBuffer)
        ensures
            buffer == LinksBuffer::Links,
    {
        LinksBuffer::Links
    }

    /// Put the links of a point in the transfer buffer.
    fn set_links(
        &mut self,
        point_id: PointOffsetType,
        links: &Vec<PointOffsetType>,
        commands: &mut Vec<LinksCommand>,
    ) -> (r: OperationResult<()>)
        requires
            old(self)@.wf(),
            links@.len() <= old(self)@.links_capacity,
        ensures
            final(self)@.wf(),
            if old(self)@.patched_points.len() >= old(self)@.max_patched_points {
                failed(r, "Gpu links patches are full"@)
            } else if !old(self)@.patch_buffer {
                failed(r, "GPU links patch buffer has already been released"@)
            } else {
                r is Ok
            },
            r is Err ==> final(self)@ == old(self)@ && final(commands)@ == old(commands)@,
            r is Ok ==> {
                &&& final(self)@ == (LinksView {
                    patched_points: old(self)@.patched_points.push((point_id, links@.len() as usize)),
                    ..old(self)@
                })
                &&& forall|start: LinksDevice|
                    old(self)@.resident(executed_all(start, old(commands)@)) ==> (
                    #[trigger] executed_all(start, final(commands)@)) == with_row(
                        executed_all(start, old(commands)@),
                        (old(self)@.patched_points.len() * old(self)@.stride()) as int,
                        links@,
                    )
            },
    {
        if self.patched_points.len() >= self.max_patched_points {
            return Err(OperationError::service_error("Gpu links patches are full"));
        }
        let patch = match self.patch_buffer() {
            Ok(buffer) => buffer,
            Err(error) => {
                return Err(error);
            },
        };
        let ghost view = self@;
        let ghost given = commands@;
        let ghost n = view.patched_points.len() as int;
        proof {
            let s = view.stride() as int;
            let q = view.max_patched_points as int;
            assert(n * s + s <= q * s && q * s <= q * s * WORD_SIZE && 0 <= n * s) by (
            nonlinear_arith)
                requires
                    0 <= n < q,
                    s >= 1,
            ;
        }
        let at: usize = self.patched_points.len() * (self.links_capacity + 1);
        let count: usize = links.len();
        let mut head: Vec<u32> = Vec::new();
        head.push(count as u32);
        push_command(commands, GpuCommand::Upload { buffer: patch, at, words: head });
        let mut body: Vec<u32> = Vec::new();
        body.extend_from_slice(links.as_slice());
        proof {
            assert(body@ =~= links@);
        }
        push_command(commands, GpuCommand::Upload { buffer: patch, at: at + 1, words: body });
        self.patched_points.push((point_id, count));
        proof {
            assert forall|start: LinksDevice|
                view.resident(executed_all(start, given)) implies (
            #[trigger] executed_all(start, commands@)) == with_row(
                executed_all(start, given),
                at as int,
                links@,
            ) by {
                let first = executed_all(start, given);
                let after = executed_all(start, commands@);
                assert(after.memory[LinksBuffer::Patch] =~= overwrite(
                    first.memory[LinksBuffer::Patch],
                    at as int,
                    row_words(links@),
                ));
                assert(after.memory =~= with_row(first, at as int, links@).memory);
            }
            assert forall|i: int| 0 <= i < self@.patched_points.len() implies (
            #[trigger] self@.patched_points[i]).1 <= self@.links_capacity by {
                if i < n {
                    assert(self@.patched_points[i] == view.patched_points[i]);
                }
            }
        }
        Ok(())
    }

    /// Record the copies from the transfer buffer to the points.
    fn apply_gpu_patches(&mut self, commands: &mut Vec<LinksCommand>, points_count: usize) -> (r:
        OperationResult<()>)
        requires
            old(self)@.wf(),
            points_count * old(self)@.stride() * WORD_SIZE <= usize::MAX,
            forall|i: int|
                0 <= i < old(self)@.patched_points.len() ==> (
                #[trigger] old(self)@.patched_points[i]).0 < points_count,
        ensures
            final(self)@.wf(),
            if old(self)@.patch_buffer {
                &&& r is Ok
                &&& final(self)@ == (LinksView { patched_points: Seq::empty(), ..old(self)@ })
                &&& forall|start: LinksDevice|
                    (#[trigger] executed_all(start, final(commands)@)) == (DeviceState {
                        pending: executed_all(start, old(commands)@).pending + row_copies(
                            old(self)@.patched_points,
                            old(self)@.stride(),
                        ),
                        ..executed_all(start, old(commands)@)
                    })
            } else {
                &&& failed(r, "GPU links patch buffer has already been released"@)
                &&& final(self)@ == old(self)@
                &&& final(commands)@ == old(commands)@
            },
    {
        let patch = match self.patch_buffer() {
            Ok(buffer) => buffer,
            Err(error) => {
                return Err(error);
            },
        };
        let ghost view = self@;
        let ghost given = commands@;
        let ghost copies = row_copies(view.patched_points, view.stride());
        let mut i: usize = 0;
        proof {
            assert(copies.take(0) =~= Seq::empty());
            assert forall|start: LinksDevice| (#[trigger] executed_all(start, commands@)) == (
            DeviceState {
                pending: executed_all(start, given).pending + copies.take(0),
                ..executed_all(start, given)
            }) by {
                assert(executed_all(start, given).pending + copies.take(0) =~= executed_all(
                    start,
                    given,
                ).pending);
            }
        }
        while i < self.patched_points.len()
            invariant
                view == self@,
                view.wf(),
                patch == LinksBuffer::Patch,
                i <= view.patched_points.len(),
                copies == row_copies(view.patched_points, view.stride()),
                points_count * view.stride() * WORD_SIZE <= usize::MAX,
                forall|k: int|
                    0 <= k < view.patched_points.len() ==> (
                    #[trigger] view.patched_points[k]).0 < points_count,
                forall|start: LinksDevice|
                    (#[trigger] executed_all(start, commands@)) == (DeviceState {
                        pending: executed_all(start, given).pending + copies.take(i as int),
                        ..executed_all(start, given)
                    }),
            decreases view.patched_points.len() - i,
        {
            let (point_id, count) = self.patched_points[i];
            proof {
                let s = view.stride() as int;
                let q = view.max_patched_points as int;
                let n = points_count as int;
                assert(view.patched_points[i as int].0 < points_count);
                assert(i * s <= q * s && q * s <= q * s * WORD_SIZE && point_id * s <= n * s && n
                    * s <= n * s * WORD_SIZE) by (nonlinear_arith)
                    requires
                        0 <= i <= q,
                        0 <= point_id <= n,
                        s >= 1,
                ;
                assert(view.patched_points[i as int].1 <= view.links_capacity);
            }
            let ghost before = commands@;
            push_command(
                commands,
                GpuCommand::Copy {
                    source: patch,
                    target: LinksBuffer::Links,
                    source_at: i * (self.links_capacity + 1),
                    target_at: point_id as usize * (self.links_capacity + 1),
                    size: count + 1,
                },
            );
            proof {
                assert(copies.take(i + 1) =~= copies.take(i as int).push(copies[i as int]));
                assert forall|start: LinksDevice| (#[trigger] executed_all(start, commands@)) == (
                DeviceState {
                    pending: executed_all(start, given).pending + copies.take(i + 1),
                    ..executed_all(start, given)
                }) by {
                    let middle = executed_all(start, before);
                    let after = executed_all(start, commands@);
                    assert(after.pending =~= executed_all(start, given).pending + copies.take(
                        i + 1,
                    ));
                }
            }
            i = i + 1;
        }
        proof {
            assert(copies.take(i as int) =~= copies);
        }
        self.patched_points.clear();
        proof {
            assert(self@.patched_points =~= Seq::empty());
        }
        Ok(())
    }
}

/// The device after the parameters were set.
pub open spec fn params_set(
    before: LinksDevice,
    after: LinksDevice,
    links: LinksView,
) -> bool {
    &&& links.resident(after)
    &&& after.memory[LinksBuffer::Params] == params_words(links.m, links.links_capacity)
    &&& after.memory[LinksBuffer::Links] == before.memory[LinksBuffer::Links]
}

/// The device after the links were set to zero.
pub open spec fn cleared(before: LinksDevice, after: LinksDevice) -> bool {
    after == (DeviceState {
        memory: before.memory.insert(
            LinksBuffer::Links,
            zeros(before.memory[LinksBuffer::Links].len()),
        ),
        ..before
    })
}

/// What is wrong with a layer for a projection with limited room per point, if anything: the first
/// point with too many links.
pub open spec fn layer_fault(
    graph: GraphLayers,
    level: int,
    points_count: nat,
    links_capacity: nat,
) -> Option<Seq<char>>
    decreases points_count,
{
    if points_count == 0 {
        None
    } else {
        match layer_fault(graph, level, (points_count - 1) as nat, links_capacity) {
            Some(text) => Some(text),
            None => {
                let count = graph.links(points_count - 1, level).len();
                if count > links_capacity {
                    Some(
                        "GPU graph link capacity exceeded at point "@ + decimal(
                            (points_count - 1) as nat,
                        ) + ": "@ + decimal(count) + " > "@ + decimal(links_capacity),
                    )
                } else {
                    None
                }
            },
        }
    }
}

/// Once a prefix has too many links, so has the layer.
proof fn lemma_layer_fault_prefix(
    graph: GraphLayers,
    level: int,
    n: nat,
    points_count: nat,
    links_capacity: nat,
)
    requires
        n <= points_count,
        layer_fault(graph, level, n, links_capacity) is Some,
    ensures
        layer_fault(graph, level, points_count, links_capacity) == layer_fault(
            graph,
            level,
            n,
            links_capacity,
        ),
    decreases points_count,
{
    if n < points_count {
        lemma_layer_fault_prefix(graph, level, n, (points_count - 1) as nat, links_capacity);
    }
}

/// The device holds the layer of a graph.
pub open spec fn layer_uploaded(
    before: LinksDevice,
    after: LinksDevice,
    links: LinksView,
    graph: GraphLayers,
    level: int,
    points_count: nat,
) -> bool {
    &&& links.resident(after)
    &&& after.memory[LinksBuffer::Links] == layer_image(
        graph,
        level,
        points_count,
        links.stride(),
        before.memory[LinksBuffer::Links].len(),
    )
    &&& after.memory[LinksBuffer::Params] == params_words(links.m, links.links_capacity)
}

/// The device is ready for an upload.
pub open spec fn ready_for_upload(
    device: LinksDevice,
    links: LinksView,
    points_count: nat,
) -> bool {
    links.resident(device) && device.memory[LinksBuffer::Links].len() >= points_count
        * links.stride()
}

/// On every device that is ready for an upload before the commands were added, they leave the first
/// points of a layer.
pub open spec fn part_uploaded(
    given: Seq<LinksCommand>,
    now: Seq<LinksCommand>,
    initial: LinksView,
    links: LinksView,
    graph: GraphLayers,
    level: int,
    points_count: nat,
    uploaded: nat,
) -> bool {
    forall|start: LinksDevice|
        ready_for_upload(executed_all(start, given), initial, points_count) ==> layer_uploaded(
            executed_all(start, given),
            #[trigger] executed_all(start, now),
            links,
            graph,
            level,
            uploaded,
        )
}

/// The upload ended at a point with too many links: full groups of points before it are uploaded,
/// and the rows of the points between them and it are noted.
pub open spec fn ended_at_point(
    given: Seq<LinksCommand>,
    now: Seq<LinksCommand>,
    initial: LinksView,
    links: LinksView,
    graph: GraphLayers,
    level: int,
    points_count: nat,
    uploaded: nat,
    point_id: nat,
) -> bool {
    &&& uploaded <= point_id < points_count
    &&& uploaded % initial.max_patched_points == 0
    &&& point_id - uploaded < initial.max_patched_points
    &&& layer_fault(graph, level, point_id, initial.links_capacity) is None
    &&& graph.links(point_id as int, level).len() > initial.links_capacity
    &&& part_uploaded(given, now, initial, links, graph, level, points_count, uploaded)
    &&& rows_noted(
        links.patched_points,
        layer_rows(graph, level, point_id).skip(layer_rows(graph, level, uploaded).len() as int),
    )
}

/// The device holds the first points of a layer, and the rows of more points wait in the transfer
/// buffer.
spec fn layer_staged(
    before: LinksDevice,
    now: LinksDevice,
    links: LinksView,
    graph: GraphLayers,
    level: int,
    points_count: nat,
    rows: Seq<(PointOffsetType, Seq<PointOffsetType>)>,
) -> bool {
    &&& layer_uploaded(before, now, links, graph, level, points_count)
    &&& rows_staged(now.memory[LinksBuffer::Patch], rows, links.stride())
}

/// The rows belong to existing points and fit in the room of a point.
spec fn rows_bounded(
    rows: Seq<(PointOffsetType, Seq<PointOffsetType>)>,
    points_count: nat,
    links_capacity: nat,
) -> bool {
    forall|i: int|
        0 <= i < rows.len() ==> (#[trigger] rows[i]).0 < points_count && rows[i].1.len()
            <= links_capacity
}

proof fn lemma_rows_fit(
    rows: Seq<(PointOffsetType, Seq<PointOffsetType>)>,
    points_count: nat,
    links_capacity: nat,
    len: nat,
)
    requires
        rows_bounded(rows, points_count, links_capacity),
        len >= points_count * (links_capacity + 1),
    ensures
        rows_fit(rows, links_capacity + 1, len),
{
    let s = links_capacity + 1;
    assert forall|i: int| 0 <= i < rows.len() implies (#[trigger] rows[i]).0 * s + rows[i].1.len()
        + 1 <= len by {
        let p = rows[i].0 as int;
        assert(p * s + s <= points_count * s) by (nonlinear_arith)
            requires
                p + 1 <= points_count,
        ;
    }
}

impl GpuLinks {
    /// Move waiting rows to their points.
    fn flush_patches(
        &mut self,
        commands: &mut Vec<LinksCommand>,
        points_count: usize,
        Ghost(rows): Ghost<Seq<(PointOffsetType, Seq<PointOffsetType>)>>,
    ) -> (r: OperationResult<()>)
        requires
            old(self)@.wf(),
            old(self)@.patch_buffer,
            points_count * old(self)@.stride() * WORD_SIZE <= usize::MAX,
            rows_noted(old(self)@.patched_points, rows),
            rows_bounded(rows, points_count as nat, old(self)@.links_capacity),
        ensures
            r is Ok,
            final(self)@.wf(),
            final(self)@ == (LinksView { patched_points: Seq::empty(), ..old(self)@ }),
            forall|start: LinksDevice|
                ready_for_upload(
                    executed_all(start, old(commands)@),
                    old(self)@,
                    points_count as nat,
                ) && rows_staged(
                    executed_all(start, old(commands)@).memory[LinksBuffer::Patch],
                    rows,
                    old(self)@.stride(),
                ) ==> (#[trigger] executed_all(start, final(commands)@)) == (DeviceState {
                    memory: executed_all(start, old(commands)@).memory.insert(
                        LinksBuffer::Links,
                        placed(
                            executed_all(start, old(commands)@).memory[LinksBuffer::Links],
                            rows,
                            old(self)@.stride(),
                        ),
                    ),
                    ..executed_all(start, old(commands)@)
                }),
    {
        let ghost view = self@;
        let ghost given = commands@;
        proof {
            assert forall|i: int| 0 <= i < view.patched_points.len() implies (
            #[trigger] view.patched_points[i]).0 < points_count by {
                assert(rows[i].0 < points_count);
            }
        }
        match self.apply_gpu_patches(commands, points_count) {
            Ok(_) => {},
            Err(error) => {
                return Err(error);
            },
        }
        let ghost recorded = commands@;
        push_command(commands, GpuCommand::Run);
        proof {
            assert forall|start: LinksDevice|
                ready_for_upload(executed_all(start, given), view, points_count as nat)
                    && rows_staged(
                    executed_all(start, given).memory[LinksBuffer::Patch],
                    rows,
                    view.stride(),
                ) implies (#[trigger] executed_all(start, commands@)) == (DeviceState {
                memory: executed_all(start, given).memory.insert(
                    LinksBuffer::Links,
                    placed(
                        executed_all(start, given).memory[LinksBuffer::Links],
                        rows,
                        view.stride(),
                    ),
                ),
                ..executed_all(start, given)
            }) by {
                let first = executed_all(start, given);
                let before = executed_all(start, recorded);
                lemma_rows_fit(
                    rows,
                    points_count as nat,
                    view.links_capacity,
                    first.memory[LinksBuffer::Links].len(),
                );
                assert(before.pending =~= row_copies(view.patched_points, view.stride()));
                lemma_copy_rows(before, view.patched_points, rows, view.stride());
                assert(first.pending =~= Seq::empty());
            }
        }
        Ok(())
    }

    /// Upload an immutable, already-built graph layer.
    ///
    /// The device buffer is only a resident projection of the native graph and is never persisted
    /// separately.
    pub fn upload_graph_layer<S: Fn() -> bool>(
        &mut self,
        level: usize,
        graph: &GraphLayers,
        points_count: usize,
        commands: &mut Vec<LinksCommand>,
        is_stopped: &S,
    ) -> (r: OperationResult<()>)
        requires
            old(self)@.wf(),
            old(self)@.max_patched_points > 0,
            points_count * old(self)@.stride() * WORD_SIZE <= usize::MAX,
            points_count <= PointOffsetType::MAX + 1,
            can_poll(is_stopped),
        ensures
            final(self)@.wf(),
            final(self)@ == (LinksView {
                m: graph.spec_m(level as int),
                patched_points: final(self)@.patched_points,
                ..old(self)@
            }),
            !old(self)@.patch_buffer ==> failed(
                r,
                "GPU links patch buffer has already been released"@,
            ) && final(commands)@ == old(commands)@,
            cancelled(r) ==> may_stop(is_stopped) && points_count > 0,
            old(self)@.patch_buffer && always_stopped(is_stopped) && points_count > 0
                ==> cancelled(r),
            old(self)@.patch_buffer ==> cancelled(r) || match layer_fault(
                *graph,
                level as int,
                points_count as nat,
                old(self)@.links_capacity,
            ) {
                Some(text) => failed(r, text),
                None => r is Ok,
            },
            cancelled(r) ==> {
                &&& final(self)@.patched_points.len() == 0
                &&& exists|uploaded: nat|
                    uploaded < points_count && uploaded % old(self)@.max_patched_points == 0
                        && #[trigger] part_uploaded(
                        old(commands)@,
                        final(commands)@,
                        old(self)@,
                        final(self)@,
                        *graph,
                        level as int,
                        points_count as nat,
                        uploaded,
                    )
            },
            old(self)@.patch_buffer && r is Err && !cancelled(r) ==> exists|
                uploaded: nat,
                point_id: nat,
            | #[trigger]
                ended_at_point(
                    old(commands)@,
                    final(commands)@,
                    old(self)@,
                    final(self)@,
                    *graph,
                    level as int,
                    points_count as nat,
                    uploaded,
                    point_id,
                ),
            r is Ok ==> {
                &&& final(self)@ == (LinksView {
                    m: graph.spec_m(level as int),
                    patched_points: Seq::empty(),
                    ..old(self)@
                })
                &&& part_uploaded(
                    old(commands)@,
                    final(commands)@,
                    old(self)@,
                    final(self)@,
                    *graph,
                    level as int,
                    points_count as nat,
                    points_count as nat,
                )
            },
    {
        let ghost given = commands@;
        let ghost initial = self@;
        match self.update_params(commands, graph.get_m(level)) {
            Ok(_) => {},
            Err(error) => {
                return Err(error);
            },
        }
        let ghost with_params = commands@;
        self.clear(commands);
        let ghost view = self@;
        proof {
            assert forall|start: LinksDevice|
                ready_for_upload(
                    executed_all(start, given),
                    initial,
                    points_count as nat,
                ) implies layer_uploaded(
                executed_all(start, given),
                #[trigger] executed_all(start, commands@),
                view,
                *graph,
                level as int,
                0,
            ) by {
                assert(params_set(
                    executed_all(start, given),
                    executed_all(start, with_params),
                    LinksView { m: view.m, ..initial },
                ));
                assert(cleared(executed_all(start, with_params), executed_all(start, commands@)));
            }
        }
        let mut from: usize = 0;
        while from < points_count
            invariant
                from <= points_count,
                initial == old(self)@,
                view == self@,
                view.wf(),
                view.patch_buffer,
                view.patched_points.len() == 0,
                view.max_patched_points > 0,
                view == (LinksView {
                    m: graph.spec_m(level as int),
                    patched_points: Seq::empty(),
                    ..initial
                }),
                points_count * view.stride() * WORD_SIZE <= usize::MAX,
                points_count <= PointOffsetType::MAX + 1,
                can_poll(is_stopped),
                always_stopped(is_stopped) ==> from == 0,
                from == points_count || from as nat % view.max_patched_points == 0,
                given == old(commands)@,
                layer_fault(*graph, level as int, from as nat, view.links_capacity) is None,
                forall|start: LinksDevice|
                    ready_for_upload(
                        executed_all(start, given),
                        initial,
                        points_count as nat,
                    ) ==> layer_uploaded(
                        executed_all(start, given),
                        #[trigger] executed_all(start, commands@),
                        view,
                        *graph,
                        level as int,
                        from as nat,
                    ),
            decreases points_count - from,
        {
            match check_process_stopped(is_stopped) {
                Ok(_) => {},
                Err(error) => {
                    proof {
                        assert(part_uploaded(
                            given,
                            commands@,
                            initial,
                            self@,
                            *graph,
                            level as int,
                            points_count as nat,
                            from as nat,
                        ));
                    }
                    return Err(error);
                },
            }
            let end: usize = min_usize(
                from.saturating_add(self.max_patched_points),
                points_count,
            );
            let mut point_id: usize = from;
            let ghost mut rows: Seq<(PointOffsetType, Seq<PointOffsetType>)> = Seq::empty();
            proof {
                assert(layer_rows(*graph, level as int, from as nat) + rows =~= layer_rows(
                    *graph,
                    level as int,
                    from as nat,
                ));
            }
            while point_id < end
                invariant
                    from <= point_id <= end <= points_count,
                    from as nat % view.max_patched_points == 0,
                    given == old(commands)@,
                    initial == old(self)@,
                    end - from <= view.max_patched_points,
                    view == (LinksView {
                        m: graph.spec_m(level as int),
                        patched_points: Seq::empty(),
                        ..initial
                    }),
                    self@ == (LinksView { patched_points: self@.patched_points, ..view }),
                    self@.wf(),
                    view.patch_buffer,
                    points_count <= PointOffsetType::MAX + 1,
                    rows.len() <= point_id - from,
                    rows_noted(self@.patched_points, rows),
                    rows_bounded(rows, points_count as nat, view.links_capacity),
                    layer_rows(*graph, level as int, point_id as nat) == layer_rows(
                        *graph,
                        level as int,
                        from as nat,
                    ) + rows,
                    layer_fault(*graph, level as int, point_id as nat, view.links_capacity)
                        is None,
                    !always_stopped(is_stopped),
                    initial.links_capacity == view.links_capacity,
                    initial.patch_buffer,
                    forall|start: LinksDevice|
                        ready_for_upload(
                            executed_all(start, given),
                            initial,
                            points_count as nat,
                        ) ==> layer_staged(
                            executed_all(start, given),
                            #[trigger] executed_all(start, commands@),
                            view,
                            *graph,
                            level as int,
                            from as nat,
                            rows,
                        ),
                decreases end - point_id,
            {
                let links = graph.copy_links(point_id, level);
                if links.len() > self.links_capacity {
                    proof {
                        lemma_layer_fault_prefix(
                            *graph,
                            level as int,
                            (point_id + 1) as nat,
                            points_count as nat,
                            view.links_capacity,
                        );
                        assert forall|start: LinksDevice|
                            ready_for_upload(
                                executed_all(start, given),
                                initial,
                                points_count as nat,
                            ) implies layer_uploaded(
                            executed_all(start, given),
                            #[trigger] executed_all(start, commands@),
                            self@,
                            *graph,
                            level as int,
                            from as nat,
                        ) by {
                            assert(layer_staged(
                                executed_all(start, given),
                                executed_all(start, commands@),
                                view,
                                *graph,
                                level as int,
                                from as nat,
                                rows,
                            ));
                        }
                        assert(layer_rows(*graph, level as int, point_id as nat).skip(
                            layer_rows(*graph, level as int, from as nat).len() as int,
                        ) =~= rows);
                        assert(ended_at_point(
                            given,
                            commands@,
                            initial,
                            self@,
                            *graph,
                            level as int,
                            points_count as nat,
                            from as nat,
                            point_id as nat,
                        ));
                    }
                    let number = decimal_text(point_id as u64);
                    let count = decimal_text(links.len() as u64);
                    let capacity = decimal_text(self.links_capacity as u64);
                    let head = joined(
                        joined(
                            "GPU graph link capacity exceeded at point ".to_owned(),
                            number.as_str(),
                        ),
                        ": ",
                    );
                    let middle = joined(joined(head, count.as_str()), " > ");
                    return Err(
                        OperationError::service_error_owned(joined(middle, capacity.as_str())),
                    );
                }
                if links.len() > 0 {
                    let ghost before = commands@;
                    let ghost earlier = rows;
                    let ghost noted = self@.patched_points;
                    match self.set_links(point_id as PointOffsetType, &links, commands) {
                        Ok(_) => {},
                        Err(error) => {
                            return Err(error);
                        },
                    }
                    proof {
                        let row = (point_id as PointOffsetType, links@);
                        rows = rows.push(row);
                        assert(layer_rows(*graph, level as int, (point_id + 1) as nat)
                            =~= layer_rows(*graph, level as int, from as nat) + rows);
                        assert forall|i: int| 0 <= i < rows.len() implies (
                        #[trigger] self@.patched_points[i]).0 == rows[i].0
                            && self@.patched_points[i].1 == rows[i].1.len() by {
                            if i < earlier.len() {
                                assert(noted[i].0 == earlier[i].0);
                            }
                        }
                        assert forall|i: int| 0 <= i < rows.len() implies (
                        #[trigger] rows[i]).0 < points_count && rows[i].1.len()
                            <= view.links_capacity by {
                            if i < earlier.len() {
                                assert(earlier[i].0 < points_count);
                            }
                        }
                        assert forall|start: LinksDevice|
                            ready_for_upload(
                                executed_all(start, given),
                                initial,
                                points_count as nat,
                            ) implies layer_staged(
                            executed_all(start, given),
                            #[trigger] executed_all(start, commands@),
                            view,
                            *graph,
                            level as int,
                            from as nat,
                            rows,
                        ) by {
                            let d = executed_all(start, before);
                            assert(layer_staged(
                                executed_all(start, given),
                                d,
                                view,
                                *graph,
                                level as int,
                                from as nat,
                                earlier,
                            ));
                            let s = view.stride();
                            let n = earlier.len();
                            let q = view.max_patched_points;
                            assert(n * s + s <= q * s) by (nonlinear_arith)
                                requires
                                    n + 1 <= q,
                            ;
                            lemma_stage_row(
                                d.memory[LinksBuffer::Patch],
                                earlier,
                                s,
                                point_id as PointOffsetType,
                                links@,
                            );
                        }
                    }
                } else {
                    proof {
                        assert(layer_rows(*graph, level as int, (point_id + 1) as nat)
                            == layer_rows(*graph, level as int, point_id as nat));
                    }
                }
                point_id = point_id + 1;
            }
            let ghost before = commands@;
            match self.flush_patches(commands, points_count, Ghost(rows)) {
                Ok(_) => {},
                Err(error) => {
                    return Err(error);
                },
            }
            proof {
                assert forall|start: LinksDevice|
                    ready_for_upload(
                        executed_all(start, given),
                        initial,
                        points_count as nat,
                    ) implies layer_uploaded(
                    executed_all(start, given),
                    #[trigger] executed_all(start, commands@),
                    view,
                    *graph,
                    level as int,
                    end as nat,
                ) by {
                    let first = executed_all(start, given);
                    let d = executed_all(start, before);
                    assert(layer_staged(
                        first,
                        d,
                        view,
                        *graph,
                        level as int,
                        from as nat,
                        rows,
                    ));
                    lemma_placed_len(
                        zeros(first.memory[LinksBuffer::Links].len()),
                        layer_rows(*graph, level as int, from as nat),
                        view.stride(),
                    );
                    lemma_placed_concat(
                        zeros(first.memory[LinksBuffer::Links].len()),
                        layer_rows(*graph, level as int, from as nat),
                        rows,
                        view.stride(),
                    );
                }
            }
            proof {
                if end < points_count {
                    lemma_mod_add_multiples_vanish(from as int, view.max_patched_points as int);
                }
            }
            from = end;
        }
        Ok(())
    }
}

/// No point has more links on the layer than there is room for.
pub open spec fn layer_fits(
    graph: GraphLayers,
    level: int,
    points_count: nat,
    links_capacity: nat,
) -> bool {
    forall|p: int|
        0 <= p < points_count ==> (#[trigger] graph.links(p, level)).len() <= links_capacity
}

impl GpuLinks {
    /// Put one more row behind the waiting ones, and move all of them when no more fit.
    fn stage_point(
        &mut self,
        point_id: usize,
        links: &Vec<PointOffsetType>,
        commands: &mut Vec<LinksCommand>,
        points_count: usize,
        Ghost(rows): Ghost<Seq<(PointOffsetType, Seq<PointOffsetType>)>>,
    ) -> (r: OperationResult<bool>)
        requires
            old(self)@.wf(),
            old(self)@.patch_buffer,
            old(self)@.patched_points.len() < old(self)@.max_patched_points,
            points_count * old(self)@.stride() * WORD_SIZE <= usize::MAX,
            point_id < points_count <= PointOffsetType::MAX + 1,
            links@.len() <= old(self)@.links_capacity,
            rows_noted(old(self)@.patched_points, rows),
            rows_bounded(rows, points_count as nat, old(self)@.links_capacity),
        ensures
            r is Ok,
            final(self)@.wf(),
            final(self)@ == (LinksView {
                patched_points: final(self)@.patched_points,
                ..old(self)@
            }),
            final(self)@.patched_points.len() < final(self)@.max_patched_points
                || final(self)@.patched_points.len() == 0,
            r matches Ok(flushed) ==> {
                let all = rows.push((point_id as PointOffsetType, links@));
                &&& rows_bounded(all, points_count as nat, old(self)@.links_capacity)
                &&& if flushed {
                    &&& final(self)@.patched_points.len() == 0
                    &&& all.len() == old(self)@.max_patched_points
                    &&& forall|start: LinksDevice|
                        ready_for_upload(
                            executed_all(start, old(commands)@),
                            old(self)@,
                            points_count as nat,
                        ) && rows_staged(
                            executed_all(start, old(commands)@).memory[LinksBuffer::Patch],
                            rows,
                            old(self)@.stride(),
                        ) ==> all_placed(
                            executed_all(start, old(commands)@),
                            #[trigger] executed_all(start, final(commands)@),
                            final(self)@,
                            all,
                        )
                } else {
                    &&& rows_noted(final(self)@.patched_points, all)
                    &&& forall|start: LinksDevice|
                        ready_for_upload(
                            executed_all(start, old(commands)@),
                            old(self)@,
                            points_count as nat,
                        ) && rows_staged(
                            executed_all(start, old(commands)@).memory[LinksBuffer::Patch],
                            rows,
                            old(self)@.stride(),
                        ) ==> all_staged(
                            executed_all(start, old(commands)@),
                            #[trigger] executed_all(start, final(commands)@),
                            final(self)@,
                            all,
                        )
                }
            },
    {
        let ghost view = self@;
        let ghost given = commands@;
        let ghost noted = self@.patched_points;
        let ghost row = (point_id as PointOffsetType, links@);
        let ghost all = rows.push(row);
        match self.set_links(point_id as PointOffsetType, links, commands) {
            Ok(_) => {},
            Err(error) => {
                return Err(error);
            },
        }
        let ghost staged = commands@;
        proof {
            assert forall|i: int| 0 <= i < all.len() implies (
            #[trigger] self@.patched_points[i]).0 == all[i].0 && self@.patched_points[i].1
                == all[i].1.len() by {
                if i < rows.len() {
                    assert(noted[i].0 == rows[i].0);
                }
            }
            assert forall|i: int| 0 <= i < all.len() implies (#[trigger] all[i]).0 < points_count
                && all[i].1.len() <= view.links_capacity by {
                if i < rows.len() {
                    assert(rows[i].0 < points_count);
                }
            }
            assert forall|start: LinksDevice|
                ready_for_upload(executed_all(start, given), view, points_count as nat)
                    && rows_staged(
                    executed_all(start, given).memory[LinksBuffer::Patch],
                    rows,
                    view.stride(),
                ) implies all_staged(
                executed_all(start, given),
                #[trigger] executed_all(start, staged),
                view,
                all,
            ) by {
                let d = executed_all(start, given);
                let s = view.stride();
                let n = rows.len();
                let q = view.max_patched_points;
                assert(n * s + s <= q * s) by (nonlinear_arith)
                    requires
                        n + 1 <= q,
                ;
                lemma_stage_row(
                    d.memory[LinksBuffer::Patch],
                    rows,
                    s,
                    point_id as PointOffsetType,
                    links@,
                );
            }
        }
        if self.patched_points.len() < self.max_patched_points {
            return Ok(false);
        }
        match self.flush_patches(commands, points_count, Ghost(all)) {
            Ok(_) => {},
            Err(error) => {
                return Err(error);
            },
        }
        proof {
            assert forall|start: LinksDevice|
                ready_for_upload(executed_all(start, given), view, points_count as nat)
                    && rows_staged(
                    executed_all(start, given).memory[LinksBuffer::Patch],
                    rows,
                    view.stride(),
                ) implies all_placed(
                executed_all(start, given),
                #[trigger] executed_all(start, commands@),
                self@,
                all,
            ) by {
                assert(all_staged(
                    executed_all(start, given),
                    executed_all(start, staged),
                    view,
                    all,
                ));
            }
        }
        Ok(true)
    }

    /// Upload a layer of a graph that is being built. Points without links stay zero.
    pub fn upload_links<S: Fn() -> bool>(
        &mut self,
        level: usize,
        graph: &GraphLayers,
        commands: &mut Vec<LinksCommand>,
        is_stopped: &S,
    ) -> (r: OperationResult<()>)
        requires
            old(self)@.wf(),
            old(self)@.max_patched_points > 0,
            graph.layers@.len() * old(self)@.stride() * WORD_SIZE <= usize::MAX,
            graph.layers@.len() <= PointOffsetType::MAX + 1,
            layer_fits(
                *graph,
                level as int,
                graph.layers@.len(),
                old(self)@.links_capacity,
            ),
            can_poll(is_stopped),
        ensures
            final(self)@.wf(),
            final(self)@ == (LinksView {
                m: graph.spec_m(level as int),
                patched_points: final(self)@.patched_points,
                ..old(self)@
            }),
            if old(self)@.patch_buffer {
                r is Ok || cancelled(r)
            } else {
                &&& failed(r, "GPU links patch buffer has already been released"@)
                &&& final(commands)@ == old(commands)@
            },
            cancelled(r) ==> may_stop(is_stopped) && layer_rows(
                *graph,
                level as int,
                graph.layers@.len(),
            ).len() > 0,
            cancelled(r) ==> {
                &&& final(self)@.patched_points.len() == 0
                &&& exists|uploaded: nat|
                    uploaded < graph.layers@.len() && layer_rows(
                        *graph,
                        level as int,
                        uploaded,
                    ).len() % old(self)@.max_patched_points == 0 && layer_rows(
                        *graph,
                        level as int,
                        uploaded,
                    ).len() < layer_rows(*graph, level as int, graph.layers@.len()).len()
                        && #[trigger] part_uploaded(
                        old(commands)@,
                        final(commands)@,
                        old(self)@,
                        final(self)@,
                        *graph,
                        level as int,
                        graph.layers@.len(),
                        uploaded,
                    )
            },
            old(self)@.patch_buffer && always_stopped(is_stopped) && layer_rows(
                *graph,
                level as int,
                graph.layers@.len(),
            ).len() > 0 ==> cancelled(r),
            r is Ok ==> {
                &&& final(self)@ == (LinksView {
                    m: graph.spec_m(level as int),
                    patched_points: Seq::empty(),
                    ..old(self)@
                })
                &&& part_uploaded(
                    old(commands)@,
                    final(commands)@,
                    old(self)@,
                    final(self)@,
                    *graph,
                    level as int,
                    graph.layers@.len(),
                    graph.layers@.len(),
                )
            },
    {
        let ghost given = commands@;
        let ghost initial = self@;
        match self.update_params(commands, graph.get_m(level)) {
            Ok(_) => {},
            Err(error) => {
                return Err(error);
            },
        }
        let ghost with_params = commands@;
        self.clear(commands);
        let ghost view = self@;
        let points_count: usize = graph.layers.len();
        let ghost mut rows: Seq<(PointOffsetType, Seq<PointOffsetType>)> = Seq::empty();
        let ghost mut flushed: nat = 0;
        proof {
            assert(layer_rows(*graph, level as int, 0) + rows =~= Seq::empty());
            assert forall|start: LinksDevice|
                ready_for_upload(
                    executed_all(start, given),
                    initial,
                    points_count as nat,
                ) implies layer_staged(
                executed_all(start, given),
                #[trigger] executed_all(start, commands@),
                view,
                *graph,
                level as int,
                0,
                rows,
            ) by {
                assert(params_set(
                    executed_all(start, given),
                    executed_all(start, with_params),
                    LinksView { m: view.m, ..initial },
                ));
                assert(cleared(executed_all(start, with_params), executed_all(start, commands@)));
            }
        }
        let mut point_id: usize = 0;
        while point_id < points_count
            invariant
                point_id <= points_count,
                flushed <= point_id,
                points_count == graph.layers@.len(),
                initial == old(self)@,
                initial.patch_buffer,
                given == old(commands)@,
                layer_rows(*graph, level as int, flushed).len() % view.max_patched_points == 0,
                view == (LinksView {
                    m: graph.spec_m(level as int),
                    patched_points: Seq::empty(),
                    ..initial
                }),
                self@ == (LinksView { patched_points: self@.patched_points, ..view }),
                self@.wf(),
                self@.patched_points.len() < view.max_patched_points,
                points_count * view.stride() * WORD_SIZE <= usize::MAX,
                points_count <= PointOffsetType::MAX + 1,
                layer_fits(*graph, level as int, points_count as nat, view.links_capacity),
                can_poll(is_stopped),
                rows_noted(self@.patched_points, rows),
                rows_bounded(rows, points_count as nat, view.links_capacity),
                layer_rows(*graph, level as int, point_id as nat) == layer_rows(
                    *graph,
                    level as int,
                    flushed,
                ) + rows,
                always_stopped(is_stopped) ==> layer_rows(
                    *graph,
                    level as int,
                    point_id as nat,
                ).len() == 0,
                forall|start: LinksDevice|
                    ready_for_upload(
                        executed_all(start, given),
                        initial,
                        points_count as nat,
                    ) ==> layer_staged(
                        executed_all(start, given),
                        #[trigger] executed_all(start, commands@),
                        view,
                        *graph,
                        level as int,
                        flushed,
                        rows,
                    ),
            decreases points_count - point_id,
        {
            let links = graph.copy_links(point_id, level);
            if links.len() > 0 {
                proof {
                    lemma_layer_rows_grow(
                        *graph,
                        level as int,
                        (point_id + 1) as nat,
                        points_count as nat,
                    );
                }
                if self.patched_points.len() == 0 {
                    match check_process_stopped(is_stopped) {
                        Ok(_) => {},
                        Err(error) => {
                            proof {
                                assert forall|start: LinksDevice|
                                    ready_for_upload(
                                        executed_all(start, given),
                                        initial,
                                        points_count as nat,
                                    ) implies layer_uploaded(
                                    executed_all(start, given),
                                    #[trigger] executed_all(start, commands@),
                                    self@,
                                    *graph,
                                    level as int,
                                    flushed,
                                ) by {
                                    assert(layer_staged(
                                        executed_all(start, given),
                                        executed_all(start, commands@),
                                        view,
                                        *graph,
                                        level as int,
                                        flushed,
                                        rows,
                                    ));
                                }
                                assert(part_uploaded(
                                    given,
                                    commands@,
                                    initial,
                                    self@,
                                    *graph,
                                    level as int,
                                    points_count as nat,
                                    flushed,
                                ));
                            }
                            return Err(error);
                        },
                    }
                }
                let ghost before = commands@;
                let ghost earlier = rows;
                let ghost base = flushed;
                proof {
                    assert(graph.links(point_id as int, level as int).len()
                        <= view.links_capacity);
                }
                let moved = match self.stage_point(
                    point_id,
                    &links,
                    commands,
                    points_count,
                    Ghost(rows),
                ) {
                    Ok(moved) => moved,
                    Err(error) => {
                        return Err(error);
                    },
                };
                proof {
                    let all = earlier.push((point_id as PointOffsetType, links@));
                    assert(layer_rows(*graph, level as int, (point_id + 1) as nat) =~= layer_rows(
                        *graph,
                        level as int,
                        base,
                    ) + all);
                    if moved {
                        lemma_mod_add_multiples_vanish(
                            layer_rows(*graph, level as int, base).len() as int,
                            view.max_patched_points as int,
                        );
                        rows = Seq::empty();
                        flushed = (point_id + 1) as nat;
                        assert(layer_rows(*graph, level as int, flushed) + rows =~= layer_rows(
                            *graph,
                            level as int,
                            flushed,
                        ));
                        assert forall|start: LinksDevice|
                            ready_for_upload(
                                executed_all(start, given),
                                initial,
                                points_count as nat,
                            ) implies layer_staged(
                            executed_all(start, given),
                            #[trigger] executed_all(start, commands@),
                            view,
                            *graph,
                            level as int,
                            flushed,
                            rows,
                        ) by {
                            lemma_layer_moved(
                                executed_all(start, given),
                                executed_all(start, before),
                                executed_all(start, commands@),
                                view,
                                *graph,
                                level as int,
                                base,
                                flushed,
                                earlier,
                                all,
                                points_count as nat,
                            );
                        }
                    } else {
                        rows = all;
                        assert forall|start: LinksDevice|
                            ready_for_upload(
                                executed_all(start, given),
                                initial,
                                points_count as nat,
                            ) implies layer_staged(
                            executed_all(start, given),
                            #[trigger] executed_all(start, commands@),
                            view,
                            *graph,
                            level as int,
                            flushed,
                            rows,
                        ) by {
                            assert(layer_staged(
                                executed_all(start, given),
                                executed_all(start, before),
                                view,
                                *graph,
                                level as int,
                                flushed,
                                earlier,
                            ));
                            lemma_placed_len(
                                zeros(
                                    executed_all(start, given).memory[LinksBuffer::Links].len(),
                                ),
                                layer_rows(*graph, level as int, flushed),
                                view.stride(),
                            );
                            assert(all_staged(
                                executed_all(start, before),
                                executed_all(start, commands@),
                                self@,
                                all,
                            ));
                        }
                    }
                }
            }
            point_id = point_id + 1;
        }
        if self.patched_points.len() > 0 {
            let ghost before = commands@;
            match self.flush_patches(commands, points_count, Ghost(rows)) {
                Ok(_) => {},
                Err(error) => {
                    return Err(error);
                },
            }
            proof {
                assert forall|start: LinksDevice|
                    ready_for_upload(
                        executed_all(start, given),
                        initial,
                        points_count as nat,
                    ) implies layer_uploaded(
                    executed_all(start, given),
                    #[trigger] executed_all(start, commands@),
                    self@,
                    *graph,
                    level as int,
                    points_count as nat,
                ) by {
                    let first = executed_all(start, given);
                    assert(layer_staged(
                        first,
                        executed_all(start, before),
                        view,
                        *graph,
                        level as int,
                        flushed,
                        rows,
                    ));
                    lemma_placed_len(
                        zeros(first.memory[LinksBuffer::Links].len()),
                        layer_rows(*graph, level as int, flushed),
                        view.stride(),
                    );
                    lemma_placed_concat(
                        zeros(first.memory[LinksBuffer::Links].len()),
                        layer_rows(*graph, level as int, flushed),
                        rows,
                        view.stride(),
                    );
                }
            }
        } else {
            proof {
                assert(rows =~= Seq::empty());
                assert(self@.patched_points =~= Seq::empty());
                assert(layer_rows(*graph, level as int, points_count as nat) =~= layer_rows(
                    *graph,
                    level as int,
                    flushed,
                ));
                assert forall|start: LinksDevice|
                    ready_for_upload(
                        executed_all(start, given),
                        initial,
                        points_count as nat,
                    ) implies layer_uploaded(
                    executed_all(start, given),
                    #[trigger] executed_all(start, commands@),
                    self@,
                    *graph,
                    level as int,
                    points_count as nat,
                ) by {
                    assert(layer_staged(
                        executed_all(start, given),
                        executed_all(start, commands@),
                        view,
                        *graph,
                        level as int,
                        flushed,
                        rows,
                    ));
                }
            }
        }
        Ok(())
    }
}

/// More points have no fewer rows.
proof fn lemma_layer_rows_grow(graph: GraphLayers, level: int, n: nat, points_count: nat)
    requires
        n <= points_count,
    ensures
        layer_rows(graph, level, n).len() <= layer_rows(graph, level, points_count).len(),
    decreases points_count,
{
    if n < points_count {
        lemma_layer_rows_grow(graph, level, n, (points_count - 1) as nat);
    }
}

/// Only the transfer buffer changed, and the rows wait there.
spec fn all_staged(
    before: LinksDevice,
    after: LinksDevice,
    links: LinksView,
    rows: Seq<(PointOffsetType, Seq<PointOffsetType>)>,
) -> bool {
    &&& links.resident(after)
    &&& after.memory[LinksBuffer::Links] == before.memory[LinksBuffer::Links]
    &&& after.memory[LinksBuffer::Params] == before.memory[LinksBuffer::Params]
    &&& rows_staged(after.memory[LinksBuffer::Patch], rows, links.stride())
}

/// The rows were moved to their points.
spec fn all_placed(
    before: LinksDevice,
    after: LinksDevice,
    links: LinksView,
    rows: Seq<(PointOffsetType, Seq<PointOffsetType>)>,
) -> bool {
    &&& links.resident(after)
    &&& after.memory[LinksBuffer::Links] == placed(
        before.memory[LinksBuffer::Links],
        rows,
        links.stride(),
    )
    &&& after.memory[LinksBuffer::Params] == before.memory[LinksBuffer::Params]
}

/// Moving the rows of the next points extends the uploaded layer.
proof fn lemma_layer_moved(
    first: LinksDevice,
    before: LinksDevice,
    after: LinksDevice,
    links: LinksView,
    graph: GraphLayers,
    level: int,
    base: nat,
    next: nat,
    rows: Seq<(PointOffsetType, Seq<PointOffsetType>)>,
    all: Seq<(PointOffsetType, Seq<PointOffsetType>)>,
    points_count: nat,
)
    requires
        layer_staged(first, before, links, graph, level, base, rows),
        first.memory[LinksBuffer::Links].len() >= points_count * links.stride(),
        ready_for_upload(before, links, points_count) ==> all_placed(before, after, links, all),
        layer_rows(graph, level, next) == layer_rows(graph, level, base) + all,
    ensures
        layer_staged(first, after, links, graph, level, next, Seq::empty()),
{
    lemma_placed_len(
        zeros(first.memory[LinksBuffer::Links].len()),
        layer_rows(graph, level, base),
        links.stride(),
    );
    lemma_placed_concat(
        zeros(first.memory[LinksBuffer::Links].len()),
        layer_rows(graph, level, base),
        all,
        links.stride(),
    );
}

/// Number of links of the first points on the lowest layer.
pub open spec fn link_prefix(graph: GraphLayers, n: nat) -> nat
    decreases n,
{
    if n == 0 {
        0
    } else {
        link_prefix(graph, (n - 1) as nat) + graph.links(n - 1, 0).len()
    }
}

/// The links of the first points on the lowest layer, one list after the other.
pub open spec fn all_links(graph: GraphLayers, n: nat) -> Seq<PointOffsetType>
    decreases n,
{
    if n == 0 {
        Seq::empty()
    } else {
        all_links(graph, (n - 1) as nat) + graph.links(n - 1, 0)
    }
}

/// Where the links of every point start, and where the last ones end.
pub open spec fn link_offsets(graph: GraphLayers, n: nat) -> Seq<u32> {
    Seq::new(n + 1, |i: int| link_prefix(graph, i as nat) as u32)
}

/// Prefixes grow, and the concatenated links are as many as the prefix says.
pub proof fn lemma_link_prefix(graph: GraphLayers, a: nat, b: nat)
    requires
        a <= b,
    ensures
        link_prefix(graph, a) <= link_prefix(graph, b),
        all_links(graph, b).len() == link_prefix(graph, b),
        all_links(graph, b).take(link_prefix(graph, a) as int) == all_links(graph, a),
    decreases b,
{
    if a < b {
        lemma_link_prefix(graph, a, (b - 1) as nat);
        assert(all_links(graph, b).take(link_prefix(graph, a) as int) =~= all_links(
            graph,
            (b - 1) as nat,
        ).take(link_prefix(graph, a) as int));
    } else {
        if b > 0 {
            lemma_link_prefix(graph, (b - 1) as nat, (b - 1) as nat);
        }
        assert(all_links(graph, b).take(link_prefix(graph, a) as int) =~= all_links(graph, a));
    }
}

/// The links of a point are those between its offset and the next one.
pub proof fn lemma_compact_links(graph: GraphLayers, n: nat, point_id: int)
    requires
        0 <= point_id < n,
        link_prefix(graph, n) <= u32::MAX,
    ensures
        link_offsets(graph, n)[point_id] <= link_offsets(graph, n)[point_id + 1]
            <= all_links(graph, n).len(),
        all_links(graph, n).subrange(
            link_offsets(graph, n)[point_id] as int,
            link_offsets(graph, n)[point_id + 1] as int,
        ) == graph.links(point_id, 0),
{
    let p = point_id as nat;
    let q = (point_id + 1) as nat;
    lemma_link_prefix(graph, p, q);
    lemma_link_prefix(graph, q, n);
    lemma_link_prefix(graph, p, p);
    let all = all_links(graph, n);
    assert(all_links(graph, q) == all_links(graph, p) + graph.links(point_id, 0));
    assert(all.subrange(link_prefix(graph, p) as int, link_prefix(graph, q) as int) =~= all.take(
        link_prefix(graph, q) as int,
    ).subrange(link_prefix(graph, p) as int, link_prefix(graph, q) as int));
    assert(all_links(graph, q).subrange(
        link_prefix(graph, p) as int,
        link_prefix(graph, q) as int,
    ) =~= graph.links(point_id, 0));
}

/// What is wrong with the lowest layer for the compact form, if anything.
pub open spec fn compact_fault(graph: GraphLayers, n: nat) -> Option<Seq<char>> {
    let total = link_prefix(graph, n);
    if total > u32::MAX {
        Some("GPU compact graph has more links than u32 offsets can address"@)
    } else if total == 0 {
        Some("GPU filtered graph has no level-0 links"@)
    } else if total * WORD_SIZE > usize::MAX {
        Some("GPU compact links size overflow"@)
    } else if n * (max_links(graph, n, 0) + 1) * WORD_SIZE > usize::MAX {
        Some("GPU dense links size overflow"@)
    } else if exists|p: int|
        0 <= p < n && (#[trigger] graph.links(p, 0)).len() > TRANSFER_WORDS {
        Some("A GPU compact adjacency list exceeds the staging buffer"@)
    } else {
        None
    }
}

/// Without links no point has any, and with links some point has.
proof fn lemma_no_links(graph: GraphLayers, n: nat)
    ensures
        link_prefix(graph, n) == 0 <==> max_links(graph, n, 0) == 0,
        max_links(graph, n, 0) <= link_prefix(graph, n),
    decreases n,
{
    if n > 0 {
        lemma_no_links(graph, (n - 1) as nat);
    }
}

/// Sizes of a compact projection.
#[derive(Clone, Copy, Debug, PartialEq, Eq, Structural)]
pub struct CompactLinksStats {
    pub points: usize,
    pub links: usize,
    pub max_degree: usize,
    pub links_bytes: usize,
    pub offsets_bytes: usize,
    /// What the fixed-width form would take.
    pub dense_bytes: usize,
}

/// The device holds the compact form of the lowest layer.
pub open spec fn made_compact(device: LinksDevice, graph: GraphLayers, n: nat) -> bool {
    &&& !device.fault
    &&& device.pending.len() == 0
    &&& device.memory.contains_key(LinksBuffer::Links)
    &&& device.memory[LinksBuffer::Links] == all_links(graph, n)
    &&& device.memory.contains_key(LinksBuffer::Offsets)
    &&& device.memory[LinksBuffer::Offsets] == link_offsets(graph, n)
    &&& device.memory.contains_key(LinksBuffer::Params)
    &&& device.memory[LinksBuffer::Params] == params_words(graph.m0, 0)
}

/// The device can take words for a buffer through the transfer buffer.
pub open spec fn accepts_slice(
    device: LinksDevice,
    target: LinksBuffer,
    staging_size: nat,
    target_size: nat,
) -> bool {
    &&& !device.fault
    &&& device.pending.len() == 0
    &&& device.memory.contains_key(LinksBuffer::Patch)
    &&& device.memory[LinksBuffer::Patch].len() == staging_size
    &&& device.memory.contains_key(target)
    &&& device.memory[target].len() == target_size
}

/// The device after words were written to a buffer through the transfer buffer.
pub open spec fn slice_uploaded(
    before: LinksDevice,
    after: LinksDevice,
    target: LinksBuffer,
    values: Seq<u32>,
    at: int,
) -> bool {
    after == (DeviceState {
        memory: before.memory.insert(
            LinksBuffer::Patch,
            overwrite(before.memory[LinksBuffer::Patch], 0, values),
        ).insert(target, overwrite(before.memory[target], at, values)),
        ..before
    })
}

/// Write words to a buffer through the transfer buffer. Sizes and offsets count words.
fn upload_u32_slice(
    commands: &mut Vec<LinksCommand>,
    staging_size: usize,
    target: LinksBuffer,
    target_size: usize,
    values: Vec<u32>,
    target_element_offset: usize,
) -> (r: OperationResult<()>)
    requires
        staging_size * WORD_SIZE <= usize::MAX,
        target_size * WORD_SIZE <= usize::MAX,
        values@.len() * WORD_SIZE <= usize::MAX,
        target == LinksBuffer::Links || target == LinksBuffer::Offsets,
    ensures
        if values@.len() > staging_size {
            failed(r, "GPU compact links upload chunk exceeds the staging buffer"@)
        } else if target_element_offset + values@.len() > target_size {
            failed(r, "GPU compact links upload is out of range"@)
        } else {
            r is Ok
        },
        r is Err ==> final(commands)@ == old(commands)@,
        creations(final(commands)@) == creations(old(commands)@),
        descriptions(final(commands)@) == descriptions(old(commands)@),
        r is Ok ==> forall|start: LinksDevice|
            accepts_slice(
                executed_all(start, old(commands)@),
                target,
                staging_size as nat,
                target_size as nat,
            ) ==> slice_uploaded(
                executed_all(start, old(commands)@),
                #[trigger] executed_all(start, final(commands)@),
                target,
                values@,
                target_element_offset as int,
            ),
{
    let bytes: usize = values.len() * WORD_SIZE;
    if bytes > staging_size * WORD_SIZE {
        return Err(
            OperationError::service_error(
                "GPU compact links upload chunk exceeds the staging buffer",
            ),
        );
    }
    let in_target = match target_element_offset.checked_mul(WORD_SIZE) {
        Some(offset) => offset.saturating_add(bytes) <= target_size * WORD_SIZE,
        None => false,
    };
    if !in_target {
        return Err(OperationError::service_error("GPU compact links upload is out of range"));
    }
    let ghost given = commands@;
    let count: usize = values.len();
    let ghost words = values@;
    push_command(commands, GpuCommand::Upload { buffer: LinksBuffer::Patch, at: 0, words: values });
    push_command(
        commands,
        GpuCommand::Copy {
            source: LinksBuffer::Patch,
            target,
            source_at: 0,
            target_at: target_element_offset,
            size: count,
        },
    );
    let ghost recorded = commands@;
    push_command(commands, GpuCommand::Run);
    proof {
        assert forall|start: LinksDevice|
            accepts_slice(
                executed_all(start, given),
                target,
                staging_size as nat,
                target_size as nat,
            ) implies slice_uploaded(
            executed_all(start, given),
            #[trigger] executed_all(start, commands@),
            target,
            words,
            target_element_offset as int,
        ) by {
            let first = executed_all(start, given);
            let before = executed_all(start, recorded);
            let copy = Transfer::Copy {
                source: LinksBuffer::Patch,
                target,
                source_at: 0,
                target_at: target_element_offset as nat,
                size: count as nat,
            };
            assert(before.pending =~= Seq::empty().push(copy));
            lemma_transferred_one(before, copy);
            assert(before.memory[LinksBuffer::Patch].subrange(0, count as int) =~= words);
            assert(first.pending =~= Seq::empty());
            let after = executed_all(start, commands@);
            assert(after.memory =~= first.memory.insert(
                LinksBuffer::Patch,
                overwrite(first.memory[LinksBuffer::Patch], 0, words),
            ).insert(
                target,
                overwrite(first.memory[target], target_element_offset as int, words),
            ));
        }
    }
    Ok(())
}

/// Count where the links of every point start, and the largest number of links.
fn count_offsets<S: Fn() -> bool>(
    graph: &GraphLayers,
    points_count: usize,
    is_stopped: &S,
) -> (r: OperationResult<(Vec<u32>, usize)>)
    requires
        points_count < usize::MAX,
        can_poll(is_stopped),
    ensures
        cancelled(r) ==> may_stop(is_stopped) && points_count > 0,
        always_stopped(is_stopped) && points_count > 0 ==> cancelled(r),
        !cancelled(r) ==> if link_prefix(*graph, points_count as nat) > u32::MAX {
            failed(r, "GPU compact graph has more links than u32 offsets can address"@)
        } else {
            r matches Ok((offsets, max)) && offsets@ == link_offsets(*graph, points_count as nat)
                && max == max_links(*graph, points_count as nat, 0)
        },
{
    let mut offsets: Vec<u32> = Vec::with_capacity(points_count + 1);
    offsets.push(0);
    let mut max: usize = 0;
    let mut point_id: usize = 0;
    proof {
        assert(offsets@ =~= link_offsets(*graph, 0));
    }
    while point_id < points_count
        invariant
            point_id <= points_count,
            can_poll(is_stopped),
            always_stopped(is_stopped) ==> point_id == 0,
            link_prefix(*graph, point_id as nat) <= u32::MAX,
            offsets@ == link_offsets(*graph, point_id as nat),
            max == max_links(*graph, point_id as nat, 0),
        decreases points_count - point_id,
    {
        if point_id % 4096 == 0 {
            match check_process_stopped(is_stopped) {
                Ok(_) => {},
                Err(error) => {
                    return Err(error);
                },
            }
        }
        let links_count: usize = graph.link_count(point_id, 0);
        if links_count > max {
            max = links_count;
        }
        let last: u32 = offsets[point_id];
        proof {
            lemma_link_prefix(*graph, (point_id + 1) as nat, points_count as nat);
            assert(last == link_prefix(*graph, point_id as nat));
        }
        let next: Option<usize> = (last as usize).checked_add(links_count);
        match next {
            Some(offset) if offset as u64 <= u32::MAX as u64 => {
                offsets.push(offset as u32);
            },
            _ => {
                return Err(
                    OperationError::service_error(
                        "GPU compact graph has more links than u32 offsets can address",
                    ),
                );
            },
        }
        proof {
            assert(offsets@ =~= link_offsets(*graph, (point_id + 1) as nat));
        }
        point_id = point_id + 1;
    }
    Ok((offsets, max))
}

/// Copy a part of a list.
fn copy_words(words: &Vec<u32>, from: usize, to: usize) -> (r: Vec<u32>)
    requires
        from <= to <= words@.len(),
    ensures
        r@ == words@.subrange(from as int, to as int),
{
    let mut r: Vec<u32> = Vec::with_capacity(to - from);
    let mut i: usize = from;
    while i < to
        invariant
            from <= i <= to <= words@.len(),
            r@ == words@.subrange(from as int, i as int),
        decreases to - i,
    {
        r.push(words[i]);
        proof {
            assert(words@.subrange(from as int, i + 1) =~= words@.subrange(
                from as int,
                i as int,
            ).push(words@[i as int]));
        }
        i = i + 1;
    }
    r
}

/// The beginning of a buffer holds the given words, and the other buffers are unchanged.
spec fn prefix_written(
    before: LinksDevice,
    after: LinksDevice,
    target: LinksBuffer,
    staging_size: nat,
    target_size: nat,
    words: Seq<u32>,
) -> bool {
    &&& accepts_slice(after, target, staging_size, target_size)
    &&& words.len() <= target_size
    &&& after.memory[target].take(words.len() as int) == words
    &&& forall|b: LinksBuffer|
        b != target && b != LinksBuffer::Patch ==> #[trigger] same_buffer(before, after, b)
}

/// A buffer is the same on both devices.
spec fn same_buffer(a: LinksDevice, b: LinksDevice, buffer: LinksBuffer) -> bool {
    &&& a.memory.contains_key(buffer) == b.memory.contains_key(buffer)
    &&& a.memory[buffer] == b.memory[buffer]
}

/// One more slice behind the written ones.
proof fn lemma_prefix_written(
    first: LinksDevice,
    before: LinksDevice,
    after: LinksDevice,
    target: LinksBuffer,
    staging_size: nat,
    target_size: nat,
    words: Seq<u32>,
    values: Seq<u32>,
)
    requires
        target == LinksBuffer::Links || target == LinksBuffer::Offsets,
        prefix_written(first, before, target, staging_size, target_size, words),
        slice_uploaded(before, after, target, values, words.len() as int),
        words.len() + values.len() <= target_size,
    ensures
        prefix_written(first, after, target, staging_size, target_size, words + values),
{
    assert(after.memory[target].take((words + values).len() as int) =~= words + values) by {
        assert forall|i: int| 0 <= i < words.len() implies after.memory[target][i] == words[i] by {
            assert(before.memory[target].take(words.len() as int)[i] == words[i]);
        }
    }
    assert forall|b: LinksBuffer| b != target && b != LinksBuffer::Patch implies #[trigger] same_buffer(
        first,
        after,
        b,
    ) by {
        assert(same_buffer(first, before, b));
    }
}

/// Upload the offsets.
fn upload_offsets(commands: &mut Vec<LinksCommand>, offsets: &Vec<u32>) -> (r: OperationResult<()>)
    requires
        offsets@.len() * WORD_SIZE <= usize::MAX,
    ensures
        r is Ok,
        creations(final(commands)@) == creations(old(commands)@),
        descriptions(final(commands)@) == descriptions(old(commands)@),
        forall|start: LinksDevice|
            accepts_slice(
                executed_all(start, old(commands)@),
                LinksBuffer::Offsets,
                TRANSFER_WORDS as nat,
                offsets@.len(),
            ) ==> prefix_written(
                executed_all(start, old(commands)@),
                #[trigger] executed_all(start, final(commands)@),
                LinksBuffer::Offsets,
                TRANSFER_WORDS as nat,
                offsets@.len(),
                offsets@,
            ),
{
    let ghost given = commands@;
    let ghost size = offsets@.len();
    let mut at: usize = 0;
    proof {
        assert forall|start: LinksDevice|
            accepts_slice(
                executed_all(start, given),
                LinksBuffer::Offsets,
                TRANSFER_WORDS as nat,
                size,
            ) implies prefix_written(
            executed_all(start, given),
            #[trigger] executed_all(start, commands@),
            LinksBuffer::Offsets,
            TRANSFER_WORDS as nat,
            size,
            offsets@.take(0),
        ) by {
            assert(executed_all(start, commands@).memory[LinksBuffer::Offsets].take(0)
                =~= offsets@.take(0));
        }
    }
    while at < offsets.len()
        invariant
            at <= offsets@.len(),
            size == offsets@.len(),
            size * WORD_SIZE <= usize::MAX,
            given == old(commands)@,
            creations(commands@) == creations(given),
            descriptions(commands@) == descriptions(given),
            forall|start: LinksDevice|
                accepts_slice(
                    executed_all(start, given),
                    LinksBuffer::Offsets,
                    TRANSFER_WORDS as nat,
                    size,
                ) ==> prefix_written(
                    executed_all(start, given),
                    #[trigger] executed_all(start, commands@),
                    LinksBuffer::Offsets,
                    TRANSFER_WORDS as nat,
                    size,
                    offsets@.take(at as int),
                ),
        decreases offsets@.len() - at,
    {
        let end: usize = min_usize(at.saturating_add(TRANSFER_WORDS), offsets.len());
        let ghost before = commands@;
        let values = copy_words(offsets, at, end);
        let ghost slice = values@;
        match upload_u32_slice(
            commands,
            TRANSFER_WORDS,
            LinksBuffer::Offsets,
            offsets.len(),
            values,
            at,
        ) {
            Ok(_) => {},
            Err(error) => {
                return Err(error);
            },
        }
        proof {
            assert(offsets@.take(at as int) + slice =~= offsets@.take(end as int));
            assert forall|start: LinksDevice|
                accepts_slice(
                    executed_all(start, given),
                    LinksBuffer::Offsets,
                    TRANSFER_WORDS as nat,
                    size,
                ) implies prefix_written(
                executed_all(start, given),
                #[trigger] executed_all(start, commands@),
                LinksBuffer::Offsets,
                TRANSFER_WORDS as nat,
                size,
                offsets@.take(end as int),
            ) by {
                lemma_prefix_written(
                    executed_all(start, given),
                    executed_all(start, before),
                    executed_all(start, commands@),
                    LinksBuffer::Offsets,
                    TRANSFER_WORDS as nat,
                    size,
                    offsets@.take(at as int),
                    slice,
                );
            }
        }
        at = end;
    }
    proof {
        assert(offsets@.take(at as int) =~= offsets@);
    }
    Ok(())
}

/// Upload the links of all points, as many whole lists at a time as the transfer buffer holds.
fn upload_compact_links<S: Fn() -> bool>(
    commands: &mut Vec<LinksCommand>,
    graph: &GraphLayers,
    points_count: usize,
    offsets: &Vec<u32>,
    total_links: usize,
    is_stopped: &S,
) -> (r: OperationResult<()>)
    requires
        points_count < usize::MAX,
        offsets@ == link_offsets(*graph, points_count as nat),
        total_links == link_prefix(*graph, points_count as nat),
        total_links <= u32::MAX,
        total_links * WORD_SIZE <= usize::MAX,
        can_poll(is_stopped),
    ensures
        cancelled(r) ==> may_stop(is_stopped) && points_count > 0,
        !cancelled(r) ==> if exists|p: int|
            0 <= p < points_count && (#[trigger] graph.links(p, 0)).len() > TRANSFER_WORDS {
            failed(r, "A GPU compact adjacency list exceeds the staging buffer"@)
        } else {
            r is Ok
        },
        creations(final(commands)@) == creations(old(commands)@),
        descriptions(final(commands)@) == descriptions(old(commands)@),
        r is Ok ==> forall|start: LinksDevice|
            accepts_slice(
                executed_all(start, old(commands)@),
                LinksBuffer::Links,
                TRANSFER_WORDS as nat,
                total_links as nat,
            ) ==> prefix_written(
                executed_all(start, old(commands)@),
                #[trigger] executed_all(start, final(commands)@),
                LinksBuffer::Links,
                TRANSFER_WORDS as nat,
                total_links as nat,
                all_links(*graph, points_count as nat),
            ),
{
    let ghost given = commands@;
    let mut links_chunk: Vec<u32> = Vec::new();
    let mut uploaded_links: usize = 0;
    let ghost mut done: Seq<u32> = Seq::empty();
    let mut point_id: usize = 0;
    proof {
        assert(done + links_chunk@ =~= all_links(*graph, 0));
        assert forall|start: LinksDevice|
            accepts_slice(
                executed_all(start, given),
                LinksBuffer::Links,
                TRANSFER_WORDS as nat,
                total_links as nat,
            ) implies prefix_written(
            executed_all(start, given),
            #[trigger] executed_all(start, commands@),
            LinksBuffer::Links,
            TRANSFER_WORDS as nat,
            total_links as nat,
            done,
        ) by {
            assert(executed_all(start, commands@).memory[LinksBuffer::Links].take(0) =~= done);
        }
    }
    while point_id < points_count
        invariant
            point_id <= points_count,
            points_count < usize::MAX,
            offsets@ == link_offsets(*graph, points_count as nat),
            total_links == link_prefix(*graph, points_count as nat),
            total_links <= u32::MAX,
            total_links * WORD_SIZE <= usize::MAX,
            can_poll(is_stopped),
            done.len() == uploaded_links,
            links_chunk@.len() <= TRANSFER_WORDS,
            done + links_chunk@ == all_links(*graph, point_id as nat),
            forall|p: int|
                0 <= p < point_id ==> (#[trigger] graph.links(p, 0)).len() <= TRANSFER_WORDS,
            given == old(commands)@,
            creations(commands@) == creations(given),
            descriptions(commands@) == descriptions(given),
            forall|start: LinksDevice|
                accepts_slice(
                    executed_all(start, given),
                    LinksBuffer::Links,
                    TRANSFER_WORDS as nat,
                    total_links as nat,
                ) ==> prefix_written(
                    executed_all(start, given),
                    #[trigger] executed_all(start, commands@),
                    LinksBuffer::Links,
                    TRANSFER_WORDS as nat,
                    total_links as nat,
                    done,
                ),
        decreases points_count - point_id,
    {
        if point_id % 4096 == 0 {
            match check_process_stopped(is_stopped) {
                Ok(_) => {},
                Err(error) => {
                    return Err(error);
                },
            }
        }
        proof {
            lemma_link_prefix(*graph, point_id as nat, (point_id + 1) as nat);
            lemma_link_prefix(*graph, (point_id + 1) as nat, points_count as nat);
            lemma_link_prefix(*graph, point_id as nat, point_id as nat);
        }
        let expected_links: usize = offsets[point_id + 1] as usize - offsets[point_id] as usize;
        proof {
            assert(expected_links == graph.links(point_id as int, 0).len());
        }
        if expected_links > TRANSFER_WORDS {
            return Err(
                OperationError::service_error(
                    "A GPU compact adjacency list exceeds the staging buffer",
                ),
            );
        }
        if links_chunk.len() > 0 && links_chunk.len() + expected_links > TRANSFER_WORDS {
            let ghost before = commands@;
            let ghost slice = links_chunk@;
            let ghost earlier = done;
            let count: usize = links_chunk.len();
            match upload_u32_slice(
                commands,
                TRANSFER_WORDS,
                LinksBuffer::Links,
                total_links,
                links_chunk,
                uploaded_links,
            ) {
                Ok(_) => {},
                Err(error) => {
                    return Err(error);
                },
            }
            uploaded_links = uploaded_links + count;
            links_chunk = Vec::new();
            proof {
                done = earlier + slice;
                assert(done + links_chunk@ =~= all_links(*graph, point_id as nat));
                assert forall|start: LinksDevice|
                    accepts_slice(
                        executed_all(start, given),
                        LinksBuffer::Links,
                        TRANSFER_WORDS as nat,
                        total_links as nat,
                    ) implies prefix_written(
                    executed_all(start, given),
                    #[trigger] executed_all(start, commands@),
                    LinksBuffer::Links,
                    TRANSFER_WORDS as nat,
                    total_links as nat,
                    done,
                ) by {
                    lemma_prefix_written(
                        executed_all(start, given),
                        executed_all(start, before),
                        executed_all(start, commands@),
                        LinksBuffer::Links,
                        TRANSFER_WORDS as nat,
                        total_links as nat,
                        earlier,
                        slice,
                    );
                }
            }
        }
        let mut links = graph.copy_links(point_id, 0);
        let ghost chunk = links_chunk@;
        links_chunk.append(&mut links);
        proof {
            assert(done + links_chunk@ =~= all_links(*graph, (point_id + 1) as nat));
        }
        point_id = point_id + 1;
    }
    if links_chunk.len() > 0 {
        let ghost before = commands@;
        let ghost slice = links_chunk@;
        proof {
            lemma_link_prefix(*graph, points_count as nat, points_count as nat);
        }
        match upload_u32_slice(
            commands,
            TRANSFER_WORDS,
            LinksBuffer::Links,
            total_links,
            links_chunk,
            uploaded_links,
        ) {
            Ok(_) => {},
            Err(error) => {
                return Err(error);
            },
        }
        proof {
            assert forall|start: LinksDevice|
                accepts_slice(
                    executed_all(start, given),
                    LinksBuffer::Links,
                    TRANSFER_WORDS as nat,
                    total_links as nat,
                ) implies prefix_written(
                executed_all(start, given),
                #[trigger] executed_all(start, commands@),
                LinksBuffer::Links,
                TRANSFER_WORDS as nat,
                total_links as nat,
                all_links(*graph, points_count as nat),
            ) by {
                lemma_prefix_written(
                    executed_all(start, given),
                    executed_all(start, before),
                    executed_all(start, commands@),
                    LinksBuffer::Links,
                    TRANSFER_WORDS as nat,
                    total_links as nat,
                    done,
                    slice,
                );
            }
        }
    } else {
        proof {
            assert(done =~= all_links(*graph, points_count as nat));
        }
    }
    Ok(())
}

impl GpuLinks {
    /// Build an immutable compact projection of the lowest layer for filtered graph search: all
    /// links one after the other, and where those of every point start.
    pub fn new_compact<S: Fn() -> bool>(
        graph: &GraphLayers,
        points_count: usize,
        is_stopped: &S,
    ) -> (r: OperationResult<(GpuLinks, Vec<LinksCommand>, CompactLinksStats)>)
        requires
            (points_count + 1) * WORD_SIZE <= usize::MAX,
            can_poll(is_stopped),
        ensures
            cancelled(r) ==> may_stop(is_stopped) && points_count > 0,
            always_stopped(is_stopped) && points_count > 0 ==> cancelled(r),
            cancelled(r) || match compact_fault(*graph, points_count as nat) {
                Some(text) => failed(r, text),
                None => r is Ok,
            },
            r matches Ok((links, commands, stats)) ==> {
                let n = points_count as nat;
                let total = link_prefix(*graph, n);
                &&& links@ == (LinksView {
                    m: graph.m0,
                    links_capacity: 0,
                    max_patched_points: 0,
                    compact: true,
                    patch_buffer: false,
                    patched_points: Seq::empty(),
                })
                &&& stats == (CompactLinksStats {
                    points: points_count,
                    links: total as usize,
                    max_degree: max_links(*graph, n, 0) as usize,
                    links_bytes: (total * WORD_SIZE) as usize,
                    offsets_bytes: ((n + 1) * WORD_SIZE) as usize,
                    dense_bytes: (n * (max_links(*graph, n, 0) + 1) * WORD_SIZE) as usize,
                })
                &&& creations(commands@) == seq![
                    (
                        LinksBuffer::Links,
                        "Compact links neighbors"@,
                        BufferType::Storage,
                        total,
                    ),
                    (
                        LinksBuffer::Offsets,
                        "Compact links offsets"@,
                        BufferType::Storage,
                        n + 1,
                    ),
                    (
                        LinksBuffer::Params,
                        "Links params buffer"@,
                        BufferType::Uniform,
                        PARAMS_WORDS as nat,
                    ),
                    (
                        LinksBuffer::Patch,
                        "Compact links upload"@,
                        BufferType::CpuToGpu,
                        TRANSFER_WORDS as nat,
                    ),
                ]
                &&& descriptions(commands@) == seq![
                    seq![
                        (0nat, BindingKind::Uniform, LinksBuffer::Params),
                        (1nat, BindingKind::Storage, LinksBuffer::Links),
                        (2nat, BindingKind::Storage, LinksBuffer::Offsets),
                    ],
                ]
                &&& forall|undefined: spec_fn(LinksBuffer, int) -> u32|
                    made_compact(
                        #[trigger] executed_all(blank_device(undefined), commands@),
                        *graph,
                        n,
                    )
            },
    {
        let ghost n = points_count as nat;
        let (offsets, max_degree) = match count_offsets(graph, points_count, is_stopped) {
            Ok(pair) => pair,
            Err(error) => {
                return Err(error);
            },
        };
        proof {
            lemma_no_links(*graph, n);
            lemma_link_prefix(*graph, n, n);
        }
        let total_links: usize = offsets[points_count] as usize;
        if max_degree == 0 || total_links == 0 {
            return Err(OperationError::service_error("GPU filtered graph has no level-0 links"));
        }
        let offsets_bytes: usize = offsets.len() * WORD_SIZE;
        let links_bytes: usize = match total_links.checked_mul(WORD_SIZE) {
            Some(bytes) => bytes,
            None => {
                return Err(OperationError::service_error("GPU compact links size overflow"));
            },
        };
        proof {
            assert(max_links(*graph, n, 0) < usize::MAX);
            let d = (max_links(*graph, n, 0) + 1) as int;
            assert(n * d <= n * d * WORD_SIZE) by (nonlinear_arith)
                requires
                    d >= 1,
            ;
        }
        let dense_words: Option<usize> = points_count.checked_mul(max_degree + 1);
        let dense_bytes: usize = match dense_words {
            Some(words) => match words.checked_mul(WORD_SIZE) {
                Some(bytes) => bytes,
                None => {
                    return Err(OperationError::service_error("GPU dense links size overflow"));
                },
            },
            None => {
                return Err(OperationError::service_error("GPU dense links size overflow"));
            },
        };
        let mut commands: Vec<LinksCommand> = Vec::new();
        push_command(
            &mut commands,
            GpuCommand::Create {
                buffer: LinksBuffer::Links,
                label: "Compact links neighbors",
                buffer_type: BufferType::Storage,
                size: total_links,
            },
        );
        push_command(
            &mut commands,
            GpuCommand::Create {
                buffer: LinksBuffer::Offsets,
                label: "Compact links offsets",
                buffer_type: BufferType::Storage,
                size: offsets.len(),
            },
        );
        push_command(
            &mut commands,
            GpuCommand::Create {
                buffer: LinksBuffer::Params,
                label: "Links params buffer",
                buffer_type: BufferType::Uniform,
                size: PARAMS_WORDS,
            },
        );
        push_command(
            &mut commands,
            GpuCommand::Create {
                buffer: LinksBuffer::Patch,
                label: "Compact links upload",
                buffer_type: BufferType::CpuToGpu,
                size: TRANSFER_WORDS,
            },
        );
        let mut params: Vec<u32> = Vec::new();
        let m: usize = graph.get_m(0);
        params.push(m as u32);
        params.push(0);
        push_command(
            &mut commands,
            GpuCommand::Upload { buffer: LinksBuffer::Patch, at: 0, words: params },
        );
        push_command(
            &mut commands,
            GpuCommand::Copy {
                source: LinksBuffer::Patch,
                target: LinksBuffer::Params,
                source_at: 0,
                target_at: 0,
                size: PARAMS_WORDS,
            },
        );
        let ghost recorded = commands@;
        push_command(&mut commands, GpuCommand::Run);
        let ghost with_params = commands@;
        proof {
            assert forall|undefined: spec_fn(LinksBuffer, int) -> u32|
                compact_buffers_made(
                    #[trigger] executed_all(blank_device(undefined), with_params),
                    *graph,
                    n,
                ) by {
                let start = blank_device(undefined);
                let before = executed_all(start, recorded);
                let copy = Transfer::Copy {
                    source: LinksBuffer::Patch,
                    target: LinksBuffer::Params,
                    source_at: 0,
                    target_at: 0,
                    size: PARAMS_WORDS as nat,
                };
                assert(before.pending =~= Seq::empty().push(copy));
                lemma_transferred_one(before, copy);
                assert(before.memory[LinksBuffer::Patch].subrange(0, 2) =~= params@);
                let after = executed_all(start, with_params);
                assert(after.memory[LinksBuffer::Params] =~= params_words(graph.m0, 0));
            }
        }
        match upload_offsets(&mut commands, &offsets) {
            Ok(_) => {},
            Err(error) => {
                return Err(error);
            },
        }
        let ghost with_offsets = commands@;
        match upload_compact_links(
            &mut commands,
            graph,
            points_count,
            &offsets,
            total_links,
            is_stopped,
        ) {
            Ok(_) => {},
            Err(error) => {
                return Err(error);
            },
        }
        let ghost with_links = commands@;
        let mut bindings: Vec<Binding<LinksBuffer>> = Vec::new();
        bindings.push(
            Binding { point: 0, kind: BindingKind::Uniform, buffer: LinksBuffer::Params },
        );
        bindings.push(
            Binding { point: 1, kind: BindingKind::Storage, buffer: LinksBuffer::Links },
        );
        bindings.push(
            Binding { point: 2, kind: BindingKind::Storage, buffer: LinksBuffer::Offsets },
        );
        proof {
            assert(binding_list(bindings@) =~= seq![
                (0nat, BindingKind::Uniform, LinksBuffer::Params),
                (1nat, BindingKind::Storage, LinksBuffer::Links),
                (2nat, BindingKind::Storage, LinksBuffer::Offsets),
            ]);
        }
        push_command(&mut commands, GpuCommand::Describe { bindings });
        let links = GpuLinks {
            m,
            links_capacity: 0,
            max_patched_points: 0,
            compact: true,
            patch_buffer: false,
            patched_points: Vec::new(),
        };
        let stats = CompactLinksStats {
            points: points_count,
            links: total_links,
            max_degree,
            links_bytes,
            offsets_bytes,
            dense_bytes,
        };
        proof {
            assert(links@.patched_points =~= Seq::empty());
            assert(creations(commands@) =~= seq![
                (
                    LinksBuffer::Links,
                    "Compact links neighbors"@,
                    BufferType::Storage,
                    total_links as nat,
                ),
                (LinksBuffer::Offsets, "Compact links offsets"@, BufferType::Storage, n + 1),
                (
                    LinksBuffer::Params,
                    "Links params buffer"@,
                    BufferType::Uniform,
                    PARAMS_WORDS as nat,
                ),
                (
                    LinksBuffer::Patch,
                    "Compact links upload"@,
                    BufferType::CpuToGpu,
                    TRANSFER_WORDS as nat,
                ),
            ]);
            assert(descriptions(commands@) =~= seq![binding_list(bindings@)]);
            assert forall|undefined: spec_fn(LinksBuffer, int) -> u32| made_compact(
                #[trigger] executed_all(blank_device(undefined), commands@),
                *graph,
                n,
            ) by {
                let start = blank_device(undefined);
                let a = executed_all(start, with_params);
                let b = executed_all(start, with_offsets);
                let c = executed_all(start, with_links);
                let d = executed_all(start, commands@);
                assert(compact_buffers_made(a, *graph, n));
                assert(prefix_written(
                    a,
                    b,
                    LinksBuffer::Offsets,
                    TRANSFER_WORDS as nat,
                    n + 1,
                    offsets@,
                ));
                assert(same_buffer(a, b, LinksBuffer::Links));
                assert(same_buffer(a, b, LinksBuffer::Params));
                assert(prefix_written(
                    b,
                    c,
                    LinksBuffer::Links,
                    TRANSFER_WORDS as nat,
                    total_links as nat,
                    all_links(*graph, n),
                ));
                assert(same_buffer(b, c, LinksBuffer::Offsets));
                assert(same_buffer(b, c, LinksBuffer::Params));
                assert(b.memory[LinksBuffer::Offsets].take((n + 1) as int)
                    =~= b.memory[LinksBuffer::Offsets]);
                assert(c.memory[LinksBuffer::Links].take(total_links as int)
                    =~= c.memory[LinksBuffer::Links]);
                assert(d == c);
            }
        }
        Ok((links, commands, stats))
    }
}

/// The buffers of the compact form exist, and the parameters are set.
spec fn compact_buffers_made(device: LinksDevice, graph: GraphLayers, n: nat) -> bool {
    &&& accepts_slice(
        device,
        LinksBuffer::Links,
        TRANSFER_WORDS as nat,
        link_prefix(graph, n),
    )
    &&& accepts_slice(device, LinksBuffer::Offsets, TRANSFER_WORDS as nat, n + 1)
    &&& device.memory.contains_key(LinksBuffer::Params)
    &&& device.memory[LinksBuffer::Params] == params_words(graph.m0, 0)
}

/// The bindings of the descriptor set.
pub open spec fn links_bindings(compact: bool) -> Seq<(nat, BindingKind, LinksBuffer)> {
    let fixed = seq![
        (0nat, BindingKind::Uniform, LinksBuffer::Params),
        (1nat, BindingKind::Storage, LinksBuffer::Links),
    ];
    if compact {
        fixed.push((2nat, BindingKind::Storage, LinksBuffer::Offsets))
    } else {
        fixed
    }
}

impl GpuLinks {
    /// Binding points and kinds of the descriptor set.
    pub fn descriptor_set_layout(&self) -> (r: Vec<(usize, BindingKind)>)
        ensures
            r@.len() == links_bindings(self@.compact).len(),
            forall|i: int|
                0 <= i < r@.len() ==> {
                    &&& (#[trigger] r@[i]).0 == links_bindings(self@.compact)[i].0
                    &&& r@[i].1 == links_bindings(self@.compact)[i].1
                },
    {
        let mut r: Vec<(usize, BindingKind)> = Vec::new();
        r.push((0, BindingKind::Uniform));
        r.push((1, BindingKind::Storage));
        if self.compact {
            r.push((2, BindingKind::Storage));
        }
        r
    }

    /// The buffers that the descriptor set binds.
    pub fn descriptor_set(&self) -> (r: Vec<Binding<LinksBuffer>>)
        ensures
            binding_list(r@) == links_bindings(self@.compact),
    {
        let mut r: Vec<Binding<LinksBuffer>> = Vec::new();
        r.push(Binding { point: 0, kind: BindingKind::Uniform, buffer: LinksBuffer::Params });
        r.push(Binding { point: 1, kind: BindingKind::Storage, buffer: LinksBuffer::Links });
        if self.compact {
            r.push(
                Binding { point: 2, kind: BindingKind::Storage, buffer: LinksBuffer::Offsets },
            );
        }
        proof {
            assert(binding_list(r@) =~= links_bindings(self@.compact));
        }
        r
    }

    /// Names that the shader is built with, and their values.
    pub fn shader_defines(&self) -> (r: Vec<(String, Option<String>)>)
        ensures
            r@.len() == 1,
            self@.compact ==> r@[0].0@ == "LINKS_COMPACT"@ && r@[0].1 is None,
            !self@.compact ==> r@[0].0@ == "LINKS_CAPACITY"@ && r@[0].1 is Some
                && r@[0].1->0@ == decimal(self@.links_capacity),
    {
        let mut r: Vec<(String, Option<String>)> = Vec::new();
        if self.compact {
            r.push(("LINKS_COMPACT".to_owned(), None));
        } else {
            r.push(
                (
                    "LINKS_CAPACITY".to_owned(),
                    Some(decimal_text(self.links_capacity as u64)),
                ),
            );
        }
        r
    }
}

} // verus!
