//! Commands of searches on a device.

use vstd::prelude::*;

use crate::buffer_telemetry::BufferType;

verus! {

/// A compute shader.
#[derive(Clone, Copy, Debug, PartialEq, Eq, Structural)]
pub enum Kernel {
    /// Score every candidate.
    ExactScore,
    /// Best candidates of every tile.
    ExactBlockTopk,
    /// Score every visible candidate.
    ExactVisibleScore,
    /// Best visible candidates of every tile.
    ExactVisibleBlockTopk,
    /// Best visible candidates of every tile, with candidates of their own for every query.
    HeterogeneousBlockTopk,
    /// Walk over the lowest layer of a graph.
    FilteredGraph,
}

/// One command of a search. `B` names the buffers. Uploads and copies start at the beginning of
/// the buffers.
#[derive(Debug)]
pub enum SearchCommand<B> {
    /// Make a buffer.
    Create { buffer: B, label: &'static str, buffer_type: BufferType, bytes: usize },
    /// Write words to a buffer from the host.
    Upload { buffer: B, words: Vec<u32> },
    /// Record setting a buffer to zero.
    Clear { buffer: B },
    /// Record a copy between buffers.
    Copy { source: B, target: B, bytes: usize },
    /// Record waiting until the buffers are written.
    Barrier { buffers: Vec<B> },
    /// Record the choice of a shader. Its storage buffers are bound from the first point on, and
    /// the descriptor sets of the data that it works on behind them.
    Bind { kernel: Kernel, storage: Vec<B> },
    /// Record running the shader in groups.
    Dispatch { x: usize, y: usize },
    /// Submit the recorded work and wait until it is finished.
    Run,
}

/// What a command says.
pub ghost enum SearchStep<B> {
    Create { buffer: B, label: Seq<char>, buffer_type: BufferType, bytes: nat },
    Upload { buffer: B, words: Seq<u32> },
    Clear { buffer: B },
    Copy { source: B, target: B, bytes: nat },
    Barrier { buffers: Seq<B> },
    Bind { kernel: Kernel, storage: Seq<B> },
    Dispatch { x: nat, y: nat },
    Run,
}

impl<B> View for SearchCommand<B> {
    type V = SearchStep<B>;

    open spec fn view(&self) -> SearchStep<B> {
        match *self {
            SearchCommand::Create { buffer, label, buffer_type, bytes } => SearchStep::Create {
                buffer,
                label: label@,
                buffer_type,
                bytes: bytes as nat,
            },
            SearchCommand::Upload { buffer, words } => SearchStep::Upload { buffer, words: words@ },
            SearchCommand::Clear { buffer } => SearchStep::Clear { buffer },
            SearchCommand::Copy { source, target, bytes } => SearchStep::Copy {
                source,
                target,
                bytes: bytes as nat,
            },
            SearchCommand::Barrier { buffers } => SearchStep::Barrier { buffers: buffers@ },
            SearchCommand::Bind { kernel, storage } => SearchStep::Bind {
                kernel,
                storage: storage@,
            },
            SearchCommand::Dispatch { x, y } => SearchStep::Dispatch { x: x as nat, y: y as nat },
            SearchCommand::Run => SearchStep::Run,
        }
    }
}

/// What commands say, in order.
pub open spec fn steps<B>(commands: Seq<SearchCommand<B>>) -> Seq<SearchStep<B>> {
    commands.map_values(|command: SearchCommand<B>| command@)
}

/// Add a command.
pub fn push_step<B>(commands: &mut Vec<SearchCommand<B>>, command: SearchCommand<B>)
    ensures
        final(commands)@ == old(commands)@.push(command),
        steps(final(commands)@) == steps(old(commands)@).push(command@),
{
    let ghost before = commands@;
    commands.push(command);
    proof {
        assert(steps(commands@) =~= steps(before).push(command@));
    }
}

/// The vectors of a segment on a device.
#[derive(Clone, Copy, Debug, PartialEq, Eq, Structural)]
pub struct GpuVectorStorage {
    /// Number of elements that a query must have.
    pub dim: usize,
    /// Number of elements of a vector on the device, with padding.
    pub vector_capacity: usize,
    pub num_vectors: usize,
}

} // verus!
