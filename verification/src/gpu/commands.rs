//! Commands for a device and what they do to its memory.
//!
//! Host writes take effect at once. Copies and clears are recorded and take effect, in order,
//! when the recorded work is submitted. Offsets and sizes count 32-bit words.

use vstd::prelude::*;

use crate::buffer_telemetry::BufferType;

verus! {

/// Size of one word in bytes.
pub const WORD_SIZE: usize = 4;

/// How a shader sees a buffer.
#[derive(Clone, Copy, Debug, PartialEq, Eq, Structural)]
pub enum BindingKind {
    Uniform,
    Storage,
}

/// A buffer at a binding point of a descriptor set.
#[derive(Debug)]
pub struct Binding<B> {
    pub point: usize,
    pub kind: BindingKind,
    pub buffer: B,
}

/// One command for a device. `B` names the buffers.
#[derive(Debug)]
pub enum GpuCommand<B> {
    /// Make a buffer. Its contents are undefined.
    Create { buffer: B, label: &'static str, buffer_type: BufferType, size: usize },
    /// Write words to a buffer from the host.
    Upload { buffer: B, at: usize, words: Vec<u32> },
    /// Record a copy between buffers.
    Copy { source: B, target: B, source_at: usize, target_at: usize, size: usize },
    /// Record setting a buffer to zero.
    Clear { buffer: B },
    /// Submit the recorded work and wait until it is finished.
    Run,
    /// Make a descriptor set and its layout.
    Describe { bindings: Vec<Binding<B>> },
}

/// Recorded work.
pub ghost enum Transfer<B> {
    Copy { source: B, target: B, source_at: nat, target_at: nat, size: nat },
    Clear { buffer: B },
}

/// Memory of a device and the work recorded for it.
#[verifier::reject_recursive_types(B)]
pub ghost struct DeviceState<B> {
    pub memory: Map<B, Seq<u32>>,
    pub pending: Seq<Transfer<B>>,
    /// What a word holds that was never written.
    pub undefined: spec_fn(B, int) -> u32,
    /// A command reached outside a buffer.
    pub fault: bool,
}

/// The list with some words replaced.
pub open spec fn overwrite(list: Seq<u32>, at: int, words: Seq<u32>) -> Seq<u32> {
    Seq::new(
        list.len(),
        |i: int|
            if at <= i < at + words.len() {
                words[i - at]
            } else {
                list[i]
            },
    )
}

/// A device without buffers.
pub open spec fn blank_device<B>(undefined: spec_fn(B, int) -> u32) -> DeviceState<B> {
    DeviceState { memory: Map::empty(), pending: Seq::empty(), undefined, fault: false }
}

/// The range lies inside the buffer.
pub open spec fn in_range<B>(memory: Map<B, Seq<u32>>, buffer: B, at: nat, words: nat) -> bool {
    memory.contains_key(buffer) && at + words <= memory[buffer].len()
}

/// The device after one piece of recorded work.
pub open spec fn transferred<B>(state: DeviceState<B>, transfer: Transfer<B>) -> DeviceState<B> {
    match transfer {
        Transfer::Copy { source, target, source_at, target_at, size } => if in_range(
            state.memory,
            source,
            source_at,
            size,
        ) && in_range(state.memory, target, target_at, size) {
            DeviceState {
                memory: state.memory.insert(
                    target,
                    overwrite(
                        state.memory[target],
                        target_at as int,
                        state.memory[source].subrange(
                            source_at as int,
                            (source_at + size) as int,
                        ),
                    ),
                ),
                ..state
            }
        } else {
            DeviceState { fault: true, ..state }
        },
        Transfer::Clear { buffer } => if state.memory.contains_key(buffer) {
            DeviceState {
                memory: state.memory.insert(
                    buffer,
                    Seq::new(state.memory[buffer].len(), |i: int| 0u32),
                ),
                ..state
            }
        } else {
            DeviceState { fault: true, ..state }
        },
    }
}

/// The device after recorded work, in order.
pub open spec fn transferred_all<B>(
    state: DeviceState<B>,
    transfers: Seq<Transfer<B>>,
) -> DeviceState<B>
    decreases transfers.len(),
{
    if transfers.len() == 0 {
        state
    } else {
        transferred(transferred_all(state, transfers.drop_last()), transfers.last())
    }
}

/// The device after one command.
pub open spec fn executed<B>(state: DeviceState<B>, command: GpuCommand<B>) -> DeviceState<B> {
    match command {
        GpuCommand::Create { buffer, size, .. } => DeviceState {
            memory: state.memory.insert(
                buffer,
                Seq::new(size as nat, |i: int| (state.undefined)(buffer, i)),
            ),
            ..state
        },
        GpuCommand::Upload { buffer, at, words } => if in_range(
            state.memory,
            buffer,
            at as nat,
            words@.len(),
        ) {
            DeviceState {
                memory: state.memory.insert(
                    buffer,
                    overwrite(state.memory[buffer], at as int, words@),
                ),
                ..state
            }
        } else {
            DeviceState { fault: true, ..state }
        },
        GpuCommand::Copy { source, target, source_at, target_at, size } => DeviceState {
            pending: state.pending.push(
                Transfer::Copy {
                    source,
                    target,
                    source_at: source_at as nat,
                    target_at: target_at as nat,
                    size: size as nat,
                },
            ),
            ..state
        },
        GpuCommand::Clear { buffer } => DeviceState {
            pending: state.pending.push(Transfer::Clear { buffer }),
            ..state
        },
        GpuCommand::Run => DeviceState {
            pending: Seq::empty(),
            ..transferred_all(state, state.pending)
        },
        GpuCommand::Describe { .. } => state,
    }
}

/// The device after commands, in order.
pub open spec fn executed_all<B>(
    state: DeviceState<B>,
    commands: Seq<GpuCommand<B>>,
) -> DeviceState<B>
    decreases commands.len(),
{
    if commands.len() == 0 {
        state
    } else {
        executed(executed_all(state, commands.drop_last()), commands.last())
    }
}

/// One more command.
pub proof fn lemma_executed_push<B>(
    state: DeviceState<B>,
    commands: Seq<GpuCommand<B>>,
    command: GpuCommand<B>,
)
    ensures
        executed_all(state, commands.push(command)) == executed(
            executed_all(state, commands),
            command,
        ),
{
    assert(commands.push(command).drop_last() =~= commands);
}

/// One more piece of recorded work.
pub proof fn lemma_transferred_push<B>(
    state: DeviceState<B>,
    transfers: Seq<Transfer<B>>,
    transfer: Transfer<B>,
)
    ensures
        transferred_all(state, transfers.push(transfer)) == transferred(
            transferred_all(state, transfers),
            transfer,
        ),
{
    assert(transfers.push(transfer).drop_last() =~= transfers);
}

/// The buffers that commands make, in order: name, label, type and size.
pub open spec fn creations<B>(
    commands: Seq<GpuCommand<B>>,
) -> Seq<(B, Seq<char>, BufferType, nat)>
    decreases commands.len(),
{
    if commands.len() == 0 {
        Seq::empty()
    } else {
        let previous = creations(commands.drop_last());
        match commands.last() {
            GpuCommand::Create { buffer, label, buffer_type, size } => previous.push(
                (buffer, label@, buffer_type, size as nat),
            ),
            _ => previous,
        }
    }
}

/// Binding points of a descriptor set with their kinds and buffers.
pub open spec fn binding_list<B>(bindings: Seq<Binding<B>>) -> Seq<(nat, BindingKind, B)> {
    bindings.map_values(|b: Binding<B>| (b.point as nat, b.kind, b.buffer))
}

/// The descriptor sets that commands make, in order.
pub open spec fn descriptions<B>(
    commands: Seq<GpuCommand<B>>,
) -> Seq<Seq<(nat, BindingKind, B)>>
    decreases commands.len(),
{
    if commands.len() == 0 {
        Seq::empty()
    } else {
        let previous = descriptions(commands.drop_last());
        match commands.last() {
            GpuCommand::Describe { bindings } => previous.push(binding_list(bindings@)),
            _ => previous,
        }
    }
}

/// Add a command.
pub fn push_command<B>(commands: &mut Vec<GpuCommand<B>>, command: GpuCommand<B>)
    ensures
        final(commands)@ == old(commands)@.push(command),
        forall|state: DeviceState<B>| #[trigger]
            executed_all(state, final(commands)@) == executed(
                executed_all(state, old(commands)@),
                command,
            ),
        creations(final(commands)@) == (match command {
            GpuCommand::Create { buffer, label, buffer_type, size } => creations(
                old(commands)@,
            ).push((buffer, label@, buffer_type, size as nat)),
            _ => creations(old(commands)@),
        }),
        descriptions(final(commands)@) == (match command {
            GpuCommand::Describe { bindings } => descriptions(old(commands)@).push(
                binding_list(bindings@),
            ),
            _ => descriptions(old(commands)@),
        }),
{
    let ghost before = commands@;
    commands.push(command);
    proof {
        assert(commands@.drop_last() =~= before);
        assert forall|state: DeviceState<B>| #[trigger]
            executed_all(state, commands@) == executed(executed_all(state, before), command) by {
            lemma_executed_push(state, before, command);
        }
    }
}

/// One piece of recorded work.
pub proof fn lemma_transferred_one<B>(state: DeviceState<B>, a: Transfer<B>)
    ensures
        transferred_all(state, Seq::empty().push(a)) == transferred(state, a),
{
    lemma_transferred_push(state, Seq::empty(), a);
}

/// Two pieces of recorded work.
pub proof fn lemma_transferred_two<B>(state: DeviceState<B>, a: Transfer<B>, b: Transfer<B>)
    ensures
        transferred_all(state, Seq::empty().push(a).push(b)) == transferred(
            transferred(state, a),
            b,
        ),
{
    lemma_transferred_one(state, a);
    lemma_transferred_push(state, Seq::empty().push(a), b);
}

} // verus!
