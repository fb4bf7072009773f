//! What the commands of a search do to a device.
//!
//! Host writes take effect at once. Everything else is recorded and takes effect, in order, when the
//! recorded work is submitted. Recorded work may only read what a barrier has settled.

use vstd::prelude::*;

use crate::gpu::commands::{overwrite, WORD_SIZE};
use crate::gpu::search_commands::{Kernel, SearchStep};

verus! {

/// What the shaders of a device do: from the contents of the bound buffers, the memory of the device
/// and the numbers of groups to the new contents of the bound buffers.
pub type Kernels<B> = spec_fn(Kernel, Seq<Seq<u32>>, Map<B, Seq<u32>>, nat, nat) -> Seq<Seq<u32>>;

/// Memory of a device and the work recorded for it.
#[verifier::reject_recursive_types(B)]
pub ghost struct SearchDevice<B> {
    pub memory: Map<B, Seq<u32>>,
    pub recorded: Seq<SearchStep<B>>,
    /// What a word holds that was never written.
    pub undefined: spec_fn(B, int) -> u32,
    /// A command reached outside a buffer, or work read what was not settled.
    pub fault: bool,
}

/// A device in the middle of submitted work.
#[verifier::reject_recursive_types(B)]
pub ghost struct Working<B> {
    pub memory: Map<B, Seq<u32>>,
    /// The buffers that were written and that no barrier has settled.
    pub unsettled: Set<B>,
    /// The shader that runs next and the buffers that are bound for it.
    pub bound: Option<(Kernel, Seq<B>)>,
    pub fault: bool,
}

/// Words of so many bytes.
pub open spec fn words_of(bytes: nat) -> nat {
    bytes / WORD_SIZE as nat
}

/// The contents of bound buffers.
pub open spec fn contents<B>(memory: Map<B, Seq<u32>>, storage: Seq<B>) -> Seq<Seq<u32>> {
    storage.map_values(|buffer: B| memory[buffer])
}

/// The memory after a shader has written the bound buffers.
pub open spec fn written<B>(
    memory: Map<B, Seq<u32>>,
    storage: Seq<B>,
    output: Seq<Seq<u32>>,
) -> Map<B, Seq<u32>> {
    Map::new(
        |buffer: B| memory.contains_key(buffer),
        |buffer: B|
            if storage.contains(buffer) {
                output[storage.index_of(buffer)]
            } else {
                memory[buffer]
            },
    )
}

/// The device after one piece of submitted work.
pub open spec fn worked<B>(
    kernels: Kernels<B>,
    state: Working<B>,
    step: SearchStep<B>,
) -> Working<B> {
    let failed = Working { fault: true, ..state };
    match step {
        SearchStep::Clear { buffer } => if state.memory.contains_key(buffer) {
            Working {
                memory: state.memory.insert(
                    buffer,
                    Seq::new(state.memory[buffer].len(), |i: int| 0u32),
                ),
                unsettled: state.unsettled.insert(buffer),
                ..state
            }
        } else {
            failed
        },
        SearchStep::Copy { source, target, bytes } => if state.memory.contains_key(source)
            && state.memory.contains_key(target) && !state.unsettled.contains(source) && words_of(
            bytes,
        ) <= state.memory[source].len() && words_of(bytes) <= state.memory[target].len() {
            Working {
                memory: state.memory.insert(
                    target,
                    overwrite(
                        state.memory[target],
                        0,
                        state.memory[source].take(words_of(bytes) as int),
                    ),
                ),
                unsettled: state.unsettled.insert(target),
                ..state
            }
        } else {
            failed
        },
        SearchStep::Barrier { buffers } => Working {
            unsettled: state.unsettled.difference(buffers.to_set()),
            ..state
        },
        SearchStep::Bind { kernel, storage } => Working {
            bound: Some((kernel, storage)),
            ..state
        },
        SearchStep::Dispatch { x, y } => match state.bound {
            Some((kernel, storage)) => if forall|i: int|
                0 <= i < storage.len() ==> state.memory.contains_key(#[trigger] storage[i])
                    && !state.unsettled.contains(storage[i]) {
                let before = contents(state.memory, storage);
                let output = kernels(kernel, before, state.memory, x, y);
                Working {
                    memory: written(state.memory, storage, output),
                    unsettled: state.unsettled.union(
                        Set::new(
                            |buffer: B|
                                storage.contains(buffer) && output[storage.index_of(buffer)]
                                    != state.memory[buffer],
                        ),
                    ),
                    ..state
                }
            } else {
                failed
            },
            None => failed,
        },
        _ => failed,
    }
}

/// The device after the first pieces of submitted work.
pub open spec fn worked_all<B>(
    kernels: Kernels<B>,
    state: Working<B>,
    work: Seq<SearchStep<B>>,
    n: nat,
) -> Working<B>
    decreases n,
{
    if n == 0 {
        state
    } else {
        worked(kernels, worked_all(kernels, state, work, (n - 1) as nat), work[n - 1])
    }
}

/// The device after one command.
pub open spec fn performed<B>(
    kernels: Kernels<B>,
    device: SearchDevice<B>,
    step: SearchStep<B>,
) -> SearchDevice<B> {
    match step {
        SearchStep::Create { buffer, bytes, .. } => SearchDevice {
            memory: device.memory.insert(
                buffer,
                Seq::new(words_of(bytes), |i: int| (device.undefined)(buffer, i)),
            ),
            ..device
        },
        SearchStep::Upload { buffer, words } => if device.memory.contains_key(buffer)
            && words.len() <= device.memory[buffer].len() {
            SearchDevice {
                memory: device.memory.insert(buffer, overwrite(device.memory[buffer], 0, words)),
                ..device
            }
        } else {
            SearchDevice { fault: true, ..device }
        },
        SearchStep::Run => {
            let done = worked_all(
                kernels,
                Working {
                    memory: device.memory,
                    unsettled: Set::empty(),
                    bound: None,
                    fault: device.fault,
                },
                device.recorded,
                device.recorded.len(),
            );
            SearchDevice {
                memory: done.memory,
                recorded: Seq::empty(),
                fault: done.fault,
                ..device
            }
        },
        _ => SearchDevice { recorded: device.recorded.push(step), ..device },
    }
}

/// The device after the first commands.
pub open spec fn performed_all<B>(
    kernels: Kernels<B>,
    device: SearchDevice<B>,
    steps: Seq<SearchStep<B>>,
    n: nat,
) -> SearchDevice<B>
    decreases n,
{
    if n == 0 {
        device
    } else {
        performed(kernels, performed_all(kernels, device, steps, (n - 1) as nat), steps[n - 1])
    }
}

/// The device has the buffer, and it holds so many words.
pub open spec fn has_buffer<B>(device: SearchDevice<B>, buffer: B, words: nat) -> bool {
    device.memory.contains_key(buffer) && device.memory[buffer].len() == words
}

/// The device waits for commands.
pub open spec fn is_idle<B>(device: SearchDevice<B>) -> bool {
    !device.fault && device.recorded.len() == 0
}

/// A command that is recorded.
pub open spec fn is_recorded<B>(step: SearchStep<B>) -> bool {
    !(step is Create) && !(step is Upload) && !(step is Run)
}

/// One more command.
pub proof fn lemma_performed_next<B>(
    kernels: Kernels<B>,
    device: SearchDevice<B>,
    steps: Seq<SearchStep<B>>,
    n: nat,
)
    ensures
        performed_all(kernels, device, steps, n + 1) == performed(
            kernels,
            performed_all(kernels, device, steps, n),
            steps[n as int],
        ),
{
}

/// One more piece of submitted work.
pub proof fn lemma_worked_next<B>(
    kernels: Kernels<B>,
    state: Working<B>,
    work: Seq<SearchStep<B>>,
    n: nat,
)
    ensures
        worked_all(kernels, state, work, n + 1) == worked(
            kernels,
            worked_all(kernels, state, work, n),
            work[n as int],
        ),
{
}

/// Commands that are recorded wait.
pub proof fn lemma_recorded<B>(
    kernels: Kernels<B>,
    device: SearchDevice<B>,
    steps: Seq<SearchStep<B>>,
    from: nat,
    to: nat,
)
    requires
        from <= to <= steps.len(),
        forall|i: int| from <= i < to ==> is_recorded(#[trigger] steps[i]),
    ensures
        performed_all(kernels, device, steps, to) == (SearchDevice {
            recorded: performed_all(kernels, device, steps, from).recorded + steps.subrange(
                from as int,
                to as int,
            ),
            ..performed_all(kernels, device, steps, from)
        }),
    decreases to,
{
    let first = performed_all(kernels, device, steps, from);
    if from == to {
        assert(first.recorded + steps.subrange(from as int, to as int) =~= first.recorded);
    } else {
        lemma_recorded(kernels, device, steps, from, (to - 1) as nat);
        assert(is_recorded(steps[to - 1]));
        assert((first.recorded + steps.subrange(from as int, to - 1)).push(steps[to - 1])
            =~= first.recorded + steps.subrange(from as int, to as int));
    }
}

/// A whole buffer is written from the host.
pub proof fn lemma_upload_whole<B>(
    kernels: Kernels<B>,
    device: SearchDevice<B>,
    buffer: B,
    words: Seq<u32>,
)
    requires
        has_buffer(device, buffer, words.len()),
    ensures
        performed(kernels, device, SearchStep::Upload { buffer, words }) == (SearchDevice {
            memory: device.memory.insert(buffer, words),
            ..device
        }),
{
    assert(overwrite(device.memory[buffer], 0, words) =~= words);
}

/// A whole buffer is copied.
pub proof fn lemma_copy_whole<B>(
    kernels: Kernels<B>,
    state: Working<B>,
    source: B,
    target: B,
    bytes: nat,
)
    requires
        state.memory.contains_key(source),
        state.memory.contains_key(target),
        !state.unsettled.contains(source),
        words_of(bytes) == state.memory[source].len(),
        words_of(bytes) == state.memory[target].len(),
    ensures
        worked(kernels, state, SearchStep::Copy { source, target, bytes }) == (Working {
            memory: state.memory.insert(target, state.memory[source]),
            unsettled: state.unsettled.insert(target),
            ..state
        }),
{
    let all = state.memory[source];
    assert(all.take(words_of(bytes) as int) =~= all);
    assert(overwrite(state.memory[target], 0, all) =~= all);
}

/// The submitted work of a device without fault.
pub proof fn lemma_run<B>(kernels: Kernels<B>, device: SearchDevice<B>)
    ensures
        performed(kernels, device, SearchStep::Run).memory == worked_all(
            kernels,
            Working {
                memory: device.memory,
                unsettled: Set::empty(),
                bound: None,
                fault: device.fault,
            },
            device.recorded,
            device.recorded.len(),
        ).memory,
        performed(kernels, device, SearchStep::Run).fault == worked_all(
            kernels,
            Working {
                memory: device.memory,
                unsettled: Set::empty(),
                bound: None,
                fault: device.fault,
            },
            device.recorded,
            device.recorded.len(),
        ).fault,
{
}

/// No other slot has the same buffer.
pub open spec fn is_only_place<B>(storage: Seq<B>, i: int) -> bool {
    forall|j: int| 0 <= j < storage.len() && #[trigger] storage[j] == storage[i] ==> j == i
}

/// A shader runs on settled buffers.
pub proof fn lemma_dispatch<B>(
    kernels: Kernels<B>,
    state: Working<B>,
    kernel: Kernel,
    storage: Seq<B>,
    x: nat,
    y: nat,
)
    requires
        state.bound == Some((kernel, storage)),
        forall|i: int|
            0 <= i < storage.len() ==> state.memory.contains_key(#[trigger] storage[i])
                && !state.unsettled.contains(storage[i]),
    ensures
        ({
            let output = kernels(kernel, contents(state.memory, storage), state.memory, x, y);
            let after = worked(kernels, state, SearchStep::Dispatch { x, y });
            &&& after.fault == state.fault
            &&& forall|buffer: B|
                #![trigger after.memory.contains_key(buffer)]
                after.memory.contains_key(buffer) == state.memory.contains_key(buffer)
            &&& forall|i: int|
                #![trigger storage[i]]
                0 <= i < storage.len() && is_only_place(storage, i) ==> after.memory[storage[i]]
                    == output[i]
            &&& forall|buffer: B|
                !storage.contains(buffer) && state.memory.contains_key(buffer)
                    ==> #[trigger] after.memory[buffer] == state.memory[buffer]
            &&& forall|buffer: B|
                !storage.contains(buffer) ==> #[trigger] after.unsettled.contains(buffer)
                    == state.unsettled.contains(buffer)
        }),
{
    let output = kernels(kernel, contents(state.memory, storage), state.memory, x, y);
    let after = worked(kernels, state, SearchStep::Dispatch { x, y });
    assert(after.memory == written(state.memory, storage, output));
    assert forall|i: int|
        #![trigger storage[i]]
        0 <= i < storage.len() && is_only_place(storage, i) implies after.memory[storage[i]]
        == output[i] by {
        assert(storage.contains(storage[i]));
        assert(storage.index_of(storage[i]) == i);
    }
}

/// All commands make buffers, and no buffer is made twice.
pub open spec fn only_creates<B>(steps: Seq<SearchStep<B>>) -> bool {
    &&& forall|i: int| 0 <= i < steps.len() ==> (#[trigger] steps[i]) is Create
    &&& forall|i: int, j: int|
        0 <= i < j < steps.len() ==> (#[trigger] steps[i])->Create_buffer != (
        #[trigger] steps[j])->Create_buffer
}

/// Every buffer that commands make is there afterwards, with the size that was asked for.
pub proof fn lemma_created<B>(
    kernels: Kernels<B>,
    device: SearchDevice<B>,
    steps: Seq<SearchStep<B>>,
    n: nat,
)
    requires
        only_creates(steps),
        n <= steps.len(),
    ensures
        ({
            let after = performed_all(kernels, device, steps, n);
            &&& after.fault == device.fault
            &&& after.recorded == device.recorded
            &&& forall|i: int|
                0 <= i < n ==> has_buffer(
                    after,
                    (#[trigger] steps[i])->Create_buffer,
                    words_of(steps[i]->Create_bytes),
                )
            &&& forall|buffer: B| #[trigger]
                device.memory.contains_key(buffer) ==> after.memory.contains_key(buffer)
        }),
    decreases n,
{
    if n > 0 {
        lemma_created(kernels, device, steps, (n - 1) as nat);
        let before = performed_all(kernels, device, steps, (n - 1) as nat);
        let after = performed_all(kernels, device, steps, n);
        assert(steps[n - 1] is Create);
        assert forall|i: int| 0 <= i < n implies has_buffer(
            after,
            (#[trigger] steps[i])->Create_buffer,
            words_of(steps[i]->Create_bytes),
        ) by {
            if i < n - 1 {
                assert(steps[i]->Create_buffer != steps[n - 1]->Create_buffer);
            }
        }
    }
}

} // verus!
