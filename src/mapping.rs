//! The per-invocation side of the mapping host: trigger contexts that stage
//! entity operations, the all-or-nothing commit of an invocation, the fuel
//! budget and the interface-version check made before any handler runs.
use vstd::prelude::*;
use std::sync::Arc;
use crate::asc_abi::{AbiValue, GuestMemory, Trap};

verus! {

/// The block that a trigger belongs to.
#[derive(Debug, PartialEq, Eq)]
pub struct EthereumBlock {
    pub number: u64,
    pub hash: Vec<u8>,
}

/// One attribute of an entity.
#[derive(Debug, PartialEq, Eq)]
pub struct EntityField {
    pub name: String,
    pub value: AbiValue,
}

/// A staged instruction against the entity store.
#[derive(Debug, PartialEq, Eq)]
pub enum EntityOperation {
    SetEntity { entity_type: String, entity_id: String, data: Vec<EntityField> },
    RemoveEntity { entity_type: String, entity_id: String },
}

/// The scope of one handler invocation: a shared block and the operations
/// staged so far.
#[derive(Debug)]
pub struct MappingContext {
    block: Arc<EthereumBlock>,
    entity_operations: Vec<EntityOperation>,
}

impl MappingContext {
    /// The block the invocation runs against.
    pub closed spec fn block(&self) -> Arc<EthereumBlock> {
        self.block
    }

    /// The operations staged so far, oldest first.
    pub closed spec fn operations(&self) -> Seq<EntityOperation> {
        self.entity_operations@
    }

    /// A context for `block` with nothing staged.
    pub fn new(block: Arc<EthereumBlock>) -> (r: Self)
        ensures
            r.block() == block,
            r.operations() == Seq::<EntityOperation>::empty(),
    {
        MappingContext { block, entity_operations: Vec::new() }
    }

    /// A context for a new invocation on the same block. Its accumulator
    /// starts empty: staged operations never carry over between invocations.
    pub fn fresh(&self) -> (r: Self)
        ensures
            r.block() == self.block(),
            r.operations() == Seq::<EntityOperation>::empty(),
    {
        MappingContext { block: Arc::clone(&self.block), entity_operations: Vec::new() }
    }

    /// The shared block.
    pub fn block_ref(&self) -> (r: &Arc<EthereumBlock>)
        ensures
            *r == self.block(),
    {
        &self.block
    }

    /// The operations staged so far.
    pub fn staged(&self) -> (r: &Vec<EntityOperation>)
        ensures
            r@ == self.operations(),
    {
        &self.entity_operations
    }

    /// Stages setting entity `entity_id` of type `entity_type` to `data`.
    pub fn entity_set(&mut self, entity_type: String, entity_id: String, data: Vec<EntityField>)
        ensures
            final(self).block() == old(self).block(),
            final(self).operations() == old(self).operations().push(
                EntityOperation::SetEntity { entity_type, entity_id, data },
            ),
    {
        self.entity_operations.push(EntityOperation::SetEntity { entity_type, entity_id, data });
    }

    /// Stages removing entity `entity_id` of type `entity_type`.
    pub fn entity_remove(&mut self, entity_type: String, entity_id: String)
        ensures
            final(self).block() == old(self).block(),
            final(self).operations() == old(self).operations().push(
                EntityOperation::RemoveEntity { entity_type, entity_id },
            ),
    {
        self.entity_operations.push(EntityOperation::RemoveEntity { entity_type, entity_id });
    }
}

/// What reaches the store's batch after an invocation that staged `staged`
/// ended with `outcome`.
pub open spec fn committed(
    batch: Seq<EntityOperation>,
    staged: Seq<EntityOperation>,
    outcome: Result<(), Trap>,
) -> Seq<EntityOperation> {
    match outcome {
        Ok(_) => batch + staged,
        Err(_) => batch,
    }
}

/// Ends a handler invocation: on success the staged operations join
/// `batch`, in order; on a trap they are discarded wholesale and the trap
/// is returned.
pub fn commit_invocation(
    batch: &mut Vec<EntityOperation>,
    ctx: MappingContext,
    outcome: Result<(), Trap>,
) -> (r: Result<(), Trap>)
    ensures
        final(batch)@ == committed(old(batch)@, ctx.operations(), outcome),
        r == outcome,
{
    if outcome.is_ok() {
        let mut ops = ctx.entity_operations;
        batch.append(&mut ops);
    }
    outcome
}

/// A trapped invocation commits nothing, however many operations it
/// staged; one that succeeds commits all of them, in order, after what was
/// already there.
pub proof fn lemma_trap_commits_nothing(
    batch: Seq<EntityOperation>,
    staged: Seq<EntityOperation>,
    trap: Trap,
)
    ensures
        committed(batch, staged, Err(trap)) == batch,
        committed(batch, staged, Ok(())).subrange(0, batch.len() as int) == batch,
        committed(batch, staged, Ok(())).subrange(batch.len() as int, (batch.len() + staged.len()) as int)
            == staged,
{
    assert(committed(batch, staged, Ok(())).subrange(0, batch.len() as int) =~= batch);
    assert(committed(batch, staged, Ok(())).subrange(batch.len() as int, (batch.len() + staged.len()) as int)
        =~= staged);
}

/// Maps the failure of a host export to the trap that ends the invocation.
pub fn export_result<T>(r: Result<T, String>) -> (out: Result<T, Trap>)
    ensures
        match r {
            Ok(v) => out == Ok::<T, Trap>(v),
            Err(msg) => out == Err::<T, Trap>(Trap::HostExportFailure(msg)),
        },
{
    match r {
        Ok(v) => Ok(v),
        Err(msg) => Err(Trap::HostExportFailure(msg)),
    }
}

/// Spends `cost` units of the invocation's fuel; fails with `OutOfResource`
/// when less than that is left, and then spends nothing.
pub fn charge_fuel(remaining: &mut u64, cost: u64) -> (r: Result<(), Trap>)
    ensures
        cost <= *old(remaining) ==> r is Ok && *final(remaining) == *old(remaining) - cost,
        cost > *old(remaining) ==> r == Err::<(), Trap>(Trap::OutOfResource) && *final(remaining)
            == *old(remaining),
{
    if cost <= *remaining {
        *remaining = *remaining - cost;
        Ok(())
    } else {
        Err(Trap::OutOfResource)
    }
}

/// A semantic version of the host-export interface.
#[derive(Debug, Clone, Copy, PartialEq, Eq, Structural)]
pub struct AbiVersion {
    pub major: u64,
    pub minor: u64,
    pub patch: u64,
}

/// Whether a module built for `module` runs on a host that offers `host`,
/// by the caret rule: the same major version (before 1.0 the same minor
/// version, and before 0.1 the same patch version), and the host no older
/// than the module.
pub open spec fn abi_compatible(module: AbiVersion, host: AbiVersion) -> bool {
    &&& module.major == host.major
    &&& (module.major == 0 ==> module.minor == host.minor)
    &&& (module.major == 0 && module.minor == 0 ==> module.patch == host.patch)
    &&& (module.minor < host.minor || (module.minor == host.minor && module.patch <= host.patch))
}

/// Rejects a module whose interface version the host does not offer,
/// before any of its handlers run.
pub fn check_abi_version(module: AbiVersion, host: AbiVersion) -> (r: Result<(), Trap>)
    ensures
        abi_compatible(module, host) ==> r is Ok,
        !abi_compatible(module, host) ==> r == Err::<(), Trap>(Trap::AbiVersionMismatch),
{
    if module.major != host.major {
        Err(Trap::AbiVersionMismatch)
    } else if module.major == 0 && module.minor != host.minor {
        Err(Trap::AbiVersionMismatch)
    } else if module.major == 0 && module.minor == 0 && module.patch != host.patch {
        Err(Trap::AbiVersionMismatch)
    } else if module.minor < host.minor || (module.minor == host.minor && module.patch
        <= host.patch) {
        Ok(())
    } else {
        Err(Trap::AbiVersionMismatch)
    }
}

/// A mapping module admitted to run, with its guest memory. It exists only
/// for a module whose interface version the host offers, so no handler of
/// an incompatible module ever runs.
#[derive(Debug)]
pub struct MappingHost {
    module_version: AbiVersion,
    host_version: AbiVersion,
    memory: GuestMemory,
}

impl MappingHost {
    pub closed spec fn wf(&self) -> bool {
        abi_compatible(self.module_version, self.host_version) && self.memory.wf()
    }

    /// The guest memory.
    pub closed spec fn memory_view(&self) -> Seq<u8> {
        self.memory@
    }

    /// Admits a module built for `module_version` on a host that offers
    /// `host_version`; fails with `AbiVersionMismatch` before anything runs
    /// when the versions are incompatible.
    pub fn instantiate(module_version: AbiVersion, host_version: AbiVersion, memory: GuestMemory) -> (r:
        Result<Self, Trap>)
        requires
            memory.wf(),
        ensures
            abi_compatible(module_version, host_version) ==> r is Ok && r->Ok_0.wf()
                && r->Ok_0.memory_view() == memory@,
            !abi_compatible(module_version, host_version) ==> r == Err::<Self, Trap>(
                Trap::AbiVersionMismatch,
            ),
    {
        match check_abi_version(module_version, host_version) {
            Ok(()) => Ok(MappingHost { module_version, host_version, memory }),
            Err(t) => Err(t),
        }
    }

    /// The guest memory, for decoding arguments and results.
    pub fn memory(&self) -> (r: &GuestMemory)
        requires
            self.wf(),
        ensures
            r@ == self.memory_view(),
            r.wf(),
    {
        &self.memory
    }

    /// Gives the guest memory back, ending the instance.
    pub fn into_memory(self) -> (r: GuestMemory)
        ensures
            r@ == self.memory_view(),
    {
        self.memory
    }

    /// The context of a new handler invocation on `block`: nothing staged.
    pub fn begin_invocation(&self, block: Arc<EthereumBlock>) -> (r: MappingContext)
        requires
            self.wf(),
        ensures
            r.block() == block,
            r.operations() == Seq::<EntityOperation>::empty(),
    {
        MappingContext::new(block)
    }
}

} // verus!
