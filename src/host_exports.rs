//! Functions that guest code calls. Each reads its arguments out of guest
//! memory through the bounds-checked decoder and writes results back
//! through the encoder; none touches guest memory otherwise.
use vstd::prelude::*;
use crate::asc_abi::{decoded, encoding, AbiValue, GuestMemory, Trap, ValueModel, MAX_MEMORY};
use crate::mapping::{EntityField, EntityOperation, MappingContext};

verus! {

/// The Keccak-256 digest of `data`.
pub uninterp spec fn keccak256_of(data: Seq<u8>) -> Seq<u8>;

/// Relies on `tiny_keccak::keccak256`: the Keccak-256 digest of the input,
/// which is 32 bytes long.
#[verifier::external_body]
fn keccak256(data: &Vec<u8>) -> (r: Vec<u8>)
    ensures
        r@ == keccak256_of(data@),
        r@.len() == 32,
{
    tiny_keccak::keccak256(data.as_slice()).to_vec()
}

/// Memory `after` and result `r` are what appending `v` to memory `before`
/// gives: its offset and the grown memory, or `OutOfResource` and no change.
pub open spec fn appended(before: Seq<u8>, v: ValueModel, r: Result<u32, Trap>, after: Seq<u8>) -> bool {
    if before.len() + encoding(v).len() <= MAX_MEMORY {
        r == Ok::<u32, Trap>(before.len() as u32) && after == before + encoding(v)
    } else {
        r == Err::<u32, Trap>(Trap::OutOfResource) && after == before
    }
}

/// The `hash` export: reads the byte array at `ptr`, writes its Keccak-256
/// digest to guest memory as a byte array and returns the digest's offset.
/// A value at `ptr` that is not a byte array is a guest fault.
pub fn crypto_keccak_256(mem: &mut GuestMemory, ptr: u32) -> (r: Result<u32, Trap>)
    requires
        old(mem).wf(),
    ensures
        final(mem).wf(),
        match decoded(old(mem)@, ptr as int) {
            Ok(ValueModel::Bytes(b)) => appended(
                old(mem)@,
                ValueModel::Bytes(keccak256_of(b)),
                r,
                final(mem)@,
            ),
            Ok(_) => r == Err::<u32, Trap>(Trap::GuestFault) && final(mem)@ == old(mem)@,
            Err(t) => r == Err::<u32, Trap>(t) && final(mem)@ == old(mem)@,
        },
{
    match mem.decode(ptr) {
        Ok(AbiValue::Bytes(input)) => {
            let digest = keccak256(&input);
            mem.encode(&AbiValue::Bytes(digest))
        },
        Ok(_) => Err(Trap::GuestFault),
        Err(t) => Err(t),
    }
}

/// The text at offset `p` of `m`; any other value is a guest fault.
pub open spec fn text_at(m: Seq<u8>, p: int) -> Result<Seq<char>, Trap> {
    match decoded(m, p) {
        Ok(ValueModel::Str(t)) => Ok(t),
        Ok(_) => Err(Trap::GuestFault),
        Err(t) => Err(t),
    }
}

/// The first `k` entity fields named by `ptrs`, which alternates the
/// offsets of a field's name and of its value; the first failure wins.
pub open spec fn fields_upto(m: Seq<u8>, ptrs: Seq<u32>, k: nat) -> Result<
    Seq<(Seq<char>, ValueModel)>,
    Trap,
>
    decreases k,
{
    if k == 0 {
        Ok(Seq::empty())
    } else {
        match fields_upto(m, ptrs, (k - 1) as nat) {
            Err(t) => Err(t),
            Ok(fs) => match text_at(m, ptrs[2 * (k - 1)] as int) {
                Err(t) => Err(t),
                Ok(name) => match decoded(m, ptrs[2 * (k - 1) + 1] as int) {
                    Err(t) => Err(t),
                    Ok(v) => Ok(fs.push((name, v))),
                },
            },
        }
    }
}

/// The entity data at offset `p` of `m`: an array of an even number of
/// offsets, read pair by pair.
pub open spec fn fields_at(m: Seq<u8>, p: int) -> Result<Seq<(Seq<char>, ValueModel)>, Trap> {
    match decoded(m, p) {
        Ok(ValueModel::Array(ptrs)) => if ptrs.len() % 2 == 0 {
            fields_upto(m, ptrs, ptrs.len() / 2)
        } else {
            Err(Trap::GuestFault)
        },
        Ok(_) => Err(Trap::GuestFault),
        Err(t) => Err(t),
    }
}

/// The names and values of `fs`.
pub open spec fn fields_view(fs: Seq<EntityField>) -> Seq<(Seq<char>, ValueModel)> {
    fs.map_values(|f: EntityField| (f.name@, f.value@))
}

/// `op` removes entity `id` of type `ty`.
pub open spec fn removes(op: EntityOperation, ty: Seq<char>, id: Seq<char>) -> bool {
    match op {
        EntityOperation::RemoveEntity { entity_type, entity_id } => entity_type@ == ty
            && entity_id@ == id,
        _ => false,
    }
}

/// `op` sets entity `id` of type `ty` to the fields `fs`.
pub open spec fn sets(
    op: EntityOperation,
    ty: Seq<char>,
    id: Seq<char>,
    fs: Seq<(Seq<char>, ValueModel)>,
) -> bool {
    match op {
        EntityOperation::SetEntity { entity_type, entity_id, data } => entity_type@ == ty
            && entity_id@ == id && fields_view(data@) == fs,
        _ => false,
    }
}

proof fn lemma_fields_error_persists(m: Seq<u8>, ptrs: Seq<u32>, k: nat, n: nat, t: Trap)
    requires
        k <= n,
        fields_upto(m, ptrs, k) == Err::<Seq<(Seq<char>, ValueModel)>, Trap>(t),
    ensures
        fields_upto(m, ptrs, n) == Err::<Seq<(Seq<char>, ValueModel)>, Trap>(t),
    decreases n - k,
{
    if k < n {
        lemma_fields_error_persists(m, ptrs, k + 1, n, t);
    }
}

fn decode_text(mem: &GuestMemory, ptr: u32) -> (r: Result<String, Trap>)
    requires
        mem.wf(),
    ensures
        match r {
            Ok(s) => text_at(mem@, ptr as int) == Ok::<Seq<char>, Trap>(s@),
            Err(t) => text_at(mem@, ptr as int) == Err::<Seq<char>, Trap>(t),
        },
{
    match mem.decode(ptr) {
        Ok(AbiValue::Str(s)) => Ok(s),
        Ok(_) => Err(Trap::GuestFault),
        Err(t) => Err(t),
    }
}

fn decode_fields(mem: &GuestMemory, ptr: u32) -> (r: Result<Vec<EntityField>, Trap>)
    requires
        mem.wf(),
    ensures
        match r {
            Ok(fs) => fields_at(mem@, ptr as int) == Ok::<_, Trap>(fields_view(fs@)),
            Err(t) => fields_at(mem@, ptr as int) == Err::<Seq<(Seq<char>, ValueModel)>, Trap>(t),
        },
{
    let decoded_value = mem.decode(ptr);
    let ptrs = match decoded_value {
        Ok(AbiValue::Array(ptrs)) => ptrs,
        Ok(_) => {
            return Err(Trap::GuestFault);
        },
        Err(t) => {
            return Err(t);
        },
    };
    if ptrs.len() % 2 != 0 {
        return Err(Trap::GuestFault);
    }
    let ghost whole = fields_upto(mem@, ptrs@, (ptrs@.len() / 2) as nat);
    assert(fields_at(mem@, ptr as int) == whole);
    let n: usize = ptrs.len() / 2;
    let mut out: Vec<EntityField> = Vec::new();
    proof {
        assert(fields_view(out@) =~= Seq::<(Seq<char>, ValueModel)>::empty());
    }
    let mut i: usize = 0;
    while i < n
        invariant
            mem.wf(),
            n == ptrs@.len() / 2,
            ptrs@.len() == 2 * n,
            ptrs@.len() <= usize::MAX,
            ptrs@.len() % 2 == 0,
            i <= n,
            fields_upto(mem@, ptrs@, i as nat) == Ok::<_, Trap>(fields_view(out@)),
            fields_at(mem@, ptr as int) == whole,
            whole == fields_upto(mem@, ptrs@, n as nat),
        decreases n - i,
    {
        let name = match decode_text(mem, ptrs[2 * i]) {
            Ok(name) => name,
            Err(t) => {
                proof {
                    assert(fields_upto(mem@, ptrs@, (i + 1) as nat) == Err::<
                        Seq<(Seq<char>, ValueModel)>,
                        Trap,
                    >(t));
                    lemma_fields_error_persists(mem@, ptrs@, (i + 1) as nat, n as nat, t);
                }
                return Err(t);
            },
        };
        let value = match mem.decode(ptrs[2 * i + 1]) {
            Ok(v) => v,
            Err(t) => {
                proof {
                    assert(fields_upto(mem@, ptrs@, (i + 1) as nat) == Err::<
                        Seq<(Seq<char>, ValueModel)>,
                        Trap,
                    >(t));
                    lemma_fields_error_persists(mem@, ptrs@, (i + 1) as nat, n as nat, t);
                }
                return Err(t);
            },
        };
        let ghost before = out@;
        out.push(EntityField { name, value });
        proof {
            assert(fields_view(out@) =~= fields_view(before).push((name@, value@)));
        }
        i = i + 1;
    }
    Ok(out)
}

/// The store-remove export: stages removing the entity whose type and id
/// are the strings at `type_ptr` and `id_ptr`.
pub fn store_remove(ctx: &mut MappingContext, mem: &GuestMemory, type_ptr: u32, id_ptr: u32) -> (r:
    Result<(), Trap>)
    requires
        mem.wf(),
    ensures
        final(ctx).block() == old(ctx).block(),
        match (text_at(mem@, type_ptr as int), text_at(mem@, id_ptr as int)) {
            (Ok(ty), Ok(id)) => {
                &&& r is Ok
                &&& final(ctx).operations().len() == old(ctx).operations().len() + 1
                &&& final(ctx).operations().drop_last() == old(ctx).operations()
                &&& removes(final(ctx).operations().last(), ty, id)
            },
            (Err(t), _) => r == Err::<(), Trap>(t) && final(ctx).operations() == old(ctx).operations(),
            (Ok(_), Err(t)) => r == Err::<(), Trap>(t) && final(ctx).operations() == old(
                ctx,
            ).operations(),
        },
{
    let entity_type = decode_text(mem, type_ptr)?;
    let entity_id = decode_text(mem, id_ptr)?;
    ctx.entity_remove(entity_type, entity_id);
    proof {
        assert(ctx.operations().drop_last() =~= old(ctx).operations());
    }
    Ok(())
}

/// The store-set export: stages setting the entity whose type and id are
/// the strings at `type_ptr` and `id_ptr` to the fields at `data_ptr`.
pub fn store_set(
    ctx: &mut MappingContext,
    mem: &GuestMemory,
    type_ptr: u32,
    id_ptr: u32,
    data_ptr: u32,
) -> (r: Result<(), Trap>)
    requires
        mem.wf(),
    ensures
        final(ctx).block() == old(ctx).block(),
        match (
            text_at(mem@, type_ptr as int),
            text_at(mem@, id_ptr as int),
            fields_at(mem@, data_ptr as int),
        ) {
            (Ok(ty), Ok(id), Ok(fs)) => {
                &&& r is Ok
                &&& final(ctx).operations().len() == old(ctx).operations().len() + 1
                &&& final(ctx).operations().drop_last() == old(ctx).operations()
                &&& sets(final(ctx).operations().last(), ty, id, fs)
            },
            (Err(t), _, _) => r == Err::<(), Trap>(t) && final(ctx).operations() == old(
                ctx,
            ).operations(),
            (Ok(_), Err(t), _) => r == Err::<(), Trap>(t) && final(ctx).operations() == old(
                ctx,
            ).operations(),
            (Ok(_), Ok(_), Err(t)) => r == Err::<(), Trap>(t) && final(ctx).operations() == old(
                ctx,
            ).operations(),
        },
{
    let entity_type = decode_text(mem, type_ptr)?;
    let entity_id = decode_text(mem, id_ptr)?;
    let data = decode_fields(mem, data_ptr)?;
    ctx.entity_set(entity_type, entity_id, data);
    proof {
        assert(ctx.operations().drop_last() =~= old(ctx).operations());
    }
    Ok(())
}

/// The severity of a guest log message.
#[derive(Debug, Clone, Copy, PartialEq, Eq, Structural)]
pub enum LogLevel {
    Critical,
    Error,
    Warning,
    Info,
    Debug,
}

/// The level that guest code means by `n`, if any.
pub open spec fn level_of(n: u32) -> Option<LogLevel> {
    if n == 0 {
        Some(LogLevel::Critical)
    } else if n == 1 {
        Some(LogLevel::Error)
    } else if n == 2 {
        Some(LogLevel::Warning)
    } else if n == 3 {
        Some(LogLevel::Info)
    } else if n == 4 {
        Some(LogLevel::Debug)
    } else {
        None
    }
}

/// A message that guest code asked the host to log.
#[derive(Debug, PartialEq, Eq)]
pub struct LogRecord {
    pub level: LogLevel,
    pub message: String,
}

/// The `log` export: the record for a message of level `level` whose text
/// is at `message_ptr`. An unknown level is a guest fault.
pub fn log_message(mem: &GuestMemory, level: u32, message_ptr: u32) -> (r: Result<LogRecord, Trap>)
    requires
        mem.wf(),
    ensures
        level_of(level) is None ==> r == Err::<LogRecord, Trap>(Trap::GuestFault),
        level_of(level) is Some ==> match text_at(mem@, message_ptr as int) {
            Ok(text) => r is Ok && r->Ok_0.level == level_of(level)->0 && r->Ok_0.message@ == text,
            Err(t) => r == Err::<LogRecord, Trap>(t),
        },
{
    let lvl = if level == 0 {
        LogLevel::Critical
    } else if level == 1 {
        LogLevel::Error
    } else if level == 2 {
        LogLevel::Warning
    } else if level == 3 {
        LogLevel::Info
    } else if level == 4 {
        LogLevel::Debug
    } else {
        return Err(Trap::GuestFault);
    };
    let message = decode_text(mem, message_ptr)?;
    Ok(LogRecord { level: lvl, message })
}

} // verus!
