use vstd::prelude::*;

use crate::equality::deep_equal;
use crate::handle::{hash_of, values_equal};
use crate::header::HEADER_SIZE;
use crate::heap::{cell_of, refs_of};
use crate::migrate::{map_extends, migrated, moved_ref};
use crate::value::{fits, memory_size, total_memory, Payload, Value, ValueError};
use crate::vtable::{type_id_of, TypeKind};

verus! {

/// Type identifiers are unique: two kinds share an identifier exactly when
/// they are the same kind, so a downcast by identifier succeeds exactly for
/// the handle's own type.
pub proof fn type_ids_unique(a: TypeKind, b: TypeKind)
    ensures
        (type_id_of(a) == type_id_of(b)) == (a == b),
{
}

/// Equal values hash alike: where two values are equal, both are hashable
/// with the same hash, or neither is.
pub proof fn equal_values_hash_alike(a: Payload, b: Payload)
    requires
        values_equal(a, b),
    ensures
        hash_of(a) == hash_of(b),
{
}

/// The same holds of the language's equality through the heaps: values
/// found equal hash alike, or are both unhashable.
pub proof fn deep_equal_values_hash_alike(h: Seq<Payload>, f: Seq<Payload>, a: Value, b: Value, depth: nat)
    requires
        deep_equal(h, f, a, b, depth) == Ok::<bool, ValueError>(true),
    ensures
        cell_of(h, f, a) is Some && cell_of(h, f, b) is Some,
        hash_of(cell_of(h, f, a)->Some_0) == hash_of(cell_of(h, f, b)->Some_0),
{
    let x = cell_of(h, f, a)->Some_0;
    let y = cell_of(h, f, b)->Some_0;
    if !(x is List || x is Record) {
        equal_values_hash_alike(x, y);
    }
}

/// Once a cell has been migrated, it stays mapped to the same target cell
/// through every later call on the same freezer or tracer, so two references
/// to one cell migrate to one and the same target cell.
pub proof fn migration_keeps_aliasing(
    before: Seq<Option<usize>>,
    after: Seq<Option<usize>>,
    cell: int,
    target: usize,
)
    requires
        map_extends(before, after),
        0 <= cell < before.len(),
        before[cell] == Some(target),
    ensures
        after[cell] == Some(target),
{
}

/// A migrated cell keeps the shape of the reference graph: its `k`-th
/// reference leads to where the source's `k`-th reference was migrated, so
/// a cycle among source cells is the same cycle among their targets.
pub proof fn migration_keeps_references(
    src: Payload,
    dst: Payload,
    map: Seq<Option<usize>>,
    to_frozen: bool,
    k: int,
)
    requires
        migrated(src, dst, map, to_frozen),
        0 <= k < refs_of(src).len(),
    ensures
        refs_of(dst).len() == refs_of(src).len(),
        refs_of(dst)[k] == moved_ref(refs_of(src)[k], map, to_frozen),
{
    match src {
        Payload::Record(fs) => {
            assert(refs_of(dst)[k] == dst->Record_0@[k].value);
        },
        _ => {},
    }
}

/// The tombstone written over a migrated cell reports the size of the
/// payload it replaced.
pub proof fn tombstone_keeps_size(p: Payload)
    requires
        fits(p),
    ensures
        memory_size(Payload::Tombstone(memory_size(p) as usize)) == memory_size(p),
{
}

/// Total memory is the header, the payload and its outside allocations, and
/// is never below the header size.
pub proof fn total_memory_covers_header(p: Payload)
    ensures
        total_memory(p) >= HEADER_SIZE,
        total_memory(p) == HEADER_SIZE + memory_size(p) + crate::value::extra_memory(p),
{
}

} // verus!
