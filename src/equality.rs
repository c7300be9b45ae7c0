use vstd::prelude::*;

use crate::handle::values_equal;
use crate::heap::{cell_of, value_dyn, FrozenHeap, Heap};
use crate::value::{Field, Payload, Value, ValueError};
use crate::vtable::VTables;

verus! {

/// How many nested containers equality descends into before it gives up.
pub const MAX_EQUALS_DEPTH: usize = 100;

/// Equality of the values that `a` and `b` reference, following references
/// through the heaps: scalars and strings by value, lists element by
/// element, records field by field (names, then values), each nested level
/// using up one unit of `depth`. Reaching a missing cell or a tombstone is an
/// internal invariant violation.
pub open spec fn deep_equal(h: Seq<Payload>, f: Seq<Payload>, a: Value, b: Value, depth: nat) -> Result<bool, ValueError>
    decreases depth, 0int,
{
    match (cell_of(h, f, a), cell_of(h, f, b)) {
        (Some(x), Some(y)) => if x is Tombstone || y is Tombstone {
            Err(ValueError::Tombstone)
        } else {
            match (x, y) {
                (Payload::List(xs), Payload::List(ys)) => if xs@.len() != ys@.len() {
                    Ok(false)
                } else if depth == 0 {
                    Err(ValueError::TooDeep)
                } else {
                    elements_equal(h, f, xs@, ys@, 0, (depth - 1) as nat)
                },
                (Payload::Record(fs), Payload::Record(gs)) => if fs@.len() != gs@.len() {
                    Ok(false)
                } else if depth == 0 {
                    Err(ValueError::TooDeep)
                } else {
                    fields_equal(h, f, fs@, gs@, 0, (depth - 1) as nat)
                },
                _ => Ok(values_equal(x, y)),
            }
        },
        _ => Err(ValueError::Dangling),
    }
}

/// Elements `k..` of two lists of the same length compared in order: the
/// first that differs, or fails, decides.
pub open spec fn elements_equal(h: Seq<Payload>, f: Seq<Payload>, xs: Seq<Value>, ys: Seq<Value>, k: int, depth: nat) -> Result<bool, ValueError>
    decreases depth, xs.len() - k,
{
    if 0 <= k < xs.len() && k < ys.len() {
        match deep_equal(h, f, xs[k], ys[k], depth) {
            Ok(true) => elements_equal(h, f, xs, ys, k + 1, depth),
            other => other,
        }
    } else {
        Ok(true)
    }
}

/// Fields `k..` of two records of the same length compared in order: names
/// first, then values.
pub open spec fn fields_equal(h: Seq<Payload>, f: Seq<Payload>, fs: Seq<Field>, gs: Seq<Field>, k: int, depth: nat) -> Result<bool, ValueError>
    decreases depth, fs.len() - k,
{
    if 0 <= k < fs.len() && k < gs.len() {
        if fs[k].name@ != gs[k].name@ {
            Ok(false)
        } else {
            match deep_equal(h, f, fs[k].value, gs[k].value, depth) {
                Ok(true) => fields_equal(h, f, fs, gs, k + 1, depth),
                other => other,
            }
        }
    } else {
        Ok(true)
    }
}

fn equals_to_depth(heap: &Heap, frozen: &FrozenHeap, tables: &VTables, a: Value, b: Value, depth: usize) -> (r: Result<bool, ValueError>)
    requires
        tables.wf(),
    ensures
        r == deep_equal(heap.cells@, frozen.cells@, a, b, depth as nat),
    decreases depth,
{
    let ghost h = heap.cells@;
    let ghost f = frozen.cells@;
    let x = match value_dyn(heap, frozen, tables, a) {
        Ok(x) => x,
        Err(e) => { return Err(e); },
    };
    let y = match value_dyn(heap, frozen, tables, b) {
        Ok(y) => y,
        Err(e) => { return Err(e); },
    };
    match (x.value, y.value) {
        (Payload::Tombstone(_), _) => Err(ValueError::Tombstone),
        (_, Payload::Tombstone(_)) => Err(ValueError::Tombstone),
        (Payload::List(xs), Payload::List(ys)) => {
            if xs.len() != ys.len() {
                return Ok(false);
            }
            if depth == 0 {
                return Err(ValueError::TooDeep);
            }
            let d = depth - 1;
            let mut k: usize = 0;
            while k < xs.len()
                invariant
                    tables.wf(),
                    xs@.len() == ys@.len(),
                    k <= xs@.len(),
                    h == heap.cells@,
                    f == frozen.cells@,
                    d + 1 == depth,
                    cell_of(h, f, a) == Some(*x.value),
                    cell_of(h, f, b) == Some(*y.value),
                    *x.value == Payload::List(*xs),
                    *y.value == Payload::List(*ys),
                    elements_equal(h, f, xs@, ys@, 0, d as nat) == elements_equal(h, f, xs@, ys@, k as int, d as nat),
                decreases xs@.len() - k,
            {
                match equals_to_depth(heap, frozen, tables, xs[k], ys[k], d) {
                    Ok(true) => {},
                    other => { return other; },
                }
                k = k + 1;
            }
            Ok(true)
        },
        (Payload::Record(fs), Payload::Record(gs)) => {
            if fs.len() != gs.len() {
                return Ok(false);
            }
            if depth == 0 {
                return Err(ValueError::TooDeep);
            }
            let d = depth - 1;
            let mut k: usize = 0;
            while k < fs.len()
                invariant
                    tables.wf(),
                    fs@.len() == gs@.len(),
                    k <= fs@.len(),
                    h == heap.cells@,
                    f == frozen.cells@,
                    d + 1 == depth,
                    cell_of(h, f, a) == Some(*x.value),
                    cell_of(h, f, b) == Some(*y.value),
                    *x.value == Payload::Record(*fs),
                    *y.value == Payload::Record(*gs),
                    fields_equal(h, f, fs@, gs@, 0, d as nat) == fields_equal(h, f, fs@, gs@, k as int, d as nat),
                decreases fs@.len() - k,
            {
                if !(fs[k].name == gs[k].name) {
                    return Ok(false);
                }
                match equals_to_depth(heap, frozen, tables, fs[k].value, gs[k].value, d) {
                    Ok(true) => {},
                    other => { return other; },
                }
                k = k + 1;
            }
            Ok(true)
        },
        _ => x.equals(y),
    }
}

/// Equality of the values that `a` and `b` reference, in the scripting
/// language's sense (see `deep_equal`), descending at most
/// `MAX_EQUALS_DEPTH` levels of containers.
pub fn equals(heap: &Heap, frozen: &FrozenHeap, tables: &VTables, a: Value, b: Value) -> (r: Result<bool, ValueError>)
    requires
        tables.wf(),
    ensures
        r == deep_equal(heap.cells@, frozen.cells@, a, b, MAX_EQUALS_DEPTH as nat),
{
    equals_to_depth(heap, frozen, tables, a, b, MAX_EQUALS_DEPTH)
}

} // verus!
