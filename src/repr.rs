use vstd::prelude::*;

use crate::handle::{cycle_repr, AValueDyn};
use crate::heap::{cell_of, value_dyn, FrozenHeap, Heap};
use crate::value::{Field, Payload, Value, ValueError};
use crate::vtable::VTables;

verus! {

/// How many nested containers a display descends into; deeper ones, as in
/// a cyclic value, show in their abbreviated form.
pub const MAX_REPR_DEPTH: usize = 100;

/// `text` in front of a result, or the error.
pub open spec fn prepend(text: Seq<char>, r: Result<Seq<char>, ValueError>) -> Result<Seq<char>, ValueError> {
    match r {
        Ok(t) => Ok(text + t),
        Err(e) => Err(e),
    }
}

/// A result followed by `text`, or the error.
pub open spec fn close(r: Result<Seq<char>, ValueError>, text: Seq<char>) -> Result<Seq<char>, ValueError> {
    match r {
        Ok(t) => Ok(t + text),
        Err(e) => Err(e),
    }
}

/// The separator before item `k` of a display.
pub open spec fn separator(k: int) -> Seq<char> {
    if k > 0 { ", "@ } else { Seq::empty() }
}

/// The display of the value `v` references: scalars as `cycle_repr` shows
/// them; a list as `[a, b]` and a record as `record(x=a, y=b)`, each
/// element shown the same way one level down; at depth 0 a container shows
/// abbreviated. Reaching a missing cell or a tombstone is an internal
/// invariant violation.
pub open spec fn repr_in(h: Seq<Payload>, f: Seq<Payload>, v: Value, depth: nat) -> Result<Seq<char>, ValueError>
    decreases depth, 0int,
{
    match cell_of(h, f, v) {
        Some(p) => match p {
            Payload::Tombstone(_) => Err(ValueError::Tombstone),
            Payload::List(xs) => if depth == 0 {
                Ok(cycle_repr(p))
            } else {
                prepend("["@, close(items_repr(h, f, xs@, 0, (depth - 1) as nat), "]"@))
            },
            Payload::Record(fs) => if depth == 0 {
                Ok(cycle_repr(p))
            } else {
                prepend("record("@, close(fields_repr(h, f, fs@, 0, (depth - 1) as nat), ")"@))
            },
            _ => Ok(cycle_repr(p)),
        },
        None => Err(ValueError::Dangling),
    }
}

/// Items `k..` of a list display, each after its separator.
pub open spec fn items_repr(h: Seq<Payload>, f: Seq<Payload>, xs: Seq<Value>, k: int, depth: nat) -> Result<Seq<char>, ValueError>
    decreases depth, xs.len() - k,
{
    if 0 <= k < xs.len() {
        match repr_in(h, f, xs[k], depth) {
            Ok(t) => prepend(separator(k) + t, items_repr(h, f, xs, k + 1, depth)),
            Err(e) => Err(e),
        }
    } else {
        Ok(Seq::empty())
    }
}

/// Fields `k..` of a record display, each as `name=value` after its
/// separator.
pub open spec fn fields_repr(h: Seq<Payload>, f: Seq<Payload>, fs: Seq<Field>, k: int, depth: nat) -> Result<Seq<char>, ValueError>
    decreases depth, fs.len() - k,
{
    if 0 <= k < fs.len() {
        match repr_in(h, f, fs[k].value, depth) {
            Ok(t) => prepend(separator(k) + fs[k].name@ + "="@ + t, fields_repr(h, f, fs, k + 1, depth)),
            Err(e) => Err(e),
        }
    } else {
        Ok(Seq::empty())
    }
}

proof fn lemma_prepend_twice(a: Seq<char>, b: Seq<char>, r: Result<Seq<char>, ValueError>)
    ensures
        prepend(a, prepend(b, r)) == prepend(a + b, r),
{
    if let Ok(t) = r {
        assert(a + (b + t) =~= (a + b) + t);
    }
}

proof fn lemma_prepend_close(a: Seq<char>, r: Result<Seq<char>, ValueError>, b: Seq<char>)
    ensures
        prepend(a, close(r, b)) == close(prepend(a, r), b),
{
    if let Ok(t) = r {
        assert(a + (t + b) =~= (a + t) + b);
    }
}

fn append_separator(out: &mut String, k: usize)
    ensures
        final(out)@ == old(out)@ + separator(k as int),
{
    if k > 0 {
        out.append(", ");
    } else {
        assert(old(out)@ + separator(k as int) =~= old(out)@);
    }
}

fn repr_to_depth(heap: &Heap, frozen: &FrozenHeap, tables: &VTables, v: Value, depth: usize, out: &mut String) -> (r: Result<(), ValueError>)
    requires
        tables.wf(),
    ensures
        match repr_in(heap.cells@, frozen.cells@, v, depth as nat) {
            Ok(t) => r is Ok && final(out)@ == old(out)@ + t,
            Err(e) => r == Err::<(), ValueError>(e),
        },
    decreases depth,
{
    let ghost h = heap.cells@;
    let ghost f = frozen.cells@;
    let x = match value_dyn(heap, frozen, tables, v) {
        Ok(x) => x,
        Err(e) => { return Err(e); },
    };
    match x.value {
        Payload::Tombstone(_) => Err(ValueError::Tombstone),
        Payload::List(xs) => {
            if depth == 0 {
                x.collect_repr_cycle(out);
                return Ok(());
            }
            let d = depth - 1;
            let ghost base = out@;
            out.append("[");
            assert(out@.subrange(base.len() as int, out@.len() as int) =~= "["@);
            assert(out@.subrange(0, base.len() as int) =~= base);
            let mut k: usize = 0;
            while k < xs.len()
                invariant
                    tables.wf(),
                    k <= xs@.len(),
                    h == heap.cells@,
                    f == frozen.cells@,
                    d + 1 == depth,
                    cell_of(h, f, v) == Some(*x.value),
                    *x.value == Payload::List(*xs),
                    out@.len() >= base.len(),
                    prepend("["@, items_repr(h, f, xs@, 0, d as nat)) == prepend(
                        out@.subrange(base.len() as int, out@.len() as int),
                        items_repr(h, f, xs@, k as int, d as nat),
                    ),
                    out@.subrange(0, base.len() as int) == base,
                decreases xs@.len() - k,
            {
                let ghost before = out@;
                append_separator(out, k);
                match repr_to_depth(heap, frozen, tables, xs[k], d, out) {
                    Ok(()) => {},
                    Err(e) => { return Err(e); },
                }
                proof {
                    let t = repr_in(h, f, xs@[k as int], d as nat)->Ok_0;
                    assert(out@ =~= before + separator(k as int) + t);
                    lemma_prepend_twice(before.subrange(base.len() as int, before.len() as int), separator(k as int) + t, items_repr(h, f, xs@, k as int + 1, d as nat));
                    assert(out@.subrange(base.len() as int, out@.len() as int) =~= before.subrange(base.len() as int, before.len() as int) + (separator(k as int) + t));
                    assert(out@.subrange(0, base.len() as int) =~= before.subrange(0, base.len() as int));
                }
                k = k + 1;
            }
            let ghost body = out@.subrange(base.len() as int, out@.len() as int);
            out.append("]");
            proof {
                lemma_prepend_close("["@, items_repr(h, f, xs@, 0, d as nat), "]"@);
                assert(items_repr(h, f, xs@, xs@.len() as int, d as nat) == Ok::<Seq<char>, ValueError>(Seq::empty()));
                assert(body + Seq::<char>::empty() =~= body);
                assert(out@ =~= base + (body + "]"@));
            }
            Ok(())
        },
        Payload::Record(fs) => {
            if depth == 0 {
                x.collect_repr_cycle(out);
                return Ok(());
            }
            let d = depth - 1;
            let ghost base = out@;
            out.append("record(");
            assert(out@.subrange(base.len() as int, out@.len() as int) =~= "record("@);
            assert(out@.subrange(0, base.len() as int) =~= base);
            let mut k: usize = 0;
            while k < fs.len()
                invariant
                    tables.wf(),
                    k <= fs@.len(),
                    h == heap.cells@,
                    f == frozen.cells@,
                    d + 1 == depth,
                    cell_of(h, f, v) == Some(*x.value),
                    *x.value == Payload::Record(*fs),
                    out@.len() >= base.len(),
                    prepend("record("@, fields_repr(h, f, fs@, 0, d as nat)) == prepend(
                        out@.subrange(base.len() as int, out@.len() as int),
                        fields_repr(h, f, fs@, k as int, d as nat),
                    ),
                    out@.subrange(0, base.len() as int) == base,
                decreases fs@.len() - k,
            {
                let ghost before = out@;
                append_separator(out, k);
                out.append(fs[k].name.as_str());
                out.append("=");
                match repr_to_depth(heap, frozen, tables, fs[k].value, d, out) {
                    Ok(()) => {},
                    Err(e) => { return Err(e); },
                }
                proof {
                    let pre = separator(k as int) + fs@[k as int].name@ + "="@;
                    let t = repr_in(h, f, fs@[k as int].value, d as nat)->Ok_0;
                    assert(out@ =~= before + pre + t);
                    lemma_prepend_twice(before.subrange(base.len() as int, before.len() as int), pre + t, fields_repr(h, f, fs@, k as int + 1, d as nat));
                    assert(out@.subrange(base.len() as int, out@.len() as int) =~= before.subrange(base.len() as int, before.len() as int) + (pre + t));
                    assert(out@.subrange(0, base.len() as int) =~= before.subrange(0, base.len() as int));
                }
                k = k + 1;
            }
            let ghost body = out@.subrange(base.len() as int, out@.len() as int);
            out.append(")");
            proof {
                lemma_prepend_close("record("@, fields_repr(h, f, fs@, 0, d as nat), ")"@);
                assert(fields_repr(h, f, fs@, fs@.len() as int, d as nat) == Ok::<Seq<char>, ValueError>(Seq::empty()));
                assert(body + Seq::<char>::empty() =~= body);
                assert(out@ =~= base + (body + ")"@));
            }
            Ok(())
        },
        _ => {
            x.collect_repr_cycle(out);
            Ok(())
        },
    }
}

/// Appends the display of the value `v` references (see `repr_in`),
/// descending at most `MAX_REPR_DEPTH` levels of containers. On an error
/// the collector may hold part of the display.
pub fn collect_repr(heap: &Heap, frozen: &FrozenHeap, tables: &VTables, v: Value, collector: &mut String) -> (r: Result<(), ValueError>)
    requires
        tables.wf(),
    ensures
        match repr_in(heap.cells@, frozen.cells@, v, MAX_REPR_DEPTH as nat) {
            Ok(t) => r is Ok && final(collector)@ == old(collector)@ + t,
            Err(e) => r == Err::<(), ValueError>(e),
        },
{
    repr_to_depth(heap, frozen, tables, v, MAX_REPR_DEPTH, collector)
}

} // verus!
