use vstd::prelude::*;

use crate::handle::{find_field, first_field, values_equal, AValueDyn};
use crate::vtable::VTables;
use crate::value::{fits, str_bytes, Field, Payload, Value, ValueError};

verus! {

/// The references a payload holds to other cells.
pub open spec fn refs_of(p: Payload) -> Seq<Value> {
    match p {
        Payload::List(xs) => xs@,
        Payload::Record(fs) => fs@.map_values(|f: Field| f.value),
        _ => Seq::empty(),
    }
}

/// Whether `r` may stand in a cell of a target heap of `len` cells: a frozen
/// target holds only frozen references into itself; a mutable generation
/// holds references into itself or into the frozen heap.
pub open spec fn target_ref_ok(r: Value, len: int, to_frozen: bool) -> bool {
    match r {
        Value::Frozen(k) => !to_frozen || k < len,
        Value::Mutable(k) => !to_frozen && k < len,
    }
}

/// Whether every cell of `t` holds only references allowed in it, and has
/// memory accounting that fits a machine word.
pub open spec fn target_ok(t: Seq<Payload>, to_frozen: bool) -> bool {
    &&& forall|j: int, k: int|
        0 <= j < t.len() && 0 <= k < refs_of(t[j]).len() ==> target_ref_ok(
            #[trigger] refs_of(t[j])[k],
            t.len() as int,
            to_frozen,
        )
    &&& forall|j: int| 0 <= j < t.len() ==> fits(#[trigger] t[j])
}

/// `b` is `a` with at most cell `i` changed.
pub open spec fn same_except(a: Seq<Payload>, b: Seq<Payload>, i: int) -> bool {
    &&& a.len() == b.len()
    &&& forall|j: int| 0 <= j < a.len() && j != i ==> #[trigger] b[j] == a[j]
}

/// The mutable heap of the evaluation phase: an arena of cells, each
/// addressed by its index.
#[derive(Debug)]
pub struct Heap {
    pub cells: Vec<Payload>,
}

/// The immutable heap: once a cell is in it, no operation changes it.
#[derive(Debug)]
pub struct FrozenHeap {
    pub cells: Vec<Payload>,
}

impl FrozenHeap {
    /// The frozen heap is closed: its cells reference only frozen cells.
    pub open spec fn wf(&self) -> bool {
        target_ok(self.cells@, true)
    }

    /// An empty frozen heap.
    pub fn new() -> (r: FrozenHeap)
        ensures
            r.wf(),
            r.cells@.len() == 0,
    {
        FrozenHeap { cells: Vec::new() }
    }

    /// Number of cells.
    pub fn len(&self) -> (r: usize)
        ensures
            r == self.cells@.len(),
    {
        self.cells.len()
    }

    /// Stores a payload whose references are all frozen.
    pub fn allocate(&mut self, p: Payload) -> (r: Value)
        requires
            old(self).wf(),
            fits(p),
            !(p is Tombstone),
            forall|k: int| 0 <= k < refs_of(p).len() ==> target_ref_ok(#[trigger] refs_of(p)[k], old(self).cells@.len() as int, true),
        ensures
            final(self).wf(),
            final(self).cells@ == old(self).cells@.push(p),
            r == Value::Frozen(old(self).cells@.len() as usize),
    {
        let r = Value::Frozen(self.cells.len());
        self.cells.push(p);
        let ghost n = self.cells@.len() as int;
        assert forall|j: int, k: int|
            0 <= j < n && 0 <= k < refs_of(self.cells@[j]).len() implies target_ref_ok(
                #[trigger] refs_of(self.cells@[j])[k],
                n,
                true,
            ) by {
            if j < n - 1 {
                assert(target_ref_ok(refs_of(old(self).cells@[j])[k], n - 1, true));
            }
        }
        r
    }
}

impl Heap {
    /// Every cell's memory accounting fits a machine word and its size,
    /// a tombstone's recorded size included, is aligned.
    pub open spec fn wf(&self) -> bool {
        forall|i: int| 0 <= i < self.cells@.len() ==> fits(#[trigger] self.cells@[i])
    }

    /// An empty mutable heap.
    pub fn new() -> (r: Heap)
        ensures
            r.wf(),
            r.cells@.len() == 0,
    {
        Heap { cells: Vec::new() }
    }

    /// Number of cells.
    pub fn len(&self) -> (r: usize)
        ensures
            r == self.cells@.len(),
    {
        self.cells.len()
    }

    /// Stores a payload in a new cell.
    pub fn allocate(&mut self, p: Payload) -> (r: Value)
        requires
            old(self).wf(),
            fits(p),
            !(p is Tombstone),
        ensures
            final(self).wf(),
            final(self).cells@ == old(self).cells@.push(p),
            r == Value::Mutable(old(self).cells@.len() as usize),
    {
        let r = Value::Mutable(self.cells.len());
        self.cells.push(p);
        r
    }

    /// Sets attribute `name` of the record at `v`. Values of the frozen heap
    /// are immutable; the heap changes only on success.
    pub fn set_attr(&mut self, v: Value, name: &str, new_value: Value) -> (r: Result<(), ValueError>)
        requires
            live_cell(old(self).cells@, Seq::empty(), v),
        ensures
            old(self).wf() ==> final(self).wf(),
            r is Err ==> final(self).cells@ == old(self).cells@,
            v is Frozen ==> r == Err::<(), ValueError>(ValueError::Immutable),
            v is Mutable ==> {
                let i = v->Mutable_0 as int;
                if i >= old(self).cells@.len() {
                    r == Err::<(), ValueError>(ValueError::Dangling)
                } else {
                    match old(self).cells@[i] {
                        Payload::Record(fs) => if exists|k: int| 0 <= k < fs@.len() && #[trigger] fs@[k].name@ == name@ {
                            &&& r is Ok
                            &&& same_except(old(self).cells@, final(self).cells@, i)
                            &&& final(self).cells@[i] is Record
                            &&& exists|k: int| #![trigger fs@[k]]
                                first_field(fs@, name@, k) && final(self).cells@[i]->Record_0@
                                    == fs@.update(k, Field { name: fs@[k].name, value: new_value })
                        } else {
                            r == Err::<(), ValueError>(ValueError::AttributeNotFound)
                        },
                        _ => r == Err::<(), ValueError>(ValueError::Unsupported),
                    }
                }
            },
    {
        let i = match v {
            Value::Frozen(_) => { return Err(ValueError::Immutable); },
            Value::Mutable(i) => i,
        };
        if i >= self.cells.len() {
            return Err(ValueError::Dangling);
        }
        let k = match &self.cells[i] {
            Payload::Record(fs) => match find_field(fs, name) {
                Some(k) => k,
                None => {
                    return Err(ValueError::AttributeNotFound);
                },
            },
            _ => { return Err(ValueError::Unsupported); },
        };
        let mut cell = Payload::NoneValue;
        self.cells.set_and_swap(i, &mut cell);
        if let Payload::Record(mut fs) = cell {
            let mut f = Field { name: String::new(), value: new_value };
            fs.set_and_swap(k, &mut f);
            f.value = new_value;
            fs.set_and_swap(k, &mut f);
            let mut back = Payload::Record(fs);
            self.cells.set_and_swap(i, &mut back);
        }
        Ok(())
    }
}

impl Heap {
    /// Sets element `index` of the list at `v`; a negative index counts from
    /// the end. Values of the frozen heap are immutable; the heap changes
    /// only on success.
    pub fn set_at(&mut self, v: Value, index: i64, new_value: Value) -> (r: Result<(), ValueError>)
        requires
            live_cell(old(self).cells@, Seq::empty(), v),
        ensures
            old(self).wf() ==> final(self).wf(),
            r is Err ==> final(self).cells@ == old(self).cells@,
            v is Frozen ==> r == Err::<(), ValueError>(ValueError::Immutable),
            v is Mutable ==> {
                let i = v->Mutable_0 as int;
                if i >= old(self).cells@.len() {
                    r == Err::<(), ValueError>(ValueError::Dangling)
                } else {
                    match old(self).cells@[i] {
                        Payload::List(xs) => {
                            let k = if index < 0 { xs@.len() + index } else { index as int };
                            if 0 <= k < xs@.len() {
                                &&& r is Ok
                                &&& same_except(old(self).cells@, final(self).cells@, i)
                                &&& final(self).cells@[i] is List
                                &&& final(self).cells@[i]->List_0@ == xs@.update(k, new_value)
                            } else {
                                r == Err::<(), ValueError>(ValueError::IndexOutOfRange)
                            }
                        },
                        _ => r == Err::<(), ValueError>(ValueError::Unsupported),
                    }
                }
            },
    {
        let i = match v {
            Value::Frozen(_) => { return Err(ValueError::Immutable); },
            Value::Mutable(i) => i,
        };
        if i >= self.cells.len() {
            return Err(ValueError::Dangling);
        }
        let k = match &self.cells[i] {
            Payload::List(xs) => {
                let len = xs.len();
                if index >= 0 {
                    if (index as u64) < (len as u64) {
                        index as usize
                    } else {
                        return Err(ValueError::IndexOutOfRange);
                    }
                } else {
                    let back: u64 = (0i128 - index as i128) as u64;
                    if back <= len as u64 {
                        len - back as usize
                    } else {
                        return Err(ValueError::IndexOutOfRange);
                    }
                }
            },
            _ => { return Err(ValueError::Unsupported); },
        };
        let mut cell = Payload::NoneValue;
        self.cells.set_and_swap(i, &mut cell);
        if let Payload::List(mut xs) = cell {
            xs.set(k, new_value);
            let mut back = Payload::List(xs);
            self.cells.set_and_swap(i, &mut back);
        }
        Ok(())
    }
}

/// The handle of the cell that `v` references; `Dangling` when there is no
/// such cell.
pub fn value_dyn<'a>(heap: &'a Heap, frozen: &'a FrozenHeap, tables: &'a VTables, v: Value) -> (r: Result<AValueDyn<'a>, ValueError>)
    requires
        tables.wf(),
    ensures
        match v {
            Value::Mutable(i) => if i < heap.cells@.len() {
                r is Ok && r->Ok_0.wf() && *r->Ok_0.value == heap.cells@[i as int]
            } else {
                r is Err && r->Err_0 == ValueError::Dangling
            },
            Value::Frozen(j) => if j < frozen.cells@.len() {
                r is Ok && r->Ok_0.wf() && *r->Ok_0.value == frozen.cells@[j as int]
            } else {
                r is Err && r->Err_0 == ValueError::Dangling
            },
        },
{
    match v {
        Value::Mutable(i) => if i < heap.cells.len() {
            Ok(AValueDyn::new(&heap.cells[i], tables))
        } else {
            Err(ValueError::Dangling)
        },
        Value::Frozen(j) => if j < frozen.cells.len() {
            Ok(AValueDyn::new(&frozen.cells[j], tables))
        } else {
            Err(ValueError::Dangling)
        },
    }
}

} // verus!

verus! {

/// The payload that `v` references, if there is such a cell.
pub open spec fn cell_of(heap: Seq<Payload>, frozen: Seq<Payload>, v: Value) -> Option<Payload> {
    match v {
        Value::Mutable(i) => if i < heap.len() { Some(heap[i as int]) } else { None },
        Value::Frozen(j) => if j < frozen.len() { Some(frozen[j as int]) } else { None },
    }
}

/// Whether `v` references no tombstone: every value operation asks this
/// of its operands, since reaching a migrated cell is an internal
/// invariant violation.
pub open spec fn live_cell(heap: Seq<Payload>, frozen: Seq<Payload>, v: Value) -> bool {
    cell_of(heap, frozen, v) matches Some(p) ==> !(p is Tombstone)
}

/// Whether byte string `n` occurs in `h` at position `i`.
pub open spec fn occurs_at(h: Seq<u8>, n: Seq<u8>, i: int) -> bool {
    0 <= i && i + n.len() <= h.len() && h.subrange(i, i + n.len()) == n
}

fn occurs_at_exec(h: &[u8], n: &[u8], i: usize) -> (r: bool)
    requires
        i + n@.len() <= h@.len(),
    ensures
        r == occurs_at(h@, n@, i as int),
{
    let hl = h.len();
    let mut k: usize = 0;
    while k < n.len()
        invariant
            i + n@.len() <= h@.len(),
            h@.len() == hl,
            k <= n@.len(),
            forall|q: int| 0 <= q < k ==> h@[i + q] == n@[q],
        decreases n@.len() - k,
    {
        if h[i + k] != n[k] {
            assert(h@.subrange(i as int, i + n@.len())[k as int] != n@[k as int]);
            return false;
        }
        k = k + 1;
    }
    assert(h@.subrange(i as int, i + n@.len()) =~= n@);
    true
}

/// Whether byte string `n` occurs anywhere in `h`.
fn find_bytes(h: &[u8], n: &[u8]) -> (r: bool)
    ensures
        r == exists|i: int| #[trigger] occurs_at(h@, n@, i),
{
    if n.len() > h.len() {
        return false;
    }
    let last = h.len() - n.len();
    let mut i: usize = 0;
    loop
        invariant
            last == h@.len() - n@.len(),
            i <= last,
            forall|q: int| 0 <= q < i ==> !#[trigger] occurs_at(h@, n@, q),
        decreases last - i,
    {
        if occurs_at_exec(h, n, i) {
            return true;
        }
        if i == last {
            return false;
        }
        i = i + 1;
    }
}

/// Whether `needle` is in `collection`: a substring of a string, or equal
/// to an element of a list.
pub fn contains(heap: &Heap, frozen: &FrozenHeap, tables: &VTables, collection: Value, needle: Value) -> (r: Result<bool, ValueError>)
    requires
        tables.wf(),
        live_cell(heap.cells@, frozen.cells@, collection),
        live_cell(heap.cells@, frozen.cells@, needle),
        cell_of(heap.cells@, frozen.cells@, collection) matches Some(Payload::List(xs)) ==> forall|k: int|
            0 <= k < xs@.len() ==> live_cell(heap.cells@, frozen.cells@, #[trigger] xs@[k]),
    ensures
        match (cell_of(heap.cells@, frozen.cells@, collection), cell_of(heap.cells@, frozen.cells@, needle)) {
            (Some(c), Some(x)) => match (c, x) {
                (Payload::Str(s), Payload::Str(t)) => r == Ok::<bool, ValueError>(
                    exists|i: int| #[trigger] occurs_at(str_bytes(s), str_bytes(t), i),
                ),
                (Payload::List(xs), _) => {
                    let found = exists|k: int|
                        0 <= k < xs@.len() && #[trigger] cell_of(heap.cells@, frozen.cells@, xs@[k]) is Some
                            && values_equal(cell_of(heap.cells@, frozen.cells@, xs@[k])->Some_0, x);
                    let broken = exists|k: int|
                        0 <= k < xs@.len() && #[trigger] cell_of(heap.cells@, frozen.cells@, xs@[k]) is None;
                    &&& r == Ok::<bool, ValueError>(true) ==> found
                    &&& r == Ok::<bool, ValueError>(false) ==> !found && !broken
                    &&& r is Err ==> broken && r->Err_0 == ValueError::Dangling
                    &&& !broken ==> r == Ok::<bool, ValueError>(found)
                },
                _ => r == Err::<bool, ValueError>(ValueError::Unsupported),
            },
            _ => r == Err::<bool, ValueError>(ValueError::Dangling),
        },
{
    let c = match value_dyn(heap, frozen, tables, collection) {
        Ok(c) => c,
        Err(e) => { return Err(e); },
    };
    let x = match value_dyn(heap, frozen, tables, needle) {
        Ok(x) => x,
        Err(e) => { return Err(e); },
    };
    match (c.value, x.value) {
        (Payload::Str(s), Payload::Str(t)) => {
            let hb = s.as_str().as_bytes();
            let nb = t.as_str().as_bytes();
            assert(hb@ == str_bytes(*s));
            assert(nb@ == str_bytes(*t));
            Ok(find_bytes(hb, nb))
        },
        (Payload::List(xs), _) => {
            let mut k: usize = 0;
            while k < xs.len()
                invariant
                    k <= xs@.len(),
                    cell_of(heap.cells@, frozen.cells@, needle) == Some(*x.value),
                    cell_of(heap.cells@, frozen.cells@, collection) == Some(*c.value),
                    *c.value == Payload::List(*xs),
                    !(*x.value is Tombstone),
                    x.wf(),
                    tables.wf(),
                    forall|q: int| 0 <= q < xs@.len() ==> live_cell(heap.cells@, frozen.cells@, #[trigger] xs@[q]),
                    forall|q: int| 0 <= q < k ==> #[trigger] cell_of(heap.cells@, frozen.cells@, xs@[q]) is Some
                        && !(cell_of(heap.cells@, frozen.cells@, xs@[q])->Some_0 is Tombstone)
                        && !values_equal(cell_of(heap.cells@, frozen.cells@, xs@[q])->Some_0, *x.value),
                decreases xs@.len() - k,
            {
                let e = match value_dyn(heap, frozen, tables, xs[k]) {
                    Ok(e) => e,
                    Err(err) => {
                        assert(cell_of(heap.cells@, frozen.cells@, xs@[k as int]) is None);
                        return Err(err);
                    },
                };
                assert(cell_of(heap.cells@, frozen.cells@, xs@[k as int]) == Some(*e.value));
                assert(live_cell(heap.cells@, frozen.cells@, xs@[k as int]));
                match e.equals(x) {
                    Ok(true) => {
                        assert(values_equal(cell_of(heap.cells@, frozen.cells@, xs@[k as int])->Some_0, *x.value));
                        return Ok(true);
                    },
                    Ok(false) => {},
                    Err(err) => {
                        return Err(err);
                    },
                }
                k = k + 1;
            }
            Ok(false)
        },
        _ => Err(ValueError::Unsupported),
    }
}

} // verus!
